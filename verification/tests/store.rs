use ingot::encode::sha256_hex;
use ingot::store::{tags_in, ImageRecord, ImageStore};
use ingot::table::Table;

fn store() -> ImageStore {
    ImageStore::new(Table::new())
}

fn record(id: &str, tags: &[&str]) -> ImageRecord {
    ImageRecord {
        id: id.to_string(),
        repo_tags: tags.iter().map(|s| s.to_string()).collect(),
        ..Default::default()
    }
}

#[test]
fn put_steals_tag_and_evicts_stale_embed() {
    let mut store = store();
    store.put_image(record("aaa", &["x:latest"])).unwrap();
    // Same tag on a new record: index moves, old embed evicted.
    store.put_image(record("bbb", &["x:latest"])).unwrap();
    assert_eq!(store.resolve("x:latest").unwrap(), "bbb");
    let old = store.load("aaa").unwrap().unwrap();
    assert!(old.repo_tags.is_empty(), "{:?}", old.repo_tags);
    let new = store.load("bbb").unwrap().unwrap();
    assert_eq!(new.repo_tags, vec!["x:latest".to_string()]);
}

#[test]
fn remove_by_id_keeps_stolen_tag() {
    let mut store = store();
    store.put_image(record("aaa", &["x:latest"])).unwrap();
    store.put_image(record("bbb", &["x:latest"])).unwrap();
    // A record from before its tag moved still names it; removing that
    // record by id must not take the tag from the one that has it now.
    store.adopt(record("aaa", &["x:latest"]));
    store.remove_image("aaa", None).unwrap();
    assert_eq!(store.resolve("x:latest").unwrap(), "bbb");
}

#[test]
fn merged_put_preserves_digests() {
    let mut store = store();
    let mut pulled = record("aaa", &["x:latest"]);
    pulled.manifest_digest = "sha256:m".to_string();
    pulled.repo_digests = vec!["x@sha256:m".to_string()];
    store.put_image_merged(pulled).unwrap();
    // A load round-trip carries tags but no digests: merge keeps them.
    let mut loaded = record("aaa", &["x:latest", "y:1"]);
    loaded.repo_digests = Vec::new();
    store.put_image_merged(loaded).unwrap();
    let back = store.load("aaa").unwrap().unwrap();
    assert_eq!(back.manifest_digest, "sha256:m");
    assert_eq!(back.repo_digests, vec!["x@sha256:m".to_string()]);
    assert!(back.repo_tags.contains(&"y:1".to_string()));
}

#[test]
fn list_effective_hides_stale_embeds() {
    let mut store = store();
    store.put_image(record("aaa", &["x:latest"])).unwrap();
    store.put_image(record("bbb", &["x:latest"])).unwrap();
    // A stale copy on the old holder.
    store.adopt(record("aaa", &["x:latest"]));
    let listed = store.list_effective();
    let a = listed.iter().find(|r| r.0.id == "aaa").unwrap();
    let b = listed.iter().find(|r| r.0.id == "bbb").unwrap();
    assert!(a.1.is_empty(), "{:?}", a.1);
    assert_eq!(b.1, vec!["x:latest".to_string()]);
    assert!(store.effective_tags("aaa", &vec!["x:latest".to_string()]).is_empty());
}

fn layered(id: &str, tags: &[&str], blobs: &[&str], diffs: &[&str]) -> ImageRecord {
    ImageRecord {
        layer_blobs: blobs.iter().map(|s| s.to_string()).collect(),
        diff_ids: diffs.iter().map(|s| s.to_string()).collect(),
        ..record(id, tags)
    }
}

#[test]
fn gc_replaced_layers_keeps_shared() {
    let mut store = store();
    let old_blobs = ["b-old", "b-shared", "b-solo"];
    let old_diffs = ["d-old", "d-shared", "d-solo"];
    // A third record still roots the old blob and dir.
    store.put_image(layered("aaa", &[], &old_blobs, &old_diffs)).unwrap();
    store.put_image(layered("ccc", &[], &["b-old"], &["d-old"])).unwrap();
    store.put_image(layered("aaa", &[], &["b-new", "b-shared"], &["d-new", "d-shared"])).unwrap();
    let (layers, blobs) = store.gc_replaced_layers(
        &old_diffs.iter().map(|s| s.to_string()).collect(),
        &old_blobs.iter().map(|s| s.to_string()).collect(),
    );
    // Referenced nowhere else: collected. Shared with the new revision or
    // the third record: kept.
    assert_eq!(blobs, vec!["b-solo"]);
    assert_eq!(layers, vec!["d-solo"]);
    // Dropping the third record releases its pair through the
    // deletion path, composing with the replace path above.
    let g = store.remove_image("ccc", None).unwrap().garbage.unwrap();
    assert_eq!(g.blobs, vec!["b-old"]);
    assert_eq!(g.layers, vec!["d-old"]);
}

#[test]
fn remove_image_keeps_shared_layers() {
    // Two records share one layer; deleting one record must not collect
    // the shared blob or dir.
    let mut store = store();
    store.put_image(layered("aaa", &[], &["b-shared"], &["d-shared"])).unwrap();
    store.put_image(layered("bbb", &["t:1"], &["b-shared"], &["d-shared"])).unwrap();
    let g = store.remove_image("bbb", None).unwrap().garbage.unwrap();
    assert!(g.blobs.is_empty(), "shared blob collected");
    assert!(g.layers.is_empty(), "shared dir collected");
    assert_eq!(g.config, Some("bbb".to_string()));
    assert!(store.load("aaa").unwrap().is_some());
}

#[test]
fn resolve_digest_ref() {
    let mut store = store();
    let mut r = record("aaa", &[]);
    r.repo_digests = vec!["busybox@sha256:m".to_string()];
    store.put_image(r).unwrap();
    assert_eq!(store.resolve("busybox@sha256:m").unwrap(), "aaa");
    assert!(store.resolve("busybox@sha256:other").is_err());
}

#[test]
fn chain_ids_align_with_diffs() {
    let ids = vec!["sha256:a".into(), "sha256:b".into()];
    let chains = ImageRecord::compute_chain_ids(&ids);
    assert_eq!(chains.len(), 2);
    assert_eq!(chains[0], "sha256:a");
    assert_eq!(chains[1], format!("sha256:{}", sha256_hex(b"sha256:a sha256:b")));
}

#[test]
fn a_tag_goes_before_its_image() {
    let mut store = store();
    store.put_image(record("aaa", &["x:1", "x:2"])).unwrap();
    let first = store.remove_image("aaa", Some("x:1")).unwrap();
    assert_eq!(first.tags, vec!["x:2".to_string()]);
    assert!(first.garbage.is_none());
    assert!(store.load("aaa").unwrap().is_some());
    let last = store.remove_image("aaa", Some("x:2")).unwrap();
    assert!(last.garbage.is_some());
    assert!(store.load("aaa").unwrap().is_none());
    assert!(store.remove_image("aaa", None).is_err());
}

#[test]
fn tags_are_added_to_known_images() {
    let mut store = store();
    store.put_image(record("aaa", &[])).unwrap();
    assert!(store.tag("aaa", "new:1").is_ok());
    assert_eq!(store.resolve("new:1").unwrap(), "aaa");
    assert_eq!(store.tag("zzz", "new:1"), Err("no such image: zzz".to_string()));
}

#[test]
fn layers_lie_the_lowest_first() {
    let v = ImageStore::lowerdirs(&vec!["sha256:a".to_string(), "sha256:b".to_string()]);
    assert_eq!(v, vec!["a", "b"]);
}

#[test]
fn all_tags_are_given() {
    let mut tags = Table::new();
    tags.insert("a:1".to_string(), "id".to_string());
    let all = ImageStore::new(tags).all_tags();
    assert_eq!(all.entries, vec![("a:1".to_string(), "id".to_string())]);
}

#[test]
fn files_without_their_record_are_still_found() {
    let mut store = store();
    let (stray, other) = ("a".repeat(64), "b".repeat(64));
    store.put_image(record(&other, &["x:1"])).unwrap();
    store.note_stray(&stray, "expected value");
    store.note_stray(&other, "never mind");
    assert_eq!(store.resolve(&stray).unwrap(), stray);
    assert_eq!(store.resolve(&format!("sha256:{}", &stray[..12])).unwrap(), stray);
    assert_eq!(store.load(&stray).unwrap_err(), "expected value");
    assert!(store.load(&other).unwrap().is_some());
    assert_eq!(store.tag(&stray, "y:1").unwrap_err(), "expected value");
    assert_eq!(store.remove_image(&stray, None).err().unwrap(), "expected value");
    assert_eq!(store.put_image_merged(record(&stray, &[])).unwrap_err(), "expected value");
    // A tag whose present record cannot be read stays where it is.
    store.tags.insert("z:1".to_string(), stray.clone());
    let claims = record("ccc", &["x:1", "z:1"]);
    assert_eq!(store.put_image(claims).unwrap_err(), "expected value");
    assert_eq!(store.resolve("z:1").unwrap(), stray);
    assert_eq!(store.resolve("x:1").unwrap(), other);
    assert!(store.load(&other).unwrap().unwrap().repo_tags.is_empty());
    // A record under that id takes the file's place.
    store.put_image(record(&stray, &["z:1"])).unwrap();
    assert!(store.load(&stray).unwrap().is_some());
}

#[test]
fn the_index_is_an_object_of_strings() {
    let t = tags_in(br#"{"b/c~d:1":"x","a:1":"y"}"#);
    assert_eq!(t.get("b/c~d:1").map(|s| s.as_str()), Some("x"));
    assert_eq!(t.get("a:1").map(|s| s.as_str()), Some("y"));
    assert!(tags_in(br#"{"a:1":"y","b:1":2}"#).entries.is_empty());
    assert!(tags_in(b"[]").entries.is_empty());
    assert!(tags_in(b"").entries.is_empty());
}

#[test]
fn files_are_taken_in_by_their_names() {
    let mut store = store();
    store.take_file("tags.json", Err("no record".to_string()));
    store.take_file("notes.txt", Err("no record".to_string()));
    store.take_file("aaa.json", Ok(record("aaa", &["x:1"])));
    store.take_file("bad.json", Err("damaged".to_string()));
    store.take_file("moved.json", Ok(record("bbb", &[])));
    store.take_file("copy.json", Ok(record("aaa", &["y:1"])));
    assert_eq!(store.records.entries.len(), 2);
    assert_eq!(store.load("aaa").unwrap().unwrap().repo_tags, vec!["x:1".to_string()]);
    assert!(store.load("bbb").unwrap().is_some());
    assert_eq!(store.load("bad").unwrap_err(), "damaged");
    assert_eq!(store.load("moved").unwrap_err(), "moved.json holds the record of bbb");
    assert!(store.load("tags").unwrap().is_none());
}
