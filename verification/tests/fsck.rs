use ingot::fsck::{
    cache_entries, check, may_repair, record_blob_refs, repair as mended, repair_step, short, try_evict,
    DiskEntry, FsckReport, Mend, MendOutcome, RecordFile, StoreSnapshot, StoredImage,
};
use ingot::store::ImageRecord;
use ingot::table::Table;

fn record(id: &str, blobs: &[&str], layers: &[&str]) -> ImageRecord {
    ImageRecord {
        id: id.to_string(),
        layer_blobs: blobs.iter().map(|s| s.to_string()).collect(),
        diff_ids: layers.iter().map(|s| s.to_string()).collect(),
        repo_tags: vec!["test:latest".to_string()],
        ..Default::default()
    }
}

fn empty() -> StoreSnapshot {
    StoreSnapshot {
        tags: Table::new(),
        cache_text: String::new(),
        images: vec![],
        blobs: vec![],
        layers: vec![],
    }
}

fn blob(s: &mut StoreSnapshot, name: &str) {
    let name = name.strip_prefix("sha256:").unwrap_or(name);
    s.blobs.push(DiskEntry {
        name: name.to_string(),
        path: format!("/data/blobs/{name}"),
        is_file: true,
    });
}

fn layer(s: &mut StoreSnapshot, name: &str) {
    let name = name.strip_prefix("sha256:").unwrap_or(name);
    s.layers.push(DiskEntry {
        name: name.to_string(),
        path: format!("/data/layers/{name}"),
        is_file: false,
    });
}

fn file(s: &mut StoreSnapshot, rec: ImageRecord) {
    s.images.push(StoredImage {
        name: format!("{}.json", rec.id),
        content: RecordFile::Record(rec),
    });
}

fn write_record(s: &mut StoreSnapshot, rec: ImageRecord) {
    // The config lives under the record id.
    blob(s, &rec.id);
    for b in &rec.layer_blobs {
        blob(s, b);
    }
    for d in &rec.diff_ids {
        layer(s, d);
    }
    for t in &rec.repo_tags {
        s.tags.insert(t.clone(), rec.id.clone());
    }
    file(s, rec);
}

/// Does what can be done about one finding.
fn mend(s: &mut StoreSnapshot, e: &str) -> MendOutcome {
    match repair_step(e) {
        Mend::RemoveFile(p) => {
            s.blobs.retain(|b| b.path != p);
            MendOutcome::Done
        }
        Mend::DropTag(t) => {
            if s.tags.remove(&t) {
                MendOutcome::Done
            } else {
                MendOutcome::Nothing
            }
        }
        Mend::Evict { file, tag } => {
            for i in s.images.iter_mut().filter(|i| i.name == file) {
                if let RecordFile::Record(r) = &mut i.content {
                    if let Some(v) = try_evict(&r.repo_tags, &tag) {
                        r.repo_tags = v;
                        return MendOutcome::Done;
                    }
                }
            }
            MendOutcome::Nothing
        }
        Mend::Keep => MendOutcome::Nothing,
    }
}

fn repair(s: &mut StoreSnapshot) -> FsckReport {
    let found = check(s);
    let outcomes = found.errors.iter().map(|e| mend(s, e)).collect();
    mended(found, &outcomes)
}

fn has_blob(s: &StoreSnapshot, name: &str) -> bool {
    s.blobs.iter().any(|b| b.name == name)
}

fn tags_of(s: &StoreSnapshot, id: &str) -> Vec<String> {
    for i in &s.images {
        if let RecordFile::Record(r) = &i.content {
            if r.id == id {
                return r.repo_tags.clone();
            }
        }
    }
    panic!("no record {id}")
}

#[test]
fn clean_store_passes() {
    let mut s = empty();
    write_record(&mut s, record("abc", &["sha256:b1"], &["sha256:d1"]));
    let rep = check(&s);
    assert!(rep.clean(), "{:?}", rep.errors);
    assert_eq!(rep.images_checked, 1);
    // Config (rooted by record id) + one layer blob.
    assert_eq!(rep.blobs_referenced, 2);
}

#[test]
fn config_blob_is_rooted_not_orphan() {
    // The config must survive check+repair while a true orphan is still
    // collected.
    let mut s = empty();
    write_record(&mut s, record("abc", &["sha256:b1"], &["sha256:d1"]));
    blob(&mut s, "sha256:orphan");
    let rep = check(&s);
    assert_eq!(rep.errors.len(), 1, "{:?}", rep.errors);
    assert!(rep.errors[0].contains("unreferenced blob"));
    assert!(rep.errors[0].contains("orphan"));
    let rep = repair(&mut s);
    assert!(rep.clean(), "{:?}", rep.errors);
    assert!(has_blob(&s, "abc"), "live config blob was deleted");
    assert!(has_blob(&s, "b1"));
    assert!(!has_blob(&s, "orphan"));
}

#[test]
fn missing_config_blob_reported_not_removed() {
    // A record whose config blob is gone is reported (never silently
    // fixed): repair must leave the record alone.
    let mut s = empty();
    let rec = record("abc", &["sha256:b1"], &["sha256:d1"]);
    blob(&mut s, "sha256:b1");
    layer(&mut s, "sha256:d1");
    file(&mut s, rec);
    let rep = check(&s);
    assert!(rep.errors.iter().any(|e| e.contains("missing config blob")));
    let rep = repair(&mut s);
    assert!(rep.errors.iter().any(|e| e.contains("missing config blob")));
    assert_eq!(s.images.len(), 1);
}

#[test]
fn missing_blob_and_layer_reported() {
    let mut s = empty();
    file(&mut s, record("abc", &["sha256:gone"], &["sha256:nodir"]));
    let rep = check(&s);
    assert!(!rep.clean());
    assert!(rep.errors.iter().any(|e| e.contains("missing blob")));
    assert!(rep.errors.iter().any(|e| e.contains("missing layer")));
}

#[test]
fn unpacked_dir_satisfies_builder_layer_blob() {
    // Builder base layers have no blob file (content lives unpacked
    // under layers/<diff_id>); that must not flag "missing blob".
    let mut s = empty();
    let mut rec = record("abc", &["sha256:d1"], &["sha256:d1"]);
    rec.repo_tags = Vec::new();
    blob(&mut s, "abc");
    layer(&mut s, "sha256:d1");
    file(&mut s, rec);
    let rep = check(&s);
    assert!(rep.clean(), "{:?}", rep.errors);
}

#[test]
fn stale_embed_reported_and_repaired() {
    // Two records embed the same tag but the index names only the new
    // holder: the old copy is stale and repair evicts it (the record
    // itself stays, now dangling and prunable).
    let mut s = empty();
    let mut old = record("old", &["sha256:b1"], &["sha256:d1"]);
    old.repo_tags = vec!["t:1".to_string()];
    let mut new = record("new", &["sha256:b1"], &["sha256:d1"]);
    new.repo_tags = vec!["t:1".to_string()];
    write_record(&mut s, old);
    file(&mut s, new);
    blob(&mut s, "new");
    s.tags.insert("t:1".to_string(), "new".to_string());
    let rep = check(&s);
    assert!(rep.errors.iter().any(|e| e.contains("stale embedded tag t:1")));
    let rep = repair(&mut s);
    assert!(rep.clean(), "{:?}", rep.errors);
    assert!(rep.fixed.iter().any(|f| f.contains("evicted stale tag t:1")));
    assert!(tags_of(&s, "old").is_empty());
    // Second repair is a no-op: nothing left to evict.
    let rep = repair(&mut s);
    assert!(rep.clean(), "{:?}", rep.errors);
    assert!(rep.fixed.is_empty());
}

#[test]
fn index_missing_tag_reported_not_trimmed() {
    // An embedded tag the index lacks is ambiguous (tag-crash vs
    // untag-crash remnant): report it, never trim it.
    let mut s = empty();
    let mut rec = record("abc", &["sha256:b1"], &["sha256:d1"]);
    rec.repo_tags = vec!["ghost:1".to_string()];
    write_record(&mut s, rec);
    s.tags = Table::new();
    let rep = check(&s);
    assert!(rep.errors.iter().any(|e| e.contains("missing from index")));
    let rep = repair(&mut s);
    assert!(rep.errors.iter().any(|e| e.contains("missing from index")));
    assert_eq!(tags_of(&s, "abc"), vec!["ghost:1".to_string()]);
}

#[test]
fn cache_entries_root_blobs() {
    // Multi-stage intermediates live in the build cache by design:
    // new entries root by blob digest, legacy ones by diff id. Only
    // a blob neither records nor the cache need is an orphan.
    let mut s = empty();
    s.cache_text = r#"{"run-legacy":{"diff_id":"sha256:d2"},"run-new":{"blob_digest":"sha256:b1","diff_id":"sha256:d1"}}"#.to_string();
    let entries = cache_entries(&s.cache_text);
    assert_eq!(entries.len(), 2);
    assert_eq!(entries[0].blob_digest, None);
    assert_eq!(entries[0].diff_id.as_deref(), Some("sha256:d2"));
    assert_eq!(entries[1].blob_digest.as_deref(), Some("sha256:b1"));
    assert!(cache_entries("[1]").is_empty());
    assert!(cache_entries("no JSON").is_empty());
    for f in ["b1", "d2", "orphan"] {
        blob(&mut s, f);
    }
    let rep = check(&s);
    assert_eq!(rep.errors.len(), 1, "{:?}", rep.errors);
    assert!(rep.errors[0].contains("orphan"));
}

#[test]
fn corrupt_record_reported() {
    let mut s = empty();
    s.images.push(StoredImage {
        name: "bad.json".to_string(),
        content: RecordFile::Invalid("expected a key".to_string()),
    });
    let rep = check(&s);
    assert!(rep.errors.iter().any(|e| e.contains("invalid record")));
}

#[test]
fn orphans_and_parts_repaired() {
    let mut s = empty();
    write_record(&mut s, record("abc", &["sha256:b1"], &["sha256:d1"]));
    blob(&mut s, "sha256:orphan");
    blob(&mut s, "left.part");
    let rep = check(&s);
    assert!(rep.errors.iter().any(|e| e.contains("unreferenced blob")));
    assert!(rep.errors.iter().any(|e| e.contains("stale partial")));
    let rep = repair(&mut s);
    assert!(rep.clean(), "{:?}", rep.errors);
    assert_eq!(rep.fixed.len(), 2);
    assert!(!has_blob(&s, "orphan"));
}

#[test]
fn dangling_tag_dropped_on_repair() {
    let mut s = empty();
    write_record(&mut s, record("abc", &["sha256:b1"], &["sha256:d1"]));
    s.tags.insert("gone:t".to_string(), "nope".to_string());
    let rep = repair(&mut s);
    assert!(rep.clean(), "{:?}", rep.errors);
    assert!(rep.fixed.iter().any(|f| f.contains("gone:t")));
    assert!(!s.tags.contains_key("gone:t"));
}

#[test]
fn repair_refuses_live_daemon() {
    assert!(may_repair(true).is_err());
    assert!(may_repair(false).is_ok());
}

#[test]
fn digests_are_shown_without_their_algorithm() {
    assert_eq!(short("sha256:abc"), "abc");
    assert_eq!(record_blob_refs(&record("sha256:i", &["sha256:b"], &[])), vec!["i", "b"]);
}

#[test]
fn mended_findings_move_to_the_fixed_ones() {
    let found = FsckReport {
        images_checked: 3,
        blobs_referenced: 5,
        errors: vec![
            "unreferenced blob /d/blobs/x".to_string(),
            "stale partial download /d/blobs/y.part".to_string(),
            "tags.json: a:1 points at missing image gone".to_string(),
            "tags.json: b:1 points at missing image gone".to_string(),
            "images/old.json: stale embedded tag t:1 (index points at new)".to_string(),
            "images/old.json: stale embedded tag t:2 (index points at new)".to_string(),
            "unreferenced layer /d/layers/z".to_string(),
        ],
        fixed: Vec::new(),
    };
    let outcomes = vec![
        MendOutcome::Done,
        MendOutcome::Failed("denied".to_string()),
        MendOutcome::Done,
        MendOutcome::Failed("full".to_string()),
        MendOutcome::Done,
        MendOutcome::Nothing,
        MendOutcome::Nothing,
    ];
    let rep = mended(found, &outcomes);
    assert_eq!(rep.images_checked, 3);
    assert_eq!(rep.blobs_referenced, 5);
    assert_eq!(
        rep.fixed,
        vec![
            "removed /d/blobs/x".to_string(),
            "dropped dangling tag a:1".to_string(),
            "evicted stale tag t:1 from images/old.json".to_string(),
        ]
    );
    assert_eq!(
        rep.errors,
        vec![
            "stale partial download /d/blobs/y.part (remove failed: denied)".to_string(),
            "tags.json: b:1 points at missing image gone (tag drop failed: full)".to_string(),
            "images/old.json: stale embedded tag t:2 (index points at new)".to_string(),
            "unreferenced layer /d/layers/z".to_string(),
        ]
    );
}

#[test]
fn notes_beside_the_layers_are_no_layers() {
    let mut s = empty();
    write_record(&mut s, record("abc", &["sha256:b1"], &["sha256:d1"]));
    assert!(check(&s).clean());
    layer(&mut s, ".by-blob");
    s.layers.push(DiskEntry {
        name: "readme".to_string(),
        path: "/data/layers/readme".to_string(),
        is_file: true,
    });
    assert!(check(&s).clean(), "{:?}", check(&s).errors);
    layer(&mut s, "sha256:d2");
    assert_eq!(check(&s).errors, vec!["unreferenced layer /data/layers/d2".to_string()]);
}

#[test]
fn a_second_repair_mends_nothing() {
    let mut s = empty();
    write_record(&mut s, record("one", &["b1"], &["l1"]));
    file(&mut s, record("two", &["b2"], &["l2"]));
    s.tags.insert("lost:1".to_string(), "nobody".to_string());
    blob(&mut s, "orphan");
    blob(&mut s, "half.part");
    let first = repair(&mut s);
    assert_eq!(first.fixed.len(), 4, "{:?}", first.fixed);
    assert!(tags_of(&s, "two").is_empty());
    assert!(has_blob(&s, "one") && has_blob(&s, "b1"));
    let second = repair(&mut s);
    assert!(second.fixed.is_empty(), "{:?}", second.fixed);
    assert_eq!(second.errors, first.errors);
}
