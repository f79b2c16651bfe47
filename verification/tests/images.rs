use ingot::api::image::ProgressMessage;
use ingot::pull::{
    check_rootfs, layer_begins, layer_progress, layers_total, parse_rfc3339_or_zero,
    pull_begins, pull_complete, pull_ends, pulled, pulled_size, to_container_config,
    to_history, OciHistory, OciImageConfig, OciRootFs, OciRuntimeConfig,
};
use ingot::pushing::{
    abbreviate, build_push_manifest, push_begins, push_done, push_preparing, push_sent, push_tag,
    push_total, sniff_layer_media, PushedLayer, PUSH_MANIFEST_MEDIA_TYPE,
};
use ingot::reference::ImageRef;
use ingot::registry::{Descriptor, PlatformManifest};
use ingot::unpack::{
    cached_diff, check_compressed, check_unpacked, entry_kind, link_stays_inside, packing_of,
    stays_inside, Budget, EntryKind, Packing, MAX_COMPRESSED_BYTES, MAX_EXTRACTED_BYTES,
};

#[test]
fn layer_media_sniffing() {
    assert_eq!(
        sniff_layer_media(&[0x1f, 0x8b, 0x08, 0x00]),
        "application/vnd.oci.image.layer.v1.tar+gzip"
    );
    assert_eq!(
        sniff_layer_media(&[0x28, 0xb5, 0x2f, 0xfd]),
        "application/vnd.oci.image.layer.v1.tar+zstd"
    );
    assert_eq!(sniff_layer_media(b"ustar"), "application/vnd.oci.image.layer.v1.tar");
    assert_eq!(sniff_layer_media(&[]), "application/vnd.oci.image.layer.v1.tar");
    assert_eq!(sniff_layer_media(&[0x1f]), "application/vnd.oci.image.layer.v1.tar");
}

fn pushed(digest: &str, size: u64, magic: &[u8]) -> PushedLayer {
    PushedLayer { digest: digest.to_string(), size, magic: magic.to_vec() }
}

#[test]
fn manifest_body_shapes() {
    let gz = [0x1f, 0x8b, 0x08, 0x00, 0x01];
    let body = build_push_manifest(
        "sha256:cc",
        42,
        &vec![pushed("sha256:aa", 5, &gz), pushed("sha256:bb", 15, b"plain-tar-bytes")],
    );
    let v: serde_json::Value = serde_json::from_str(&body).unwrap();
    assert_eq!(v["schemaVersion"], 2);
    assert_eq!(v["mediaType"], PUSH_MANIFEST_MEDIA_TYPE);
    assert_eq!(v["config"]["digest"], "sha256:cc");
    assert_eq!(v["config"]["size"], 42);
    assert_eq!(
        v["layers"][0]["mediaType"],
        "application/vnd.oci.image.layer.v1.tar+gzip"
    );
    assert_eq!(v["layers"][0]["digest"], "sha256:aa");
    assert_eq!(v["layers"][1]["mediaType"], "application/vnd.oci.image.layer.v1.tar");
    assert_eq!(v["layers"][1]["size"], 15);
}

#[test]
fn pushes_are_told_step_by_step() {
    let r = ImageRef::parse("ghcr.io/o/i:1").unwrap();
    assert_eq!(push_tag(&r), "1");
    assert!(push_begins(&r).status.unwrap().starts_with("The push refers to repository ["));
    assert_eq!(push_preparing("sha256:0123456789abcdef").id.unwrap(), "sha256:01234");
    assert_eq!(push_sent("sha256:a", true).status.unwrap(), "Pushed");
    assert_eq!(push_sent("sha256:a", false).status.unwrap(), "Layer already exists");
    assert_eq!(push_total(1, 2, &vec![pushed("a", 3, b"")]), Some(6));
    assert_eq!(push_total(u64::MAX, 1, &vec![]), None);
    assert!(push_done("1", "sha256:a", 6).status.unwrap().contains("sha256:a"));
    assert_eq!(abbreviate("0123456789abcdef"), "0123456789ab");
}

#[test]
fn times_are_seconds_since_the_epoch() {
    assert_eq!(parse_rfc3339_or_zero(&Some("1970-01-02T00:00:00Z".to_string())), 86400);
    assert_eq!(parse_rfc3339_or_zero(&Some("1970-01-01T01:00:00+01:00".to_string())), 0);
    assert_eq!(parse_rfc3339_or_zero(&Some("yesterday".to_string())), 0);
    assert_eq!(parse_rfc3339_or_zero(&None), 0);
}

#[test]
fn layers_have_to_match_their_digests() {
    let r = ImageRef::parse("busybox").unwrap();
    let fs = OciRootFs { typ: "layers".to_string(), diff_ids: vec!["sha256:a".to_string()] };
    assert!(check_rootfs(&r, &fs, &vec!["sha256:a".to_string()]).is_ok());
    assert!(check_rootfs(&r, &fs, &vec!["sha256:b".to_string()]).is_err());
    let open = OciRootFs { typ: "layers".to_string(), diff_ids: vec![] };
    assert!(check_rootfs(&r, &open, &vec!["sha256:b".to_string()]).is_ok());
}

fn layer(digest: &str, size: i64) -> Descriptor {
    Descriptor { media_type: "m".to_string(), digest: digest.to_string(), size }
}

#[test]
fn pulled_images_are_recorded() {
    let image = ImageRef::parse("busybox:1").unwrap();
    let manifest = PlatformManifest {
        manifest_digest: "sha256:m".to_string(),
        media_type: "m".to_string(),
        config_digest: "sha256:c".to_string(),
        layers: vec![layer("sha256:l1", 10), layer("sha256:l2", 20)],
        endpoint: "https://r".to_string(),
    };
    assert_eq!(layers_total(&manifest.layers), Some(30));
    assert_eq!(layers_total(&vec![layer("a", i64::MAX), layer("b", 1)]), None);
    assert_eq!(pulled_size(&manifest, 5), Some(36));
    let config = OciImageConfig {
        created: Some("1970-01-02T00:00:00Z".to_string()),
        architecture: "amd64".to_string(),
        os: "linux".to_string(),
        ..Default::default()
    };
    let diffs = vec!["sha256:d1".to_string(), "sha256:d2".to_string()];
    let take = |config: &OciImageConfig, diffs: &Vec<String>| {
        pulled(&image, &manifest, "sha256:top", config.clone(), 5, diffs.clone())
    };
    let rec = take(&config, &diffs).unwrap();
    assert_eq!(rec.layer_blobs, vec!["sha256:l1".to_string(), "sha256:l2".to_string()]);
    assert_eq!(rec.diff_ids, diffs);
    assert_eq!(rec.id, "c");
    assert_eq!(rec.repo_tags, vec!["busybox:1".to_string()]);
    assert_eq!(rec.repo_digests, vec!["busybox@sha256:top".to_string()]);
    assert_eq!(rec.created_unix, 86400);
    assert_eq!(rec.chain_ids.len(), 2);
    assert_eq!(rec.size, 36);
    // A record is made only of the layers that the configuration lists.
    for typ in ["", "layers"] {
        let rootfs = OciRootFs { typ: typ.to_string(), diff_ids: diffs.clone() };
        let listed = OciImageConfig { rootfs, ..config.clone() };
        assert!(take(&listed, &diffs).is_ok());
        let turned = vec![diffs[1].clone(), diffs[0].clone()];
        assert!(take(&listed, &turned).unwrap_err().contains("layer diffID mismatch"));
    }
    let rootfs = OciRootFs { typ: "tree".to_string(), diff_ids: vec![] };
    assert!(take(&OciImageConfig { rootfs, ..config.clone() }, &diffs).is_err());
    let large = PlatformManifest { layers: vec![layer("l", i64::MAX)], ..manifest.clone() };
    let r = pulled(&image, &large, "sha256:top", config, 5, diffs);
    assert_eq!(r.unwrap_err(), "image too large");
}

#[test]
fn configurations_carry_over() {
    let c = to_container_config(OciRuntimeConfig {
        Env: vec!["A=1".to_string()],
        Cmd: None,
        StopSignal: Some("SIGINT".to_string()),
        ..Default::default()
    });
    assert_eq!(c.Env, vec!["A=1".to_string()]);
    assert!(c.Cmd.is_empty());
    assert_eq!(c.StopSignal, "SIGINT");
    let h = to_history(&vec![OciHistory {
        created: "now".to_string(),
        created_by: "sh".to_string(),
        ..Default::default()
    }]);
    assert_eq!(h.len(), 1);
    assert_eq!(h[0].created_by, "sh");
}

#[test]
fn pulls_are_told_step_by_step() {
    let r = ImageRef::parse("busybox").unwrap();
    assert!(pull_begins(&r).status.is_some());
    assert_eq!(layer_begins("sha256:0123456789abcdef").id.unwrap(), "layer-sha256:01234");
    let p = layer_progress("sha256:0123456789abcdef", "Downloading", 5, 10);
    let d = p.progressDetail.unwrap();
    assert_eq!((d.current, d.total), (5, 10));
    assert!(pull_complete(5, 10).status.is_some());
    assert!(pull_ends(&r).status.is_some());
}

#[test]
fn messages_say_one_thing() {
    assert_eq!(ProgressMessage::stream("x".to_string()).stream, Some("x".to_string()));
    assert_eq!(ProgressMessage::status("x".to_string()).status, Some("x".to_string()));
    let e = ProgressMessage::error("x".to_string());
    assert_eq!(e.error, Some("x".to_string()));
    assert_eq!(e.errorDetail.unwrap().message, "x");
}

#[test]
fn media_types_name_their_packing() {
    assert_eq!(packing_of("application/vnd.oci.image.layer.v1.tar+gzip"), Packing::Gzip);
    assert_eq!(packing_of("application/vnd.oci.image.layer.v1.tar+zstd"), Packing::Zstd);
    assert_eq!(
        packing_of("application/vnd.docker.image.rootfs.diff.tar.gzip"),
        Packing::Gzip
    );
    assert_eq!(packing_of("application/vnd.oci.image.layer.v1.tar"), Packing::Plain);
}

#[test]
fn budgets_end() {
    assert!(check_compressed(MAX_COMPRESSED_BYTES).is_ok());
    assert!(check_compressed(MAX_COMPRESSED_BYTES + 1).is_err());
    let mut b = Budget::new();
    assert!(b.take_in(MAX_EXTRACTED_BYTES).is_ok());
    assert_eq!(
        b.take_in(1),
        Err("layer extracted size exceeds budget of 21474836480 bytes".to_string())
    );
    assert_eq!(b.take_in(u64::MAX), Err("extracted size overflow".to_string()));
    let mut b = Budget::new();
    for _ in 0..500_000 {
        assert!(b.take_in(0).is_ok());
    }
    assert_eq!(b.take_in(0), Err("layer entry count exceeds budget of 500000".to_string()));
}

#[test]
fn whiteouts_hide_what_they_name() {
    assert!(matches!(entry_kind(".wh..wh..opq"), EntryKind::Opaque));
    assert!(matches!(entry_kind(".wh.gone"), EntryKind::Whiteout(t) if t == "gone"));
    assert!(matches!(entry_kind("file"), EntryKind::Plain));
}

#[test]
fn notes_and_results_have_to_agree() {
    assert_eq!(cached_diff(" sha256:a\n"), Some("sha256:a".to_string()));
    assert_eq!(cached_diff("ok"), None);
    assert!(check_unpacked("sha256:a", "sha256:a").is_ok());
    assert_eq!(
        check_unpacked("sha256:a", "sha256:b"),
        Err("diffID mismatch: expected sha256:a, unpacked sha256:b".to_string())
    );
}

#[test]
fn entries_stay_below_their_root() {
    assert!(stays_inside("a/b"));
    assert!(stays_inside("./a..b"));
    assert!(!stays_inside("/etc/passwd"));
    assert!(!stays_inside("a/../../b"));
    assert!(!stays_inside(".."));
    assert!(link_stays_inside("usr/lib/a", "../../lib/a"));
    assert!(!link_stays_inside("usr/lib/a", "../../../a"));
    assert!(link_stays_inside("bin/sh", "/bin/busybox"));
    assert!(!link_stays_inside("bin/sh", "/../etc/passwd"));
    assert!(link_stays_inside("./a/", "b"));
    assert!(!link_stays_inside("a", "b/../../c"));
    assert!(link_stays_inside("a//./b", ".././c"));
}

#[test]
fn progress_messages_are_lines_of_json() {
    assert_eq!(
        ProgressMessage::stream("Step 1 \"x\"\n".into()).to_line(),
        "{\"stream\":\"Step 1 \\\"x\\\"\\n\"}\n"
    );
    assert_eq!(
        ProgressMessage::error("no".into()).to_line(),
        "{\"error\":\"no\",\"errorDetail\":{\"message\":\"no\"}}\n"
    );
    assert_eq!(
        layer_progress("sha256:0123456789", "Downloading", -1, 42).to_line(),
        "{\"status\":\"Downloading\",\"progressDetail\":{\"current\":-1,\"total\":42},\
         \"id\":\"sha256:01234\"}\n"
    );
    let done = push_done("v1", "sha256:aa", 7).to_line();
    let v: serde_json::Value = serde_json::from_str(&done).unwrap();
    assert_eq!(v["aux"]["Tag"], "v1");
    assert_eq!(v["aux"]["Size"], 7);
    assert!(done.ends_with('\n'));
}
