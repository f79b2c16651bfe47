use base64::Engine;
use ingot::api::system::AuthConfig;
use ingot::encode::{digest_of, pct_encode, sha256_hex, Received};
use ingot::reference::ImageRef;
use ingot::registry::{
    available_platforms, base_url, blob_backoff, blob_path, blob_probe, blob_reply, blob_stalled,
    blob_wait, body_text, check_blob, check_manifest, classify_push_status, daemon_platform,
    expected_of, full_url, head_blob, hints_at_tls, listed_errors, manifest_error, manifest_path,
    manifest_failed, manifest_pushed, manifest_reference, manifest_refused, manifest_step, manifest_wait,
    parse_platform, pick_platform, platform_refused, platform_served, push_blob_post_outcome,
    push_blob_put_outcome, push_error, push_wait, range_header, registry_mirrors_from,
    resolve_location, retry_after_secs, select_index_digest, success, tls_hint_for_message,
    transient, truncate, unreachable_message, upload_begun, upload_path, with_digest_query,
    with_transport_hint, AttemptError, AuthStep, BlobStep, Challenge, Descriptor, IndexEntry,
    ManifestNext, ManifestStep, Platform, Probe, PushStep, RawManifest, RegistryClient, TokenStep, UploadStep,
};

fn img() -> ImageRef {
    ImageRef::parse("busybox:latest").unwrap()
}

fn entry(os: &str, arch: &str, digest: &str) -> IndexEntry {
    IndexEntry {
        media_type: "application/vnd.oci.image.manifest.v1+json".to_string(),
        digest: digest.to_string(),
        platform: Some(Platform {
            architecture: Some(arch.to_string()),
            os: Some(os.to_string()),
        }),
    }
}

fn descriptor(digest: &str, size: i64) -> Descriptor {
    Descriptor { media_type: "m".to_string(), digest: digest.to_string(), size }
}

fn single() -> RawManifest {
    RawManifest {
        media_type: "application/vnd.oci.image.manifest.v1+json".to_string(),
        config: Some(descriptor("sha256:abc", 2)),
        layers: vec![],
        manifests: vec![],
    }
}

fn index() -> RawManifest {
    RawManifest {
        media_type: "application/vnd.oci.image.index.v1+json".to_string(),
        config: None,
        layers: vec![],
        manifests: vec![
            entry("linux", "arm64", "sha256:arm"),
            entry("linux", "amd64", "sha256:x86"),
        ],
    }
}

#[test]
fn daemon_platform_is_sane() {
    let (os, arch) = daemon_platform("x86_64");
    assert_eq!(os, "linux");
    assert!(!arch.is_empty());
    assert_eq!(arch, "amd64");
    assert_eq!(daemon_platform("aarch64").1, "arm64");
}

#[test]
fn parse_platform_shapes() {
    assert_eq!(
        parse_platform("linux/amd64").unwrap(),
        ("linux".to_string(), "amd64".to_string())
    );
    assert_eq!(parse_platform("amd64").unwrap(), ("linux".to_string(), "amd64".to_string()));
    assert_eq!(
        parse_platform(" Linux/ARM64 ").unwrap(),
        ("linux".to_string(), "arm64".to_string())
    );
    for bad in ["", "/", "linux/", "/amd64", "a/b/c", "linux/amd 64"] {
        assert!(parse_platform(bad).is_err(), "{bad:?} must fail");
    }
}

#[test]
fn pick_platform_exact_only() {
    let entries = vec![
        entry("linux", "amd64", "sha256:aaa"),
        entry("linux", "arm64", "sha256:bbb"),
        entry("windows", "amd64", "sha256:ccc"),
    ];
    let got = pick_platform(&entries, "linux", "arm64").unwrap();
    assert_eq!(got.digest, "sha256:bbb");
    // No silent fallback to another arch or os.
    assert!(pick_platform(&entries, "linux", "riscv64").is_none());
    assert!(pick_platform(&entries, "windows", "arm64").is_none());
    // Entries without platform metadata never match.
    let mut noplat = entries.clone();
    noplat.push(IndexEntry {
        media_type: "x".to_string(),
        digest: "sha256:ddd".to_string(),
        platform: None,
    });
    assert!(pick_platform(&noplat, "linux", "s390x").is_none());
}

#[test]
fn base_url_scheme_rules() {
    assert_eq!(base_url("example.com"), "https://example.com");
    assert_eq!(base_url("[::1]:5000"), "http://[::1]:5000");
    assert_eq!(base_url("[::2]:5000"), "https://[::2]:5000");
    assert_eq!(base_url("example.com:5000"), "https://example.com:5000");
    assert_eq!(base_url("localhost:5000"), "http://localhost:5000");
    assert_eq!(base_url("127.0.0.1:5000"), "http://127.0.0.1:5000");
    assert_eq!(base_url("::1"), "http://::1");
}

#[test]
fn mirror_list_parsing() {
    assert!(registry_mirrors_from(None).is_empty());
    assert!(registry_mirrors_from(Some("")).is_empty());
    assert_eq!(
        registry_mirrors_from(Some("a:5000, https://b/c/ , ,c")),
        vec!["a:5000", "https://b/c/", "c"]
    );
}

#[test]
fn blob_backoff_grows_and_caps() {
    assert_eq!(blob_backoff(1), 1);
    assert_eq!(blob_backoff(2), 2);
    assert_eq!(blob_backoff(3), 4);
    assert_eq!(blob_backoff(99), 8);
}

#[test]
fn tls_hint_matches_cert_failures() {
    assert!(tls_hint_for_message("x509: certificate has expired").is_some());
    assert!(tls_hint_for_message("tls: handshake failure").is_some());
    assert!(tls_hint_for_message("connection refused").is_none());
    assert!(tls_hint_for_message("404 Not Found").is_none());
}

#[test]
fn retry_after_parses_and_caps() {
    assert_eq!(retry_after_secs(None), 0);
    assert_eq!(retry_after_secs(Some("5")), 5);
    assert_eq!(retry_after_secs(Some("9999")), 30);
    assert_eq!(retry_after_secs(Some("soon")), 0);
}

#[test]
fn available_platforms_lists_index() {
    let entries = vec![entry("linux", "arm64", "a"), entry("linux", "amd64", "b")];
    assert_eq!(available_platforms(&entries), "linux/amd64, linux/arm64");
    assert_eq!(available_platforms(&[]), "(no platform metadata)");
}

#[test]
fn auth_failures_are_actionable_and_redacted() {
    // 401/403 map to login guidance, never echoing bodies or secrets.
    for (status, needle) in [(401u16, "docker login"), (403u16, "pull access")] {
        let body = r#"{"errors":[{"code":"DENIED"}]}"#;
        let e = manifest_error(status, body, &listed_errors(body), &img());
        assert!(e.contains(needle), "{status}: {e}");
        assert!(!e.contains("DENIED"), "{status} must not echo body: {e}");
    }
    // Unknown repos keep the docker-style access-denied hint.
    let body = r#"{"errors":[{"code":"NAME_UNKNOWN","message":"nope"}]}"#;
    let e = manifest_error(404, body, &listed_errors(body), &img());
    assert!(e.contains("may require authorization"), "{e}");
    // Other failures truncate the body.
    let body = "x".repeat(1000);
    let e = manifest_error(500, &body, &listed_errors(&body), &img());
    assert!(e.len() < 600, "body must be truncated: {}", e.len());
}

#[test]
fn select_index_digest_matrix() {
    // Single manifest → None (caller proceeds without a sub-fetch).
    assert_eq!(select_index_digest(Some(&single()), "linux", "amd64").unwrap(), None);
    // Index → exact platform digest.
    assert_eq!(
        select_index_digest(Some(&index()), "linux", "amd64").unwrap(),
        Some("sha256:x86".to_string())
    );
    // Missing platform names the available set.
    let err = select_index_digest(Some(&index()), "linux", "s390x").unwrap_err();
    assert!(err.contains("amd64") && err.contains("arm64"), "{err}");
    // Garbage fails closed.
    assert!(select_index_digest(None, "linux", "amd64").is_err());
}

#[test]
fn push_scope_names_pull_and_push() {
    let r = ImageRef::parse("quay.io/team/app:1.0").unwrap();
    assert_eq!(RegistryClient::push_scope(&r), "repository:team/app:pull,push");
    let busy = ImageRef::parse("busybox:latest").unwrap();
    assert_eq!(RegistryClient::push_scope(&busy), "repository:library/busybox:pull,push");
    assert_eq!(RegistryClient::pull_scope(&busy), "repository:library/busybox:pull");
}

#[test]
fn upload_location_resolution() {
    assert_eq!(resolve_location("http://h:5000", "http://other/x"), "http://other/x");
    assert_eq!(
        resolve_location("http://h:5000", "/v2/a/blobs/uploads/1"),
        "http://h:5000/v2/a/blobs/uploads/1"
    );
    assert_eq!(
        resolve_location("http://h:5000", "v2/a/blobs/uploads/1"),
        "http://h:5000/v2/a/blobs/uploads/1"
    );
}

#[test]
fn digest_query_append_rules() {
    assert_eq!(with_digest_query("/up/1", "sha256:abc"), "/up/1?digest=sha256:abc");
    assert_eq!(with_digest_query("/up/1?x=1", "sha256:abc"), "/up/1?x=1&digest=sha256:abc");
    // Registries that embed the digest keep their own value.
    assert_eq!(
        with_digest_query("/up/1?digest=sha256:mine", "sha256:other"),
        "/up/1?digest=sha256:mine"
    );
}

#[test]
fn push_failures_are_docker_shaped_and_redacted() {
    // 401/403 map to login guidance, never echoing bodies or secrets.
    for (status, needle) in [(401u16, "docker login"), (403u16, "push access")] {
        let body = r#"{"errors":[{"code":"DENIED"}]}"#;
        let e = push_error(status, body, &listed_errors(body), "repo:tag");
        assert!(e.contains(needle), "{status}: {e}");
        assert!(!e.contains("DENIED"), "{status} must not echo body: {e}");
    }
    // Registry error objects surface code + message.
    let body = r#"{"errors":[{"code":"BLOB_UNKNOWN","message":"blob unknown to registry"}]}"#;
    let e = push_error(400, body, &listed_errors(body), "sha256:abc");
    assert!(e.contains("BLOB_UNKNOWN") && e.contains("blob unknown"), "{e}");
    // Other failures truncate the body.
    let body = "x".repeat(1000);
    let e = push_error(500, &body, &listed_errors(&body), "repo:tag");
    assert!(e.len() < 600, "body must be truncated: {}", e.len());
}

#[test]
fn parse_challenge_handles_variations_and_malformed() {
    assert!(RegistryClient::parse_challenge("Bearer realm=\"https://auth.docker.io/token\",service=\"registry.docker.io\",scope=\"repository:library/busybox:pull\"").is_ok());
    assert!(RegistryClient::parse_challenge("Basic realm=\"Registry Realm\"").is_ok());
    assert!(RegistryClient::parse_challenge("").is_err());
    assert!(RegistryClient::parse_challenge("Digest foo=bar").is_err());
    assert!(RegistryClient::parse_challenge("Bearer service=\"foo\"").is_err());
}

#[test]
fn a_challenge_is_taken_apart() {
    match RegistryClient::parse_challenge("Bearer realm=\"https://a/t\",service=\"s\",scope=\"x:y\"") {
        Ok(Challenge::Bearer { realm, service, scope }) => {
            assert_eq!((realm.as_str(), service.as_str(), scope.as_str()), ("https://a/t", "s", "x:y"));
        }
        _ => panic!("a bearer challenge"),
    }
}

fn account() -> AuthConfig {
    AuthConfig { username: "user".to_string(), password: "s3cret".to_string(), ..Default::default() }
}

#[test]
fn tokens_are_asked_for_once() {
    let mut c = RegistryClient::new();
    let auth = account();
    let key = match c.bearer_token("repository:a:pull", "https://auth/t", "reg", Some(&auth)) {
        TokenStep::Ask { url, authorization, key } => {
            assert!(url.starts_with("https://auth/t?"), "{url}");
            assert!(url.contains(&pct_encode("repository:a:pull")), "{url}");
            let b = authorization.unwrap();
            assert_eq!(
                b,
                format!(
                    "Basic {}",
                    base64::engine::general_purpose::STANDARD.encode("user:s3cret")
                )
            );
            key
        }
        TokenStep::Cached(_) => panic!("nothing is kept yet"),
    };
    assert_eq!(c.token_answered(key, br#"{"token":"T1"}"#), Ok("T1".to_string()));
    match c.bearer_token("repository:a:pull", "https://auth/t", "reg", Some(&auth)) {
        TokenStep::Cached(t) => assert_eq!(t, "T1"),
        TokenStep::Ask { .. } => panic!("the token is kept"),
    }
    // Another scope needs a token of its own.
    assert!(matches!(
        c.bearer_token("repository:b:pull", "https://auth/t", "reg", Some(&auth)),
        TokenStep::Ask { .. }
    ));
}

#[test]
fn token_answers_without_a_token_fail() {
    let mut c = RegistryClient::new();
    assert!(c.token_answered("k".to_string(), b"{}").is_err());
    assert!(c.token_answered("k".to_string(), b"nonsense").is_err());
    assert_eq!(
        c.token_answered("k".to_string(), br#"{"access_token":"T2"}"#),
        Ok("T2".to_string())
    );
}

#[test]
fn refused_tokens_keep_secrets() {
    let e = RegistryClient::token_refused(401, "401 Unauthorized", "s3cret body", None);
    assert!(e.contains("ig login") && !e.contains("s3cret"), "{e}");
    let e = RegistryClient::token_refused(401, "401 Unauthorized", "no", Some(&account()));
    assert!(!e.contains("s3cret"), "{e}");
    let e = RegistryClient::token_refused(500, "500 Internal Server Error", "broken", None);
    assert!(e.contains("500"), "{e}");
}

#[test]
fn authorisation_follows_the_challenge() {
    match RegistryClient::authorize(
        Some("Bearer realm=\"https://a/t\",service=\"s\",scope=\"named\""),
        "https://r/v2/",
        "own",
        true,
        None,
    ) {
        Ok(AuthStep::Bearer { scope, .. }) => assert_eq!(scope, "named"),
        _ => panic!("a bearer step"),
    }
    match RegistryClient::authorize(
        Some("Bearer realm=\"https://a/t\",service=\"s\",scope=\"named\""),
        "https://r/v2/",
        "own",
        false,
        None,
    ) {
        Ok(AuthStep::Bearer { scope, .. }) => assert_eq!(scope, "own"),
        _ => panic!("a bearer step"),
    }
    match RegistryClient::authorize(Some("Basic realm=\"r\""), "u", "own", true, Some(&account())) {
        Ok(AuthStep::Basic(Some(h))) => assert!(h.starts_with("Basic ")),
        _ => panic!("a basic step"),
    }
    assert!(RegistryClient::authorize(None, "https://r/v2/", "own", true, None).is_err());
}

#[test]
fn mirrors_come_before_the_registry() {
    let v = RegistryClient::candidate_endpoints(&img(), &vec!["m:5000".to_string()]);
    assert_eq!(v.len(), 2);
    assert!(v[0].contains("m:5000"), "{v:?}");
    assert_eq!(v[1], RegistryClient::endpoint(&img()));
    let other = ImageRef::parse("ghcr.io/o/i").unwrap();
    assert_eq!(
        RegistryClient::candidate_endpoints(&other, &vec!["https://ghcr.io/".to_string()]),
        vec![RegistryClient::endpoint(&other)]
    );
}

#[test]
fn manifests_are_checked_against_their_digest() {
    let body = br#"{"x":1}"#;
    let d = digest_of(body);
    assert_eq!(d, format!("sha256:{}", sha256_hex(body)));
    assert_eq!(check_manifest(&img(), body, Some(&d)).map_err(|e| e.message), Ok(d.clone()));
    assert_eq!(check_manifest(&img(), body, None).map_err(|e| e.message), Ok(d.clone()));
    let pinned = ImageRef::parse(&format!("busybox@{d}")).unwrap();
    assert!(check_manifest(&pinned, body, None).is_ok());
    assert!(check_manifest(&pinned, b"other", None).is_err());
    let wrong = "sha256:0123456789abcdef0123456789abcdef0123456789abcdef0123456789abcdef";
    assert!(check_manifest(&img(), body, Some(wrong)).is_err());
}

#[test]
fn digests_are_those_of_the_bytes() {
    assert_eq!(
        sha256_hex(b""),
        "e3b0c44298fc1c149afbf4c8996fb92427ae41e4649b934ca495991b7852b855"
    );
}

#[test]
fn an_index_leads_to_its_platform() {
    match manifest_step(&img(), Some(&index()), "linux", "amd64", "https://r", "sha256:top") {
        Ok(ManifestStep::Platform(k)) => assert_eq!(k, 1),
        _ => panic!("the platform's entry"),
    }
    match manifest_step(&img(), Some(&single()), "linux", "amd64", "https://r", "sha256:top") {
        Ok(ManifestStep::Done(m)) => {
            assert_eq!(m.config_digest, "sha256:abc");
            assert_eq!(m.manifest_digest, "sha256:top");
            assert_eq!(m.endpoint, "https://r");
        }
        _ => panic!("a manifest"),
    }
    assert!(manifest_step(&img(), Some(&index()), "linux", "s390x", "e", "d").is_err());
    assert!(manifest_step(&img(), None, "linux", "amd64", "e", "d").is_err());
    let e = entry("linux", "amd64", &digest_of(b"body"));
    assert!(platform_served(&img(), &e, Some(&single()), b"body", "https://r").is_ok());
    assert!(platform_served(&img(), &e, Some(&single()), b"other", "https://r").is_err());
    assert!(platform_refused(503, "503 Service Unavailable", "x").retryable);
    assert!(!platform_refused(404, "404 Not Found", "x").retryable);
}

#[test]
fn paths_name_their_repository() {
    assert_eq!(manifest_reference(&img()).unwrap(), "latest");
    assert_eq!(manifest_path(&img(), "latest"), "/v2/library/busybox/manifests/latest");
    assert_eq!(blob_path(&img(), "sha256:a"), "/v2/library/busybox/blobs/sha256:a");
    assert_eq!(upload_path(&img()), "/v2/library/busybox/blobs/uploads/");
    assert_eq!(full_url("https://r", "/v2/x"), "https://r/v2/x");
    assert_eq!(full_url("https://r", "https://o/v2/x"), "https://o/v2/x");
}

#[test]
fn statuses_have_their_meaning() {
    assert!(success(200) && success(299) && !success(300) && !success(199));
    assert!(transient(429) && transient(500) && transient(503) && !transient(404));
}

#[test]
fn tries_are_bounded() {
    let e = AttemptError::retryable("x".to_string());
    assert!(blob_wait(1, &e).is_some());
    assert!(blob_wait(4, &e).is_none());
    assert!(manifest_wait(4, &e).is_none());
    assert!(push_wait(4, &e).is_none());
    let f = AttemptError::fatal("x".to_string());
    assert!(blob_wait(1, &f).is_none());
    assert!(manifest_wait(1, &f).is_none());
    let later = AttemptError::retryable_after("x".to_string(), 7);
    assert_eq!(later.retry_after, 7);
    assert!(AttemptError::transport("x".to_string(), true).retryable);
    assert!(!AttemptError::transport("x".to_string(), false).retryable);
}

#[test]
fn blobs_resume_or_start_over() {
    assert!(matches!(blob_reply("sha256:a", 206, "206", 10, None, ""), BlobStep::Append));
    assert!(matches!(blob_reply("sha256:a", 200, "200", 10, None, ""), BlobStep::Fresh));
    assert!(matches!(blob_reply("sha256:a", 416, "416", 10, None, ""), BlobStep::Restart(_)));
    match blob_reply("sha256:a", 503, "503", 0, Some("5"), "busy") {
        BlobStep::Fail(e) => {
            assert!(e.retryable);
            assert_eq!(e.retry_after, 5);
        }
        _ => panic!("a failure"),
    }
    assert_eq!(range_header(0), None);
    assert_eq!(range_header(10), Some("bytes=10-".to_string()));
    assert!(blob_stalled("sha256:a").retryable);
    let read = |parts: &[&str]| {
        let mut body = Received::new();
        for p in parts {
            body.take_in(p.as_bytes());
        }
        body
    };
    let abc = "ba7816bf8f01cfea414140de5dae2223b00361a396177a9cb410ff61f20015ad";
    assert_eq!(read(&["a", "", "bc"]).hex(), abc);
    assert_eq!(read(&["abc"]).digest(), format!("sha256:{abc}"));
    assert!(check_blob(&format!("sha256:{abc}"), read(&["ab", "c"])).is_ok());
    assert!(check_blob(&format!("sha256:{abc}"), read(&["ab"])).is_err());
    assert_eq!(expected_of("sha256:aa"), "aa");
}

#[test]
fn probes_tell_what_is_there() {
    assert!(matches!(blob_probe(200, 1, "", &vec![], "d"), Probe::Exists));
    assert!(matches!(blob_probe(404, 1, "", &vec![], "d"), Probe::Missing));
    assert!(matches!(blob_probe(503, 1, "", &vec![], "d"), Probe::Wait(1000)));
    assert!(matches!(blob_probe(401, 1, "", &vec![], "d"), Probe::Fail(_)));
    assert_eq!(head_blob(200, Some("12")), Some(12));
    assert_eq!(head_blob(404, Some("12")), None);
}

#[test]
fn uploads_go_where_the_registry_says() {
    match upload_begun(202, "202", Some("/up/1"), "http://h", &img(), "sha256:a") {
        UploadStep::Put(u) => assert_eq!(u, "http://h/up/1?digest=sha256:a"),
        _ => panic!("a place to put it"),
    }
    assert!(matches!(
        upload_begun(201, "201", None, "http://h", &img(), "sha256:a"),
        UploadStep::Done
    ));
    assert!(matches!(
        upload_begun(202, "202", None, "http://h", &img(), "sha256:a"),
        UploadStep::Post(_)
    ));
    assert!(matches!(
        upload_begun(500, "500", None, "http://h", &img(), "sha256:a"),
        UploadStep::Classify
    ));
    assert!(push_blob_put_outcome(201, "201", None, "", &vec![], "d").is_ok());
    assert!(push_blob_put_outcome(503, "503", None, "x", &vec![], "d").is_err());
    assert!(push_blob_post_outcome(202, None, "", &vec![], "d").is_ok());
    assert!(push_blob_post_outcome(400, None, "x", &vec![], "d").is_err());
    let e = classify_push_status(429, Some("3"), "x", &vec![], "d");
    assert!(e.retryable);
    assert_eq!(e.retry_after, 3);
}

#[test]
fn pushed_manifests_give_their_digest() {
    let m = b"{}";
    let d = digest_of(m);
    match manifest_pushed(m, 201, 1, None, None, "", &vec![], "latest") {
        PushStep::Done(x) => assert_eq!(x, d),
        _ => panic!("it is done"),
    }
    assert!(matches!(
        manifest_pushed(m, 503, 1, None, None, "", &vec![], "latest"),
        PushStep::Wait(_)
    ));
    assert!(matches!(
        manifest_pushed(m, 400, 1, None, None, "no", &vec![], "latest"),
        PushStep::Fail(_)
    ));
}

#[test]
fn messages_are_cut_and_hinted_at() {
    assert_eq!(truncate("abcdef", 3), "abc…");
    assert_eq!(truncate("abc", 3), "abc");
    assert!(hints_at_tls("certificate unknown"));
    assert!(with_transport_hint("ctx", "x509: bad").contains("ctx"));
    assert!(unreachable_message(&img(), 2, &vec!["a".to_string(), "b".to_string()]).contains("busybox"));
    assert!(manifest_refused(500, "x", &vec![], &img()).retryable);
    assert_eq!(body_text(&[0xff]), "\u{fffd}");
}

#[test]
fn refusals_are_read_from_json() {
    let v = listed_errors(r#"{"errors":[{"code":"A","message":"b"},{"code":"C"}]}"#);
    assert_eq!(v.len(), 2);
    assert_eq!((v[0].code.as_str(), v[0].message.as_str()), ("A", "b"));
    assert!(listed_errors("no json").is_empty());
}

#[test]
fn only_unreachable_registries_are_passed_over() {
    let refused = AttemptError::fatal("404".to_string());
    match manifest_failed(1, &refused, false, "https://r") {
        ManifestNext::Fail(e) => assert_eq!(e, "404"),
        other => panic!("{other:?}"),
    }
    let down = || AttemptError::transport("timeout".to_string(), true);
    assert!(matches!(manifest_failed(1, &down(), true, "https://r"), ManifestNext::Retry(1000)));
    match manifest_failed(4, &down(), true, "https://r") {
        ManifestNext::Next(line) => assert_eq!(line, "https://r: timeout"),
        other => panic!("{other:?}"),
    }
    let busy = AttemptError::retryable("503".to_string());
    assert!(matches!(manifest_failed(4, &busy, false, "https://r"), ManifestNext::Fail(_)));
}
