use ingot::reference::ImageRef;

#[test]
fn official_image() {
    let r = ImageRef::parse("busybox").unwrap();
    assert_eq!(r.registry, "docker.io");
    assert_eq!(r.repo, "library/busybox");
    assert_eq!(r.tag.as_deref(), Some("latest"));
    assert_eq!(r.tag_key(), "busybox:latest");
    assert_eq!(r.display_ref(), "busybox:latest");
}

#[test]
fn official_image_versioned() {
    let r = ImageRef::parse("alpine:3.19").unwrap();
    assert_eq!(r.repo, "library/alpine");
    assert_eq!(r.tag.as_deref(), Some("3.19"));
}

#[test]
fn user_repo() {
    let r = ImageRef::parse("myuser/myapp:v2").unwrap();
    assert_eq!(r.registry, "docker.io");
    assert_eq!(r.repo, "myuser/myapp");
    assert_eq!(r.tag.as_deref(), Some("v2"));
}

#[test]
fn custom_registry_with_port() {
    let r = ImageRef::parse("registry.local:5000/team/app:dev").unwrap();
    assert_eq!(r.registry, "registry.local:5000");
    assert_eq!(r.repo, "team/app");
    assert_eq!(r.tag.as_deref(), Some("dev"));
}

#[test]
fn port_and_tag_disambiguation() {
    // "busybox:latest" is repo:tag, not a host
    let r = ImageRef::parse("busybox:latest").unwrap();
    assert_eq!(r.registry, "docker.io");
    assert_eq!(r.tag.as_deref(), Some("latest"));
}

#[test]
fn digest_ref() {
    let r = ImageRef::parse(
        "busybox@sha256:0123456789abcdef0123456789abcdef0123456789abcdef0123456789abcdef",
    )
    .unwrap();
    assert!(r.digest.as_deref().unwrap().starts_with("sha256:"));
    assert_eq!(r.repo, "library/busybox");
}

#[test]
fn digest_only_claims_no_tag() {
    let r = ImageRef::parse(
        "busybox@sha256:0123456789abcdef0123456789abcdef0123456789abcdef0123456789abcdef",
    )
    .unwrap();
    assert_eq!(r.tag, None);
    assert_eq!(r.tag_key_opt(), None);
    // tag_key keeps its :latest default for callers that need a key.
    assert_eq!(r.tag_key(), "busybox:latest");
}

#[test]
fn ghcr() {
    let r = ImageRef::parse("ghcr.io/owner/img:1.0").unwrap();
    assert_eq!(r.registry, "ghcr.io");
    assert_eq!(r.repo, "owner/img");
}

#[test]
fn shown_references_read_back() {
    for s in ["busybox:latest", "myuser/myapp:v2", "registry.local:5000/team/app:dev"] {
        let r = ImageRef::parse(s).unwrap();
        assert_eq!(r.display_ref(), s);
        let again = ImageRef::parse(&r.display_ref()).unwrap();
        assert_eq!(again.repo, r.repo);
        assert_eq!(again.registry, r.registry);
        assert_eq!(again.tag, r.tag);
    }
}

#[test]
fn official_names_are_one_image() {
    let a = ImageRef::parse("busybox").unwrap();
    let b = ImageRef::parse("docker.io/library/busybox:latest").unwrap();
    assert_eq!(a.registry, b.registry);
    assert_eq!(a.repo, b.repo);
    assert_eq!(a.tag_key(), b.tag_key());
}

#[test]
fn empty_reference_is_refused() {
    assert!(ImageRef::parse("").is_err());
}

#[test]
fn common_references_read_back() {
    for host in ["", "ghcr.io/", "localhost/", "reg.local:5000/", "docker.io/", "index.docker.io/"] {
        for repo in ["app", "library/app", "user/my_app-2", "library"] {
            for tag in ["", ":1.0", ":Latest"] {
                for digest in ["", "@sha256:aa"] {
                    let r = ImageRef::parse(&format!("{host}{repo}{tag}{digest}")).unwrap();
                    let again = ImageRef::parse(&r.display_ref()).unwrap();
                    assert_eq!(again, r, "{host}{repo}{tag}{digest}");
                }
            }
        }
    }
}
