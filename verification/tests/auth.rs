use base64::Engine;
use ingot::auth::{
    auth_file_path, auth_header, normalize_server, pair_from_bytes, registry_host_for_image,
    remove, store, stored_credentials, typed_text, AuthFile, StoredAuth,
};

#[test]
fn server_normalization() {
    assert_eq!(normalize_server("example.com:5000"), "example.com:5000");
    assert_eq!(normalize_server("https://example.com/v2/"), "example.com");
    assert_eq!(normalize_server("index.docker.io"), "docker.io");
    assert_eq!(normalize_server("registry-1.docker.io"), "docker.io");
    assert_eq!(normalize_server("DOCKER.IO"), "docker.io");
}

#[test]
fn image_registry_hosts() {
    assert_eq!(registry_host_for_image("busybox"), "docker.io");
    assert_eq!(registry_host_for_image("library/busybox:1.36"), "docker.io");
    assert_eq!(registry_host_for_image("ghcr.io/o/i:tag"), "ghcr.io");
    assert_eq!(registry_host_for_image("localhost:5000/i"), "localhost:5000");
    assert_eq!(registry_host_for_image("myhost.local/i"), "myhost.local");
    // A name with a tag and no slash names no host.
    assert_eq!(registry_host_for_image("busybox:latest"), "docker.io");
}

#[test]
fn store_roundtrip_and_header() {
    let mut file = AuthFile::default();
    // Nothing is kept at first; logout of nothing reports false.
    assert!(file.auth_header_for_image("busybox").is_none());
    assert!(!remove(&mut file, "docker.io"));
    // Store under an alias, read back under the canonical name.
    store(&mut file, "index.docker.io", "user", "s3cret").unwrap();
    let header = file.auth_header_for_image("library/busybox:latest").unwrap();
    let raw = base64::engine::general_purpose::STANDARD.decode(&header).unwrap();
    let v: serde_json::Value = serde_json::from_slice(&raw).unwrap();
    assert_eq!(v["username"], "user");
    assert_eq!(v["password"], "s3cret");
    // Other registries are isolated; logout removes.
    assert!(file.auth_header_for_image("ghcr.io/o/i").is_none());
    assert!(remove(&mut file, "docker.io"));
    assert!(file.auth_header_for_image("busybox").is_none());
}

#[test]
fn a_name_is_needed() {
    let mut file = AuthFile::default();
    assert_eq!(store(&mut file, "docker.io", "", "p"), Err("username must not be empty".to_string()));
}

#[test]
fn pairs_of_other_clients_are_read() {
    let e = StoredAuth {
        username: String::new(),
        password: String::new(),
        auth: base64::engine::general_purpose::STANDARD.encode("u:p:q"),
    };
    assert_eq!(stored_credentials(&e), Some(("u".to_string(), "p:q".to_string())));
    let bad = StoredAuth { auth: "%%%".to_string(), ..Default::default() };
    assert_eq!(stored_credentials(&bad), None);
    assert_eq!(pair_from_bytes(vec![0xff, b':']), None);
    assert_eq!(pair_from_bytes(b"none".to_vec()), None);
}

#[test]
fn headers_quote_what_they_hold() {
    let h = auth_header("a\"b", "p", "docker.io");
    let raw = base64::engine::general_purpose::STANDARD.decode(&h).unwrap();
    let v: serde_json::Value = serde_json::from_slice(&raw).unwrap();
    assert_eq!(v["username"], "a\"b");
    assert_eq!(v["serveraddress"], "docker.io");
}

#[test]
fn credentials_are_kept_below_the_configuration() {
    assert_eq!(auth_file_path(Some("/cfg"), None), Ok("/cfg/ingot/auth.json".to_string()));
    assert_eq!(
        auth_file_path(Some(""), Some("/home/u")),
        Ok("/home/u/.config/ingot/auth.json".to_string())
    );
    assert_eq!(auth_file_path(None, None), Err("HOME is not set".to_string()));
}

#[test]
fn typed_lines_lose_their_line_end() {
    assert_eq!(typed_text("secret \r\n"), "secret ");
    assert_eq!(typed_text("\n\r\n"), "");
    assert_eq!(typed_text("a\nb"), "a\nb");
}
