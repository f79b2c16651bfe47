use ingot::listing::{
    container_lines, id_lines, image_lines, image_sizes, network_head, network_lines, volume_head,
    volume_lines,
};

const NOW: i64 = 1_700_000_000;

#[test]
fn containers_are_listed() {
    let doc = br#"[
        {"Id":"0123456789abcdef","Image":"alpine","Command":"sh","Created":1699999970,
         "Status":"Up 30 seconds","Names":["/web"]},
        {"Id":"fedcba9876543210","Image":"nginx","Command":"nginx -g daemon off and more",
         "Created":1699820000,"Status":"Exited (0)","Names":["/db"]}
    ]"#;
    let lines = container_lines(doc, NOW, false).unwrap();
    assert_eq!(lines.len(), 2);
    assert_eq!(
        lines[0],
        format!(
            "{:<14} {:<16} {:<24} {:<12} {:<16} web",
            "0123456789ab", "alpine", "sh", "30 seconds ago", "Up 30 seconds"
        )
    );
    assert!(lines[1].contains("2 days ago"), "{}", lines[1]);
    assert!(lines[1].starts_with("fedcba987654 "), "{}", lines[1]);
    let whole = container_lines(doc, NOW, true).unwrap();
    assert!(whole[1].starts_with("fedcba9876543210 "), "{}", whole[1]);
    assert!(container_lines(b"{}", NOW, false).is_none());
    assert!(container_lines(b"no list", NOW, false).is_none());
}

#[test]
fn a_time_beyond_the_calendar_counts_as_1970() {
    for (created, age) in [
        ("8210266876799", "0 seconds ago"),
        ("8210266876800", "19675 days ago"),
        ("-8334601228801", "19675 days ago"),
        ("1699999000", "16 minutes ago"),
        ("1699990000", "2 hours ago"),
    ] {
        let doc = format!(r#"[{{"Id":"a","Created":{created}}}]"#);
        let lines = container_lines(doc.as_bytes(), NOW, true).unwrap();
        assert!(lines[0].contains(age), "{created}: {}", lines[0]);
    }
}

#[test]
fn ids_alone_are_listed() {
    let doc = br#"[{"Id":"sha256:0123456789abcdef"},{"Id":"abc"}]"#;
    assert_eq!(
        id_lines(doc, false, true).unwrap(),
        vec!["0123456789ab".to_string(), "abc".to_string()]
    );
    assert_eq!(
        id_lines(doc, false, false).unwrap(),
        vec!["sha256:01234".to_string(), "abc".to_string()]
    );
    assert!(id_lines(b"3", true, true).is_none());
    // Twelve bytes would end inside a character.
    let doc = "[{\"Id\":\"01234567890\u{e9}\"}]".to_string();
    assert!(id_lines(doc.as_bytes(), false, false).is_none());
    assert!(id_lines(doc.as_bytes(), true, false).is_some());
}

#[test]
fn images_are_listed() {
    let doc = br#"[
        {"Id":"sha256:0123456789abcdef","RepoTags":["nginx:1.27"],"Created":1699996400,"Size":42},
        {"Id":"sha256:fedcba9876543210","RepoTags":[],"Created":1699999999,"Size":7}
    ]"#;
    assert_eq!(image_sizes(doc).unwrap(), vec![42, 7]);
    let sizes = vec!["42B".to_string(), "7B".to_string()];
    let lines = image_lines(doc, NOW, false, &sizes).unwrap();
    assert_eq!(
        lines[0],
        format!("{:<20} {:<10} {:<16} {:<20} 42B", "nginx", "1.27", "0123456789ab", "1 hours ago")
    );
    assert!(lines[1].starts_with("<none>"), "{}", lines[1]);
    assert!(lines[1].ends_with("7B"), "{}", lines[1]);
    // As many sizes as images, or nothing.
    assert!(image_lines(doc, NOW, false, &vec!["42B".to_string()]).is_none());
}

#[test]
fn networks_and_volumes_are_listed() {
    let doc = br#"[{"Id":"0123456789abcdef","Name":"web","Driver":"bridge",
        "IPAM":{"Config":[{"Subnet":"172.18.0.0/16"}]}}]"#;
    assert_eq!(
        network_lines(doc).unwrap(),
        vec![format!(
            "{:<20} {:<12} {:<18} {:<16}",
            "0123456789ab", "web", "bridge", "172.18.0.0/16"
        )]
    );
    assert_eq!(
        network_head(),
        format!("{:<20} {:<12} {:<18} {:<16}", "NETWORK ID", "NAME", "DRIVER", "SUBNET")
    );
    let doc = br#"{"Volumes":[{"Name":"data","Driver":"local","Mountpoint":"/m"}]}"#;
    assert_eq!(
        volume_lines(doc),
        Some(vec![format!("{:<32} {:<12} {:<16}", "data", "local", "/m")])
    );
    assert_eq!(
        volume_head(),
        format!("{:<32} {:<12} {:<16}", "VOLUME NAME", "DRIVER", "MOUNTPOINT")
    );
    assert_eq!(volume_lines(b"{}"), Some(vec![]));
    assert_eq!(volume_lines(b"nothing"), None);
}
