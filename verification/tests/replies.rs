use ingot::commands::ProgressLine;
use ingot::manager::endpoints_in;
use ingot::replies::{
    build_message, exec_code, id_in, inspected, json_lines, network_id, network_prune_line, progress_in,
    pruned_networks_line, reclaimed, removed_lines, staged_token, state_in, versions_in,
    volume_name, volume_prune_line, wait_code,
};
use ingot::stream::LineStream;

#[test]
fn replies_name_what_was_made() {
    assert_eq!(id_in(br#"{"Id":"abc"}"#, "no container id"), Ok("abc".to_string()));
    assert_eq!(id_in(b"{}", "no container id"), Err("no container id".to_string()));
    assert_eq!(id_in(b"<p>", "no container id"), Err("bad JSON from daemon".to_string()));
    assert_eq!(staged_token(br#"{"token":"t"}"#).as_deref(), Some("t"));
    assert_eq!(staged_token(b"{}"), None);
    assert_eq!(volume_name(br#"{"Name":"v"}"#).as_deref(), Some("v"));
    assert_eq!(network_id(br#"{"Id":"0123456789abcdef"}"#).as_deref(), Some("0123456789ab"));
    assert_eq!(network_id(b"{}").as_deref(), Some(""));
    assert_eq!(network_id(b"}"), None);
}

#[test]
fn replies_are_shown_as_they_are() {
    let doc = br#"{"b":[1,2],"a":null}"#;
    let shown = inspected(doc).unwrap();
    assert_eq!(shown, "{\n  \"a\": null,\n  \"b\": [\n    1,\n    2\n  ]\n}");
    assert_eq!(inspected(b"{"), None);
    let list = br#"[ {"Id": "x"}, null , 3 ]"#;
    assert_eq!(
        json_lines(list),
        Some(vec![r#"{"Id":"x"}"#.to_string(), "null".to_string(), "3".to_string()])
    );
    assert_eq!(json_lines(b"[]"), Some(vec![]));
    assert_eq!(json_lines(b"{}"), None);
    assert_eq!(json_lines(b""), None);
}

#[test]
fn replies_tell_how_commands_ended() {
    assert_eq!(wait_code(br#"{"StatusCode":7}"#), Some(7));
    assert_eq!(wait_code(b"{}"), Some(0));
    assert_eq!(wait_code(b""), None);
    assert_eq!(exec_code(br#"{"ExitCode":-1}"#), Some(-1));
}

#[test]
fn replies_tell_what_was_removed() {
    assert_eq!(
        removed_lines(br#"[{"Untagged":"a:1"},{"Deleted":"sha256:x"},{}]"#),
        Some(vec!["Untagged: a:1".to_string(), "Deleted: sha256:x".to_string()])
    );
    assert_eq!(removed_lines(b"{}"), Some(vec![]));
    assert_eq!(removed_lines(b"{"), None);
    assert_eq!(
        network_prune_line(br#"{"NetworksDeleted":["a","b"]}"#).as_deref(),
        Some("Deleted 2 unused network(s)")
    );
    assert_eq!(
        volume_prune_line(br#"{"VolumesDeleted":3}"#).as_deref(),
        Some("Deleted 3 volume(s)")
    );
    assert_eq!(
        pruned_networks_line(br#"{"NetworksDeleted":["a"]}"#).as_deref(),
        Some("Deleted 1 network(s)")
    );
    let one = br#"{"SpaceReclaimed":5}"#;
    let volumes = br#"{"Reclaimable":2}"#;
    assert_eq!(reclaimed(one, one, volumes), Some(12));
    assert_eq!(reclaimed(one, b"{}", volumes), Some(7));
    assert_eq!(reclaimed(one, b"?", volumes), None);
}

#[test]
fn messages_are_shown_as_they_come() {
    let doc = br#"{"status":"Pulling","id":"x","progress":"[=>]"}"#;
    match progress_in(doc) {
        ProgressLine::Line(l) => assert_eq!(l, "Pulling [\"x\"] \"[=>]\""),
        _ => panic!("a line"),
    }
    assert!(matches!(progress_in(br#"{"error":"no"}"#), ProgressLine::Error(e) if e == "no"));
    assert!(matches!(build_message(br#"{"stream":"a\n"}"#), ProgressLine::Inline(l) if l == "a\n"));
    assert!(matches!(build_message(b"{}"), ProgressLine::Nothing));
}

#[test]
fn replies_describe_the_daemon() {
    let v = versions_in(br#"{"Version":"1.2"}"#).unwrap();
    assert_eq!((v.0.as_deref(), v.1.as_deref()), (Some("1.2"), None));
    assert_eq!(versions_in(b"x"), None);
    let (root, options) =
        state_in(br#"{"DockerRootDir":"/data","SecurityOptions":["seccomp"]}"#).unwrap();
    assert_eq!((root.as_str(), options.len()), ("/data", 1));
    assert_eq!(state_in(b"{}").unwrap().0, "/var/lib/ingot");
}

#[test]
fn containers_list_their_endpoints() {
    let doc = br#"{"endpoints":[{"network_id":"n1","ip":"10.0.0.2"},{"ip":"10.0.0.3"},{"network_id":"n2","ip":"10.0.0.4"}]}"#;
    assert_eq!(
        endpoints_in(doc),
        vec![
            ("n1".to_string(), "10.0.0.2".to_string()),
            ("n2".to_string(), "10.0.0.4".to_string())
        ]
    );
    assert!(endpoints_in(b"{}").is_empty());
    assert!(endpoints_in(b"no").is_empty());
}

#[test]
fn lines_are_handed_on_once_however_they_are_cut() {
    let all = b"{\"a\":1}\n\nnot json\n  [2]  \r\n{\"last\":true}";
    for cut in 0..all.len() {
        let mut s = LineStream::new(200);
        let mut got = s.take_in(&all[..cut]);
        got.extend(s.take_in(&all[cut..]));
        got.extend(s.end().unwrap());
        assert_eq!(got, vec!["{\"a\":1}", "[2]", "{\"last\":true}"], "cut at {cut}");
    }
}

#[test]
fn a_refusal_hands_nothing_on() {
    let mut s = LineStream::new(404);
    assert!(s.take_in(b"{\"mess").is_empty());
    assert!(s.take_in(b"age\":\"no such image\"}\n").is_empty());
    assert_eq!(s.end().unwrap_err(), "Error response from daemon (404): no such image");
    assert!(LineStream::new(204).end().unwrap().is_empty());
}
