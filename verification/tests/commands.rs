use ingot::commands::{
    build_url, confirms, container_head, container_line, container_url, cp_plan, create_url,
    df_lines, exec_body, exec_start_body, human_created, image_head, image_line, images_url, info_lines, is_sent,
    layers_size, logs_url, on_failure, network_connect_body, network_create_body, network_disconnect_body,
    parse_list_format, parse_secret_spec, progress_line, ps_url, pull_url, push_path, push_url,
    quiet_id, repo_and_tag, rmi_lines, run_body, run_steps, secrets_body, show_id, split_cp_spec, table_row, tag_url,
    truncate, version_lines, volume_create_body, walks_into, with_slashes, write_pairs,
    ContainerRow, CopyPlan, ListFormat, ProgressLine, RunOpts, RunStep, SecretFrom,
};

#[test]
fn push_path_splits_name_and_tag() {
    // Default registry drops the host; the repo keeps its slashes
    // encoded for the single-segment route.
    assert_eq!(
        push_path("busybox:1.36").unwrap(),
        ("library%2Fbusybox".to_string(), Some("1.36".to_string()))
    );
    assert_eq!(
        push_path("myuser/myapp").unwrap(),
        ("myuser%2Fmyapp".to_string(), Some("latest".to_string()))
    );
    // Custom registries stay qualified, ports intact.
    assert_eq!(
        push_path("127.0.0.1:5000/team/app:dev").unwrap(),
        ("127.0.0.1:5000%2Fteam%2Fapp".to_string(), Some("dev".to_string()))
    );
    // Digest-only references carry no tag for the query.
    let (name, tag) = push_path(
        "busybox@sha256:0123456789abcdef0123456789abcdef0123456789abcdef0123456789abcdef",
    )
    .unwrap();
    assert_eq!(name, "library%2Fbusybox");
    assert_eq!(tag, None);
    assert!(push_path("").is_err());
}

#[test]
fn list_format_parsing() {
    assert_eq!(parse_list_format(None).unwrap(), None);
    assert_eq!(parse_list_format(Some("table")).unwrap(), Some(ListFormat::Table));
    assert_eq!(parse_list_format(Some("json")).unwrap(), Some(ListFormat::Json));
    // Go templates and anything else fail closed with guidance.
    let err = parse_list_format(Some("{{.ID}}")).unwrap_err();
    assert!(err.contains("table") && err.contains("json"), "{err}");
}

#[test]
fn ages_are_told_in_one_unit() {
    assert_eq!(human_created(-5), "0 seconds ago");
    assert_eq!(human_created(59), "59 seconds ago");
    assert_eq!(human_created(61), "1 minutes ago");
    assert_eq!(human_created(7200), "2 hours ago");
    assert_eq!(human_created(200_000), "2 days ago");
}

#[test]
fn rows_are_lined_up() {
    assert_eq!(table_row(&["a", "bb"], &[3, 0]), "a   bb");
    assert_eq!(table_row(&["abcd", "x"], &[3, 2]), "abcd x ");
    assert!(container_head().starts_with("CONTAINER ID"));
    assert!(image_head().starts_with("REPOSITORY"));
    let row = ContainerRow {
        id: "0123456789abcdef".to_string(),
        image: "busybox".to_string(),
        command: "sh".to_string(),
        age: "1 hours ago".to_string(),
        status: "Up".to_string(),
        name: "/web".to_string(),
    };
    let line = container_line(&row, false);
    assert!(line.starts_with("0123456789ab "), "{line}");
    assert!(line.trim_end().ends_with("web") && !line.contains("/web"), "{line}");
    assert!(image_line(Some("a:1"), "sha256:0123456789abcdef", false, "now", "1B").contains("a"));
    assert_eq!(show_id("0123456789abcdef", true), "0123456789abcdef");
    assert_eq!(quiet_id("0123456789abcdef", false), "0123456789ab");
    assert_eq!(repo_and_tag(Some("a:1")), ("a".to_string(), "1".to_string()));
    assert_eq!(repo_and_tag(None), ("<none>".to_string(), "<none>".to_string()));
    assert_eq!(truncate("abc", 5), "abc");
    assert_eq!(truncate("abcdefgh", 5), "abcde…");
}

#[test]
fn requests_name_what_they_ask_for() {
    assert_eq!(ps_url(true, &[]), "/containers/json?all=1");
    assert_eq!(images_url(&[]), "/images/json");
    assert!(ps_url(false, &["status=running".to_string()]).contains("&filters=%7B"));
    assert_eq!(
        pull_url("busybox", None).unwrap(),
        "/images/create?fromImage=library/busybox&tag=latest"
    );
    assert!(pull_url("busybox", Some("linux/amd64")).unwrap().ends_with("&platform=linux/amd64"));
    assert_eq!(push_url("busybox:1").unwrap(), "/images/library%2Fbusybox/push?tag=1");
    assert!(tag_url("abc", "x:2").unwrap().starts_with("/images/abc/tag?repo="));
    assert_eq!(create_url(Some("n")), "/containers/create?name=n");
    assert_eq!(create_url(None), "/containers/create");
    assert_eq!(container_url("c", "/start"), "/containers/c/start");
    assert!(logs_url("c", true, Some("5")).ends_with("follow=1&tail=5"));
    assert!(build_url(&["t:1".to_string()], "Dockerfile", true, &[], false).starts_with("/build?"));
}

fn json(s: &str) -> serde_json::Value {
    serde_json::from_str(s).unwrap()
}

#[test]
fn bodies_are_json() {
    let opts = RunOpts {
        detach: true,
        name: None,
        publish: vec!["8080:80".to_string(), "9090:80".to_string()],
        env: vec!["A=\"b\"".to_string()],
        volume: vec![],
        network: "bridge".to_string(),
        tty: false,
        interactive: true,
        rm: true,
        workdir: None,
        dns: vec![],
        dns_search: vec![],
        dns_opt: vec![],
    };
    let v = json(&run_body(&opts, "busybox", &vec!["sh".to_string()]).unwrap());
    assert_eq!(v["Image"], "busybox");
    assert_eq!(v["Env"][0], "A=\"b\"");
    assert_eq!(v["OpenStdin"], true);
    assert_eq!(v["HostConfig"]["AutoRemove"], true);
    assert_eq!(v["HostConfig"]["PortBindings"]["80/tcp"][0]["HostPort"], "8080");
    assert_eq!(v["HostConfig"]["PortBindings"]["80/tcp"][1]["HostPort"], "9090");
    let bad = RunOpts { publish: vec!["x:80".to_string()], ..opts };
    assert!(run_body(&bad, "busybox", &vec![]).is_err());

    let v = json(&exec_body(true, false, &vec!["ls".to_string()]).unwrap());
    assert_eq!(v["Cmd"][0], "ls");
    assert!(exec_body(true, false, &vec![]).is_err());

    let v = json(&network_create_body("n", Some("10.0.0.0/24"), None, true, &["a=b".to_string()]));
    assert_eq!(v["Name"], "n");
    assert_eq!(v["Labels"]["a"], "b");
    let v = json(&volume_create_body(Some("v"), &[]));
    assert_eq!(v["Name"], "v");
    let v = json(&network_connect_body("c", &vec!["x".to_string()]));
    assert_eq!(v["EndpointConfig"]["Aliases"][0], "x");
    let v = json(&network_disconnect_body("c", true));
    assert_eq!(v["Force"], true);
}

#[test]
fn pairs_are_sorted_and_the_last_value_counts() {
    let v = ["b=1".to_string(), "a=2".to_string(), "b=3".to_string(), "none".to_string()];
    assert_eq!(write_pairs(&v, false), r#"{"a":"2","b":"3"}"#);
    assert_eq!(write_pairs(&v, true), r#"{"a":["2"],"b":["3"]}"#);
}

#[test]
fn progress_is_told_by_its_kind() {
    assert!(matches!(
        progress_line(None, None, "", Some("text"), None),
        ProgressLine::Inline(s) if s == "text"
    ));
    assert!(matches!(progress_line(None, None, "", None, Some("bad")), ProgressLine::Error(_)));
    assert!(matches!(progress_line(Some("Pulling"), None, "", None, None), ProgressLine::Line(_)));
    assert!(matches!(progress_line(None, None, "", None, None), ProgressLine::Nothing));
}

#[test]
fn secrets_name_their_source() {
    let s = parse_secret_spec("id=a,src=/x").unwrap();
    assert_eq!(s.id, "a");
    assert!(matches!(s.from, SecretFrom::File(p) if p == "/x"));
    let s = parse_secret_spec("id=a,env=V").unwrap();
    assert_eq!(s.id, "a");
    assert!(matches!(s.from, SecretFrom::Variable(v) if v == "V"));
    for bad in ["src=/x", "id=,src=/x", "id=a", "id=a,src=/x,env=V", "id=a,what=1", "plain"] {
        assert!(parse_secret_spec(bad).is_err(), "{bad}");
    }
}

#[test]
fn contexts_always_hold_their_dockerfile() {
    assert!(is_sent("Dockerfile", "Dockerfile", false, true));
    assert!(is_sent(".dockerignore", "Dockerfile", false, true));
    assert!(!is_sent("secret", "Dockerfile", false, true));
    assert!(is_sent("src", "Dockerfile", true, true));
    assert!(walks_into("docker", "docker/Dockerfile", true, true, false));
    assert!(!walks_into("node_modules", "Dockerfile", true, true, false));
    assert!(walks_into("node_modules", "Dockerfile", true, true, true));
    assert_eq!(with_slashes("a\\b"), "a/b");
}

#[test]
fn copies_go_one_way() {
    assert_eq!(split_cp_spec("c:/x"), Some(("c".to_string(), "/x".to_string())));
    assert_eq!(split_cp_spec("./a:b"), None);
    assert!(matches!(cp_plan("c:/x", "."), Ok(CopyPlan::Download(_))));
    assert!(matches!(cp_plan(".", "c:/x"), Ok(CopyPlan::Upload(_))));
    assert!(cp_plan("a", "b").is_err());
    assert!(cp_plan("a:/x", "b:/y").is_err());
}

#[test]
fn removals_and_confirmations() {
    assert_eq!(
        rmi_lines(Some("a:1"), Some("sha256:x")),
        vec!["Untagged: a:1".to_string(), "Deleted: sha256:x".to_string()]
    );
    assert!(rmi_lines(None, Some("")).is_empty());
    assert!(confirms(" Y \n"));
    assert!(!confirms("no"));
}

#[test]
fn the_daemon_describes_itself() {
    let doc = br#"{"Version":"1.2","ApiVersion":"1.45","MinAPIVersion":"1.24","Os":"linux","Arch":"amd64"}"#;
    let v = version_lines(doc, "/run/s").unwrap();
    assert_eq!(v[0], "Server: /run/s");
    assert_eq!(v[2], "  Version:   1.2");
    assert_eq!(v[3], "  API ver:   1.45 (min 1.24)");
    assert_eq!(v[5], "  Kernel:    ?");
    let doc = br#"{"Containers":3,"MemTotal":3145728,"Driver":"overlay2"}"#;
    let v = info_lines(doc).unwrap();
    assert_eq!(v[0], "Containers: 3");
    assert_eq!(v[3], "Storage Driver: overlay2");
    assert_eq!(v[8], "MemTotal: 3 MB");
    let doc = br#"{"Images":[1,2],"LayersSize":77,"Volumes":[]}"#;
    assert_eq!(layers_size(doc), 77);
    let v = df_lines(doc, "77B").unwrap();
    assert_eq!(v[1], "Images          2         0         77B         0B (0%)");
    assert_eq!(v[3], "Local Volumes   0         0         0B          0B (0%)");
    assert!(version_lines(b"<html>", "/run/s").is_none());
    assert!(info_lines(b"").is_none());
    assert!(df_lines(b"{", "").is_none());
}

#[test]
fn requests_hold_what_they_are_for() {
    assert_eq!(exec_start_body(true), r#"{"Detach":false,"Tty":true}"#);
    let pair = |k: &str, v: &str| (k.to_string(), v.to_string());
    let secrets = vec![pair("b", "1"), pair("a", "\"q\""), pair("b", "2")];
    assert_eq!(secrets_body(&secrets), r#"{"a":"\"q\"","b":"2"}"#);
    assert_eq!(secrets_body(&vec![]), "{}");
}

#[test]
fn a_container_that_does_not_start_is_removed() {
    assert_eq!(on_failure(RunStep::Start), Some(RunStep::Remove));
    assert_eq!(on_failure(RunStep::Wait), None);
    assert_eq!(on_failure(RunStep::Attach), None);
}

#[test]
fn run_starts_its_container_in_every_mode() {
    assert_eq!(run_steps(true, false), vec![RunStep::Start, RunStep::ShowId]);
    assert_eq!(run_steps(true, true), vec![RunStep::Start, RunStep::ShowId]);
    assert_eq!(
        run_steps(false, true),
        vec![RunStep::Attach, RunStep::Start, RunStep::Stream, RunStep::Wait]
    );
    assert_eq!(run_steps(false, false), vec![RunStep::Start, RunStep::Follow, RunStep::Wait]);
}
