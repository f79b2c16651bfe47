use ingot::compose::{
    BuildSpec, ComposeFile, DepCondition, EnvSpec, PullAction, ServiceConfig, StringOrList,
};
use ingot::project::{
    check_services, choose_services, completed, container_name, created_id, gate, health,
    image_step, is_asked_for, is_conflict, listed_name, log_lines, network_body, owned_name,
    plan_image, profiles_line, project_containers, ps_head, ps_line, service_binds, service_body,
    volume_body, Gate, ImagePlan, ImageStep, Readiness,
};
use ingot::table::Table;

fn json(s: &str) -> serde_json::Value {
    serde_json::from_str(s).unwrap()
}

fn image(name: &str) -> ServiceConfig {
    ServiceConfig { image: Some(name.to_string()), ..Default::default() }
}

#[test]
fn networks_and_volumes_belong_to_their_project() {
    assert_eq!(owned_name("p", "v"), "p_v");
    let v = json(&network_body("p"));
    assert_eq!(v["Name"], "p_default");
    assert_eq!(v["CheckDuplicate"], true);
    assert_eq!(v["Labels"]["com.docker.compose.project"], "p");
    let v = json(&volume_body("p", "data"));
    assert_eq!(v["Name"], "p_data");
    assert_eq!(v["Driver"], "local");
    assert!(is_conflict("409 Conflict"));
    assert!(is_conflict("network p_default already exists"));
    assert!(!is_conflict("no space"));
}

#[test]
fn services_without_an_active_profile_stay_out() {
    let mut t = Table { entries: Vec::new() };
    t.entries.push(("a".to_string(), image("x")));
    t.entries.push((
        "b".to_string(),
        ServiceConfig { profiles: vec!["p".to_string()], ..image("y") },
    ));
    let (kept, told) = choose_services(t, &vec![]);
    assert_eq!(kept.entries.len(), 1);
    assert_eq!(kept.entries[0].0, "a");
    assert_eq!(told, vec!["Service b skipped (profiles [p] not active)"]);
}

#[test]
fn faults_are_found_before_anything_starts() {
    let mut t = Table { entries: Vec::new() };
    t.entries.push(("a".to_string(), image("x")));
    t.entries.push((
        "b".to_string(),
        ServiceConfig { pull_policy: Some("sometimes".to_string()), ..image("y") },
    ));
    let file = ComposeFile::default();
    let order = vec!["a".to_string(), "b".to_string()];
    let e = check_services(&order, &t, &file, "/d", &vec![], false).unwrap_err();
    assert!(e.starts_with("service b: unknown pull_policy"), "{e}");
    assert!(check_services(&order, &t, &file, "/d", &vec![], true).is_ok());
}

#[test]
fn dependencies_are_waited_for() {
    assert!(matches!(gate("a", "b", DepCondition::Started, false), Gate::Pass));
    assert!(matches!(gate("a", "b", DepCondition::Healthy, true), Gate::AwaitHealthy));
    assert!(matches!(gate("a", "b", DepCondition::Completed, true), Gate::AwaitExit));
    match gate("a", "b", DepCondition::Healthy, false) {
        Gate::Refuse(e) => {
            assert_eq!(e, "service a waits for b, which was not started by this project")
        }
        _ => panic!("it was not started"),
    }
}

#[test]
fn health_is_read_from_the_container() {
    let doc = |status: &str| {
        format!(r#"{{"State":{{"Running":true,"Health":{{"Status":"{status}"}}}}}}"#)
    };
    assert!(matches!(health(doc("healthy").as_bytes(), "db", false), Readiness::Ready));
    assert!(matches!(health(doc("starting").as_bytes(), "db", false), Readiness::Again));
    let failed = |r: Readiness| match r {
        Readiness::Failed(e) => e,
        _ => panic!("it failed"),
    };
    assert_eq!(
        failed(health(doc("starting").as_bytes(), "db", true)),
        "dependency db did not become healthy within 60s"
    );
    assert_eq!(
        failed(health(doc("unhealthy").as_bytes(), "db", false)),
        "dependency db reported unhealthy"
    );
    assert!(failed(health(doc("none").as_bytes(), "db", false)).contains("no healthcheck"));
    assert!(failed(health(br#"{"State":{"Running":true}}"#, "db", false))
        .contains("no healthcheck"));
    assert!(failed(health(b"{}", "db", false)).contains("not running"));
    assert!(completed(br#"{"StatusCode":0}"#, "db").is_ok());
    assert_eq!(
        completed(br#"{"StatusCode":7}"#, "db"),
        Err("dependency db exited with status 7".to_string())
    );
    assert_eq!(completed(b"{}", "db"), Err("dependency db exited with status -1".to_string()));
}

#[test]
fn images_come_from_where_the_policy_says() {
    let s = ServiceConfig {
        build: Some(BuildSpec::Detailed {
            context: Some("ctx".to_string()),
            dockerfile: None,
        }),
        ..Default::default()
    };
    match plan_image(&s, "p", "web", PullAction::Build, "/d") {
        ImagePlan::Build { tag, context, dockerfile } => {
            assert_eq!(tag, "p-web:latest");
            assert_eq!(context, "/d/ctx");
            assert_eq!(dockerfile, "Dockerfile");
        }
        _ => panic!("it is built"),
    }
    assert!(matches!(
        plan_image(&image("x"), "p", "web", PullAction::PullAlways, "/d"),
        ImagePlan::Fetch(i) if i == "x"
    ));
    assert!(matches!(
        plan_image(&s, "p", "web", PullAction::PullIfMissing, "/d"),
        ImagePlan::Neither(_)
    ));
    assert!(matches!(image_step(PullAction::PullIfMissing, "x", "web", true), ImageStep::Use));
    assert!(matches!(
        image_step(PullAction::PullIfMissing, "x", "web", false),
        ImageStep::Pull(m) if m == "Pulling x..."
    ));
    assert!(matches!(image_step(PullAction::PullAlways, "x", "web", true), ImageStep::Pull(_)));
    assert!(matches!(
        image_step(PullAction::RequireLocal, "x", "web", false),
        ImageStep::Refuse(e) if e.contains("pull_policy is \"never\"")
    ));
}

#[test]
fn containers_are_asked_for_in_full() {
    let mut file = ComposeFile::default();
    file.volumes.entries.push(("data".to_string(), None));
    let s = ServiceConfig {
        command: Some(StringOrList::Text("sleep 1".to_string())),
        environment: Some(EnvSpec::List(vec!["A=1".to_string()])),
        ports: vec!["8080:80".to_string()],
        volumes: vec!["data:/d".to_string(), "./x:/y".to_string(), "other:/z".to_string()],
        restart: Some("always".to_string()),
        ..image("busybox")
    };
    let v = json(&service_body(&s, "busybox", "p", "web", &file, "/dir", &vec![]).unwrap());
    assert_eq!(v["Cmd"][1], "1");
    assert!(v["Entrypoint"].is_null());
    assert_eq!(v["Labels"]["com.docker.compose.service"], "web");
    assert_eq!(v["HostConfig"]["NetworkMode"], "p_default");
    assert_eq!(v["HostConfig"]["Binds"][0], "p_data:/d");
    assert_eq!(v["HostConfig"]["Binds"][1], "/dir/./x:/y");
    assert_eq!(v["HostConfig"]["Binds"][2], "other:/z");
    assert_eq!(v["HostConfig"]["PortBindings"]["80/tcp"][0]["HostPort"], "8080");
    assert_eq!(v["HostConfig"]["RestartPolicy"]["Name"], "always");
    assert_eq!(v["HostConfig"]["NanoCpus"], 0);
    let bad = ServiceConfig { ports: vec!["x".to_string()], ..s };
    assert!(service_body(&bad, "busybox", "p", "web", &file, "/dir", &vec![]).is_err());
    assert_eq!(container_name(&image("x"), "p", "web"), "p-web-1");
    assert_eq!(created_id(br#"{"Id":"abc"}"#, "n").as_deref(), Some("abc"));
    assert_eq!(created_id(b"{}", "n").as_deref(), Some("n"));
    assert_eq!(created_id(b"no JSON", "n"), None);
    assert_eq!(service_binds(&vec!["/only".to_string()], &vec![], "p", "/d"), vec!["/only"]);
}

#[test]
fn a_project_knows_its_containers() {
    let doc = br#"[
        {"Id":"1","Names":["/p-web-1"],"Image":"x","Status":"Up",
         "Labels":{"com.docker.compose.project":"p","com.docker.compose.service":"web"},
         "Ports":[{"PublicPort":8080,"PrivatePort":80,"Type":"tcp"},{"PrivatePort":81,"Type":"tcp"}]},
        {"Id":"2","Labels":{"com.docker.compose.project":"p"}},
        {"Id":"3","Labels":{"com.docker.compose.project":"q"}},
        {"Id":"4"}
    ]"#;
    let v = project_containers(doc, "p").unwrap();
    assert_eq!(v.len(), 2);
    assert_eq!(listed_name(&v[0]), "p-web-1");
    assert_eq!(listed_name(&v[1]), "2");
    assert_eq!(v[0].ports, vec!["0.0.0.0:8080->80/tcp"]);
    assert!(is_asked_for(&v[0], &vec![]));
    assert!(is_asked_for(&v[0], &vec!["web".to_string()]));
    assert!(!is_asked_for(&v[1], &vec!["web".to_string()]));
    assert!(project_containers(b"{}", "p").is_none());
    assert!(ps_head().starts_with("NAME                      IMAGE"));
    let line = ps_line(&v[0]);
    assert!(line.starts_with("p-web-1                   x"), "{line}");
    assert!(line.ends_with("0.0.0.0:8080->80/tcp"), "{line}");
    assert!(ps_line(&v[1]).starts_with("?"));
}

#[test]
fn logs_stand_behind_their_container() {
    assert_eq!(log_lines("web", b"one\r\ntwo"), vec!["web | one", "web | two"]);
    assert_eq!(profiles_line(&vec![]), "Profiles: (none active)");
    assert_eq!(profiles_line(&vec!["a".to_string(), "b".to_string()]), "Profiles: a, b");
}
