use ingot::compose::{BuildSpec, ComposeFile, DependValue, DependsOnSpec, ServiceConfig};
use ingot::rollout::{Heard, Refusal, Rollout, RolloutAction, RolloutStage, RolloutState};
use ingot::table::Table;

fn service(image: &str, depends: &[(&str, &str)]) -> ServiceConfig {
    let waits = depends
        .iter()
        .map(|(d, c)| (d.to_string(), DependValue::Object(Some(c.to_string()))))
        .collect();
    ServiceConfig {
        image: Some(image.to_string()),
        depends_on: if depends.is_empty() {
            None
        } else {
            Some(DependsOnSpec::Entries(Table { entries: waits }))
        },
        ..Default::default()
    }
}

fn plan_of(services: Vec<(&str, ServiceConfig)>) -> Result<Rollout, String> {
    let entries = services.into_iter().map(|(n, s)| (n.to_string(), s)).collect();
    Rollout::new(
        "p".to_string(),
        "/src".to_string(),
        ComposeFile::default(),
        Table { entries },
        Vec::new(),
        false,
    )
}

fn heard(doc: &str) -> Heard {
    Heard { doc: doc.as_bytes().to_vec(), present: false, late: false, refused: None }
}

fn here() -> Heard {
    Heard { doc: Vec::new(), present: true, late: false, refused: None }
}

const HEALTHY: &str = r#"{"State":{"Running":true,"Health":{"Status":"healthy"}}}"#;
const STARTING: &str = r#"{"State":{"Running":true,"Health":{"Status":"starting"}}}"#;
const UNHEALTHY: &str = r#"{"State":{"Running":true,"Health":{"Status":"unhealthy"}}}"#;

/// The first action for a service, once the network is made.
fn begin(plan: &Rollout) -> (RolloutState, RolloutAction) {
    let (state, action) = plan.begin();
    assert!(matches!(&action, RolloutAction::CreateNetwork { name, .. } if name == "p_default"));
    plan.step(state, &heard(""))
}

/// Brings a service up whose image is there, from the look at its image on.
fn bring_up(plan: &Rollout, state: RolloutState, id: &str) -> (RolloutState, RolloutAction) {
    let (state, action) = plan.step(state, &here());
    assert!(matches!(action, RolloutAction::Remove(_)), "{action:?}");
    let (state, action) = plan.step(state, &heard(""));
    assert!(matches!(action, RolloutAction::Create { .. }), "{action:?}");
    let (state, action) = plan.step(state, &heard(&format!(r#"{{"Id":"{id}"}}"#)));
    assert!(matches!(&action, RolloutAction::Start { id: i, .. } if i == id), "{action:?}");
    plan.step(state, &heard(""))
}

#[test]
fn dependent_starts_once_its_dependency_is_healthy() {
    let plan = plan_of(vec![
        ("web", service("nginx", &[("db", "service_healthy")])),
        ("db", service("postgres", &[])),
    ])
    .unwrap();
    assert_eq!(plan.order, vec!["db".to_string(), "web".to_string()]);
    let (state, action) = begin(&plan);
    assert!(matches!(&action, RolloutAction::Look(i) if i == "postgres"), "{action:?}");
    let (state, action) = bring_up(&plan, state, "id-db");
    assert_eq!(state.ids, vec!["id-db".to_string()]);
    match &action {
        RolloutAction::Inspect { service, dep, id } => {
            assert_eq!((service.as_str(), dep.as_str(), id.as_str()), ("web", "db", "id-db"));
        }
        other => panic!("{other:?}"),
    }
    // It is looked at until it is healthy.
    let (state, action) = plan.step(state, &heard(STARTING));
    assert!(matches!(action, RolloutAction::Inspect { .. }), "{action:?}");
    assert!(matches!(state.stage, RolloutStage::Waiting(0)));
    let (state, action) = plan.step(state, &heard(HEALTHY));
    assert!(matches!(&action, RolloutAction::Look(i) if i == "nginx"), "{action:?}");
    let (state, action) = bring_up(&plan, state, "id-web");
    assert!(matches!(action, RolloutAction::Done), "{action:?}");
    assert_eq!(state.ids, vec!["id-db".to_string(), "id-web".to_string()]);
}

#[test]
fn dependent_fails_with_its_dependency() {
    let plan = plan_of(vec![
        ("web", service("nginx", &[("db", "service_healthy")])),
        ("db", service("postgres", &[])),
    ])
    .unwrap();
    let (state, _) = bring_up(&plan, begin(&plan).0, "id-db");
    match plan.step(state.clone(), &heard(UNHEALTHY)).1 {
        RolloutAction::Fail(e) => assert_eq!(
            e,
            "service web: dependency db never became healthy: dependency db reported unhealthy"
        ),
        other => panic!("{other:?}"),
    }
    let late = Heard { late: true, ..heard(STARTING) };
    match plan.step(state, &late).1 {
        RolloutAction::Fail(e) => assert!(e.ends_with("did not become healthy within 60s"), "{e}"),
        other => panic!("{other:?}"),
    }
}

#[test]
fn dependent_starts_once_its_dependency_has_ended_well() {
    let done = "service_completed_successfully";
    let plan = plan_of(vec![
        ("app", service("app", &[("init", done)])),
        ("init", service("init", &[])),
    ])
    .unwrap();
    let (state, action) = bring_up(&plan, begin(&plan).0, "id-init");
    assert!(matches!(action, RolloutAction::Wait { .. }), "{action:?}");
    let (_, action) = plan.step(state.clone(), &heard(r#"{"StatusCode":0}"#));
    assert!(matches!(action, RolloutAction::Look(_)), "{action:?}");
    match plan.step(state, &heard(r#"{"StatusCode":3}"#)).1 {
        RolloutAction::Fail(e) => assert_eq!(
            e,
            "service app: dependency init did not exit 0: dependency init exited with status 3"
        ),
        other => panic!("{other:?}"),
    }
}

#[test]
fn a_fault_is_found_before_anything_is_started() {
    let bad = ServiceConfig { pull_policy: Some("sometimes".into()), ..service("x", &[]) };
    let e = plan_of(vec![("good", service("y", &[])), ("bad", bad)]).err().unwrap();
    assert!(e.starts_with("service bad: "), "{e}");
    let e = plan_of(vec![("odd", service("x", &[("y", "service_dancing")]))]).err().unwrap();
    assert!(e.starts_with("service odd: "), "{e}");
}

#[test]
fn unknown_dependency_is_refused_and_policies_are_kept() {
    let plan =
        plan_of(vec![("web", service("nginx", &[("db", "service_healthy")]))]).unwrap();
    match begin(&plan).1 {
        RolloutAction::Fail(e) => assert_eq!(
            e,
            "service web waits for db, which was not started by this project"
        ),
        other => panic!("{other:?}"),
    }
    // An image that is missing is pulled, unless the policy forbids it.
    let plan = plan_of(vec![("web", service("nginx", &[]))]).unwrap();
    let (state, _) = begin(&plan);
    let (state, action) = plan.step(state, &heard(""));
    assert!(matches!(&action, RolloutAction::Pull { image, .. } if image == "nginx"));
    let (_, action) = plan.step(state, &heard(""));
    assert!(matches!(&action, RolloutAction::Remove(n) if n == "p-web-1"), "{action:?}");
    let never = ServiceConfig { pull_policy: Some("never".into()), ..service("nginx", &[]) };
    let plan = plan_of(vec![("web", never)]).unwrap();
    match plan.step(begin(&plan).0, &heard("")).1 {
        RolloutAction::Fail(e) => assert!(e.contains("is not present locally"), "{e}"),
        other => panic!("{other:?}"),
    }
    // A service with nothing to run fails, an empty project is up at once.
    let plan = plan_of(vec![("web", ServiceConfig::default())]).unwrap();
    assert!(matches!(begin(&plan).1, RolloutAction::Fail(_)));
    assert!(matches!(begin(&plan_of(Vec::new()).unwrap()).1, RolloutAction::Done));
}

fn refused(text: &str) -> Heard {
    let refusal = Refusal { shown: text.to_string(), whole: format!("{text}: whole") };
    Heard { refused: Some(refusal), ..heard("") }
}

/// The failure that a refusal of the present request leads to.
fn failure(plan: &Rollout, state: &RolloutState) -> String {
    match plan.step(state.clone(), &refused("no")) {
        (end, RolloutAction::Fail(e)) => {
            assert_eq!(end.ids, state.ids);
            assert!(matches!(plan.step(end, &heard("{}")).0.stage, RolloutStage::Over));
            e
        }
        (_, other) => panic!("{other:?}"),
    }
}

#[test]
fn a_refused_request_ends_the_rollout() {
    let plan = plan_of(vec![
        ("web", service("nginx", &[("db", "service_healthy")])),
        ("db", service("postgres", &[])),
    ])
    .unwrap();
    let (looking, _) = begin(&plan);
    let (state, action) = plan.step(looking.clone(), &heard(""));
    assert!(matches!(action, RolloutAction::Pull { .. }), "{action:?}");
    assert_eq!(failure(&plan, &state), "no: whole");
    // A look or a removal that is refused is not missed.
    let (state, action) = plan.step(looking, &refused("no"));
    assert!(matches!(action, RolloutAction::Pull { .. }), "{action:?}");
    let (state, action) = plan.step(state, &heard(""));
    assert!(matches!(action, RolloutAction::Remove(_)), "{action:?}");
    let (state, action) = plan.step(state, &refused("no"));
    assert!(matches!(action, RolloutAction::Create { .. }), "{action:?}");
    assert_eq!(failure(&plan, &state), "create container for db: no: whole");
    let (state, _) = plan.step(state, &heard(r#"{"Id":"id-db"}"#));
    assert_eq!(failure(&plan, &state), "start container for db: no: whole");
    let (state, action) = plan.step(state, &heard(""));
    assert!(matches!(action, RolloutAction::Inspect { .. }), "{action:?}");
    assert_eq!(
        failure(&plan, &state),
        "service web: dependency db never became healthy: inspect dependency db: no: whole"
    );
    let built = ServiceConfig {
        build: Some(BuildSpec::Simple(".".to_string())),
        ..ServiceConfig::default()
    };
    let plan = plan_of(vec![("web", built)]).unwrap();
    let (state, action) = begin(&plan);
    assert!(matches!(action, RolloutAction::Build { .. }), "{action:?}");
    assert_eq!(failure(&plan, &state), "no: whole");
}

#[test]
fn network_and_volumes_are_made_before_services() {
    let mut compose = ComposeFile::default();
    compose.volumes.insert("data".to_string(), None);
    compose.volumes.insert("logs".to_string(), None);
    let entries = vec![("web".to_string(), service("nginx", &[]))];
    let plan = Rollout::new(
        "p".to_string(),
        "/src".to_string(),
        compose,
        Table { entries },
        Vec::new(),
        false,
    )
    .unwrap();
    let (state, action) = plan.begin();
    match &action {
        RolloutAction::CreateNetwork { name, body } => {
            assert_eq!(name, "p_default");
            let v: serde_json::Value = serde_json::from_str(body).unwrap();
            assert_eq!(v["Name"], "p_default");
        }
        other => panic!("{other:?}"),
    }
    // What is there already is no failure, anything else is.
    match plan.step(state.clone(), &refused("no room")).1 {
        RolloutAction::Fail(e) => assert_eq!(e, "failed to create network p_default: no room"),
        other => panic!("{other:?}"),
    }
    let (state, action) = plan.step(state, &refused("409 Conflict"));
    assert!(matches!(&action, RolloutAction::CreateVolume { name, .. } if name == "p_data"));
    match plan.step(state.clone(), &refused("no room")).1 {
        RolloutAction::Fail(e) => assert_eq!(e, "failed to create volume p_data: no room"),
        other => panic!("{other:?}"),
    }
    let (state, action) = plan.step(state, &heard("{}"));
    match &action {
        RolloutAction::CreateVolume { name, body } => {
            assert_eq!(name, "p_logs");
            let v: serde_json::Value = serde_json::from_str(body).unwrap();
            assert_eq!(v["Labels"]["com.docker.compose.volume"], "logs");
        }
        other => panic!("{other:?}"),
    }
    let (_, action) = plan.step(state, &refused("volume already exists"));
    assert!(matches!(action, RolloutAction::Look(_)), "{action:?}");
}

#[test]
fn a_reply_without_json_starts_nothing() {
    let plan = plan_of(vec![("web", service("nginx", &[]))]).unwrap();
    let (state, _) = plan.step(begin(&plan).0, &here());
    let (state, action) = plan.step(state, &heard(""));
    assert!(matches!(action, RolloutAction::Create { .. }), "{action:?}");
    match plan.step(state.clone(), &heard("")).1 {
        RolloutAction::Fail(e) => {
            assert_eq!(e, "create container for web: bad JSON from daemon");
        }
        other => panic!("{other:?}"),
    }
    let (_, action) = plan.step(state, &heard("{}"));
    assert!(matches!(&action, RolloutAction::Start { id, .. } if id == "p-web-1"));
}
