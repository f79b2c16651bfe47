use ingot::compose::{
    active_profiles_from, decide_pull, dependency_conditions, resolve_project_name,
    service_enabled, skipped_message, topological_sort, ComposeFile, ComposeSecretConfig,
    DepCondition, DependValue, DependsOnSpec, DeployConfig, DeployResources, EnvSpec, EnvValue,
    ExtendsSpec, LimitValue, PullAction, ResourceLimits, SecretRef, SecretRefLong, ServiceConfig,
    StringOrList,
};
use ingot::inherit::{apply_extends, extends_missing, join_path, Inherited, LoadedFile};
use ingot::project::{credential_files, credential_mounts, deploy_limits, memory_parts};
use ingot::table::Table;

fn table<V>(pairs: Vec<(&str, V)>) -> Table<V> {
    let mut t = Table { entries: Vec::new() };
    for (k, v) in pairs {
        t.entries.push((k.to_string(), v));
    }
    t
}

fn svc(deps: Option<DependsOnSpec>) -> ServiceConfig {
    ServiceConfig { depends_on: deps, ..Default::default() }
}

fn image(name: &str) -> ServiceConfig {
    ServiceConfig { image: Some(name.to_string()), ..Default::default() }
}

fn main_file(services: Table<ServiceConfig>) -> LoadedFile {
    LoadedFile {
        path: "compose.yaml".to_string(),
        dir: "".to_string(),
        compose: ComposeFile { services, ..Default::default() },
    }
}

fn extending(file: Option<&str>, service: &str) -> ServiceConfig {
    ServiceConfig {
        extends: Some(ExtendsSpec {
            file: file.map(|f| f.to_string()),
            service: service.to_string(),
        }),
        ..Default::default()
    }
}

fn done(r: Inherited<Table<ServiceConfig>>) -> Table<ServiceConfig> {
    match r {
        Inherited::Done(t) => t,
        Inherited::Needs { service, path } => panic!("{service} needs {path}"),
        Inherited::Fails(e) => panic!("{e}"),
    }
}

fn failed(r: Inherited<Table<ServiceConfig>>) -> String {
    match r {
        Inherited::Done(_) => panic!("nothing failed"),
        Inherited::Needs { service, path } => extends_missing(&service, &path),
        Inherited::Fails(e) => e,
    }
}

#[test]
fn pull_policy_matrix() {
    // Default: build only when there is no image to pull.
    assert_eq!(decide_pull(None, true, true, false), Ok(PullAction::PullIfMissing));
    assert_eq!(decide_pull(None, false, true, false), Ok(PullAction::Build));
    assert_eq!(decide_pull(Some("missing"), true, false, false), Ok(PullAction::PullIfMissing));
    assert_eq!(decide_pull(Some("always"), true, true, false), Ok(PullAction::PullAlways));
    assert_eq!(decide_pull(Some("always"), false, true, false), Ok(PullAction::Build));
    assert_eq!(decide_pull(Some("never"), true, false, false), Ok(PullAction::RequireLocal));
    assert_eq!(decide_pull(Some("build"), true, true, false), Ok(PullAction::Build));
    assert_eq!(decide_pull(Some("build"), true, false, false), Ok(PullAction::PullIfMissing));
    // CLI --build always wins.
    assert_eq!(decide_pull(Some("never"), true, true, true), Ok(PullAction::Build));
    // Unknown policies fail closed, never silent `missing`.
    assert!(decide_pull(Some("sometimes"), true, false, false).is_err());
}

#[test]
fn unknown_policies_are_quoted() {
    assert_eq!(
        decide_pull(Some("a\"b"), true, false, false),
        Err("unknown pull_policy \"a\\\"b\" (expected: always, missing, never, build)".to_string())
    );
}

#[test]
fn condition_parsing() {
    assert!(dependency_conditions(None).unwrap().is_empty());
    let list = DependsOnSpec::List(vec!["db".into()]);
    assert_eq!(
        dependency_conditions(Some(&list)).unwrap(),
        vec![("db".to_string(), DepCondition::Started)]
    );
    let map = DependsOnSpec::Entries(table(vec![
        ("db", DependValue::Object(Some("service_healthy".to_string()))),
        ("mig", DependValue::Object(Some("service_completed_successfully".to_string()))),
        ("cache", DependValue::Text("service_started".to_string())),
    ]));
    assert_eq!(
        dependency_conditions(Some(&map)).unwrap(),
        vec![
            ("cache".to_string(), DepCondition::Started),
            ("db".to_string(), DepCondition::Healthy),
            ("mig".to_string(), DepCondition::Completed),
        ]
    );
    let bad = DependsOnSpec::Entries(table(vec![(
        "db",
        DependValue::Object(Some("service_eventually".to_string())),
    )]));
    assert!(dependency_conditions(Some(&bad)).is_err());
}

#[test]
fn topo_orders_dependencies_first() {
    let services = table(vec![
        ("web", svc(Some(DependsOnSpec::List(vec!["db".into()])))),
        ("db", svc(None)),
    ]);
    let order = topological_sort(&services).unwrap();
    assert!(order.iter().position(|s| s == "db") < order.iter().position(|s| s == "web"));
}

#[test]
fn services_that_wait_for_each_other_come_last() {
    let on = |n: &str| svc(Some(DependsOnSpec::List(vec![n.to_string()])));
    let services = table(vec![("a", on("b")), ("b", on("a")), ("c", svc(None)), ("d", on("c"))]);
    assert_eq!(topological_sort(&services).unwrap(), vec!["c", "d", "a", "b"]);
}

#[test]
fn the_greatest_name_goes_first_and_strangers_do_not_count() {
    let services = table(vec![
        ("a", svc(None)),
        ("z", svc(None)),
        ("m", svc(Some(DependsOnSpec::List(vec!["elsewhere".to_string()])))),
    ]);
    assert_eq!(topological_sort(&services).unwrap(), vec!["z", "m", "a"]);
}

#[test]
fn profiles_gate_services() {
    let services = table(vec![
        ("web", image("busybox:latest")),
        (
            "debug",
            ServiceConfig { profiles: vec!["tools".to_string()], ..image("busybox:latest") },
        ),
        (
            "extra",
            ServiceConfig {
                profiles: vec!["tools".to_string(), "extra".to_string()],
                ..image("busybox:latest")
            },
        ),
    ]);
    let none: Vec<String> = vec![];
    assert!(service_enabled(services.get("web").unwrap(), &none));
    assert!(!service_enabled(services.get("debug").unwrap(), &none));
    let tools = vec!["tools".to_string()];
    assert!(service_enabled(services.get("web").unwrap(), &tools));
    assert!(service_enabled(services.get("debug").unwrap(), &tools));
    // Any-match: one active profile suffices for multi-profile services.
    assert!(service_enabled(services.get("extra").unwrap(), &tools));
    let other = vec!["unrelated".to_string()];
    assert!(!service_enabled(services.get("extra").unwrap(), &other));
    assert_eq!(
        skipped_message("extra", &services.get("extra").unwrap().profiles),
        "Service extra skipped (profiles [tools, extra] not active)"
    );
}

#[test]
fn profiles_merge_cli_and_env() {
    let cli = vec!["a".to_string(), "b,a".to_string()];
    // CLI flags merge with COMPOSE_PROFILES, comma-split, deduped.
    assert_eq!(active_profiles_from(&cli, Some("b, c ,")), vec!["a", "b", "c"]);
    assert_eq!(active_profiles_from(&[], None), Vec::<String>::new());
}

#[test]
fn extends_local_file_merges_with_override_winning() {
    let base = ServiceConfig {
        command: Some(StringOrList::Text("sleep 3600".to_string())),
        environment: Some(EnvSpec::Entries(table(vec![
            ("FOO", EnvValue::Text("base".to_string())),
            ("KEEP", EnvValue::Text("1".to_string())),
        ]))),
        ..image("busybox:1.0")
    };
    let over = ServiceConfig {
        image: Some("busybox:2.0".to_string()),
        environment: Some(EnvSpec::Entries(table(vec![(
            "FOO",
            EnvValue::Text("override".to_string()),
        )]))),
        ..extending(Some("base.yaml"), "app")
    };
    let mut files = vec![LoadedFile {
        path: "/work/compose.yaml".to_string(),
        dir: "/work".to_string(),
        compose: ComposeFile { services: table(vec![("app", over)]), ..Default::default() },
    }];
    match apply_extends(&files) {
        Inherited::Needs { service, path } => {
            assert_eq!(service, "app");
            assert_eq!(path, "/work/base.yaml");
        }
        other => panic!("{other:?}"),
    }
    files.push(LoadedFile {
        path: "/work/base.yaml".to_string(),
        dir: "/work".to_string(),
        compose: ComposeFile { services: table(vec![("app", base)]), ..Default::default() },
    });
    let merged = done(apply_extends(&files));
    let app = merged.get("app").unwrap();
    // Override wins whole keys (shallow merge).
    assert_eq!(app.image.as_deref(), Some("busybox:2.0"));
    assert_eq!(app.command.as_ref().unwrap().to_vec(), vec!["sleep", "3600"]);
    let env = app.environment.clone().unwrap().to_vec();
    assert!(env.contains(&"FOO=override".to_string()), "{env:?}");
    // Shallow: the base-only KEEP entry does not survive a replaced map.
    assert!(!env.join(",").contains("KEEP"), "{env:?}");
    assert!(app.extends.is_none());
}

#[test]
fn extends_same_file_and_chain() {
    let files = vec![main_file(table(vec![
        ("base", ServiceConfig { user: Some("1000".to_string()), ..image("busybox:latest") }),
        (
            "mid",
            ServiceConfig {
                command: Some(StringOrList::Text("sleep 1".to_string())),
                ..extending(None, "base")
            },
        ),
        (
            "leaf",
            ServiceConfig { working_dir: Some("/app".to_string()), ..extending(None, "mid") },
        ),
    ]))];
    let merged = done(apply_extends(&files));
    let leaf = merged.get("leaf").unwrap();
    assert_eq!(leaf.image.as_deref(), Some("busybox:latest"));
    assert_eq!(leaf.user.as_deref(), Some("1000"));
    assert_eq!(leaf.working_dir.as_deref(), Some("/app"));
}

#[test]
fn extends_rejects_remote_and_missing() {
    let files = vec![main_file(table(vec![(
        "app",
        extending(Some("https://example.com/base.yaml"), "app"),
    )]))];
    let err = failed(apply_extends(&files));
    assert!(err.contains("remote URL"), "{err}");

    let files =
        vec![main_file(table(vec![("app", extending(Some("does-not-exist.yaml"), "app"))]))];
    let err = failed(apply_extends(&files));
    assert!(err.contains("not found"), "{err}");

    let files =
        vec![main_file(table(vec![("a", extending(None, "b")), ("b", extending(None, "a"))]))];
    let err = failed(apply_extends(&files));
    assert!(err.contains("cycle"), "{err}");
}

#[test]
fn extends_names_what_is_wrong() {
    let one = |s: ServiceConfig| vec![main_file(table(vec![("app", s)]))];
    assert_eq!(
        failed(apply_extends(&one(extending(None, "")))),
        "service app: extends needs a `service:` key naming the base service"
    );
    assert_eq!(
        failed(apply_extends(&one(extending(None, "nobody")))),
        "service app: extends unknown service \"nobody\" in the same file"
    );
    assert_eq!(
        failed(apply_extends(&one(extending(Some("git@host:x"), "app")))),
        "service app: extends file \"git@host:x\" is a remote URL, which is not supported (local files only)"
    );
    assert_eq!(
        failed(apply_extends(&one(extending(None, "app")))),
        "service app: extends cycle detected (compose.yaml#app)"
    );
    let mut files = one(extending(Some("other.yaml"), "x"));
    files.push(LoadedFile { path: "other.yaml".to_string(), ..Default::default() });
    assert_eq!(
        failed(apply_extends(&files)),
        "service app: extends unknown service \"x\" in file other.yaml"
    );
    assert_eq!(
        extends_missing("app", "x.yaml"),
        "service app: extends file \"x.yaml\" not found"
    );
}

#[test]
fn paths_join_below_their_directory() {
    assert_eq!(join_path("/a", "b"), "/a/b");
    assert_eq!(join_path("/a/", "b"), "/a/b");
    assert_eq!(join_path("", "b"), "b");
    assert_eq!(join_path("/a", "/b"), "/b");
}

fn limit(shown: &str, value: Option<i64>) -> Option<LimitValue> {
    Some(LimitValue { shown: shown.to_string(), value })
}

fn memory(s: &str) -> Option<i64> {
    let (n, m) = memory_parts(s)?;
    let n: f64 = n.parse().ok()?;
    if !n.is_finite() || n < 0.0 {
        return None;
    }
    Some((n * m as f64).round() as i64)
}

#[test]
fn deploy_limits_map_to_create_fields() {
    let web = DeployConfig {
        resources: Some(DeployResources {
            limits: Some(ResourceLimits {
                cpus: limit("\"0.50\"", Some(500_000_000)),
                memory: limit("\"512M\"", memory("512M")),
            }),
            reservations: Some(ResourceLimits {
                cpus: limit("\"0.25\"", Some(250_000_000)),
                memory: limit("\"256M\"", memory("256M")),
            }),
        }),
    };
    // 0.5 CPU -> 500M NanoCpus, 512MiB -> bytes; reservations ignored.
    assert_eq!(deploy_limits(Some(&web), "web"), Ok((500_000_000, 512 * 1024 * 1024)));
    assert_eq!(deploy_limits(None, "plain"), Ok((0, 0)));
    assert_eq!(deploy_limits(None, "web"), Ok((0, 0)));
}

#[test]
fn deploy_limits_reject_bad_values_naming_the_field() {
    for (limits, field) in [
        (
            ResourceLimits { cpus: limit("\"lots\"", None), memory: None },
            "deploy.resources.limits.cpus",
        ),
        (
            ResourceLimits { cpus: None, memory: limit("\"10XB\"", memory("10XB")) },
            "deploy.resources.limits.memory",
        ),
        (
            ResourceLimits { cpus: None, memory: limit("-5", None) },
            "deploy.resources.limits.memory",
        ),
    ] {
        let deploy = DeployConfig {
            resources: Some(DeployResources { limits: Some(limits), reservations: None }),
        };
        let err = deploy_limits(Some(&deploy), "web").unwrap_err();
        assert!(err.contains(field), "missing {field:?} in {err:?}");
        assert!(err.contains("service web"), "{err:?}");
    }
    // Numeric forms also accepted.
    let deploy = DeployConfig {
        resources: Some(DeployResources {
            limits: Some(ResourceLimits {
                cpus: limit("2", Some(2_000_000_000)),
                memory: limit("1024", Some(1024)),
            }),
            reservations: None,
        }),
    };
    assert_eq!(deploy_limits(Some(&deploy), "web"), Ok((2_000_000_000, 1024)));
}

#[test]
fn bad_limits_are_told_in_full() {
    let deploy = DeployConfig {
        resources: Some(DeployResources {
            limits: None,
            reservations: Some(ResourceLimits {
                cpus: limit("\"lots\"", None),
                memory: limit("\"x\"", None),
            }),
        }),
    };
    assert_eq!(
        deploy_limits(Some(&deploy), "web"),
        Err("service web: deploy.resources.reservations.cpus \"lots\" is invalid (want a CPU count like \"0.50\" or 2)".to_string())
    );
}

#[test]
fn amounts_of_memory_come_apart() {
    assert_eq!(memory_parts("512M"), Some(("512".to_string(), 1048576)));
    assert_eq!(memory_parts("1 GiB"), Some(("1".to_string(), 1073741824)));
    assert_eq!(memory_parts("256kb"), Some(("256".to_string(), 1024)));
    assert_eq!(memory_parts("10"), Some(("10".to_string(), 1)));
    assert_eq!(memory_parts("10b"), Some(("10".to_string(), 1)));
    assert_eq!(memory_parts(""), None);
}

fn from_file(file: &str) -> ComposeSecretConfig {
    ComposeSecretConfig { file: Some(file.to_string()), ..Default::default() }
}

#[test]
fn secrets_short_and_long_mount_read_only() {
    let dir = "/work/dir";
    let secrets = table(vec![
        ("db-pass", from_file("./db-pass.txt")),
        (
            "env-only",
            ComposeSecretConfig {
                environment: Some("DB_PASS".to_string()),
                ..Default::default()
            },
        ),
    ]);
    let present = credential_files(&secrets, dir);
    let web = vec![
        SecretRef::Short("db-pass".to_string()),
        SecretRef::Long(SecretRefLong {
            source: "db-pass".to_string(),
            target: Some("custom".to_string()),
            uid: Some("1000".to_string()),
            gid: Some("1000".to_string()),
            mode: Some("0o440".to_string()),
        }),
    ];
    let mounts = credential_mounts("secrets", &web, &secrets, "web", dir, &present).unwrap();
    assert_eq!(mounts.len(), 2);
    assert!(mounts[0].ends_with(":/run/secrets/db-pass:ro"), "{mounts:?}");
    assert!(mounts[0].starts_with(dir), "{mounts:?}");
    assert!(mounts[1].ends_with(":/run/secrets/custom:ro"), "{mounts:?}");
    // environment-sourced: explicit 501-style reason naming the service.
    let worker = vec![SecretRef::Long(SecretRefLong {
        source: "env-only".to_string(),
        ..Default::default()
    })];
    let err =
        credential_mounts("secrets", &worker, &secrets, "worker", dir, &present).unwrap_err();
    assert!(err.contains("service worker"), "{err:?}");
    assert!(err.contains("501"), "{err:?}");
    // Undefined top-level name: explicit per-service error.
    let broken = vec![SecretRef::Short("missing".to_string())];
    let err =
        credential_mounts("secrets", &broken, &secrets, "broken", dir, &present).unwrap_err();
    assert!(err.contains("service broken"), "{err:?}");
    assert!(err.contains("missing"), "{err:?}");
}

#[test]
fn configs_mount_at_root() {
    let dir = "/work/dir";
    let configs = table(vec![("app-conf", from_file("./app.conf"))]);
    let refs = vec![SecretRef::Long(SecretRefLong {
        source: "app-conf".to_string(),
        target: Some("app.conf".to_string()),
        ..Default::default()
    })];
    let present = credential_files(&configs, dir);
    let mounts = credential_mounts("configs", &refs, &configs, "web", dir, &present).unwrap();
    assert_eq!(mounts.len(), 1);
    assert!(mounts[0].ends_with(":/app.conf:ro"), "{mounts:?}");
}

#[test]
fn credentials_that_cannot_be_mounted_say_why() {
    let secrets = table(vec![
        ("out", ComposeSecretConfig { external: Some(true), ..Default::default() }),
        ("none", ComposeSecretConfig::default()),
        ("gone", from_file("/gone.txt")),
    ]);
    let err = |name: &str| {
        credential_mounts(
            "secrets",
            &vec![SecretRef::Short(name.to_string())],
            &secrets,
            "web",
            "/w",
            &Vec::new(),
        )
        .unwrap_err()
    };
    assert_eq!(
        err("out"),
        "service web: secrets \"out\" is not supported (501: it is external; only file-based secrets can be mounted)"
    );
    assert_eq!(
        err("none"),
        "service web: secrets \"none\" is not supported (501: it has no file: source; only file-based secrets can be mounted)"
    );
    assert_eq!(err("gone"), "service web: secrets \"gone\" file /gone.txt not found");
    assert_eq!(
        err("a/b"),
        "service web: secrets target \"a/b\" is invalid (want a file name)"
    );
}

#[test]
fn projects_are_named_after_their_directory() {
    assert_eq!(resolve_project_name(Some("My App!"), None), "myapp");
    assert_eq!(resolve_project_name(None, Some("Dir_1-x")), "dir_1-x");
    assert_eq!(resolve_project_name(None, Some("...")), "default");
    assert_eq!(resolve_project_name(None, None), "default");
    assert_eq!(resolve_project_name(Some("ÄÖ"), None), "äö");
}
