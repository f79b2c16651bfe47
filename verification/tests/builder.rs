use ingot::builder::{
    apply_step, built_config, built_record, cached_layer, note_layer, copy_key, copy_step, find_stages, parse_healthcheck,
    parse_json_or_words, parse_key_values, read_from, read_given, run_argv, run_key, set_env, source_hash, target_stage,
    tree_hash, ConfigState,
};
use ingot::dockerfile::{parse, Dockerfile};
use ingot::encode::sha256_hex;
use ingot::ignore::parse_ignore;
use ingot::store::ImageRecord;

fn steps(text: &str) -> Dockerfile {
    parse(text).unwrap()
}

fn built(text: &str) -> ConfigState {
    let mut c = ConfigState::default();
    for i in &steps(text).instructions {
        apply_step(&mut c, i, &vec![]);
    }
    c
}

#[test]
fn steps_change_the_configuration() {
    let c = built(
        "FROM busybox\nENV A=1\nENV B \"two words\"\nENV A=$B-x\nWORKDIR app\nWORKDIR sub\nUSER me\n\
         LABEL k=v \"q\"=\"a b\"\nEXPOSE 80 53/udp\nVOLUME [\"/data\"]\nSTOPSIGNAL SIGINT\n\
         CMD [\"run\",\"it\"]\nENTRYPOINT exec",
    );
    assert_eq!(c.env, vec!["B=two words", "A=two words-x"]);
    assert_eq!(c.workdir, "/app/sub");
    assert_eq!(c.user, "me");
    assert_eq!(c.labels.get("k").map(|s| s.as_str()), Some("v"));
    assert!(c.exposed_ports.contains_key("80/tcp"));
    assert!(c.exposed_ports.contains_key("53/udp"));
    assert!(c.volumes.contains_key("/data"));
    assert_eq!(c.stop_signal, "SIGINT");
    assert_eq!(c.cmd, Some(vec!["run".to_string(), "it".to_string()]));
    assert_eq!(
        c.entrypoint,
        Some(vec!["/bin/sh".to_string(), "-c".to_string(), "exec".to_string()])
    );
}

#[test]
fn absolute_directories_start_over() {
    assert_eq!(built("FROM x\nWORKDIR /a/\nWORKDIR b").workdir, "/a/b");
    assert_eq!(built("FROM x\nWORKDIR /a\nWORKDIR /b").workdir, "/b");
}

#[test]
fn variables_are_set_once() {
    let env = vec!["A=1".to_string(), "AB=2".to_string()];
    assert_eq!(set_env(&env, "A", "3"), vec!["AB=2", "A=3"]);
}

#[test]
fn values_in_quotes_hold_blanks() {
    assert_eq!(
        parse_key_values("a=1 b=\"two words\" c"),
        vec![("a".to_string(), "1".to_string()), ("b".to_string(), "two words".to_string())]
    );
    assert_eq!(parse_json_or_words("/a /b"), vec!["/a", "/b"]);
    assert_eq!(parse_json_or_words("[\"/a b\"]"), vec!["/a b"]);
}

#[test]
fn health_checks_are_read() {
    let h = parse_healthcheck("--interval=30s --retries=3 CMD curl -f x").unwrap();
    assert_eq!(h.Interval, Some(30_000_000_000));
    assert_eq!(h.Retries, Some(3));
    assert_eq!(h.Timeout, None);
    assert_eq!(h.Test, vec!["CMD-SHELL", "curl -f x"]);
    assert_eq!(parse_healthcheck("NONE").unwrap().Test, vec!["NONE"]);
    assert!(parse_healthcheck("--interval=1s").is_none());
    assert_eq!(parse_healthcheck("CMD [\"a\",\"b\"]").unwrap().Test, vec!["a", "b"]);
}

#[test]
fn commands_run_in_a_shell() {
    let df = steps("FROM x\nRUN echo $A\nRUN [\"a\",\"b\"]\nRUN <<EOF\nline\nEOF");
    let env = vec![("A".to_string(), "1".to_string())];
    assert_eq!(run_argv(&df.instructions[1], &env, &None), vec!["/bin/sh", "-c", "echo 1"]);
    assert_eq!(run_argv(&df.instructions[2], &env, &None), vec!["a", "b"]);
    assert!(run_argv(&df.instructions[3], &env, &None)[2].contains("line"));
    let shell = vec![("SHELL".to_string(), "/bin/bash -ec".to_string())];
    assert_eq!(run_argv(&df.instructions[1], &shell, &None)[0], "/bin/bash");
    let named = Some(vec!["/bin/zsh".to_string(), "-c".to_string()]);
    assert_eq!(run_argv(&df.instructions[1], &shell, &named), vec!["/bin/zsh", "-c", "echo "]);
}

#[test]
fn stages_are_found_by_number_and_name() {
    let df = steps("FROM a AS first\nRUN x\nFROM b as Second\nFROM c");
    assert_eq!(find_stages(&df), vec![0, 2, 3]);
    assert_eq!(target_stage(&df, None), 2);
    assert_eq!(target_stage(&df, Some(" ")), 2);
    assert_eq!(target_stage(&df, Some("1")), 1);
    assert_eq!(target_stage(&df, Some("FIRST")), 0);
    assert_eq!(target_stage(&df, Some("second")), 1);
    assert_eq!(target_stage(&df, Some("nobody")), 2);
    let (base, name) = read_from("busybox:$V AS b", &vec![("V".to_string(), "1".to_string())]);
    assert_eq!((base.as_str(), name.as_deref()), ("busybox:1", Some("b")));
}

#[test]
fn cache_keys_follow_what_they_depend_on() {
    let df = steps("FROM x\nRUN a\nRUN b\nRUN --mount=type=secret a");
    let c = ConfigState::default();
    let chain = vec!["sha256:1".to_string()];
    let k = run_key(&chain, &df.instructions[1], &c);
    assert!(k.starts_with("run-") && k.len() == 68, "{k}");
    assert_eq!(k, run_key(&chain, &df.instructions[1], &c));
    assert_ne!(k, run_key(&vec![], &df.instructions[1], &c));
    assert_ne!(k, run_key(&chain, &df.instructions[2], &c));
    assert_ne!(k, run_key(&chain, &df.instructions[3], &c));
    let other = ConfigState { user: "me".to_string(), ..Default::default() };
    assert_ne!(k, run_key(&chain, &df.instructions[1], &other));
    let copy = &steps("FROM x\nCOPY a b").instructions[1];
    let h = copy_key(&chain, copy, "a b", &vec!["h1".to_string()]);
    assert_ne!(h, copy_key(&chain, copy, "a b", &vec!["h2".to_string()]));
    let head = sha256_hex("copy|a b|[]|\"sha256:1\"".as_bytes());
    assert_eq!(h, format!("copy-{}", sha256_hex(format!("{head}h1").as_bytes())));
}

#[test]
fn cached_layers_are_found_by_their_key() {
    let text = r#"{"run-1":{"diff_id":"sha256:a"},"copy-2":{"diff_id":"sha256:b","blob_digest":"x"}}"#;
    assert_eq!(cached_layer(text, "run-1").as_deref(), Some("sha256:a"));
    assert_eq!(cached_layer(text, "run-2"), None);
    assert_eq!(cached_layer(r#"{"run-1":{"diff_id":"sha256:a"},"k":{}}"#, "run-1"), None);
    assert_eq!(cached_layer("", "run-1"), None);
    let more = note_layer(text, "run-2", "sha256:c");
    assert_eq!(cached_layer(&more, "run-2").as_deref(), Some("sha256:c"));
    assert_eq!(cached_layer(&more, "copy-2").as_deref(), Some("sha256:b"));
    let again = note_layer(&more, "run-1", "sha256:d");
    assert_eq!(cached_layer(&again, "run-1").as_deref(), Some("sha256:d"));
    assert_eq!(note_layer("damaged", "k", "d"), r#"{"k":{"diff_id":"d"}}"#);
    let files = vec![("a".to_string(), Some("1".to_string())), ("b".to_string(), None)];
    assert_eq!(tree_hash(&files), sha256_hex(b"a1b"));
    assert_eq!(source_hash(Some("h".to_string())), "h");
    assert_eq!(source_hash(None), "missing");
    let given = read_given(&vec!["A=1=2".to_string(), "B".to_string()]);
    assert_eq!(given[0], ("A".to_string(), "1=2".to_string()));
    assert_eq!(given[1], ("B".to_string(), String::new()));
}

#[test]
fn copies_have_a_destination() {
    let df = steps("FROM x\nCOPY --from=first a b /dest\nCOPY one /dir/");
    let c = copy_step(&df.instructions[1], &vec![]).unwrap();
    assert_eq!(c.sources, vec!["a", "b"]);
    assert_eq!(c.dest, "dest");
    assert!(c.into_dir);
    assert_eq!(c.from.as_deref(), Some("first"));
    let c = copy_step(&df.instructions[2], &vec![]).unwrap();
    assert_eq!(c.dest, "dir/");
    assert!(c.into_dir);
    let nothing = &steps("FROM x\nCOPY $NONE").instructions[1];
    assert_eq!(copy_step(nothing, &vec![]).unwrap_err(), "COPY needs a destination");
}

#[test]
fn built_images_hold_their_configuration() {
    let mut c = built("FROM x\nENV A=1\nEXPOSE 80\nHEALTHCHECK --timeout=2s CMD true");
    c.labels.insert("k".to_string(), "v".to_string());
    let chain = vec!["sha256:1".to_string(), "sha256:2".to_string()];
    let text = built_config(&c, "2020-01-01T00:00:00Z", &chain);
    assert!(text.contains("\n  \"architecture\": \"amd64\""), "{text}");
    let v: serde_json::Value = serde_json::from_str(&text).unwrap();
    assert_eq!(v["config"]["Env"][0], "A=1");
    assert_eq!(v["config"]["Labels"]["k"], "v");
    assert!(v["config"]["ExposedPorts"]["80/tcp"].is_object());
    assert!(v["config"]["Volumes"].is_null());
    assert_eq!(v["config"]["Healthcheck"]["Timeout"], 2_000_000_000i64);
    assert_eq!(v["rootfs"]["diff_ids"][1], "sha256:2");
    let id = sha256_hex(text.as_bytes());
    let r = built_record(&vec!["t:1".to_string()], "2020-01-01T00:00:00Z", 7, &chain, 9, c);
    assert_eq!(r.id, id);
    assert_eq!(r.layer_blobs, chain);
    assert_eq!(r.chain_ids, ImageRecord::compute_chain_ids(&chain));
    assert!(r.config.Volumes.is_none());
    let again = ConfigState::from_image_record(&r);
    assert_eq!(again.env, vec!["A=1"]);
    assert!(again.cmd.is_none());
    assert!(again.exposed_ports.contains_key("80/tcp"));
}

#[test]
fn arguments_have_their_given_value_or_their_default() {
    let df = steps("FROM x\nARG A=1\nARG B=2\nARG C\nENV V=$A$B$C\nENV A=9\nLABEL k=$A");
    let mut c = ConfigState::empty();
    for i in &df.instructions {
        apply_step(&mut c, i, &vec![("B".to_string(), "7".to_string())]);
    }
    assert_eq!(c.env, vec!["V=17", "A=9"]);
    assert_eq!(c.args, vec!["A=1", "B=7"]);
    assert_eq!(c.labels.get("k").map(|s| s.as_str()), Some("9"));
    let r = built_record(&vec![], "now", 0, &vec![], 0, c);
    assert_eq!(r.config.Env, vec!["V=17", "A=9"]);
}

#[test]
fn a_named_shell_takes_effect() {
    let c = built("FROM x\nSHELL [\"/bin/bash\", \"-ec\"]\nCMD serve $X\nENTRYPOINT run");
    assert_eq!(c.cmd, Some(vec!["/bin/bash".to_string(), "-ec".to_string(), "serve ".to_string()]));
    assert_eq!(c.entrypoint.as_ref().unwrap()[0], "/bin/bash");
    let text = built_config(&c, "now", &vec![]);
    let v: serde_json::Value = serde_json::from_str(&text).unwrap();
    assert_eq!(v["config"]["Shell"][1], "-ec");
    let r = built_record(&vec![], "now", 0, &vec![], 0, c);
    assert_eq!(r.config.Shell.as_ref().unwrap()[0], "/bin/bash");
    assert_eq!(ConfigState::from_image_record(&r).shell, r.config.Shell);
    let plain: serde_json::Value =
        serde_json::from_str(&built_config(&ConfigState::empty(), "now", &vec![])).unwrap();
    assert!(plain["config"].get("Shell").is_none());
}

#[test]
fn seconds_that_no_integer_holds_are_cut_off() {
    let h = parse_healthcheck("--interval=9300000000s --timeout=-9300000000s CMD true").unwrap();
    assert_eq!(h.Interval, Some(i64::MAX));
    assert_eq!(h.Timeout, Some(i64::MIN));
}

#[test]
fn the_last_rule_that_matches_decides() {
    let i = parse_ignore("# comment\n\nnode_modules\n*.log\n!keep.log\n**/tmp\n/build/\n");
    assert!(i.has_negations());
    assert!(i.is_excluded("node_modules"));
    assert!(i.is_excluded("node_modules/a/b"));
    assert!(i.is_excluded("x.log"));
    assert!(!i.is_excluded("keep.log"));
    assert!(!i.is_excluded("sub/x.log"));
    assert!(i.is_excluded("a/b/tmp/c"));
    assert!(i.is_excluded("build/x"));
    assert!(!i.is_excluded("builds"));
    assert!(!parse_ignore("a?c").is_excluded("abbc"));
    assert!(parse_ignore("a?c").is_excluded("abc"));
    assert!(!parse_ignore("").has_negations());
}
