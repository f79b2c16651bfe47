use ingot::building::{build_step, BuildAction, BuildEvent, BuildPlan, BuildState, CopyFrom};
use ingot::dockerfile::parse;
use ingot::store::ImageRecord;

fn plan(text: &str) -> BuildPlan {
    BuildPlan {
        df: parse(text).unwrap(),
        target: None,
        nocache: false,
        fresh: vec![],
        given: vec![],
        tags: vec!["app:1".to_string(), "app:2".to_string()],
    }
}

fn step(p: &BuildPlan, s: BuildState, e: BuildEvent) -> (BuildState, Vec<String>, BuildAction) {
    build_step(p, s, e)
}

fn begin(p: &BuildPlan) -> (BuildState, Vec<String>, BuildAction) {
    step(p, BuildState::new(), BuildEvent::Begun)
}

fn base() -> ImageRecord {
    let mut r = ImageRecord::default();
    r.diff_ids = vec!["sha256:b1".to_string()];
    r.config.Env = vec!["PATH=/bin".to_string()];
    r
}

fn cached(diff: &str, stored: bool) -> BuildEvent {
    BuildEvent::Cached { diff: Some(diff.to_string()), stored }
}

fn nothing_cached() -> BuildEvent {
    BuildEvent::Cached { diff: None, stored: false }
}

#[test]
fn a_build_goes_from_its_base_to_its_image() {
    let p = plan("FROM busybox\nENV A=1\nWAT now\nRUN echo $A\nCOPY src /dst/");
    let (s, said, a) = begin(&p);
    assert_eq!(said, vec!["Step 1/5 : FROM busybox\n"]);
    assert!(matches!(a, BuildAction::Find { base } if base == "busybox"));
    let (s, said, a) = step(&p, s, BuildEvent::Unresolved("no such image".to_string()));
    assert_eq!(said, vec!["Pulling busybox...\n"]);
    assert!(matches!(a, BuildAction::Pull { base } if base == "busybox"));
    let (s, said, a) = step(&p, s, BuildEvent::PullStatus("half way".to_string()));
    assert_eq!(said, vec!["  half way\n"]);
    assert!(matches!(a, BuildAction::Wait));
    let (s, _, a) = step(&p, s, BuildEvent::Pulled);
    assert!(matches!(a, BuildAction::Find { .. }));
    let (s, said, a) = step(&p, s, BuildEvent::Image(Some(base())));
    assert_eq!(
        said,
        vec![
            "Step 2/5 : ENV A=1\n",
            "Step 3/5 : WAT now\n",
            "Skipping unsupported instruction WAT\n",
            "Step 4/5 : RUN echo $A\n",
        ]
    );
    let key = match a {
        BuildAction::Lookup { key } => key,
        _ => panic!("a lookup"),
    };
    let (s, _, a) = step(&p, s, nothing_cached());
    match a {
        BuildAction::Run { layers, argv, env, workdir } => {
            assert_eq!(layers, vec!["sha256:b1"]);
            assert_eq!(argv, vec!["/bin/sh", "-c", "echo 1"]);
            assert_eq!(env.len(), 2);
            assert_eq!(workdir, "");
        }
        _ => panic!("a command"),
    }
    let (s, said, a) = step(&p, s, BuildEvent::Ran { code: 0, output: "1\nok".to_string() });
    assert_eq!(said, vec!["  1\n", "  ok\n"]);
    assert!(matches!(a, BuildAction::Commit));
    let (s, _, a) = step(&p, s, BuildEvent::Layer("sha256:r".to_string()));
    assert!(matches!(a, BuildAction::Keep { key: k, diff } if k == key && diff == "sha256:r"));
    let (s, said, a) = step(&p, s, BuildEvent::Kept);
    assert_eq!(said, vec!["Step 5/5 : COPY src /dst/\n"]);
    assert!(matches!(
        a,
        BuildAction::Hash { sources, from: CopyFrom::Context } if sources == vec!["src"]
    ));
    let (s, _, a) = step(&p, s, BuildEvent::Hashed(vec!["h".to_string()]));
    assert!(matches!(a, BuildAction::Lookup { .. }));
    let (s, said, a) = step(&p, s, cached("sha256:c", true));
    assert_eq!(said, vec![" ---> Using cache\n"]);
    match a {
        BuildAction::Seal { chain } => assert_eq!(chain, vec!["sha256:b1", "sha256:r", "sha256:c"]),
        _ => panic!("the end"),
    }
    let sealed =
        BuildEvent::Sealed { created: "2020-01-01T00:00:00Z".to_string(), created_unix: 1, size: 5 };
    let (s, _, a) = step(&p, s, sealed);
    let id = match a {
        BuildAction::Load { id } => id,
        _ => panic!("a look at the store"),
    };
    let there = Some(vec!["app:2".to_string(), "old:1".to_string()]);
    let (s, _, a) = step(&p, s, BuildEvent::Existing(there));
    match a {
        BuildAction::Store { text, record, tags } => {
            assert_eq!(ingot::encode::sha256_hex(text.as_bytes()), id);
            assert_eq!(record.id, id);
            assert_eq!(record.repo_tags, vec!["app:1", "app:2", "old:1"]);
            assert_eq!(record.config.Env, vec!["PATH=/bin", "A=1"]);
            assert_eq!(record.size, 5);
            assert_eq!(tags, vec!["app:1", "app:2"]);
        }
        _ => panic!("an image"),
    }
    let (_, _, a) = step(&p, s, BuildEvent::Stored);
    match a {
        BuildAction::Done { id: built, status, line } => {
            assert_eq!(built, id);
            assert_eq!(status, format!("Successfully built {}", &id[..12]));
            assert_eq!(line, "Successfully tagged app:1, app:2\n");
        }
        _ => panic!("an end"),
    }
}

#[test]
fn a_failed_command_ends_the_build() {
    let p = plan("FROM scratch\nRUN false");
    let (s, said, _) = begin(&p);
    assert_eq!(said.len(), 2);
    let (s, said, _) = step(&p, s, cached("sha256:gone", false));
    assert!(said.is_empty());
    let (s, said, a) = step(&p, s, BuildEvent::Ran { code: 3, output: "no\n".to_string() });
    assert_eq!(said, vec!["  no\n"]);
    assert!(matches!(a, BuildAction::Fail { message } if message == "command exited with 3"));
    assert!(s.chain.is_empty());
    let (_, said, a) = step(&p, s, BuildEvent::Layer("x".to_string()));
    assert!(said.is_empty());
    assert!(matches!(a, BuildAction::Wait));
}

#[test]
fn images_that_are_not_there_end_the_build() {
    let p = plan("FROM gone");
    let (s, _, _) = begin(&p);
    let (_, _, a) = step(&p, s, BuildEvent::Image(None));
    assert!(matches!(a, BuildAction::Fail { message } if message == "image gone not found after pull"));
    let (s, _, _) = begin(&p);
    let (s, _, _) = step(&p, s, BuildEvent::Unresolved("a".to_string()));
    let (s, _, _) = step(&p, s, BuildEvent::Pulled);
    let (_, _, a) = step(&p, s, BuildEvent::Unresolved("b".to_string()));
    assert!(matches!(a, BuildAction::Fail { message } if message == "b"));
    let p = plan("FROM scratch\nCOPY $NONE");
    let (_, _, a) = begin(&p);
    assert!(matches!(a, BuildAction::Fail { message } if message == "COPY needs a destination"));
}

#[test]
fn without_the_cache_no_layer_is_looked_up() {
    let mut p = plan("FROM scratch AS one\nRUN a");
    p.nocache = true;
    assert!(matches!(begin(&p).2, BuildAction::Run { .. }));
    p.nocache = false;
    p.fresh = vec!["one".to_string()];
    assert!(matches!(begin(&p).2, BuildAction::Run { .. }));
    p.fresh = vec!["0".to_string()];
    assert!(matches!(begin(&p).2, BuildAction::Run { .. }));
    p.df = parse("FROM scratch AS one\nFROM one\nRUN a").unwrap();
    p.fresh = vec!["ONE".to_string()];
    assert!(matches!(begin(&p).2, BuildAction::Lookup { .. }));
    p.fresh = vec!["1".to_string()];
    assert!(matches!(begin(&p).2, BuildAction::Run { .. }));
    p.fresh = vec!["2".to_string()];
    assert!(matches!(begin(&p).2, BuildAction::Lookup { .. }));
}

#[test]
fn stages_build_upon_each_other_up_to_the_target() {
    let text = "FROM scratch AS one\nARG V=3\nENV A=$V\nRUN a\nFROM one AS two\nCOPY --from=one x y\nFROM lost\nRUN b";
    let mut p = plan(text);
    p.target = Some("two".to_string());
    p.nocache = true;
    p.given = vec![("V".to_string(), "4".to_string())];
    let (s, _, _) = begin(&p);
    let (s, _, _) = step(&p, s, BuildEvent::Ran { code: 0, output: String::new() });
    let (s, _, _) = step(&p, s, BuildEvent::Layer("sha256:1".to_string()));
    let (s, said, a) = step(&p, s, BuildEvent::Kept);
    assert_eq!(said[0], "Step 5/8 : FROM one AS two\n");
    assert!(matches!(a, BuildAction::Hash { from: CopyFrom::Stage(_), .. }));
    assert_eq!(s.chain, vec!["sha256:1"]);
    assert_eq!(s.config.env, vec!["A=4"]);
    assert!(s.config.args.is_empty());
    let (s, _, a) = step(&p, s, BuildEvent::Hashed(vec!["missing".to_string()]));
    match a {
        BuildAction::Copy { sources, dest, into_dir, from } => {
            assert_eq!((sources, dest, into_dir), (vec!["x".to_string()], "y".to_string(), false));
            assert!(matches!(from, CopyFrom::Stage(v) if v == vec!["sha256:1"]));
        }
        _ => panic!("a copy"),
    }
    let (s, _, _) = step(&p, s, BuildEvent::Copied);
    let (s, _, _) = step(&p, s, BuildEvent::Layer("sha256:2".to_string()));
    let (_, _, a) = step(&p, s, BuildEvent::Kept);
    assert!(matches!(a, BuildAction::Seal { chain } if chain == vec!["sha256:1", "sha256:2"]));
}

#[test]
fn copies_name_stages_by_number_too() {
    let p = plan("FROM scratch\nFROM scratch\nCOPY --from=0 a b\nCOPY --from=other a b");
    let (s, _, _) = begin(&p);
    let (s, _, a) = step(&p, s, BuildEvent::Hashed(vec![]));
    assert!(matches!(a, BuildAction::Lookup { .. }));
    let (s, _, a) = step(&p, s, nothing_cached());
    assert!(matches!(a, BuildAction::Copy { from: CopyFrom::Stage(v), .. } if v.is_empty()));
    let (s, _, _) = step(&p, s, BuildEvent::Copied);
    let (s, _, _) = step(&p, s, BuildEvent::Layer("sha256:1".to_string()));
    let (s, _, a) = step(&p, s, BuildEvent::Kept);
    assert!(matches!(a, BuildAction::Hash { from: CopyFrom::AnyLayer, .. }));
    let (s, _, _) = step(&p, s, BuildEvent::Hashed(vec![]));
    let (s, _, a) = step(&p, s, nothing_cached());
    assert!(matches!(a, BuildAction::Copy { from: CopyFrom::AnyLayer, .. }));
    let (_, _, a) = step(&p, s, BuildEvent::Missing("a".to_string()));
    assert!(matches!(a, BuildAction::Fail { message } if message == "COPY --from=other: a not found"));
}

#[test]
fn copies_are_cached_under_what_their_sources_hold() {
    let p = plan("FROM scratch AS one\nRUN a\nFROM scratch\nCOPY --from=one x y");
    let key = |layer: &str, hash: &str| {
        let (s, _, _) = begin(&p);
        let (s, _, a) = step(&p, s, cached(layer, true));
        match a {
            BuildAction::Hash { sources, from: CopyFrom::Stage(v) } => {
                assert_eq!((sources, v), (vec!["x".to_string()], vec![layer.to_string()]));
            }
            _ => panic!("sources of a stage"),
        }
        match step(&p, s, BuildEvent::Hashed(vec![hash.to_string()])).2 {
            BuildAction::Lookup { key } => key,
            _ => panic!("a lookup"),
        }
    };
    assert_ne!(key("sha256:1", "h1"), key("sha256:1", "h2"));
    // A stage that changed elsewhere only still has its copies in the cache.
    assert_eq!(key("sha256:1", "h1"), key("sha256:2", "h1"));
}
