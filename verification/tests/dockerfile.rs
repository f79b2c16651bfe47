use ingot::dockerfile::{expand_vars, parse, Dockerfile, Instruction};

#[test]
fn parses_basic_dockerfile() {
    let df = parse("FROM busybox\n\n# comment\nRUN echo one \\\n  && echo two\nCMD [\"echo\",\"hi\"]")
        .unwrap();
    assert_eq!(df.instructions.len(), 3);
    assert_eq!(df.instructions[1].verb, "RUN");
    assert_eq!(
        df.instructions[1].args.trim().split_whitespace().collect::<Vec<_>>().join(" "),
        "echo one && echo two"
    );
    assert_eq!(
        df.instructions[2].json_args.as_deref(),
        Some(&["echo".to_string(), "hi".to_string()][..])
    );
}

#[test]
fn json_and_flags() {
    let df = parse("FROM busybox\nCOPY --from=x --chown=1:1 a b").unwrap();
    let i = &df.instructions[1];
    assert_eq!(i.flags[0], ("from".into(), "x".into()));
    assert_eq!(i.flags[1], ("chown".into(), "1:1".into()));
    assert_eq!(i.args, "a b");
}

#[test]
fn var_expansion() {
    let env = vec![("V".to_string(), "val".to_string())];
    assert_eq!(expand_vars("$V-${V:-d}", &env), "val-val");
    assert_eq!(expand_vars("${MISS:-def}", &env), "def");
    assert_eq!(expand_vars("a$b", &env), "a");
}

#[test]
fn text_without_a_dollar_stays() {
    assert_eq!(expand_vars("plain {text}", &[]), "plain {text}");
}

#[test]
fn instructions_know_their_lines() {
    let df = parse("# top\nFROM busybox\n\nRUN a \\\n b\nUSER x").unwrap();
    let lines: Vec<usize> = df.instructions.iter().map(|i| i.line).collect();
    assert_eq!(lines, vec![2, 4, 6]);
}

#[test]
fn comments_between_instructions_change_nothing() {
    let a = parse("FROM busybox\nUSER x").unwrap();
    let b = parse("FROM busybox\n# more\n\nUSER x").unwrap();
    assert_eq!(a.instructions.len(), b.instructions.len());
    assert_eq!(a.instructions[1].args, b.instructions[1].args);
}

#[test]
fn heredocs_stand_behind_their_instruction() {
    let df = parse("FROM busybox\nRUN <<EOF\necho one\necho two\nEOF\nUSER x").unwrap();
    assert_eq!(df.instructions.len(), 3);
    assert_eq!(df.instructions[1].heredocs.len(), 1);
    assert!(df.instructions[1].heredocs[0].content.contains("echo one"));
    assert_eq!(df.instructions[2].verb, "USER");
}

#[test]
fn a_file_begins_with_from() {
    assert!(parse("RUN echo").is_err());
    assert!(parse("").is_err());
}

#[test]
fn arguments_behind_from_are_not_global() {
    let df = parse("FROM busybox:$V\nARG V=1").unwrap();
    assert_eq!(df.base_image(), Some("busybox:$V"));
    assert!(!df.is_global_arg(1));
    assert!(parse("ARG V=1\nFROM busybox:$V").is_err());
}

#[test]
fn global_args_give_their_defaults() {
    let at = |line: usize, verb: &str, args: &str| Instruction {
        verb: verb.into(),
        args: args.into(),
        json_args: None,
        flags: Vec::new(),
        heredocs: Vec::new(),
        line,
    };
    let df = Dockerfile {
        instructions: vec![
            at(1, "ARG", "VERSION = \"1.2\""),
            at(2, "ARG", "BARE"),
            at(3, "ARG", "TAIL=a=b"),
            at(4, "FROM", "busybox:$VERSION AS base"),
            at(5, "ARG", "LATE=1"),
        ],
    };
    assert_eq!(
        df.arg_defaults(),
        vec![
            ("VERSION".to_string(), "1.2".to_string()),
            ("TAIL".to_string(), "a=b".to_string()),
        ]
    );
    assert!(parse("FROM busybox\nARG LATE=1").unwrap().arg_defaults().is_empty());
}

#[test]
fn heredocs_end_in_their_order() {
    let df = parse("FROM a\nCOPY <<A <<B /d/\n1\nA\n2\nB\nCMD y").unwrap();
    assert_eq!(df.instructions.len(), 3);
    assert_eq!(df.instructions[1].heredocs.len(), 2);
    assert_eq!(df.instructions[1].heredocs[0].content, "1");
    assert_eq!(df.instructions[1].heredocs[1].content, "2");
    assert_eq!(df.instructions[2].verb, "CMD");
    assert_eq!(df.instructions[2].line, 7);
}

#[test]
fn idle_lines_change_nothing_but_line_numbers() {
    let whole = ["FROM x\n", "RUN a \\\n", "  && b\n", "CMD c"];
    let plain = parse(&whole.concat()).unwrap();
    for idle in ["", "   ", "# note", "\t# note\r"] {
        for at in 0..whole.len() {
            let text = format!("{}{}\n{}", whole[..at].concat(), idle, whole[at..].concat());
            let more = parse(&text).unwrap();
            assert_eq!(more.instructions.len(), 3);
            for (a, b) in plain.instructions.iter().zip(&more.instructions) {
                assert_eq!((&a.verb, &a.args, &a.json_args), (&b.verb, &b.args, &b.json_args));
                let moved = if a.line > at { a.line + 1 } else { a.line };
                assert_eq!(b.line, moved, "{text:?}");
            }
        }
    }
}

#[test]
fn words_expand_apart() {
    let env = vec![("A".to_string(), "1".to_string()), ("B".to_string(), "2".to_string())];
    for (a, b) in [("$A", "$B"), ("${A}x", "${C:-d}"), ("$", "{A}"), ("a$A", "")] {
        let both = expand_vars(&format!("{a} {b}"), &env);
        assert_eq!(both, format!("{} {}", expand_vars(a, &env), expand_vars(b, &env)));
    }
    assert_eq!(expand_vars("${A ${B}", &env), "");
    let env = vec![("é²".to_string(), "1".to_string())];
    assert_eq!(expand_vars("$é²!", &env), "1!");
    assert_eq!(expand_vars("$²", &env), "$²");
}
