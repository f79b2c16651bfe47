//! What the steps of a build leave behind, stated by what stands in the Dockerfile.

use vstd::prelude::*;

use crate::builder::{self, ConfigView, HealthView};
use crate::building::{self, BuiltStageView};
use crate::dockerfile::{self, InstructionView};
use crate::fsck;
use crate::json;
use crate::num;
use crate::order;
use crate::reading;
use crate::requests;
use crate::text;

verus! {

// ---------------------------------------------------------------- words

/// A word alone.
pub proof fn lemma_one_word(w: Seq<char>)
    requires
        w.len() > 0,
        forall|i: int| 0 <= i < w.len() ==> !text::is_white_space(#[trigger] w[i]),
    ensures
        text::words(w) == seq![w],
        text::word_end(w, 0) == w.len(),
{
    text::lemma_word_end(w, 0);
    assert(!text::is_white_space(w[0]));
    let k = text::word_end(w, 0);
    if k < w.len() {
        assert(!text::is_white_space(w[k]));
    }
    assert(w.take(k) =~= w);
    assert(w.skip(k).len() == 0);
    assert(seq![w] + text::words(w.skip(k)) =~= seq![w]);
}

/// A word and a space before other words.
pub proof fn lemma_first_word(w: Seq<char>, rest: Seq<char>)
    requires
        w.len() > 0,
        forall|i: int| 0 <= i < w.len() ==> !text::is_white_space(#[trigger] w[i]),
    ensures
        text::words(w + seq![' '] + rest) == seq![w] + text::words(rest),
{
    let s = w + seq![' '] + rest;
    let n = w.len() as int;
    text::lemma_word_end(s, 0);
    let k = text::word_end(s, 0);
    assert(s[n] == ' ');
    if k < n {
        assert(s[k] == w[k]);
        assert(!text::is_white_space(w[k]));
    }
    assert(!text::is_white_space(s[0])) by {
        assert(s[0] == w[0]);
        assert(!text::is_white_space(w[0]));
    }
    assert(s.take(n) =~= w);
    let sp = s.skip(n);
    assert(sp =~= seq![' '] + rest);
    assert(sp.skip(1) =~= rest);
    assert(text::words(sp) == text::words(rest));
}

// ---------------------------------------------------------------- variables

/// A value without quotes and white space at its ends.
pub open spec fn is_bare(v: Seq<char>) -> bool {
    v.len() > 0 && !text::is_white_space(v[0]) && !text::is_white_space(v.last()) && v[0] != '"'
        && v.last() != '"'
}

proof fn lemma_bare(v: Seq<char>)
    requires
        is_bare(v),
    ensures
        text::trim(v) == v,
        dockerfile::unquoted(v) == v,
{
    text::lemma_trim(v);
    let q = seq!['"'];
    if text::starts_with(v, q) {
        assert(v.subrange(0, 1)[0] == q[0]);
    }
    if text::ends_with(v, q) {
        assert(v.subrange(v.len() - 1, v.len() as int)[0] == q[0]);
    }
}

/// The name of a variable: not empty, without white space, quotes, dollars or equals signs.
pub open spec fn is_key(k: Seq<char>) -> bool {
    &&& k.len() > 0
    &&& !k.contains('=') && !k.contains('$')
    &&& forall|i: int| 0 <= i < k.len() ==> !text::is_white_space(#[trigger] k[i])
}

/// What a step leaves alone: all but the environment.
pub open spec fn only_env_differs(a: ConfigView, b: ConfigView) -> bool {
    b == ConfigView { env: b.env, ..a }
}

proof fn lemma_pair_is_cut(k: Seq<char>, v: Seq<char>)
    requires
        is_key(k),
        is_bare(v),
    ensures
        ({
            let s = k + seq!['='] + v;
            &&& text::trim(s) == s
            &&& text::split_once(s, seq!['=']) == Some((k, v))
            &&& text::trim(k) == k
        }),
{
    let s = k + seq!['='] + v;
    assert(s[0] == k[0] && s.last() == v.last());
    assert(!text::is_white_space(k[0]) && !text::is_white_space(k[k.len() - 1]));
    text::lemma_trim(s);
    text::lemma_trim(k);
    assert forall|j: int| 0 <= j < k.len() implies s[j] != '=' by {
        assert(k.contains(k[j]));
    }
    text::lemma_found_char(s, '=', k.len() as int);
    assert(s.take(k.len() as int) =~= k);
    assert(s.skip(k.len() + 1int) =~= v);
}

proof fn lemma_no_dollar_between(k: Seq<char>, c: char, v: Seq<char>)
    requires
        !k.contains('$'),
        !v.contains('$'),
        c != '$',
    ensures
        !(k + seq![c] + v).contains('$'),
{
    let s = k + seq![c] + v;
    if s.contains('$') {
        let j = choose|j: int| 0 <= j < s.len() && s[j] == '$';
        if j < k.len() {
            assert(k.contains(k[j]));
        } else if j > k.len() {
            assert(v.contains(v[j - k.len() - 1]));
        }
    }
}

/// `ENV` sets a variable, written `key=value` or with white space between the two, and
/// leaves the other variables and all else as they are.
#[verifier::rlimit(40)]
pub proof fn law_env_sets_its_variable(
    c: ConfigView,
    inst: InstructionView,
    given: Seq<(Seq<char>, Seq<char>)>,
    k: Seq<char>,
    v: Seq<char>,
    x: Seq<char>,
)
    requires
        inst.verb == "ENV"@,
        is_key(k),
        is_bare(v),
        !v.contains('$'),
        inst.args == k + seq!['='] + v || (inst.args == k + seq![' '] + v && !v.contains('=')),
        !x.contains('='),
    ensures
        ({
            let after = builder::next_config(c, inst, given);
            &&& after.env.last() == k + seq!['='] + v
            &&& dockerfile::lookup(builder::env_pairs_of(after.env), k) == Some(v)
            &&& x != k ==> dockerfile::lookup(builder::env_pairs_of(after.env), x)
                == dockerfile::lookup(builder::env_pairs_of(c.env), x)
            &&& only_env_differs(c, after)
        }),
{
    reveal_strlit("=");
    assert("="@ =~= seq!['=']);
    lemma_bare(v);
    lemma_pair_is_cut(k, v);
    lemma_no_dollar_between(k, '=', v);
    lemma_no_dollar_between(k, ' ', v);
    dockerfile::law_expand_without_dollar(inst.args, builder::variables(c));
    builder::law_variable_is_set(c.env, k, v, x);
    if inst.args == k + seq![' '] + v && !v.contains('=') {
        let s = inst.args;
        let n = k.len() as int;
        assert(s[n] == ' ');
        assert(s[0] == k[0] && s.last() == v.last());
        assert(!text::is_white_space(k[0]));
        text::lemma_trim(s);
        text::lemma_find_char(s, '=');
        if let Some(j) = text::find(s, seq!['=']) {
            if j < n {
                assert(k.contains(k[j]));
            } else if j > n {
                assert(v.contains(v[j - n - 1]));
            }
        }
        assert(text::split_once(s, seq!['=']) is None);
        text::lemma_word_end(s, 0);
        let e = text::word_end(s, 0);
        if e < n {
            assert(s[e] == k[e]);
            assert(!text::is_white_space(k[e]));
        }
        assert(e == n);
        assert(s.take(n) =~= k);
        assert(s.skip(n + 1) =~= v);
    }
}

/// `ARG` declares a variable: it has the value that the build was given for it, or else its
/// own default, or else none; what `ENV` has set stays.
pub proof fn law_arg_takes_what_is_given(
    c: ConfigView,
    inst: InstructionView,
    given: Seq<(Seq<char>, Seq<char>)>,
    k: Seq<char>,
    v: Seq<char>,
)
    requires
        inst.verb == "ARG"@,
        is_key(k),
        is_bare(v),
        !v.contains('$'),
        inst.args == k + seq!['='] + v || inst.args == k,
    ensures
        ({
            let after = builder::next_config(c, inst, given);
            let now = dockerfile::lookup(builder::env_pairs_of(after.args), k);
            &&& dockerfile::lookup(given, k) is Some ==> now == dockerfile::lookup(given, k)
            &&& dockerfile::lookup(given, k) is None && inst.args != k ==> now == Some(v)
            &&& dockerfile::lookup(given, k) is None && inst.args == k ==> after == c
            &&& after == ConfigView { args: after.args, ..c }
        }),
{
    reveal_strlit("=");
    reveal_strlit("ENV");
    reveal_strlit("ARG");
    assert("ENV"@[0] == 'E' && "ARG"@[0] == 'A');
    lemma_bare(v);
    lemma_pair_is_cut(k, v);
    lemma_no_dollar_between(k, '=', v);
    dockerfile::law_expand_without_dollar(inst.args, builder::variables(c));
    if let Some(w) = dockerfile::lookup(given, k) {
        builder::law_variable_is_set(c.args, k, w, k);
    }
    builder::law_variable_is_set(c.args, k, v, k);
    text::lemma_find_char(k, '=');
}

/// A value that is given for an argument is what stands behind the first equals sign, and
/// empty where there is none.
pub proof fn law_given_value_is_cut(k: Seq<char>, v: Seq<char>)
    requires
        !k.contains('='),
    ensures
        builder::given_pair(k + seq!['='] + v) == (k, v),
        builder::given_pair(k).0 == k && builder::given_pair(k).1.len() == 0,
{
    let s = k + seq!['='] + v;
    assert forall|j: int| 0 <= j < k.len() implies s[j] != '=' by {
        assert(k.contains(k[j]));
    }
    text::lemma_found_char(s, '=', k.len() as int);
    assert(s.take(k.len() as int) =~= k);
    assert(s.skip(k.len() + 1int) =~= v);
    text::lemma_find_char(k, '=');
}

// ---------------------------------------------------------------- directories, users, commands

spec fn verb_is(verb: Seq<char>, c: char, n: int, d: char) -> bool {
    verb.len() == n && verb[0] == c && verb[1] == d
}

proof fn lemma_verbs()
    ensures
        verb_is("ENV"@, 'E', 3, 'N'),
        verb_is("ARG"@, 'A', 3, 'R'),
        verb_is("SHELL"@, 'S', 5, 'H'),
        verb_is("WORKDIR"@, 'W', 7, 'O'),
        verb_is("USER"@, 'U', 4, 'S'),
        verb_is("LABEL"@, 'L', 5, 'A'),
        verb_is("EXPOSE"@, 'E', 6, 'X'),
        verb_is("VOLUME"@, 'V', 6, 'O'),
        verb_is("STOPSIGNAL"@, 'S', 10, 'T'),
        verb_is("CMD"@, 'C', 3, 'M'),
        verb_is("ENTRYPOINT"@, 'E', 10, 'N'),
        verb_is("HEALTHCHECK"@, 'H', 11, 'E'),
{
    reveal_strlit("ENV");
    reveal_strlit("ARG");
    reveal_strlit("SHELL");
    reveal_strlit("WORKDIR");
    reveal_strlit("USER");
    reveal_strlit("LABEL");
    reveal_strlit("EXPOSE");
    reveal_strlit("VOLUME");
    reveal_strlit("STOPSIGNAL");
    reveal_strlit("CMD");
    reveal_strlit("ENTRYPOINT");
    reveal_strlit("HEALTHCHECK");
}

/// A directory below another.
pub open spec fn is_below(dir: Seq<char>, base: Seq<char>, name: Seq<char>) -> bool {
    dir.len() == base.len() + 1 + name.len() && dir.take(base.len() as int) == base
        && dir[base.len() as int] == '/' && dir.skip(base.len() + 1int) == name
}

/// `WORKDIR` moves to a directory from the root, or to one below where it is; nothing else
/// changes.
#[verifier::rlimit(40)]
pub proof fn law_workdir_moves(
    c: ConfigView,
    inst: InstructionView,
    given: Seq<(Seq<char>, Seq<char>)>,
)
    requires
        inst.verb == "WORKDIR"@,
        inst.args.len() > 0,
        !inst.args.contains('$'),
    ensures
        ({
            let after = builder::next_config(c, inst, given);
            &&& inst.args[0] == '/' ==> after.workdir == inst.args
            &&& inst.args[0] != '/' && (c.workdir.len() == 0 || c.workdir.last() != '/')
                ==> is_below(after.workdir, c.workdir, inst.args)
            &&& inst.args[0] != '/' && c.workdir.len() > 0 && c.workdir.last() == '/' && (
            c.workdir.len() == 1 || c.workdir[c.workdir.len() - 2] != '/') ==> is_below(
                after.workdir,
                c.workdir.drop_last(),
                inst.args,
            )
            &&& after == ConfigView { workdir: after.workdir, ..c }
        }),
{
    lemma_verbs();
    reveal_strlit("/");
    let d = inst.args;
    let q = seq!['/'];
    dockerfile::law_expand_without_dollar(d, builder::variables(c));
    assert(d.subrange(0, 1) =~= seq![d[0]]);
    assert(seq![d[0]][0] == d[0] && q[0] == '/');
    assert(text::starts_with(d, q) == (d[0] == '/'));
    let w = builder::workdir_after(c.workdir, d);
    if d[0] != '/' {
        let b = c.workdir;
        if b.len() > 0 {
            lemma_strip_one(b);
            if b.last() == '/' && b.len() > 1 {
                lemma_strip_one(b.drop_last());
            }
        }
        if b.len() == 0 || b.last() != '/' {
            assert(w.take(b.len() as int) =~= b);
            assert(w.skip(b.len() + 1int) =~= d);
        } else if b.len() == 1 || b[b.len() - 2] != '/' {
            let base = b.drop_last();
            if b.len() == 1 {
                assert(base.len() == 0);
                assert(text::strip_ends(base, q) == base);
            }
            assert(w.take(base.len() as int) =~= base);
            assert(w.skip(base.len() + 1int) =~= d);
        }
    }
}

proof fn lemma_strip_one(b: Seq<char>)
    requires
        b.len() > 0,
    ensures
        b.last() != '/' ==> text::strip_ends(b, seq!['/']) == b,
        b.last() == '/' ==> text::strip_ends(b, seq!['/']) == text::strip_ends(
            b.drop_last(),
            seq!['/'],
        ),
{
    let q = seq!['/'];
    assert(b.subrange(b.len() - 1, b.len() as int) =~= seq![b.last()]);
    assert(seq![b.last()][0] == b.last() && q[0] == '/');
    assert(text::ends_with(b, q) == (b.last() == '/'));
    assert(b.take(b.len() - 1) =~= b.drop_last());
}

/// `USER` and `STOPSIGNAL` take their arguments as they stand; nothing else changes.
pub proof fn law_user_and_signal_are_taken(
    c: ConfigView,
    inst: InstructionView,
    given: Seq<(Seq<char>, Seq<char>)>,
)
    requires
        !inst.args.contains('$'),
    ensures
        inst.verb == "USER"@ ==> builder::next_config(c, inst, given) == (ConfigView {
            user: inst.args,
            ..c
        }),
        inst.verb == "STOPSIGNAL"@ ==> builder::next_config(c, inst, given) == (ConfigView {
            stop_signal: inst.args,
            ..c
        }),
{
    lemma_verbs();
    dockerfile::law_expand_without_dollar(inst.args, builder::variables(c));
}

/// Words are a command: a list in JSON as it stands; else the words of the shell that has
/// been named, or those of the plain one, and the text behind them.
pub open spec fn is_command(
    words: Option<Seq<Seq<char>>>,
    inst: InstructionView,
    shell: Option<Seq<Seq<char>>>,
) -> bool {
    match words {
        Some(w) => match inst.json_args {
            Some(v) => w == v,
            None => {
                &&& w.len() > 0
                &&& w.last() == inst.args
                &&& match shell {
                    Some(s) => w.drop_last() == s,
                    None => w.len() == 3 && w[0] == "/bin/sh"@ && w[1] == "-c"@,
                }
            },
        },
        None => false,
    }
}

/// `CMD` and `ENTRYPOINT` each set the command that they are named after, and nothing else.
pub proof fn law_commands_are_kept(
    c: ConfigView,
    inst: InstructionView,
    given: Seq<(Seq<char>, Seq<char>)>,
)
    requires
        !inst.args.contains('$'),
    ensures
        ({
            let after = builder::next_config(c, inst, given);
            &&& inst.verb == "CMD"@ ==> is_command(after.cmd, inst, c.shell) && after == (
            ConfigView { cmd: after.cmd, ..c })
            &&& inst.verb == "ENTRYPOINT"@ ==> is_command(after.entrypoint, inst, c.shell)
                && after == (ConfigView { entrypoint: after.entrypoint, ..c })
        }),
{
    lemma_verbs();
    dockerfile::law_expand_without_dollar(inst.args, builder::variables(c));
    if let Some(s) = c.shell {
        assert(s.push(inst.args).drop_last() =~= s);
    }
}

/// `RUN` runs what it is given: a list in JSON as it stands; else, in the shell that has been
/// named or in the plain one, its document, or its text where it has none.
#[verifier::rlimit(40)]
pub proof fn law_run_runs_what_it_is_given(
    inst: InstructionView,
    env: Seq<(Seq<char>, Seq<char>)>,
    shell: Option<Seq<Seq<char>>>,
)
    requires
        !inst.args.contains('$'),
        inst.heredocs.len() <= 1,
        inst.heredocs.len() == 1 ==> inst.heredocs[0].0.len() == 0,
        shell is Some || dockerfile::lookup(env, "SHELL"@) is None,
    ensures
        ({
            let argv = builder::argv_of(inst, env, shell);
            match inst.json_args {
                Some(v) => argv == v,
                None => {
                    &&& argv.len() > 0
                    &&& argv.last() == if inst.heredocs.len() == 1 && inst.heredocs[0].1.len() > 0 {
                        inst.heredocs[0].1
                    } else {
                        inst.args
                    }
                    &&& match shell {
                        Some(s) => argv.drop_last() == s,
                        None => argv.len() == 3 && argv[0] == "/bin/sh"@ && argv[1] == "-c"@,
                    }
                },
            }
        }),
{
    dockerfile::law_expand_without_dollar(inst.args, env);
    reveal_strlit("/bin/sh -c");
    reveal_strlit("/bin/sh");
    reveal_strlit("-c");
    assert("/bin/sh -c"@ =~= "/bin/sh"@ + seq![' '] + "-c"@);
    lemma_first_word("/bin/sh"@, "-c"@);
    lemma_one_word("-c"@);
    let docs = inst.heredocs;
    if docs.len() == 1 {
        assert(builder::stdin_to(docs, 0) =~= Seq::empty());
        assert(builder::stdin_to(docs, 1) =~= docs[0].1);
    }
    if let Some(s) = shell {
        let argv = builder::argv_of(inst, env, shell);
        if inst.json_args is None {
            assert(argv.drop_last() =~= s);
        }
    }
}

// ---------------------------------------------------------------- tables

/// An entry of a table: a key and what stands under it.
pub open spec fn holds(t: Seq<(Seq<char>, Seq<char>)>, k: Seq<char>, v: Seq<char>) -> bool {
    exists|i: int| 0 <= i < t.len() && #[trigger] t[i] == (k, v)
}

proof fn lemma_spot(t: Seq<(Seq<char>, Seq<char>)>, k: Seq<char>, i: int)
    requires
        0 <= i <= t.len(),
    ensures
        i <= builder::spot(t, k, i) <= t.len(),
        builder::spot(t, k, i) < t.len() ==> t[builder::spot(t, k, i)].0 == k,
        forall|j: int| i <= j < builder::spot(t, k, i) ==> (#[trigger] t[j]).0 != k,
    decreases t.len() - i,
{
    if i < t.len() && t[i].0 != k {
        lemma_spot(t, k, i + 1);
    }
}

proof fn lemma_put(t: Seq<(Seq<char>, Seq<char>)>, k: Seq<char>, v: Seq<char>)
    ensures
        holds(builder::put(t, k, v), k, v),
        forall|x: Seq<char>, y: Seq<char>|
            x != k ==> holds(t, x, y) == #[trigger] holds(builder::put(t, k, v), x, y),
{
    lemma_spot(t, k, 0);
    let p = builder::spot(t, k, 0);
    let now = builder::put(t, k, v);
    assert(now[p] == (k, v));
    assert forall|x: Seq<char>, y: Seq<char>| x != k implies holds(t, x, y) == #[trigger] holds(
        now,
        x,
        y,
    ) by {
        if holds(t, x, y) {
            let i = choose|i: int| 0 <= i < t.len() && #[trigger] t[i] == (x, y);
            assert(now[i] == (x, y));
        }
        if holds(now, x, y) {
            let i = choose|i: int| 0 <= i < now.len() && #[trigger] now[i] == (x, y);
            assert(t[i] == (x, y));
        }
    }
}

proof fn lemma_put_all(
    t: Seq<(Seq<char>, Seq<char>)>,
    pairs: Seq<(Seq<char>, Seq<char>)>,
    n: int,
    i: int,
    x: Seq<char>,
    y: Seq<char>,
)
    requires
        0 <= n <= pairs.len(),
    ensures
        0 <= i < n && (forall|j: int| i < j < n ==> (#[trigger] pairs[j]).0 != pairs[i].0) ==> holds(
            builder::put_all(t, pairs, n),
            pairs[i].0,
            pairs[i].1,
        ),
        (forall|j: int| 0 <= j < n ==> (#[trigger] pairs[j]).0 != x) ==> holds(
            builder::put_all(t, pairs, n),
            x,
            y,
        ) == holds(t, x, y),
    decreases n,
{
    if n > 0 {
        lemma_put_all(t, pairs, n - 1, i, x, y);
        lemma_put(builder::put_all(t, pairs, n - 1), pairs[n - 1].0, pairs[n - 1].1);
        if 0 <= i < n - 1 && (forall|j: int| i < j < n ==> (#[trigger] pairs[j]).0 != pairs[i].0) {
            assert(pairs[n - 1].0 != pairs[i].0);
        }
        if forall|j: int| 0 <= j < n ==> (#[trigger] pairs[j]).0 != x {
            assert(pairs[n - 1].0 != x);
        }
    }
}

proof fn lemma_keys_are_put(t: Seq<(Seq<char>, Seq<char>)>, ks: Seq<Seq<char>>, n: int, i: int)
    requires
        0 <= i < n <= ks.len(),
    ensures
        holds(builder::put_all(t, builder::bare_keys(ks), n), ks[i], "{}"@),
    decreases n,
{
    let pairs = builder::bare_keys(ks);
    let before = builder::put_all(t, pairs, n - 1);
    lemma_put(before, ks[n - 1], "{}"@);
    if i < n - 1 {
        lemma_keys_are_put(t, ks, n - 1, i);
        if ks[i] != ks[n - 1] {
            assert(holds(builder::put(before, ks[n - 1], "{}"@), ks[i], "{}"@));
        }
    }
}

/// `EXPOSE` notes each port that it names, over TCP where it names no protocol; what was
/// exposed before stays, and nothing else changes.
pub proof fn law_exposed_ports_are_noted(
    c: ConfigView,
    inst: InstructionView,
    given: Seq<(Seq<char>, Seq<char>)>,
    i: int,
    x: Seq<char>,
)
    requires
        inst.verb == "EXPOSE"@,
        0 <= i < text::words(inst.args).len(),
    ensures
        ({
            let after = builder::next_config(c, inst, given);
            let port = text::words(inst.args)[i];
            &&& port.contains('/') ==> holds(after.exposed_ports, port, "{}"@)
            &&& !port.contains('/') ==> holds(after.exposed_ports, port + "/tcp"@, "{}"@)
            &&& (forall|j: int|
                0 <= j < text::words(inst.args).len() ==> x != #[trigger] text::words(inst.args)[j]
                    && x != text::words(inst.args)[j] + "/tcp"@) ==> forall|y: Seq<char>|
                #[trigger] holds(after.exposed_ports, x, y) == holds(c.exposed_ports, x, y)
            &&& after == ConfigView { exposed_ports: after.exposed_ports, ..c }
        }),
{
    lemma_verbs();
    let ws = text::words(inst.args);
    let ks = builder::port_keys(ws);
    let pairs = builder::bare_keys(ks);
    text::lemma_find_char(ws[i], '/');
    lemma_keys_are_put(c.exposed_ports, ks, ks.len() as int, i);
    if forall|j: int| 0 <= j < ws.len() ==> x != #[trigger] ws[j] && x != ws[j] + "/tcp"@ {
        assert forall|j: int| 0 <= j < pairs.len() implies (#[trigger] pairs[j]).0 != x by {
            assert(x != ws[j]);
        }
        assert forall|y: Seq<char>| #[trigger]
            holds(builder::next_config(c, inst, given).exposed_ports, x, y) == holds(
                c.exposed_ports,
                x,
                y,
            ) by {
            lemma_put_all(c.exposed_ports, pairs, pairs.len() as int, -1, x, y);
        }
    }
}

/// `VOLUME` notes each path that it names, and nothing else changes.
pub proof fn law_volumes_are_noted(
    c: ConfigView,
    inst: InstructionView,
    given: Seq<(Seq<char>, Seq<char>)>,
    i: int,
)
    requires
        inst.verb == "VOLUME"@,
    ensures
        ({
            let after = builder::next_config(c, inst, given);
            let named = match dockerfile::json_form(inst.args) {
                Some(v) => v,
                None => text::words(inst.args),
            };
            &&& 0 <= i < named.len() ==> holds(after.volumes, named[i], "{}"@)
            &&& after == ConfigView { volumes: after.volumes, ..c }
        }),
{
    lemma_verbs();
    let ks = builder::json_or_words(inst.args);
    if 0 <= i < ks.len() {
        lemma_keys_are_put(c.volumes, ks, ks.len() as int, i);
    }
}

/// `LABEL` notes a label with its value; the other labels stay, and nothing else changes.
#[verifier::rlimit(40)]
pub proof fn law_label_is_noted(
    c: ConfigView,
    inst: InstructionView,
    given: Seq<(Seq<char>, Seq<char>)>,
    k: Seq<char>,
    v: Seq<char>,
    x: Seq<char>,
    y: Seq<char>,
)
    requires
        inst.verb == "LABEL"@,
        is_key(k),
        is_bare(v),
        !v.contains('$'),
        forall|i: int| 0 <= i < v.len() ==> !text::is_white_space(#[trigger] v[i]),
        inst.args == k + seq!['='] + v,
    ensures
        ({
            let after = builder::next_config(c, inst, given);
            &&& holds(after.labels, k, v)
            &&& x != k ==> holds(after.labels, x, y) == holds(c.labels, x, y)
            &&& after == ConfigView { labels: after.labels, ..c }
        }),
{
    lemma_verbs();
    lemma_bare(v);
    lemma_pair_is_cut(k, v);
    lemma_no_dollar_between(k, '=', v);
    let s = inst.args;
    dockerfile::law_expand_without_dollar(s, builder::variables(c));
    assert forall|i: int| 0 <= i < s.len() implies !text::is_white_space(#[trigger] s[i]) by {
        if i < k.len() {
            assert(s[i] == k[i]);
        } else if i > k.len() {
            assert(s[i] == v[i - k.len() - 1]);
        }
    }
    lemma_one_word(s);
    let ws = seq![s];
    assert(seq!['"'][0] == '"');
    if text::starts_with(v, seq!['"']) {
        assert(v.subrange(0, 1)[0] == '"');
    }
    assert(builder::value_end(ws, v, 0) == 1);
    assert(ws.subrange(1, 1) =~= Seq::empty());
    assert(seq![v] + ws.subrange(1, 1) =~= seq![v]);
    text::lemma_join_first(seq![v], " "@);
    assert(builder::key_values_from(ws, 1) =~= Seq::empty());
    assert(builder::key_values_from(ws, 0) =~= seq![(k, v)]);
    let kv = builder::key_values(s);
    assert(builder::put_all(c.labels, kv, 0) == c.labels);
    assert(builder::put_all(c.labels, kv, 1) == builder::put(c.labels, k, v));
    lemma_put(c.labels, k, v);
    if x != k {
        assert(holds(builder::put(c.labels, k, v), x, y) == holds(c.labels, x, y));
    }
}

// ---------------------------------------------------------------- stages

/// `FROM image AS name` starts a stage of that name from that image; without `AS` the stage
/// has no name.
#[verifier::rlimit(40)]
pub proof fn law_stage_is_named(
    image: Seq<char>,
    word: Seq<char>,
    name: Seq<char>,
    env: Seq<(Seq<char>, Seq<char>)>,
)
    requires
        is_key(image) && is_key(name),
        word == "AS"@ || word == "as"@,
        !builder::alike(image, "AS"@),
    ensures
        builder::stage_base(image + seq![' '] + word + seq![' '] + name, env) == (
            image,
            Some(name),
        ),
        builder::stage_base(image, env) == (image, None::<Seq<char>>),
{
    reveal_strlit("AS");
    reveal_strlit("as");
    let tail = word + seq![' '] + name;
    let s = image + seq![' '] + word + seq![' '] + name;
    assert(s =~= image + seq![' '] + tail);
    assert(!word.contains('$')) by {
        if word.contains('$') {
            let j = choose|j: int| 0 <= j < word.len() && word[j] == '$';
            assert(j == 0 || j == 1);
        }
    }
    lemma_no_dollar_between(word, ' ', name);
    lemma_no_dollar_between(image, ' ', tail);
    dockerfile::law_expand_without_dollar(s, env);
    dockerfile::law_expand_without_dollar(image, env);
    assert forall|i: int| 0 <= i < word.len() implies !text::is_white_space(#[trigger] word[i]) by {
        assert(i == 0 || i == 1);
    }
    lemma_first_word(image, tail);
    lemma_first_word(word, name);
    lemma_one_word(name);
    lemma_one_word(image);
    let ws = text::words(s);
    assert(ws =~= seq![image, word, name]);
    assert(builder::alike(word, "AS"@)) by {
        assert(text::ascii_lowered("as"@) =~= text::ascii_lowered("AS"@));
    }
    assert(builder::as_from(ws, 1) == 1);
    assert(builder::as_from(ws, 0) == 1);
    let one = seq![image];
    assert(builder::as_from(one, 1) == 1);
    assert(builder::as_from(one, 0) == 1);
}

proof fn lemma_starts(v: Seq<InstructionView>, n: int)
    requires
        0 <= n <= v.len(),
    ensures
        forall|i: int|
            0 <= i < builder::starts_to(v, n).len() ==> 0 <= #[trigger] builder::starts_to(v, n)[i]
                < n && v[builder::starts_to(v, n)[i]].verb == "FROM"@,
        forall|i: int|
            0 <= i < n && (#[trigger] v[i]).verb == "FROM"@ ==> builder::starts_to(v, n).contains(i),
        forall|i: int, j: int|
            0 <= i < j < builder::starts_to(v, n).len() ==> (#[trigger] builder::starts_to(v, n)[i])
                < (#[trigger] builder::starts_to(v, n)[j]),
    decreases n,
{
    if n > 0 {
        lemma_starts(v, n - 1);
        let before = builder::starts_to(v, n - 1);
        let now = builder::starts_to(v, n);
        assert forall|i: int| 0 <= i < n && (#[trigger] v[i]).verb == "FROM"@ implies now.contains(
            i,
        ) by {
            if i < n - 1 {
                let k = choose|k: int| 0 <= k < before.len() && before[k] == i;
                assert(now[k] == i);
            } else {
                assert(now[before.len() as int] == i);
            }
        }
    }
}

/// Stages start at the lines that say `FROM`, at each of them and in order.
pub proof fn law_stages_start_at_from(v: Seq<InstructionView>)
    ensures
        ({
            let starts = builder::stage_starts(v);
            &&& forall|i: int|
                0 <= i < starts.len() ==> 0 <= #[trigger] starts[i] < v.len() && v[starts[i]].verb
                    == "FROM"@
            &&& forall|i: int|
                0 <= i < v.len() && (#[trigger] v[i]).verb == "FROM"@ ==> starts.contains(i)
            &&& forall|i: int, j: int|
                0 <= i < j < starts.len() ==> (#[trigger] starts[i]) < (#[trigger] starts[j])
        }),
{
    lemma_starts(v, v.len() as int);
}

/// The stage that is built last is the one that is asked for by its number, and the last of
/// all where none is asked for.
pub proof fn law_target_is_built_last(v: Seq<InstructionView>, n: nat)
    requires
        n < builder::stage_starts(v).len() <= usize::MAX,
    ensures
        builder::last_stage(v, Some(num::decimal(n))) == n,
        builder::last_stage(v, None) == builder::stage_starts(v).len() - 1,
{
    num::lemma_decimal_reads_back(n);
    let t = num::decimal(n);
    assert('0' <= t[0] <= '9' && '0' <= t[t.len() - 1] <= '9');
    text::lemma_trim(t);
    assert(num::unsigned_digits(t) == t);
}

// ---------------------------------------------------------------- the image

proof fn lemma_entries_are_value(t: Seq<(Seq<char>, Seq<char>)>)
    ensures
        reading::is_value(builder::texts_json(t)),
        (forall|i: int| 0 <= i < t.len() ==> (#[trigger] t[i]).1 == "{}"@) ==> reading::is_value(
            builder::entries_json(t),
        ),
{
    let ks = builder::entry_keys(t);
    let qs = Seq::new(t.len(), |i: int| json::json_quoted(t[i].1));
    assert forall|i: int| 0 <= i < qs.len() implies reading::is_value(#[trigger] qs[i]) by {
        reading::lemma_quoted_is_value(t[i].1);
    }
    reading::lemma_object_is_value(ks, qs);
    if t.len() == 0 {
        reveal_strlit("null");
        reading::lemma_word_is_value("null"@);
    } else if forall|i: int| 0 <= i < t.len() ==> (#[trigger] t[i]).1 == "{}"@ {
        let vs = Seq::new(t.len(), |i: int| t[i].1);
        let none = Seq::<Seq<char>>::empty();
        reveal_strlit("{}");
        reveal_strlit("{");
        reveal_strlit("}");
        assert(json::members(none, none) =~= none);
        assert(json::json_object(none, none) =~= "{}"@);
        reading::lemma_object_is_value(none, none);
        assert forall|i: int| 0 <= i < vs.len() implies reading::is_value(#[trigger] vs[i]) by {
            assert(t[i].1 == "{}"@);
        }
        reading::lemma_object_is_value(ks, vs);
    }
}

/// The keys of a table, each with its text, are read in an object.
pub open spec fn holds_texts(body: Seq<char>, t: Seq<(Seq<char>, Seq<char>)>) -> bool {
    forall|i: int|
        0 <= i < t.len() && (forall|j: int| 0 <= j < i ==> (#[trigger] t[j]).0 != t[i].0)
            ==> reading::string_under(body, (#[trigger] t[i]).0) == Some(t[i].1)
}

/// The keys of a table are read in an object.
pub open spec fn holds_keys(body: Seq<char>, t: Seq<(Seq<char>, Seq<char>)>) -> bool {
    forall|i: int|
        0 <= i < t.len() && (forall|j: int| 0 <= j < i ==> (#[trigger] t[j]).0 != t[i].0)
            ==> reading::member(body, (#[trigger] t[i]).0) == Some("{}"@)
}

pub open spec fn are_bare(t: Seq<(Seq<char>, Seq<char>)>) -> bool {
    forall|i: int| 0 <= i < t.len() ==> (#[trigger] t[i]).1 == "{}"@
}

proof fn lemma_entries_are_read(t: Seq<(Seq<char>, Seq<char>)>)
    ensures
        holds_texts(builder::texts_json(t), t),
        are_bare(t) ==> holds_keys(builder::entries_json(t), t),
{
    let ks = builder::entry_keys(t);
    let qs = Seq::new(t.len(), |i: int| json::json_quoted(t[i].1));
    let vs = Seq::new(t.len(), |i: int| t[i].1);
    assert forall|i: int| 0 <= i < qs.len() implies reading::is_value(#[trigger] qs[i]) by {
        reading::lemma_quoted_is_value(t[i].1);
    }
    assert forall|i: int|
        0 <= i < t.len() && (forall|j: int| 0 <= j < i ==> (#[trigger] t[j]).0 != t[i].0) implies
    reading::string_under(builder::texts_json(t), (#[trigger] t[i]).0) == Some(t[i].1) by {
        assert forall|q: int| 0 <= q < i implies #[trigger] ks[q] != ks[i] by {
            assert(t[q].0 != t[i].0);
        }
        reading::lemma_string_under(ks, qs, i, t[i].1);
    }
    if are_bare(t) {
        let none = Seq::<Seq<char>>::empty();
        reveal_strlit("{}");
        reveal_strlit("{");
        reveal_strlit("}");
        assert(json::members(none, none) =~= none);
        assert(json::json_object(none, none) =~= "{}"@);
        reading::lemma_object_is_value(none, none);
        assert forall|i: int| 0 <= i < vs.len() implies reading::is_value(#[trigger] vs[i]) by {
            assert(t[i].1 == "{}"@);
        }
        assert forall|i: int|
            0 <= i < t.len() && (forall|j: int| 0 <= j < i ==> (#[trigger] t[j]).0 != t[i].0) implies
        reading::member(builder::entries_json(t), (#[trigger] t[i]).0) == Some("{}"@) by {
            assert forall|q: int| 0 <= q < i implies #[trigger] ks[q] != ks[i] by {
                assert(t[q].0 != t[i].0);
            }
            reading::lemma_member_is_read(ks, vs, i);
        }
    }
}

proof fn lemma_health_is_value(h: HealthView)
    ensures
        reading::is_value(builder::health_json(h)),
        reading::strings_under(builder::health_json(h), "Test"@) == Some(h.test),
        h.interval matches Some(n) ==> (reading::member(
            builder::health_json(h),
            "Interval"@,
        ) matches Some(t) && num::signed(t) == Some(n as int)),
{
    reveal_strlit("Test");
    reveal_strlit("Interval");
    assert("Test"@.len() == 4 && "Interval"@.len() == 8);
    let ks = seq!["Test"@] + builder::key_if("Interval"@, h.interval) + builder::key_if(
        "Timeout"@,
        h.timeout,
    ) + builder::key_if("Retries"@, h.retries) + builder::key_if("StartPeriod"@, h.start_period)
        + builder::key_if("StartInterval"@, h.start_interval);
    let a = seq![json::json_array(h.test)];
    let b = a + builder::integer_if(h.interval);
    let c = b + builder::integer_if(h.timeout);
    let d = c + builder::integer_if(h.retries);
    let e = d + builder::integer_if(h.start_period);
    let vs = e + builder::integer_if(h.start_interval);
    reading::lemma_strings_are_read(h.test);
    lemma_values_and_integer(a, h.interval);
    lemma_values_and_integer(b, h.timeout);
    lemma_values_and_integer(c, h.retries);
    lemma_values_and_integer(d, h.start_period);
    lemma_values_and_integer(e, h.start_interval);
    reading::lemma_object_is_value(ks, vs);
    assert(ks[0] == "Test"@ && vs[0] == json::json_array(h.test));
    reading::lemma_strings_under(ks, vs, 0, h.test);
    if let Some(n) = h.interval {
        assert(ks[1] == "Interval"@ && vs[1] == num::signed_decimal(n as int));
        reading::lemma_member_is_read(ks, vs, 1);
        requests::lemma_signed_reads_back(n);
    }
}

proof fn lemma_values_and_integer(v: Seq<Seq<char>>, o: Option<i64>)
    requires
        reading::all_values(v),
    ensures
        reading::all_values(v + builder::integer_if(o)),
{
    let w = v + builder::integer_if(o);
    if let Some(n) = o {
        reading::lemma_number_is_value(n as int);
    }
    assert forall|i: int| 0 <= i < w.len() implies reading::is_value(#[trigger] w[i]) by {
        if i < v.len() {
            assert(w[i] == v[i]);
        }
    }
}

/// What an image runs with is read in its configuration.
pub open spec fn runs_with(body: Seq<char>, c: ConfigView) -> bool {
    &&& reading::strings_under(body, "Env"@) == Some(c.env)
    &&& match c.cmd {
        Some(v) => reading::strings_under(body, "Cmd"@) == Some(v),
        None => reading::strings_under(body, "Cmd"@) matches Some(v) && v.len() == 0,
    }
    &&& match c.entrypoint {
        Some(v) => reading::strings_under(body, "Entrypoint"@) == Some(v),
        None => reading::member(body, "Entrypoint"@) == Some("null"@),
    }
    &&& reading::string_under(body, "WorkingDir"@) == Some(c.workdir)
    &&& reading::string_under(body, "User"@) == Some(c.user)
    &&& reading::string_under(body, "StopSignal"@) == Some(c.stop_signal)
    &&& reading::member(body, "Labels"@) matches Some(l) && holds_texts(l, c.labels)
    &&& reading::member(body, "ExposedPorts"@) matches Some(p) && holds_keys(p, c.exposed_ports)
    &&& reading::member(body, "Volumes"@) matches Some(v) && holds_keys(v, c.volumes)
    &&& match c.healthcheck {
        Some(h) => reading::member(body, "Healthcheck"@) matches Some(t) && reading::strings_under(
            t,
            "Test"@,
        ) == Some(h.test),
        None => reading::member(body, "Healthcheck"@) == Some("null"@),
    }
    &&& match c.shell {
        Some(s) => reading::strings_under(body, "Shell"@) == Some(s),
        None => reading::member(body, "Shell"@) is None,
    }
}

#[verifier::opaque]
spec fn runtime_names(c: ConfigView) -> Seq<Seq<char>> {
    seq![
        "Cmd"@,
        "Entrypoint"@,
        "Env"@,
        "ExposedPorts"@,
        "Healthcheck"@,
        "Labels"@,
        "StopSignal"@,
        "User"@,
        "Volumes"@,
        "WorkingDir"@,
    ] + (if c.shell is Some {
        seq!["Shell"@]
    } else {
        Seq::empty()
    })
}

#[verifier::opaque]
spec fn runtime_values(c: ConfigView) -> Seq<Seq<char>> {
    seq![
        json::json_array(builder::list_or_empty(c.cmd)),
        builder::list_or_null(c.entrypoint),
        json::json_array(c.env),
        builder::entries_json(c.exposed_ports),
        builder::health_or_null(c.healthcheck),
        builder::texts_json(c.labels),
        json::json_quoted(c.stop_signal),
        json::json_quoted(c.user),
        builder::entries_json(c.volumes),
        json::json_quoted(c.workdir),
    ] + (match c.shell {
        Some(s) => seq![json::json_array(s)],
        None => Seq::empty(),
    })
}

proof fn lemma_runtime_names(c: ConfigView)
    ensures
        ({
            let ks = runtime_names(c);
            &&& ks.len() == if c.shell is Some {
                11int
            } else {
                10
            }
            &&& ks[0] == "Cmd"@ && ks[1] == "Entrypoint"@ && ks[2] == "Env"@ && ks[3]
                == "ExposedPorts"@ && ks[4] == "Healthcheck"@ && ks[5] == "Labels"@ && ks[6]
                == "StopSignal"@ && ks[7] == "User"@ && ks[8] == "Volumes"@ && ks[9]
                == "WorkingDir"@
            &&& c.shell is Some ==> ks[10] == "Shell"@
            &&& c.shell is None ==> !ks.contains("Shell"@)
            &&& forall|q: int, p: int| 0 <= q < p < ks.len() ==> #[trigger] ks[q] != #[trigger] ks[p]
        }),
{
    reveal(runtime_names);
    reveal_strlit("Cmd");
    reveal_strlit("Entrypoint");
    reveal_strlit("Env");
    reveal_strlit("ExposedPorts");
    reveal_strlit("Healthcheck");
    reveal_strlit("Labels");
    reveal_strlit("StopSignal");
    reveal_strlit("User");
    reveal_strlit("Volumes");
    reveal_strlit("WorkingDir");
    reveal_strlit("Shell");
    let ks = runtime_names(c);
    assert(ks[0].len() == 3 && ks[0][0] == 'C' && ks[1].len() == 10 && ks[1][0] == 'E'
        && ks[2].len() == 3 && ks[2][0] == 'E' && ks[3].len() == 12 && ks[4].len() == 11
        && ks[5].len() == 6 && ks[6].len() == 10 && ks[6][0] == 'S' && ks[7].len() == 4
        && ks[8].len() == 7 && ks[9].len() == 10 && ks[9][0] == 'W' && "Shell"@.len() == 5);
    if c.shell is None && ks.contains("Shell"@) {
        let q = choose|q: int| 0 <= q < ks.len() && ks[q] == "Shell"@;
        assert(0 <= q < 10);
    }
}

proof fn lemma_runtime_values(c: ConfigView)
    requires
        are_bare(c.exposed_ports),
        are_bare(c.volumes),
    ensures
        runtime_values(c).len() == runtime_names(c).len(),
        reading::all_values(runtime_values(c)),
{
    reveal(runtime_names);
    reveal(runtime_values);
    reveal_strlit("null");
    reading::lemma_word_is_value("null"@);
    reading::lemma_strings_are_read(builder::list_or_empty(c.cmd));
    if let Some(e) = c.entrypoint {
        reading::lemma_strings_are_read(e);
    }
    reading::lemma_strings_are_read(c.env);
    lemma_entries_are_value(c.exposed_ports);
    lemma_entries_are_value(c.labels);
    lemma_entries_are_value(c.volumes);
    if let Some(h) = c.healthcheck {
        lemma_health_is_value(h);
    }
    reading::lemma_quoted_is_value(c.stop_signal);
    reading::lemma_quoted_is_value(c.user);
    reading::lemma_quoted_is_value(c.workdir);
    if let Some(s) = c.shell {
        reading::lemma_strings_are_read(s);
    }
}

proof fn lemma_runtime_member(c: ConfigView, p: int)
    requires
        are_bare(c.exposed_ports),
        are_bare(c.volumes),
        0 <= p < runtime_names(c).len(),
    ensures
        reading::member(builder::runtime_json(c), runtime_names(c)[p]) == Some(
            runtime_values(c)[p],
        ),
{
    lemma_runtime_names(c);
    lemma_runtime_values(c);
    reading::lemma_member_is_read(runtime_names(c), runtime_values(c), p);
    reveal(runtime_names);
    reveal(runtime_values);
}

proof fn lemma_runtime_lists(c: ConfigView)
    requires
        are_bare(c.exposed_ports),
        are_bare(c.volumes),
    ensures
        ({
            let body = builder::runtime_json(c);
            &&& reading::strings_under(body, "Env"@) == Some(c.env)
            &&& reading::strings_under(body, "Cmd"@) == Some(builder::list_or_empty(c.cmd))
            &&& match c.entrypoint {
                Some(v) => reading::strings_under(body, "Entrypoint"@) == Some(v),
                None => reading::member(body, "Entrypoint"@) == Some("null"@),
            }
            &&& match c.shell {
                Some(s) => reading::strings_under(body, "Shell"@) == Some(s),
                None => reading::member(body, "Shell"@) is None,
            }
        }),
{
    lemma_runtime_names(c);
    lemma_runtime_member(c, 0);
    lemma_runtime_member(c, 1);
    lemma_runtime_member(c, 2);
    reading::lemma_strings_are_read(c.env);
    reading::lemma_strings_are_read(builder::list_or_empty(c.cmd));
    if let Some(e) = c.entrypoint {
        reading::lemma_strings_are_read(e);
    }
    if let Some(s) = c.shell {
        lemma_runtime_member(c, 10);
        reading::lemma_strings_are_read(s);
    } else {
        lemma_runtime_values(c);
        reading::lemma_member_is_absent(runtime_names(c), runtime_values(c), "Shell"@);
        assert(builder::runtime_json(c) == json::json_object(
            runtime_names(c),
            runtime_values(c),
        )) by {
            reveal(runtime_names);
            reveal(runtime_values);
        }
    }
    reveal(runtime_values);
}

proof fn lemma_runtime_texts(c: ConfigView)
    requires
        are_bare(c.exposed_ports),
        are_bare(c.volumes),
    ensures
        ({
            let body = builder::runtime_json(c);
            &&& reading::string_under(body, "WorkingDir"@) == Some(c.workdir)
            &&& reading::string_under(body, "User"@) == Some(c.user)
            &&& reading::string_under(body, "StopSignal"@) == Some(c.stop_signal)
            &&& reading::member(body, "Labels"@) == Some(builder::texts_json(c.labels))
            &&& reading::member(body, "ExposedPorts"@) == Some(
                builder::entries_json(c.exposed_ports),
            )
            &&& reading::member(body, "Volumes"@) == Some(builder::entries_json(c.volumes))
            &&& reading::member(body, "Healthcheck"@) == Some(
                builder::health_or_null(c.healthcheck),
            )
        }),
{
    lemma_runtime_names(c);
    lemma_runtime_member(c, 3);
    lemma_runtime_member(c, 4);
    lemma_runtime_member(c, 5);
    lemma_runtime_member(c, 6);
    lemma_runtime_member(c, 7);
    lemma_runtime_member(c, 8);
    lemma_runtime_member(c, 9);
    reading::lemma_quoted_is_value(c.stop_signal);
    reading::lemma_quoted_is_value(c.user);
    reading::lemma_quoted_is_value(c.workdir);
    reveal(runtime_values);
}

proof fn lemma_runtime_is_read(c: ConfigView)
    requires
        are_bare(c.exposed_ports),
        are_bare(c.volumes),
    ensures
        reading::is_value(builder::runtime_json(c)),
        runs_with(builder::runtime_json(c), c),
{
    lemma_runtime_lists(c);
    lemma_runtime_texts(c);
    lemma_runtime_values(c);
    reading::lemma_object_is_value(runtime_names(c), runtime_values(c));
    assert(builder::runtime_json(c) == json::json_object(runtime_names(c), runtime_values(c))) by {
        reveal(runtime_names);
        reveal(runtime_values);
    }
    lemma_entries_are_read(c.exposed_ports);
    lemma_entries_are_read(c.labels);
    lemma_entries_are_read(c.volumes);
    if let Some(h) = c.healthcheck {
        lemma_health_is_value(h);
    }
}

/// The configuration of a built image holds what its steps left: all that it runs with, the
/// time that it was made and its layers in order.
#[verifier::rlimit(40)]
pub proof fn law_image_runs_with_what_was_set(
    c: ConfigView,
    created: Seq<char>,
    chain: Seq<Seq<char>>,
)
    requires
        are_bare(c.exposed_ports),
        are_bare(c.volumes),
    ensures
        ({
            let body = builder::built_json(c, created, chain);
            &&& reading::member(body, "config"@) matches Some(r) && runs_with(r, c)
            &&& reading::string_under(body, "created"@) == Some(created)
            &&& reading::string_under(body, "architecture"@) == Some("amd64"@)
            &&& reading::string_under(body, "os"@) == Some("linux"@)
            &&& reading::member(body, "rootfs"@) matches Some(f) && reading::strings_under(
                f,
                "diff_ids"@,
            ) == Some(chain) && reading::string_under(f, "type"@) == Some("layers"@)
        }),
{
    reveal_strlit("architecture");
    reveal_strlit("config");
    reveal_strlit("created");
    reveal_strlit("history");
    reveal_strlit("os");
    reveal_strlit("rootfs");
    reveal_strlit("diff_ids");
    reveal_strlit("type");
    reveal_strlit("[]");
    reveal_strlit("[");
    reveal_strlit("]");
    let none = Seq::<Seq<char>>::empty();
    assert(json::quoted_all(none) =~= none);
    assert(json::json_array(none) =~= "[]"@);
    reading::lemma_strings_are_read(none);
    lemma_runtime_is_read(c);
    reading::lemma_quoted_is_value("amd64"@);
    reading::lemma_quoted_is_value("linux"@);
    reading::lemma_quoted_is_value("layers"@);
    reading::lemma_quoted_is_value(created);
    reading::lemma_strings_are_read(chain);
    let fk = seq!["diff_ids"@, "type"@];
    let fv = seq![json::json_array(chain), json::json_quoted("layers"@)];
    assert(fk[0].len() == 8 && fk[1].len() == 4);
    reading::lemma_object_is_value(fk, fv);
    reading::lemma_strings_under(fk, fv, 0, chain);
    reading::lemma_string_under(fk, fv, 1, "layers"@);
    let ks = seq!["architecture"@, "config"@, "created"@, "history"@, "os"@, "rootfs"@];
    let vs = seq![
        json::json_quoted("amd64"@),
        builder::runtime_json(c),
        json::json_quoted(created),
        "[]"@,
        json::json_quoted("linux"@),
        json::json_object(fk, fv),
    ];
    assert(ks[0].len() == 12 && ks[1].len() == 6 && ks[1][0] == 'c' && ks[2].len() == 7 && ks[2][0]
        == 'c' && ks[3].len() == 7 && ks[3][0] == 'h' && ks[4].len() == 2 && ks[5].len() == 6
        && ks[5][0] == 'r');
    reading::lemma_string_under(ks, vs, 0, "amd64"@);
    reading::lemma_member_is_read(ks, vs, 1);
    reading::lemma_string_under(ks, vs, 2, created);
    reading::lemma_string_under(ks, vs, 4, "linux"@);
    reading::lemma_member_is_read(ks, vs, 5);
}

/// A layer that is noted in the cache is found there under its key, and what was noted under
/// the others stays.
pub proof fn law_noted_layer_is_found(doc: Seq<u8>, key: Seq<char>, diff: Seq<char>, k: Seq<char>)
    ensures
        ({
            let body = builder::cache_json(doc, key, diff);
            &&& reading::member(body, key) matches Some(e) && reading::string_under(e, "diff_id"@)
                == Some(diff)
            &&& builder::cache_reads(doc) && json::json_keys(doc, Seq::empty())->0.contains(k) && k
                != key ==> (reading::member(body, k) matches Some(e) && (fsck::cached_under(
                doc,
                k,
            ).diff_id matches Some(d) ==> reading::string_under(e, "diff_id"@) == Some(d)))
        }),
{
    let own = if builder::cache_reads(doc) {
        json::json_keys(doc, Seq::empty())->0
    } else {
        Seq::empty()
    };
    let names = own.push(key);
    let ks = order::sorted_set(names);
    let vs = Seq::new(
        ks.len(),
        |i: int| builder::entry_json(builder::noted_under(doc, key, diff, ks[i])),
    );
    order::law_sorted_set(names);
    assert forall|i: int| 0 <= i < vs.len() implies reading::is_value(#[trigger] vs[i]) by {
        lemma_entry(builder::noted_under(doc, key, diff, ks[i]));
    }
    assert(names[own.len() as int] == key);
    assert(names.contains(key));
    lemma_sorted_is_read(ks, vs, names, key);
    lemma_entry(diff);
    let p = choose|p: int| 0 <= p < ks.len() && ks[p] == key;
    assert(vs[p] == builder::entry_json(diff));
    if own.contains(k) && k != key {
        let j = choose|j: int| 0 <= j < own.len() && own[j] == k;
        assert(names[j] == k);
        assert(names.contains(k));
        lemma_sorted_is_read(ks, vs, names, k);
        let q = choose|q: int| 0 <= q < ks.len() && ks[q] == k;
        lemma_entry(builder::noted_under(doc, key, diff, k));
        assert(vs[q] == builder::entry_json(builder::noted_under(doc, key, diff, k)));
    }
}

proof fn lemma_entry(diff: Seq<char>)
    ensures
        reading::is_value(builder::entry_json(diff)),
        reading::string_under(builder::entry_json(diff), "diff_id"@) == Some(diff),
{
    let ks = seq!["diff_id"@];
    let vs = seq![json::json_quoted(diff)];
    reading::lemma_quoted_is_value(diff);
    reading::lemma_object_is_value(ks, vs);
    reading::lemma_string_under(ks, vs, 0, diff);
}

proof fn lemma_sorted_is_read(
    ks: Seq<Seq<char>>,
    vs: Seq<Seq<char>>,
    names: Seq<Seq<char>>,
    k: Seq<char>,
)
    requires
        ks == order::sorted_set(names),
        ks.len() == vs.len(),
        reading::all_values(vs),
        names.contains(k),
    ensures
        exists|p: int| 0 <= p < ks.len() && ks[p] == k,
        forall|p: int|
            0 <= p < ks.len() && #[trigger] ks[p] == k ==> reading::member(
                json::json_object(ks, vs),
                k,
            ) == Some(vs[p]),
{
    order::law_sorted_set(names);
    assert(ks.contains(k));
    assert forall|p: int| 0 <= p < ks.len() && #[trigger] ks[p] == k implies reading::member(
        json::json_object(ks, vs),
        k,
    ) == Some(vs[p]) by {
        assert forall|q: int| 0 <= q < p implies #[trigger] ks[q] != ks[p] by {
            order::lemma_less_total(ks[q], ks[q]);
            assert(order::less(ks[q], ks[p]));
        }
        reading::lemma_member_is_read(ks, vs, p);
    }
}

// ---------------------------------------------------------------- health checks

/// A command of a health check that is run by the shell.
pub open spec fn is_shell_command(cmd: Seq<char>) -> bool {
    cmd.len() > 0 && !text::is_white_space(cmd[0]) && !text::is_white_space(cmd.last()) && cmd[0]
        != '['
}

#[verifier::rlimit(40)]
proof fn lemma_health_command(lead: Seq<char>, cmd: Seq<char>)
    requires
        is_shell_command(cmd),
        !lead.contains('C'),
        lead.len() > 0 ==> !text::is_white_space(lead[0]) && lead[0] != 'N',
    ensures
        builder::health_of(lead + ("CMD "@ + cmd)) matches Some(h) && {
            let ws = text::words(lead);
            h == (HealthView {
                test: seq!["CMD-SHELL"@, cmd],
                ..builder::flags_to(ws, ws.len() as int)
            })
        },
{
    reveal_strlit("CMD ");
    reveal_strlit("CMD");
    reveal_strlit("NONE");
    let rest = "CMD "@ + cmd;
    let s = lead + rest;
    let n = lead.len() as int;
    assert(rest[0] == 'C' && rest.last() == cmd.last());
    assert(s[0] == if n > 0 { lead[0] } else { 'C' });
    assert(s.last() == cmd.last());
    text::lemma_trim(s);
    if text::starts_with(s, "NONE"@) {
        assert(s.subrange(0, 4)[0] == "NONE"@[0]);
    }
    assert(s.subrange(n, n + 3) =~= "CMD"@);
    assert forall|j: int| 0 <= j < n implies !#[trigger] text::occurs_at(s, "CMD"@, j) by {
        assert(s[j] == lead[j]);
        assert(lead.contains(lead[j]));
        if text::occurs_at(s, "CMD"@, j) {
            assert(s.subrange(j, j + 3)[0] == "CMD"@[0]);
        }
    }
    text::lemma_found_at(s, "CMD"@, n);
    assert(s.take(n) =~= lead);
    assert(s.skip(n) =~= rest);
    text::lemma_trim(rest);
    assert(rest.subrange(0, 3) =~= "CMD"@);
    let sp = rest.skip(3);
    assert(sp =~= seq![' '] + cmd);
    assert(sp.skip(1) =~= cmd);
    text::lemma_trim(cmd);
    text::lemma_trim_start_keeps(cmd);
    assert(text::trim_start(sp) == text::trim_start(cmd));
    assert(text::trim(sp) == cmd);
    assert(dockerfile::json_form(cmd) is None);
}

/// A health check without flags runs its command by the shell, and leaves all else open;
/// `NONE` runs nothing.
pub proof fn law_health_check_is_read(cmd: Seq<char>)
    requires
        is_shell_command(cmd),
    ensures
        builder::health_of("CMD "@ + cmd) matches Some(h) && h.test == seq!["CMD-SHELL"@, cmd]
            && h.interval is None && h.timeout is None && h.retries is None && h.start_period is None
            && h.start_interval is None,
        builder::health_of("NONE"@) matches Some(h) && h.test == seq!["NONE"@],
{
    let none = Seq::<char>::empty();
    lemma_health_command(none, cmd);
    assert(none + ("CMD "@ + cmd) =~= "CMD "@ + cmd);
    assert(text::words(none).len() == 0);
    reveal_strlit("NONE");
    text::lemma_trim("NONE"@);
    assert("NONE"@.subrange(0, 4) =~= "NONE"@);
}

proof fn lemma_seconds(n: nat)
    requires
        n * 1_000_000_000 <= i64::MAX,
    ensures
        builder::nanos_of(num::decimal(n) + seq!['s']) == n * 1_000_000_000,
        builder::count_of(num::decimal(n)) == Some(n as i64),
{
    num::lemma_decimal_reads_back(n);
    let d = num::decimal(n);
    let s = d + seq!['s'];
    let q = seq!['s'];
    assert(s.subrange(s.len() - 1, s.len() as int) =~= q);
    assert(s.take(s.len() - 1) =~= d);
    assert('0' <= d[d.len() - 1] <= '9');
    if text::ends_with(d, q) {
        assert(d.subrange(d.len() - 1, d.len() as int)[0] == q[0]);
    }
    assert(text::strip_ends(d, q) == d);
    assert(text::strip_ends(s, q) == d);
    requests::lemma_signed_reads_back(n as i64);
    assert(num::signed_decimal(n as int) == d);
}

proof fn lemma_health_flag(h: HealthView, k: Seq<char>, v: Seq<char>)
    requires
        !k.contains('='),
    ensures
        builder::with_flag(h, seq!['-', '-'] + k + seq!['='] + v) == (if k == "interval"@ {
            HealthView { interval: Some(builder::nanos_of(v)), ..h }
        } else if k == "timeout"@ {
            HealthView { timeout: Some(builder::nanos_of(v)), ..h }
        } else if k == "retries"@ {
            HealthView { retries: builder::count_of(v), ..h }
        } else if k == "start-period"@ {
            HealthView { start_period: Some(builder::nanos_of(v)), ..h }
        } else {
            h
        }),
{
    reveal_strlit("--");
    let w = seq!['-', '-'] + k + seq!['='] + v;
    assert(w.subrange(0, 2) =~= "--"@);
    let f = k + seq!['='] + v;
    assert(w.skip(2) =~= f);
    assert forall|j: int| 0 <= j < k.len() implies f[j] != '=' by {
        assert(k.contains(k[j]));
    }
    text::lemma_found_char(f, '=', k.len() as int);
    assert(f.take(k.len() as int) =~= k);
    assert(f.skip(k.len() + 1int) =~= v);
}

/// A flag of a health check sets what it names, times in seconds; its command is the same,
/// and all else stays open.
#[verifier::rlimit(40)]
pub proof fn law_health_flags_are_read(inst: InstructionView, n: nat, cmd: Seq<char>)
    requires
        n * 1_000_000_000 <= i64::MAX,
        is_shell_command(cmd),
        inst.args == "CMD "@ + cmd,
        inst.flags.len() == 1,
        inst.flags[0].1 == num::decimal(n) + seq!['s'] || (inst.flags[0].0 == "retries"@
            && inst.flags[0].1 == num::decimal(n)),
        inst.flags[0].0 == "interval"@ || inst.flags[0].0 == "timeout"@ || inst.flags[0].0
            == "retries"@ || inst.flags[0].0 == "start-period"@,
    ensures
        builder::health_of(builder::flagged_args(inst)) matches Some(h) && {
            let k = inst.flags[0].0;
            &&& h.test == seq!["CMD-SHELL"@, cmd]
            &&& k == "interval"@ ==> h.interval == Some((n * 1_000_000_000) as i64)
            &&& k == "timeout"@ ==> h.timeout == Some((n * 1_000_000_000) as i64)
            &&& k == "start-period"@ ==> h.start_period == Some((n * 1_000_000_000) as i64)
            &&& k == "retries"@ && inst.flags[0].1 == num::decimal(n) ==> h.retries == Some(n as i64)
            &&& k != "interval"@ ==> h.interval is None
            &&& k != "timeout"@ ==> h.timeout is None
            &&& k != "start-period"@ ==> h.start_period is None
            &&& k != "retries"@ ==> h.retries is None
        },
{
    lemma_health_words();
    let (k, x) = inst.flags[0];
    lemma_seconds(n);
    lemma_health_with_flag(inst, k, x, n, cmd);
    lemma_health_flag(builder::no_health(), k, x);
}

#[verifier::rlimit(40)]
proof fn lemma_health_with_flag(
    inst: InstructionView,
    k: Seq<char>,
    x: Seq<char>,
    n: nat,
    cmd: Seq<char>,
)
    requires
        is_shell_command(cmd),
        inst.args == "CMD "@ + cmd,
        inst.flags.len() == 1,
        inst.flags[0] == (k, x),
        forall|i: int| 0 <= i < k.len() ==> is_low(#[trigger] k[i]),
        x == num::decimal(n) + seq!['s'] || x == num::decimal(n),
    ensures
        !k.contains('='),
        builder::health_of(builder::flagged_args(inst)) == Some(
            HealthView {
                test: seq!["CMD-SHELL"@, cmd],
                ..builder::with_flag(builder::no_health(), seq!['-', '-'] + k + seq!['='] + x)
            },
        ),
{
    let w = seq!['-', '-'] + k + seq!['='] + x;
    lemma_flag_word(w, k, x, n);
    lemma_flagged(inst, k, x);
    let lead = w + seq![' '];
    assert(builder::flagged_args(inst) == lead + ("CMD "@ + cmd));
    if lead.contains('C') {
        let j = choose|j: int| 0 <= j < lead.len() && lead[j] == 'C';
        if j < w.len() {
            assert(is_quiet(w[j]));
        }
    }
    assert(lead[0] == '-');
    lemma_health_command(lead, cmd);
    lemma_words_of_lead(w);
    let ws = seq![w];
    assert(builder::flags_to(ws, 0) == builder::no_health());
    assert(builder::flags_to(ws, 1) == builder::with_flag(builder::no_health(), w));
}

proof fn lemma_words_of_lead(w: Seq<char>)
    requires
        w.len() > 0,
        forall|i: int| 0 <= i < w.len() ==> is_quiet(#[trigger] w[i]),
    ensures
        text::words(w + seq![' ']) == seq![w],
{
    assert forall|i: int| 0 <= i < w.len() implies !text::is_white_space(#[trigger] w[i]) by {
        assert(is_quiet(w[i]));
    }
    let none = Seq::<char>::empty();
    assert(w + seq![' '] + none =~= w + seq![' ']);
    lemma_first_word(w, none);
    assert(text::words(none) =~= Seq::empty());
    assert(seq![w] + Seq::<Seq<char>>::empty() =~= seq![w]);
}

pub open spec fn is_quiet(c: char) -> bool {
    c != 'C' && !text::is_white_space(c)
}

proof fn lemma_flag_word(w: Seq<char>, k: Seq<char>, x: Seq<char>, n: nat)
    requires
        w == seq!['-', '-'] + k + seq!['='] + x,
        forall|i: int| 0 <= i < k.len() ==> is_low(#[trigger] k[i]),
        x == num::decimal(n) + seq!['s'] || x == num::decimal(n),
    ensures
        !k.contains('='),
        forall|i: int| 0 <= i < w.len() ==> is_quiet(#[trigger] w[i]),
{
    num::lemma_decimal_reads_back(n);
    let d = num::decimal(n);
    assert forall|i: int| 0 <= i < w.len() implies is_quiet(#[trigger] w[i]) by {
        if 2 <= i < 2 + k.len() {
            assert(w[i] == k[i - 2]);
            assert(is_low(k[i - 2]));
        } else if i > 2 + k.len() {
            let j = i - 3 - k.len();
            assert(w[i] == x[j]);
            if j < d.len() {
                assert(x[j] == d[j]);
                assert('0' <= d[j] <= '9');
            }
        }
    }
    if k.contains('=') {
        let j = choose|j: int| 0 <= j < k.len() && k[j] == '=';
        assert(is_low(k[j]));
    }
}

proof fn lemma_flagged(inst: InstructionView, k: Seq<char>, x: Seq<char>)
    requires
        inst.flags.len() == 1,
        inst.flags[0] == (k, x),
    ensures
        builder::flagged_args(inst) == seq!['-', '-'] + k + seq!['='] + x + seq![' '] + inst.args,
{
    reveal_strlit("--");
    reveal_strlit("=");
    reveal_strlit(" ");
    let w = seq!['-', '-'] + k + seq!['='] + x;
    let fw = builder::flag_words(inst.flags);
    assert(fw[0] =~= w);
    assert(fw =~= seq![w]);
    let parts = fw.push(inst.args);
    assert(parts =~= seq![w, inst.args]);
    text::lemma_join_first(parts, " "@);
    assert(parts.skip(1) =~= seq![inst.args]);
    text::lemma_join_first(seq![inst.args], " "@);
    assert(" "@ =~= seq![' ']);
}

pub open spec fn is_low(c: char) -> bool {
    ('a' <= c <= 'z') || c == '-'
}

proof fn lemma_health_words()
    ensures
        forall|i: int| 0 <= i < "interval"@.len() ==> is_low(#[trigger] "interval"@[i]),
        forall|i: int| 0 <= i < "timeout"@.len() ==> is_low(#[trigger] "timeout"@[i]),
        forall|i: int| 0 <= i < "retries"@.len() ==> is_low(#[trigger] "retries"@[i]),
        forall|i: int| 0 <= i < "start-period"@.len() ==> is_low(#[trigger] "start-period"@[i]),
        "interval"@ != "timeout"@ && "interval"@ != "retries"@ && "interval"@ != "start-period"@
            && "timeout"@ != "retries"@ && "timeout"@ != "start-period"@ && "retries"@
            != "start-period"@,
{
    reveal_strlit("interval");
    reveal_strlit("timeout");
    reveal_strlit("retries");
    reveal_strlit("start-period");
    assert("interval"@[0] == 'i' && "timeout"@[0] == 't' && "retries"@[0] == 'r' && "start-period"@[0]
        == 's');
}

// ---------------------------------------------------------------- stages as sources

/// Files are copied from the stage of the name that is given, the last one where several have
/// it; a number counts where no stage has it for a name; without a name they come from the
/// context.
pub proof fn law_files_come_from_the_stage_named(
    done: Seq<BuiltStageView>,
    name: Seq<char>,
    i: int,
    n: nat,
)
    requires
        0 <= i < done.len(),
        n < done.len() <= usize::MAX,
    ensures
        done[i].name == Some(name) && (forall|j: int|
            i < j < done.len() ==> (#[trigger] done[j]).name != Some(name))
            ==> building::copied_stage(done, name) == Some(i),
        (forall|j: int| 0 <= j < done.len() ==> (#[trigger] done[j]).name != Some(num::decimal(n)))
            ==> building::copied_stage(done, num::decimal(n)) == Some(n as int),
        building::sources_from(done, None) is Context,
{
    if done[i].name == Some(name) && (forall|j: int|
        i < j < done.len() ==> (#[trigger] done[j]).name != Some(name)) {
        lemma_named_stage(done, name, i, done.len() as int);
    }
    let d = num::decimal(n);
    if forall|j: int| 0 <= j < done.len() ==> (#[trigger] done[j]).name != Some(d) {
        lemma_unnamed_stage(done, d, done.len() as int);
        num::lemma_decimal_reads_back(n);
        assert('0' <= d[0] <= '9');
        assert(num::unsigned_digits(d) == d);
    }
}

proof fn lemma_named_stage(done: Seq<BuiltStageView>, name: Seq<char>, i: int, n: int)
    requires
        0 <= i < n <= done.len(),
        done[i].name == Some(name),
        forall|j: int| i < j < n ==> (#[trigger] done[j]).name != Some(name),
    ensures
        building::named_stage(done, name, n) == Some(i),
    decreases n,
{
    if i < n - 1 {
        assert(done[n - 1].name != Some(name));
        lemma_named_stage(done, name, i, n - 1);
    }
}

proof fn lemma_unnamed_stage(done: Seq<BuiltStageView>, name: Seq<char>, n: int)
    requires
        0 <= n <= done.len(),
        forall|j: int| 0 <= j < n ==> (#[trigger] done[j]).name != Some(name),
    ensures
        building::named_stage(done, name, n) is None,
    decreases n,
{
    if n > 0 {
        assert(done[n - 1].name != Some(name));
        lemma_unnamed_stage(done, name, n - 1);
    }
}

} // verus!
