//! The start of the daemon: what became of containers that ran, and what is left of them.

use vstd::prelude::*;

use crate::dockerfile::{self, lines_text};
use crate::json::{self, set_members, text_at, write_text};
use crate::network::{add_word, words_of};
use crate::num::{self, signed_decimal_text};
use crate::reference;
use crate::registry;
use crate::steps;
use crate::text::{self, chars_of, has_prefix, lower_ascii, one_char, same, split_text, str_split, str_trim, string_of, words_text};

verus! {

/// What is done with a container that was running when the daemon went.
#[derive(Debug, Clone, Copy, PartialEq, Eq, Structural)]
pub enum Reconcile {
    /// Nothing: it was not running.
    Leave,
    /// It is marked as exited.
    MarkExited,
    /// It is marked as exited, then started again.
    Restart,
}

/// What is done with a container: what ran has gone with the daemon, and a policy that
/// keeps it running starts it again.
pub open spec fn reconciled(running: bool, policy: Seq<char>) -> Reconcile {
    if !running {
        Reconcile::Leave
    } else if policy == "always"@ || policy == "unless-stopped"@ {
        Reconcile::Restart
    } else {
        Reconcile::MarkExited
    }
}

/// What is done with a container, given whether its state is `running` or `paused`.
pub fn reconcile(running_or_paused: bool, policy: &str) -> (r: Reconcile)
    ensures
        r == reconciled(running_or_paused, policy@),
{
    if !running_or_paused {
        Reconcile::Leave
    } else if same(policy, "always") || same(policy, "unless-stopped") {
        Reconcile::Restart
    } else {
        Reconcile::MarkExited
    }
}

/// The state of a container that has gone with the daemon.
pub const LOST_EXIT_CODE: i64 = 255;

/// Whether a container ran, from its recorded status.
pub open spec fn was_alive(status: Seq<char>) -> bool {
    text::ascii_lowered(status) == "running"@ || text::ascii_lowered(status) == "paused"@
}

/// The step for a container with the state and the host configuration that its files hold.
pub open spec fn boot_step(state: Seq<u8>, host: Seq<u8>) -> Reconcile {
    reconciled(
        was_alive(registry::text_or_empty(json::json_text(state, "/status"@))),
        registry::text_or_empty(json::json_text(host, "/RestartPolicy/Name"@)),
    )
}

/// The file of the state of a container that has gone with the daemon: it has exited, now,
/// and has no process; the rest stays. Nothing where the file holds no object.
pub open spec fn lost_state(state: Seq<u8>, now: Seq<char>) -> Option<Seq<char>> {
    json::with_members(
        state,
        seq!["status"@, "exit_code"@, "finished_at"@, "pid"@],
        seq![
            json::json_quoted("exited"@),
            num::signed_decimal(LOST_EXIT_CODE as int),
            json::json_quoted(now),
            "0"@,
        ],
    )
}

/// What is done with a container, given the files of its state and of its host
/// configuration, and what the file of its state holds from now on.
pub fn reconcile_files(state: &[u8], host: &[u8], now: &str) -> (r: (Reconcile, Option<String>))
    ensures
        r.0 == boot_step(state@, host@),
        reference::opt_text(r.1) == if r.0 == Reconcile::Leave {
            None
        } else {
            lost_state(state@, now@)
        },
{
    let status: String = text_or_nothing(state, "/status");
    let low: String = string_of(lower_ascii(chars_of(status.as_str()).as_slice()).as_slice());
    let alive: bool = same(low.as_str(), "running") || same(low.as_str(), "paused");
    let policy: String = text_or_nothing(host, "/RestartPolicy/Name");
    let step: Reconcile = reconcile(alive, policy.as_str());
    if step == Reconcile::Leave {
        return (step, None);
    }
    let ks: Vec<String> = words_of(&["status", "exit_code", "finished_at", "pid"]);
    let mut vs: Vec<String> = Vec::new();
    vs.push(write_text("exited"));
    vs.push(signed_decimal_text(LOST_EXIT_CODE));
    vs.push(write_text(now));
    vs.push("0".to_owned());
    assert(text::texts(ks@) =~= seq!["status"@, "exit_code"@, "finished_at"@, "pid"@]);
    assert(text::texts(vs@) =~= seq![
        json::json_quoted("exited"@),
        num::signed_decimal(LOST_EXIT_CODE as int),
        json::json_quoted(now@),
        "0"@,
    ]);
    assert(text::texts(ks@).len() == ks@.len());
    let noted: Option<String> = set_members(state, &ks, &vs);
    (step, noted)
}

fn text_or_nothing(doc: &[u8], pointer: &str) -> (r: String)
    ensures
        r@ == registry::text_or_empty(json::json_text(doc@, pointer@)),
{
    match text_at(doc, pointer) {
        Some(t) => t,
        None => String::new(),
    }
}

/// The place of a mount, from its line in `/proc/self/mountinfo`: the fifth field before
/// the separator.
pub open spec fn mount_point_of(line: Seq<char>) -> Seq<char> {
    let pre = text::split(line, " - "@)[0];
    let w = text::words(pre);
    if w.len() > 4 {
        w[4]
    } else {
        Seq::empty()
    }
}

pub fn mount_point(line: &str) -> (r: String)
    ensures
        r@ == mount_point_of(line@),
{
    let cs: Vec<char> = chars_of(line);
    let sep: Vec<char> = chars_of(" - ");
    proof {
        reveal_strlit(" - ");
        text::lemma_split_join(line@, " - "@);
    }
    let parts: Vec<String> = split_text(cs.as_slice(), sep.as_slice());
    assert(text::texts(parts@).len() == parts@.len());
    assert(text::texts(parts@)[0] == parts@[0]@);
    let pre: Vec<char> = chars_of(parts[0].as_str());
    let w: Vec<String> = words_text(pre.as_slice());
    assert(text::texts(w@).len() == w@.len());
    if w.len() > 4 {
        assert(text::texts(w@)[4] == w@[4]@);
        w[4].clone()
    } else {
        let e: String = String::new();
        assert(e@ =~= Seq::empty());
        e
    }
}

/// The first `n` lines' mounts that lie at or below a directory.
pub open spec fn mounts_to(ls: Seq<Seq<char>>, root: Seq<char>, n: int) -> Seq<Seq<char>>
    decreases n,
{
    if n <= 0 {
        Seq::empty()
    } else {
        let m = mount_point_of(ls[n - 1]);
        if m.len() > 0 && is_below(m, root) {
            mounts_to(ls, root, n - 1).push(m)
        } else {
            mounts_to(ls, root, n - 1)
        }
    }
}

/// The steps of a path among its first `n` pieces: what is empty counts for nothing, nor
/// does a dot but at the very start.
pub open spec fn steps_to(pieces: Seq<Seq<char>>, n: int) -> Seq<Seq<char>>
    decreases n,
{
    if n <= 0 {
        Seq::empty()
    } else if pieces[n - 1].len() == 0 || (pieces[n - 1] == "."@ && n > 1) {
        steps_to(pieces, n - 1)
    } else {
        steps_to(pieces, n - 1).push(pieces[n - 1])
    }
}

/// The steps of a path, which slashes part.
pub open spec fn steps_of(path: Seq<char>) -> Seq<Seq<char>> {
    let pieces = text::split(path, seq!['/']);
    steps_to(pieces, pieces.len() as int)
}

pub open spec fn is_absolute(path: Seq<char>) -> bool {
    text::starts_with(path, seq!['/'])
}

/// The path is the directory or lies below it: it starts with the directory's steps.
pub open spec fn is_below(path: Seq<char>, root: Seq<char>) -> bool {
    let a = steps_of(path);
    let b = steps_of(root);
    is_absolute(path) == is_absolute(root) && b.len() <= a.len() && a.take(b.len() as int) == b
}

fn read_steps(path: &str) -> (r: Vec<String>)
    ensures
        text::texts(r@) == steps_of(path@),
{
    let pieces: Vec<String> = str_split(path, '/');
    let ghost pv = text::split(path@, seq!['/']);
    let mut out: Vec<String> = Vec::new();
    let mut i: usize = 0;
    assert(text::texts(out@) =~= Seq::empty());
    assert(text::texts(pieces@).len() == pieces@.len());
    while i < pieces.len()
        invariant
            i <= pieces.len(),
            pv == text::texts(pieces@),
            text::texts(out@) == steps_to(pv, i as int),
        decreases pieces.len() - i,
    {
        let p: &str = pieces[i].as_str();
        assert(pv[i as int] == p@);
        if !p.is_empty() && !(same(p, ".") && i > 0) {
            add_word(&mut out, p);
        }
        i += 1;
    }
    out
}

/// Whether a path is a directory or lies below it.
pub fn lies_below(path: &str, root: &str) -> (r: bool)
    ensures
        r == is_below(path@, root@),
{
    let a: Vec<String> = read_steps(path);
    let b: Vec<String> = read_steps(root);
    let ghost av = text::texts(a@);
    let ghost bv = text::texts(b@);
    let slash: Vec<char> = one_char('/');
    if has_prefix(chars_of(path).as_slice(), slash.as_slice()) != has_prefix(
        chars_of(root).as_slice(),
        slash.as_slice(),
    ) {
        return false;
    }
    assert(av.len() == a@.len() && bv.len() == b@.len());
    if a.len() < b.len() {
        return false;
    }
    let mut i: usize = 0;
    while i < b.len()
        invariant
            i <= b.len() <= a.len(),
            av == text::texts(a@),
            bv == text::texts(b@),
            av == steps_of(path@),
            bv == steps_of(root@),
            forall|j: int| 0 <= j < i ==> #[trigger] av[j] == bv[j],
        decreases b.len() - i,
    {
        assert(av[i as int] == a@[i as int]@ && bv[i as int] == b@[i as int]@);
        if !same(a[i].as_str(), b[i].as_str()) {
            assert(av.take(bv.len() as int)[i as int] != bv[i as int]);
            return false;
        }
        i += 1;
    }
    assert(av.take(bv.len() as int) =~= bv);
    true
}

/// No mount outside the directory is taken for one that was left behind.
pub proof fn law_other_mounts_stay(ls: Seq<Seq<char>>, root: Seq<char>, n: int, m: Seq<char>)
    requires
        mounts_to(ls, root, n).contains(m),
    ensures
        is_below(m, root),
    decreases n,
{
    if n > 0 {
        let before = mounts_to(ls, root, n - 1);
        let s = mounts_to(ls, root, n);
        let i = choose|i: int| 0 <= i < s.len() && s[i] == m;
        if i < before.len() {
            assert(before[i] == s[i]);
            law_other_mounts_stay(ls, root, n - 1, m);
        }
    }
}

/// The mounts that are left at or below a directory.
pub fn stale_mounts(mountinfo: &str, root: &str) -> (r: Vec<String>)
    ensures
        text::texts(r@) == mounts_to(
            dockerfile::lines(mountinfo@),
            root@,
            dockerfile::lines(mountinfo@).len() as int,
        ),
{
    let cs: Vec<char> = chars_of(mountinfo);
    let ls: Vec<String> = lines_text(cs.as_slice());
    let ghost lv = dockerfile::lines(mountinfo@);
    let mut out: Vec<String> = Vec::new();
    let mut i: usize = 0;
    assert(text::texts(out@) =~= Seq::empty());
    while i < ls.len()
        invariant
            i <= ls.len(),
            text::texts(ls@) == lv,
            text::texts(out@) == mounts_to(lv, root@, i as int),
        decreases ls.len() - i,
    {
        assert(lv[i as int] == ls@[i as int]@);
        let m: String = mount_point(ls[i].as_str());
        if !m.as_str().is_empty() && lies_below(m.as_str(), root) {
            add_word(&mut out, m.as_str());
        }
        i += 1;
    }
    out
}

/// What a host has that the daemon cannot do without.
pub struct Environment {
    pub cgroup_mounted: bool,
    pub controllers: Option<String>,
    /// The first program that is missing among those that are needed.
    pub missing_program: Option<String>,
    pub overlay_works: bool,
}

/// Why the daemon cannot run, if so.
pub open spec fn environment_fault(e: Environment) -> Option<Seq<char>> {
    if !e.cgroup_mounted {
        Some("/sys/fs/cgroup is not mounted; cannot manage containers"@)
    } else if match e.controllers {
        Some(c) => text::trim(c@).len() == 0,
        None => true,
    } {
        Some(
            "cgroup v2 is required but not available on /sys/fs/cgroup (Ingot requires cgroup v2 unified hierarchy)"@,
        )
    } else if e.missing_program is Some {
        Some("required host utility '"@ + e.missing_program->0@ + "' not found in PATH"@)
    } else if !e.overlay_works {
        Some(
            "overlayfs test mount failed; the kernel overlay module is required (try: modprobe overlay)"@,
        )
    } else {
        None
    }
}

/// Whether the daemon can run.
pub fn check_environment(e: &Environment) -> (r: Result<(), String>)
    ensures
        match r {
            Ok(_) => environment_fault(*e) is None,
            Err(d) => environment_fault(*e) == Some(d@),
        },
{
    if !e.cgroup_mounted {
        return Err("/sys/fs/cgroup is not mounted; cannot manage containers".to_owned());
    }
    let v2: bool = match &e.controllers {
        Some(c) => !str_trim(c.as_str()).as_str().is_empty(),
        None => false,
    };
    if !v2 {
        return Err(
            "cgroup v2 is required but not available on /sys/fs/cgroup (Ingot requires cgroup v2 unified hierarchy)".to_owned(),
        );
    }
    if let Some(p) = &e.missing_program {
        let mut d: String = "required host utility '".to_owned();
        d.append(p.as_str());
        d.append("' not found in PATH");
        return Err(d);
    }
    if !e.overlay_works {
        return Err(
            "overlayfs test mount failed; the kernel overlay module is required (try: modprobe overlay)".to_owned(),
        );
    }
    Ok(())
}

/// The mount point of a line is its fifth word.
pub proof fn law_mount_point_is_the_fifth_word(w: Seq<Seq<char>>, rest: Seq<char>)
    requires
        w.len() == 5,
        forall|i: int| 0 <= i < w.len() ==> #[trigger] is_field(w[i]),
        !text::contains(line_of(w, rest), " - "@),
    ensures
        mount_point_of(line_of(w, rest)) == w[4],
{
    assert(is_field(w[0]) && is_field(w[1]) && is_field(w[2]) && is_field(w[3]) && is_field(w[4]));
    let e = w[4] + seq![' '] + rest;
    let d = w[3] + seq![' '] + e;
    let c = w[2] + seq![' '] + d;
    let b = w[1] + seq![' '] + c;
    steps::lemma_first_word(w[4], rest);
    steps::lemma_first_word(w[3], e);
    steps::lemma_first_word(w[2], d);
    steps::lemma_first_word(w[1], c);
    steps::lemma_first_word(w[0], b);
}

pub open spec fn is_field(w: Seq<char>) -> bool {
    w.len() > 0 && forall|i: int| 0 <= i < w.len() ==> !text::is_white_space(#[trigger] w[i])
}

/// Five fields and what follows them.
pub open spec fn line_of(w: Seq<Seq<char>>, rest: Seq<char>) -> Seq<char> {
    w[0] + seq![' '] + (w[1] + seq![' '] + (w[2] + seq![' '] + (w[3] + seq![' '] + (w[4] + seq![' ']
        + rest))))
}

/// After a restart a container that was not alive is left alone; one that was is started
/// again exactly where its policy asks for that, and else marked as exited.
pub proof fn law_restart_follows_the_policy(running: bool, policy: Seq<char>)
    ensures
        reconciled(running, policy) == Reconcile::Restart <==> running && (policy == "always"@
            || policy == "unless-stopped"@),
        reconciled(running, policy) == Reconcile::Leave <==> !running,
{
}

} // verus!
