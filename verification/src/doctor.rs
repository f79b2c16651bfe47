//! Whether a host can run the engine: what was found of it, and what is told.

use vstd::prelude::*;

use crate::api::system::Version;
use crate::num::{self, decimal_text, parse_unsigned};
use crate::text::{self, chars_of, str_contains, str_trim};

verus! {

/// What the daemon answered.
pub enum DaemonProbe {
    /// There is no socket.
    NoSocket,
    /// The versions of the engine and of its API.
    Version { version: Option<String>, api: Option<String> },
    Unreachable(String),
}

/// What is in the file that marks the data's layout.
pub enum SchemaProbe {
    Text(String),
    Missing,
    Unreadable(String),
}

/// What the daemon tells of its data.
pub struct InfoProbe {
    pub root_dir: String,
    pub root_exists: bool,
    /// The options that it reports; none where it reports no list.
    pub security_options: Vec<String>,
    pub marker_path: String,
    pub schema: SchemaProbe,
}

/// What was found of a host.
pub struct HostProbe {
    pub socket: String,
    pub daemon: DaemonProbe,
    /// The controllers of cgroup v2, where they can be read.
    pub controllers: Option<String>,
    pub filesystems: String,
    /// What `ip -V` says, where it works.
    pub ip: Option<String>,
    /// What `iptables -V` says, where it works.
    pub iptables: Option<String>,
    pub info: Option<InfoProbe>,
}

/// What is told, and whether everything that matters is there.
pub struct HostReport {
    pub lines: Vec<String>,
    pub ok: bool,
}

pub open spec fn or_text(o: Option<String>, d: Seq<char>) -> Seq<char> {
    match o {
        Some(s) => s@,
        None => d,
    }
}

pub open spec fn daemon_line(p: HostProbe) -> Seq<char> {
    "  [..] Ingot daemon connection: "@ + (match p.daemon {
        DaemonProbe::NoSocket => "FAIL (socket "@ + p.socket@ + " does not exist)"@,
        DaemonProbe::Version { version, api } => "OK (version "@ + or_text(version, "unknown"@)
            + ", API "@ + or_text(api, "unknown"@) + ")"@,
        DaemonProbe::Unreachable(e) => "FAIL ("@ + e@ + ")"@,
    })
}

pub open spec fn daemon_ok(p: HostProbe) -> bool {
    p.daemon is Version
}

/// The controllers, where there are any.
pub open spec fn controllers_of(p: HostProbe) -> Seq<char> {
    match p.controllers {
        Some(c) => text::trim(c@),
        None => Seq::empty(),
    }
}

pub open spec fn cgroup_line(p: HostProbe) -> Seq<char> {
    "  [..] cgroup v2 support: "@ + (if controllers_of(p).len() > 0 {
        "OK (controllers: "@ + controllers_of(p) + ")"@
    } else {
        "FAIL (cgroup v2 controllers missing from /sys/fs/cgroup)"@
    })
}

pub open spec fn overlay_ok(p: HostProbe) -> bool {
    text::contains(p.filesystems@, "overlay"@)
}

pub open spec fn overlay_line(p: HostProbe) -> Seq<char> {
    "  [..] overlayfs kernel module: "@ + (if overlay_ok(p) {
        "OK"@
    } else {
        "FAIL (overlay filesystem not supported by kernel)"@
    })
}

/// What is told of a program that has to be there.
pub open spec fn program_line(head: Seq<char>, name: Seq<char>, said: Option<String>) -> Seq<char> {
    head + (match said {
        Some(v) => "OK ("@ + text::trim(v@) + ")"@,
        None => "FAIL (`"@ + name + "` binary not found or failed)"@,
    })
}

pub open spec fn root_line(i: InfoProbe) -> Seq<char> {
    "  [..] data paths: "@ + (if i.root_exists {
        "OK ("@ + i.root_dir@ + ")"@
    } else {
        "WARN (daemon root "@ + i.root_dir@ + " does not exist yet)"@
    })
}

pub open spec fn has_seccomp(v: Seq<String>) -> bool {
    exists|k: int| 0 <= k < v.len() && text::contains((#[trigger] v[k])@, "seccomp"@)
}

pub open spec fn seccomp_line(i: InfoProbe) -> Seq<char> {
    "  [..] seccomp profile: "@ + (if has_seccomp(i.security_options@) {
        "OK (default profile active)"@
    } else {
        "WARN (seccomp profile not reported)"@
    })
}

pub open spec fn schema_line(i: InfoProbe) -> Seq<char> {
    "  [..] data-root schema: "@ + (match i.schema {
        SchemaProbe::Text(raw) => match num::unsigned(text::trim(raw@), u32::MAX as nat) {
            Some(v) => "OK (version "@ + num::decimal(v) + ")"@,
            None => "WARN (unparsable marker "@ + i.marker_path@
                + "; back up before touching it)"@,
        },
        SchemaProbe::Missing => "WARN (no schema marker yet; written on first daemon boot)"@,
        SchemaProbe::Unreadable(e) => "SKIP (cannot read "@ + i.marker_path@ + ": "@ + e@ + ")"@,
    })
}

/// What is told of a host.
pub open spec fn report_lines(p: HostProbe) -> Seq<Seq<char>> {
    seq![
        daemon_line(p),
        cgroup_line(p),
        overlay_line(p),
        program_line("  [..] iproute2 (`ip`): "@, "ip"@, p.ip),
        program_line("  [..] iptables: "@, "iptables"@, p.iptables),
    ] + (match p.info {
        Some(i) => seq![root_line(i), seccomp_line(i), schema_line(i)],
        None => seq!["  [..] data paths: SKIP (daemon not reachable)"@],
    })
}

/// Everything that the engine cannot do without is there.
pub open spec fn host_ok(p: HostProbe) -> bool {
    &&& daemon_ok(p)
    &&& controllers_of(p).len() > 0
    &&& overlay_ok(p)
    &&& p.ip is Some
    &&& p.iptables is Some
}

fn seccomp_reported(v: &Vec<String>) -> (r: bool)
    ensures
        r == has_seccomp(v@),
{
    let mut i: usize = 0;
    while i < v.len()
        invariant
            i <= v.len(),
            forall|k: int| 0 <= k < i ==> !text::contains((#[trigger] v@[k])@, "seccomp"@),
        decreases v.len() - i,
    {
        if str_contains(v[i].as_str(), "seccomp") {
            return true;
        }
        i += 1;
    }
    false
}

fn program_text(head: &str, name: &str, said: &Option<String>) -> (r: String)
    ensures
        r@ == program_line(head@, name@, *said),
{
    let mut l: String = head.to_owned();
    match said {
        Some(v) => {
            l.append("OK (");
            l.append(str_trim(v.as_str()).as_str());
            l.append(")");
        },
        None => {
            l.append("FAIL (`");
            l.append(name);
            l.append("` binary not found or failed)");
        },
    }
    assert(l@ =~= program_line(head@, name@, *said));
    l
}

fn schema_text(i: &InfoProbe) -> (r: String)
    ensures
        r@ == schema_line(*i),
{
    let mut l: String = "  [..] data-root schema: ".to_owned();
    match &i.schema {
        SchemaProbe::Text(raw) => {
            let t: String = str_trim(raw.as_str());
            match parse_unsigned(chars_of(t.as_str()).as_slice(), u32::MAX as u64) {
                Some(v) => {
                    l.append("OK (version ");
                    l.append(decimal_text(v as u128).as_str());
                    l.append(")");
                },
                None => {
                    l.append("WARN (unparsable marker ");
                    l.append(i.marker_path.as_str());
                    l.append("; back up before touching it)");
                },
            }
        },
        SchemaProbe::Missing => {
            l.append("WARN (no schema marker yet; written on first daemon boot)");
        },
        SchemaProbe::Unreadable(e) => {
            l.append("SKIP (cannot read ");
            l.append(i.marker_path.as_str());
            l.append(": ");
            l.append(e.as_str());
            l.append(")");
        },
    }
    assert(l@ =~= schema_line(*i));
    l
}

/// What is told of a host, and whether everything that matters is there.
pub fn doctor(p: &HostProbe) -> (r: HostReport)
    ensures
        text::texts(r.lines@) == report_lines(*p),
        r.ok == host_ok(*p),
{
    let mut lines: Vec<String> = Vec::new();
    let mut l: String = "  [..] Ingot daemon connection: ".to_owned();
    let mut ok: bool = true;
    match &p.daemon {
        DaemonProbe::NoSocket => {
            l.append("FAIL (socket ");
            l.append(p.socket.as_str());
            l.append(" does not exist)");
            ok = false;
        },
        DaemonProbe::Version { version, api } => {
            l.append("OK (version ");
            match version {
                Some(v) => l.append(v.as_str()),
                None => l.append("unknown"),
            }
            l.append(", API ");
            match api {
                Some(v) => l.append(v.as_str()),
                None => l.append("unknown"),
            }
            l.append(")");
        },
        DaemonProbe::Unreachable(e) => {
            l.append("FAIL (");
            l.append(e.as_str());
            l.append(")");
            ok = false;
        },
    }
    assert(l@ =~= daemon_line(*p));
    lines.push(l);
    let mut c: String = "  [..] cgroup v2 support: ".to_owned();
    let controllers: String = match &p.controllers {
        Some(x) => str_trim(x.as_str()),
        None => String::new(),
    };
    assert(controllers@ =~= controllers_of(*p));
    if controllers.as_str().is_empty() {
        c.append("FAIL (cgroup v2 controllers missing from /sys/fs/cgroup)");
        ok = false;
    } else {
        c.append("OK (controllers: ");
        c.append(controllers.as_str());
        c.append(")");
    }
    assert(c@ =~= cgroup_line(*p));
    lines.push(c);
    let mut o: String = "  [..] overlayfs kernel module: ".to_owned();
    if str_contains(p.filesystems.as_str(), "overlay") {
        o.append("OK");
    } else {
        o.append("FAIL (overlay filesystem not supported by kernel)");
        ok = false;
    }
    lines.push(o);
    lines.push(program_text("  [..] iproute2 (`ip`): ", "ip", &p.ip));
    lines.push(program_text("  [..] iptables: ", "iptables", &p.iptables));
    if p.ip.is_none() || p.iptables.is_none() {
        ok = false;
    }
    match &p.info {
        Some(i) => {
            let mut d: String = "  [..] data paths: ".to_owned();
            if i.root_exists {
                d.append("OK (");
                d.append(i.root_dir.as_str());
                d.append(")");
            } else {
                d.append("WARN (daemon root ");
                d.append(i.root_dir.as_str());
                d.append(" does not exist yet)");
            }
            assert(d@ =~= root_line(*i));
            lines.push(d);
            let mut s: String = "  [..] seccomp profile: ".to_owned();
            if seccomp_reported(&i.security_options) {
                s.append("OK (default profile active)");
            } else {
                s.append("WARN (seccomp profile not reported)");
            }
            lines.push(s);
            lines.push(schema_text(i));
        },
        None => {
            lines.push("  [..] data paths: SKIP (daemon not reachable)".to_owned());
        },
    }
    assert(text::texts(lines@) =~= report_lines(*p));
    HostReport { lines, ok }
}

/// What the data's layout looks like never decides whether the host is fit.
pub proof fn law_warnings_do_not_fail(a: HostProbe, b: HostProbe)
    requires
        a.daemon == b.daemon,
        a.controllers == b.controllers,
        a.filesystems == b.filesystems,
        a.ip == b.ip,
        a.iptables == b.iptables,
    ensures
        host_ok(a) == host_ok(b),
{
}

/// What a line says behind its colon.
pub open spec fn verdict(line: Seq<char>) -> Seq<char> {
    match text::split_once(line, seq![':']) {
        Some((_, v)) => v,
        None => Seq::empty(),
    }
}

pub open spec fn is_good(line: Seq<char>) -> bool {
    text::starts_with(verdict(line), " OK"@)
}

proof fn lemma_verdict(head: Seq<char>, rest: Seq<char>)
    requires
        head.len() > 2,
        head[head.len() - 2] == ':' && head[head.len() - 1] == ' ',
        forall|j: int| 0 <= j < head.len() - 2 ==> head[j] != ':',
    ensures
        verdict(head + rest) == seq![' '] + rest,
{
    let s = head + rest;
    let k = head.len() - 2;
    text::lemma_found_char(s, ':', k);
    assert(s.skip(k + 1) =~= seq![' '] + rest);
}

proof fn lemma_good(rest: Seq<char>)
    ensures
        text::starts_with(rest, "OK"@) ==> text::starts_with(seq![' '] + rest, " OK"@),
        text::starts_with(rest, "FAIL"@) ==> !text::starts_with(seq![' '] + rest, " OK"@),
{
    reveal_strlit("OK");
    reveal_strlit(" OK");
    reveal_strlit("FAIL");
    let s = seq![' '] + rest;
    if text::starts_with(rest, "OK"@) {
        assert(rest.subrange(0, 2) == "OK"@);
        assert(rest[0] == rest.subrange(0, 2)[0] && rest[1] == rest.subrange(0, 2)[1]);
        assert(s.subrange(0, 3) =~= " OK"@);
    }
    if text::starts_with(rest, "FAIL"@) {
        assert(rest[0] == rest.subrange(0, 4)[0]);
        if text::starts_with(s, " OK"@) {
            assert(s.subrange(0, 3)[1] == " OK"@[1]);
            assert(s[1] == rest[0]);
        }
    }
}

proof fn lemma_words()
    ensures
        forall|r: Seq<char>| #[trigger] text::starts_with("OK ("@ + r, "OK"@),
        text::starts_with("OK"@, "OK"@),
        forall|r: Seq<char>| #[trigger] text::starts_with("FAIL ("@ + r, "FAIL"@),
{
    reveal_strlit("OK (");
    reveal_strlit("OK");
    reveal_strlit("FAIL (");
    reveal_strlit("FAIL");
    assert forall|r: Seq<char>| #[trigger] text::starts_with("OK ("@ + r, "OK"@) by {
        assert(("OK ("@ + r).subrange(0, 2) =~= "OK"@);
    }
    assert("OK"@.subrange(0, 2) =~= "OK"@);
    assert forall|r: Seq<char>| #[trigger] text::starts_with("FAIL ("@ + r, "FAIL"@) by {
        assert(("FAIL ("@ + r).subrange(0, 4) =~= "FAIL"@);
    }
}

proof fn lemma_daemon_line(p: HostProbe)
    ensures
        is_good(daemon_line(p)) == daemon_ok(p),
{
    reveal_strlit("  [..] Ingot daemon connection: ");
    reveal_strlit("FAIL (socket ");
    reveal_strlit("FAIL (");
    reveal_strlit("OK (version ");
    reveal_strlit("OK (");
    lemma_words();
    let head = "  [..] Ingot daemon connection: "@;
    match p.daemon {
        DaemonProbe::NoSocket => {
            let rest = "FAIL (socket "@ + p.socket@ + " does not exist)"@;
            assert(rest =~= "FAIL ("@ + rest.skip(6));
            lemma_verdict(head, rest);
            lemma_good(rest);
        },
        DaemonProbe::Version { version, api } => {
            let rest = "OK (version "@ + or_text(version, "unknown"@) + ", API "@ + or_text(
                api,
                "unknown"@,
            ) + ")"@;
            assert(rest =~= "OK ("@ + rest.skip(4));
            lemma_verdict(head, rest);
            lemma_good(rest);
        },
        DaemonProbe::Unreachable(e) => {
            let rest = "FAIL ("@ + e@ + ")"@;
            assert(rest =~= "FAIL ("@ + rest.skip(6));
            lemma_verdict(head, rest);
            lemma_good(rest);
        },
    }
}

proof fn lemma_cgroup_line(p: HostProbe)
    ensures
        is_good(cgroup_line(p)) == (controllers_of(p).len() > 0),
{
    reveal_strlit("  [..] cgroup v2 support: ");
    reveal_strlit("OK (controllers: ");
    reveal_strlit("OK (");
    reveal_strlit("FAIL (cgroup v2 controllers missing from /sys/fs/cgroup)");
    reveal_strlit("FAIL (");
    lemma_words();
    let head = "  [..] cgroup v2 support: "@;
    let good = "OK (controllers: "@ + controllers_of(p) + ")"@;
    let bad = "FAIL (cgroup v2 controllers missing from /sys/fs/cgroup)"@;
    assert(good =~= "OK ("@ + good.skip(4));
    assert(bad =~= "FAIL ("@ + bad.skip(6));
    lemma_verdict(head, good);
    lemma_verdict(head, bad);
    lemma_good(good);
    lemma_good(bad);
}

proof fn lemma_overlay_line(p: HostProbe)
    ensures
        is_good(overlay_line(p)) == overlay_ok(p),
{
    reveal_strlit("  [..] overlayfs kernel module: ");
    reveal_strlit("FAIL (overlay filesystem not supported by kernel)");
    reveal_strlit("FAIL (");
    lemma_words();
    let head = "  [..] overlayfs kernel module: "@;
    let bad = "FAIL (overlay filesystem not supported by kernel)"@;
    assert(bad =~= "FAIL ("@ + bad.skip(6));
    lemma_verdict(head, "OK"@);
    lemma_verdict(head, bad);
    lemma_good("OK"@);
    lemma_good(bad);
}

proof fn lemma_program_line(head: Seq<char>, name: Seq<char>, said: Option<String>)
    requires
        head.len() > 2,
        head[head.len() - 2] == ':' && head[head.len() - 1] == ' ',
        forall|j: int| 0 <= j < head.len() - 2 ==> head[j] != ':',
    ensures
        is_good(program_line(head, name, said)) == said is Some,
{
    reveal_strlit("OK (");
    reveal_strlit("FAIL (`");
    reveal_strlit("FAIL (");
    lemma_words();
    match said {
        Some(v) => {
            let good = "OK ("@ + text::trim(v@) + ")"@;
            assert(good =~= "OK ("@ + good.skip(4));
            lemma_verdict(head, good);
            lemma_good(good);
        },
        None => {
            let bad = "FAIL (`"@ + name + "` binary not found or failed)"@;
            assert(bad =~= "FAIL ("@ + bad.skip(6));
            lemma_verdict(head, bad);
            lemma_good(bad);
        },
    }
}

/// The verdict on a host is that of the lines that are shown of it: it will do exactly where
/// each of what the engine needs is reported as good.
pub proof fn law_verdict_agrees_with_the_lines(p: HostProbe)
    ensures
        ({
            let v = report_lines(p);
            &&& v.len() >= 5
            &&& host_ok(p) <==> forall|i: int| 0 <= i < 5 ==> is_good(#[trigger] v[i])
        }),
{
    reveal_strlit("  [..] iproute2 (`ip`): ");
    reveal_strlit("  [..] iptables: ");
    lemma_daemon_line(p);
    lemma_cgroup_line(p);
    lemma_overlay_line(p);
    lemma_program_line("  [..] iproute2 (`ip`): "@, "ip"@, p.ip);
    lemma_program_line("  [..] iptables: "@, "iptables"@, p.iptables);
    let v = report_lines(p);
    assert(is_good(v[0]) == daemon_ok(p));
    assert(is_good(v[1]) == (controllers_of(p).len() > 0));
    assert(is_good(v[2]) == overlay_ok(p));
    assert(is_good(v[3]) == p.ip is Some);
    assert(is_good(v[4]) == p.iptables is Some);
}

} // verus!
