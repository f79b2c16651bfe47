//! A compose project: what its services are limited to, what is mounted into them, what
//! is asked of the daemon for them and what their containers are waited for.

use vstd::prelude::*;
use vstd::slice::slice_subrange;

use crate::commands::{self, read_mappings, table_row, write_bindings};
use crate::compose::{self, BuildSpec, ComposeFile, ComposeSecretConfig, DepCondition, DeployConfig, DeployResources, EnvSpec, LimitValue, PullAction, ResourceLimits, SecretRef, ServiceConfig, StringOrList, decide_pull, dependency_conditions, service_enabled, skipped_message, table_keys};
use crate::dns::{self, lossy_text};
use crate::dockerfile::{self, lines_text};
use crate::inherit::{self, join_path, say_of_service};
use crate::json::{self, flag_at, integer_at, is_document, item_pointer, items_at, text_at, write_array, write_bool, write_object, write_text};
use crate::network::{add_word, add_words, words_of};
use crate::num::{self, signed_decimal_text};
use crate::ports::{self, MappingView, PortMapping};
use crate::reference;
use crate::requests;
use crate::table::Table;
use crate::text::{self, chars_of, is_among, join_text, lower_ascii, one_char, same, str_contains, str_cut, str_starts, string_of, strip_starts_text, strip_suffix_text, trim_text};
use crate::unicode::{self, quote};

verus! {

// ---------------------------------------------------------------- limits

/// A limit, nought where none is set; one that means no number is an error.
pub open spec fn limit_of(l: Option<LimitValue>, field: Seq<char>, wanted: Seq<char>) -> Result<
    i64,
    Seq<char>,
> {
    match l {
        None => Ok(0),
        Some(v) => match v.value {
            Some(n) => Ok(n),
            None => Err(field + " "@ + v.shown@ + " is invalid (want "@ + wanted + ")"@),
        },
    }
}

pub open spec fn cpus_wanted() -> Seq<char> {
    "a CPU count like \"0.50\" or 2"@
}

pub open spec fn memory_wanted() -> Seq<char> {
    "bytes like 536870912 or \"512M\""@
}

/// What a limit is called in an error.
pub open spec fn limit_field(service: Seq<char>, part: Seq<char>, key: Seq<char>) -> Seq<char> {
    "service "@ + service + ": deploy.resources."@ + part + "."@ + key
}

/// The processors, in billionths, and the memory, in bytes.
pub open spec fn pair_of(l: Option<ResourceLimits>, service: Seq<char>, part: Seq<char>) -> Result<
    (i64, i64),
    Seq<char>,
> {
    match l {
        None => Ok((0, 0)),
        Some(l) => match limit_of(l.cpus, limit_field(service, part, "cpus"@), cpus_wanted()) {
            Err(e) => Err(e),
            Ok(c) => match limit_of(
                l.memory,
                limit_field(service, part, "memory"@),
                memory_wanted(),
            ) {
                Err(e) => Err(e),
                Ok(m) => Ok((c, m)),
            },
        },
    }
}

/// The limits of a service. What it reserves is looked at first, and only to find errors.
pub open spec fn limits_of(deploy: Option<DeployConfig>, service: Seq<char>) -> Result<
    (i64, i64),
    Seq<char>,
> {
    match deploy {
        None => Ok((0, 0)),
        Some(d) => match d.resources {
            None => Ok((0, 0)),
            Some(r) => match pair_of(r.reservations, service, "reservations"@) {
                Err(e) => Err(e),
                Ok(_) => pair_of(r.limits, service, "limits"@),
            },
        },
    }
}

pub open spec fn opt_copy<T>(o: Option<&T>) -> Option<T> {
    match o {
        Some(x) => Some(*x),
        None => None,
    }
}

fn read_limit(l: &Option<LimitValue>, field: &str, wanted: &str) -> (r: Result<i64, String>)
    ensures
        match r {
            Ok(n) => limit_of(*l, field@, wanted@) == Ok::<i64, Seq<char>>(n),
            Err(e) => limit_of(*l, field@, wanted@) == Err::<i64, Seq<char>>(e@),
        },
{
    match l {
        None => Ok(0),
        Some(v) => match v.value {
            Some(n) => Ok(n),
            None => {
                let mut e: String = field.to_owned();
                e.append(" ");
                e.append(v.shown.as_str());
                e.append(" is invalid (want ");
                e.append(wanted);
                e.append(")");
                Err(e)
            },
        },
    }
}

fn name_limit(service: &str, part: &str, key: &str) -> (r: String)
    ensures
        r@ == limit_field(service@, part@, key@),
{
    let mut s: String = "service ".to_owned();
    s.append(service);
    s.append(": deploy.resources.");
    s.append(part);
    s.append(".");
    s.append(key);
    s
}

fn read_limits(l: &Option<ResourceLimits>, service: &str, part: &str) -> (r: Result<
    (i64, i64),
    String,
>)
    ensures
        match r {
            Ok(n) => pair_of(*l, service@, part@) == Ok::<(i64, i64), Seq<char>>(n),
            Err(e) => pair_of(*l, service@, part@) == Err::<(i64, i64), Seq<char>>(e@),
        },
{
    match l {
        None => Ok((0, 0)),
        Some(l) => {
            let c: i64 = match read_limit(
                &l.cpus,
                name_limit(service, part, "cpus").as_str(),
                "a CPU count like \"0.50\" or 2",
            ) {
                Ok(c) => c,
                Err(e) => {
                    return Err(e);
                },
            };
            match read_limit(
                &l.memory,
                name_limit(service, part, "memory").as_str(),
                "bytes like 536870912 or \"512M\"",
            ) {
                Ok(m) => Ok((c, m)),
                Err(e) => Err(e),
            }
        },
    }
}

/// The processors and the memory that a service is limited to, nought where it is not.
pub fn deploy_limits(deploy: Option<&DeployConfig>, service: &str) -> (r: Result<
    (i64, i64),
    String,
>)
    ensures
        match r {
            Ok(n) => limits_of(opt_copy(deploy), service@) == Ok::<(i64, i64), Seq<char>>(n),
            Err(e) => limits_of(opt_copy(deploy), service@) == Err::<(i64, i64), Seq<char>>(e@),
        },
{
    match deploy {
        None => Ok((0, 0)),
        Some(d) => match &d.resources {
            None => Ok((0, 0)),
            Some(res) => match read_limits(&res.reservations, service, "reservations") {
                Err(e) => Err(e),
                Ok(_) => read_limits(&res.limits, service, "limits"),
            },
        },
    }
}

/// What a service reserves changes nothing, as long as it is well written.
pub proof fn law_reservations_are_not_applied(a: DeployResources, service: Seq<char>)
    requires
        pair_of(a.reservations, service, "reservations"@) is Ok,
    ensures
        limits_of(Some(DeployConfig { resources: Some(a) }), service) == pair_of(
            a.limits,
            service,
            "limits"@,
        ),
{
}

/// An amount of memory: the text of its number and what one of it is worth in bytes.
pub open spec fn memory_split(s: Seq<char>) -> Option<(Seq<char>, u64)> {
    let l = text::ascii_lowered(s);
    let b = match text::strip_suffix(l, seq!['b']) {
        Some(x) => x,
        None => l,
    };
    let i = match text::strip_suffix(b, seq!['i']) {
        Some(x) => x,
        None => b,
    };
    if s.len() == 0 {
        None
    } else if i.len() > 0 && i.last() == 'k' {
        Some((text::trim(i.drop_last()), 1024))
    } else if i.len() > 0 && i.last() == 'm' {
        Some((text::trim(i.drop_last()), 1048576))
    } else if i.len() > 0 && i.last() == 'g' {
        Some((text::trim(i.drop_last()), 1073741824))
    } else {
        Some((text::trim(i), 1))
    }
}

/// Parts an amount of memory such as `512M`: the text of its number, and the bytes that
/// one of it is worth.
pub fn memory_parts(s: &str) -> (r: Option<(String, u64)>)
    ensures
        match r {
            Some((n, m)) => memory_split(s@) == Some((n@, m)),
            None => memory_split(s@) is None,
        },
{
    let l: Vec<char> = lower_ascii(chars_of(s).as_slice());
    if l.len() == 0 {
        return None;
    }
    let b: &[char] = match strip_suffix_text(l.as_slice(), one_char('b').as_slice()) {
        Some(x) => x,
        None => l.as_slice(),
    };
    let i: &[char] = match strip_suffix_text(b, one_char('i').as_slice()) {
        Some(x) => x,
        None => b,
    };
    let n: usize = i.len();
    if n == 0 {
        return Some((string_of(trim_text(i)), 1));
    }
    let m: u64 = match i[n - 1] {
        'k' => 1024,
        'm' => 1048576,
        'g' => 1073741824,
        _ => {
            return Some((string_of(trim_text(i)), 1));
        },
    };
    let rest: &[char] = slice_subrange(i, 0, n - 1);
    assert(rest@ =~= i@.drop_last());
    Some((string_of(trim_text(rest)), m))
}

// ---------------------------------------------------------------- secrets and configurations

/// What a reference names, and the file it appears as.
pub open spec fn ref_names(r: SecretRef) -> (Seq<char>, Seq<char>) {
    match r {
        SecretRef::Short(s) => (s@, s@),
        SecretRef::Long(l) => (
            l.source@,
            match l.target {
                Some(t) => t@,
                None => l.source@,
            },
        ),
    }
}

/// A name that a mounted file can have.
pub open spec fn is_file_name(t: Seq<char>) -> bool {
    t.len() > 0 && !t.contains('/') && !t.contains('\0')
}

/// Why a secret or a configuration cannot be mounted.
pub open spec fn why_not(c: ComposeSecretConfig) -> Seq<char> {
    if c.external == Some(true) {
        "it is external"@
    } else {
        match c.environment {
            Some(v) => "it uses environment source "@ + unicode::quoted(v@),
            None => "it has no file: source"@,
        }
    }
}

/// The mount for one reference, where its file is among those present.
pub open spec fn mount_of(
    kind: Seq<char>,
    r: SecretRef,
    top: Table<ComposeSecretConfig>,
    service: Seq<char>,
    dir: Seq<char>,
    present: Seq<Seq<char>>,
) -> Result<Seq<char>, Seq<char>> {
    let (source, target) = ref_names(r);
    let head = "service "@ + service + ": "@ + kind + " "@;
    if !is_file_name(target) {
        Err(head + "target "@ + unicode::quoted(target) + " is invalid (want a file name)"@)
    } else {
        match top.at(source) {
            None => Err(
                head + unicode::quoted(source) + " is not defined in the top-level "@ + kind
                    + " section"@,
            ),
            Some(c) => match c.file {
                None => Err(
                    head + unicode::quoted(source) + " is not supported (501: "@ + why_not(c)
                        + "; only file-based "@ + kind + " can be mounted)"@,
                ),
                Some(f) => {
                    let abs = inherit::joined(dir, f@);
                    if !present.contains(abs) {
                        Err(head + unicode::quoted(source) + " file "@ + abs + " not found"@)
                    } else {
                        Ok(
                            abs + ":"@ + (if kind == "secrets"@ {
                                "/run/secrets/"@
                            } else {
                                "/"@
                            }) + target + ":ro"@,
                        )
                    }
                },
            },
        }
    }
}

/// The mounts for the first `n` references, or the first error among them.
pub open spec fn mounts_to(
    kind: Seq<char>,
    refs: Seq<SecretRef>,
    top: Table<ComposeSecretConfig>,
    service: Seq<char>,
    dir: Seq<char>,
    present: Seq<Seq<char>>,
    n: int,
) -> Result<Seq<Seq<char>>, Seq<char>>
    decreases n,
{
    if n <= 0 {
        Ok(Seq::empty())
    } else {
        match mounts_to(kind, refs, top, service, dir, present, n - 1) {
            Err(e) => Err(e),
            Ok(v) => match mount_of(kind, refs[n - 1], top, service, dir, present) {
                Err(e) => Err(e),
                Ok(m) => Ok(v.push(m)),
            },
        }
    }
}

pub open spec fn mounts(
    kind: Seq<char>,
    refs: Seq<SecretRef>,
    top: Table<ComposeSecretConfig>,
    service: Seq<char>,
    dir: Seq<char>,
    present: Seq<Seq<char>>,
) -> Result<Seq<Seq<char>>, Seq<char>> {
    mounts_to(kind, refs, top, service, dir, present, refs.len() as int)
}

proof fn lemma_mounts_fail(
    kind: Seq<char>,
    refs: Seq<SecretRef>,
    top: Table<ComposeSecretConfig>,
    service: Seq<char>,
    dir: Seq<char>,
    present: Seq<Seq<char>>,
    k: int,
    n: int,
)
    requires
        0 <= k <= n,
        mounts_to(kind, refs, top, service, dir, present, k) is Err,
    ensures
        mounts_to(kind, refs, top, service, dir, present, n) == mounts_to(
            kind,
            refs,
            top,
            service,
            dir,
            present,
            k,
        ),
    decreases n - k,
{
    if k < n {
        lemma_mounts_fail(kind, refs, top, service, dir, present, k, n - 1);
    }
}

fn has_either(s: &str, a: char, b: char) -> (r: bool)
    ensures
        r == (s@.contains(a) || s@.contains(b)),
{
    let cs: Vec<char> = chars_of(s);
    let mut i: usize = 0;
    while i < cs.len()
        invariant
            i <= cs.len(),
            cs@ == s@,
            forall|j: int| 0 <= j < i ==> #[trigger] s@[j] != a && s@[j] != b,
        decreases cs.len() - i,
    {
        if cs[i] == a || cs[i] == b {
            assert(s@[i as int] == cs@[i as int]);
            return true;
        }
        i += 1;
    }
    false
}

fn mount_one(
    kind: &str,
    r: &SecretRef,
    top: &Table<ComposeSecretConfig>,
    service: &str,
    dir: &str,
    present: &Vec<String>,
) -> (m: Result<String, String>)
    ensures
        ({
            let w = mount_of(kind@, *r, *top, service@, dir@, text::texts(present@));
            match m {
                Ok(s) => w == Ok::<Seq<char>, Seq<char>>(s@),
                Err(e) => w == Err::<Seq<char>, Seq<char>>(e@),
            }
        }),
{
    let (source, target): (&str, &str) = match r {
        SecretRef::Short(s) => (s.as_str(), s.as_str()),
        SecretRef::Long(l) => (
            l.source.as_str(),
            match &l.target {
                Some(t) => t.as_str(),
                None => l.source.as_str(),
            },
        ),
    };
    let mut head: String = "service ".to_owned();
    head.append(service);
    head.append(": ");
    head.append(kind);
    head.append(" ");
    if target.is_empty() || has_either(target, '/', '\0') {
        head.append("target ");
        head.append(quote(target).as_str());
        head.append(" is invalid (want a file name)");
        return Err(head);
    }
    head.append(quote(source).as_str());
    let entry: &ComposeSecretConfig = match top.get(source) {
        Some(c) => c,
        None => {
            head.append(" is not defined in the top-level ");
            head.append(kind);
            head.append(" section");
            return Err(head);
        },
    };
    let file: &str = match &entry.file {
        Some(f) => f.as_str(),
        None => {
            head.append(" is not supported (501: ");
            let external: bool = match entry.external {
                Some(x) => x,
                None => false,
            };
            let ghost before = head@;
            if external {
                head.append("it is external");
                assert(head@ =~= before + why_not(*entry));
            } else {
                match &entry.environment {
                    Some(v) => {
                        head.append("it uses environment source ");
                        head.append(quote(v.as_str()).as_str());
                        assert(head@ =~= before + why_not(*entry));
                    },
                    None => {
                        head.append("it has no file: source");
                    },
                }
            }
            assert(head@ == before + why_not(*entry));
            head.append("; only file-based ");
            head.append(kind);
            head.append(" can be mounted)");
            return Err(head);
        },
    };
    let abs: String = join_path(dir, file);
    if !is_among(present, abs.as_str()) {
        head.append(" file ");
        head.append(abs.as_str());
        head.append(" not found");
        return Err(head);
    }
    let mut s: String = abs;
    s.append(":");
    if same(kind, "secrets") {
        s.append("/run/secrets/");
    } else {
        s.append("/");
    }
    s.append(target);
    s.append(":ro");
    Ok(s)
}

/// The read-only mounts for what a service refers to: its secrets under `/run/secrets`,
/// its configurations under the root. `present` holds the files that are there.
pub fn credential_mounts(
    kind: &str,
    refs: &Vec<SecretRef>,
    top: &Table<ComposeSecretConfig>,
    service: &str,
    dir: &str,
    present: &Vec<String>,
) -> (r: Result<Vec<String>, String>)
    ensures
        ({
            let w = mounts(kind@, refs@, *top, service@, dir@, text::texts(present@));
            match r {
                Ok(v) => w == Ok::<Seq<Seq<char>>, Seq<char>>(text::texts(v@)),
                Err(e) => w == Err::<Seq<Seq<char>>, Seq<char>>(e@),
            }
        }),
{
    let ghost pv = text::texts(present@);
    let mut out: Vec<String> = Vec::new();
    let mut i: usize = 0;
    assert(text::texts(out@) =~= Seq::empty());
    while i < refs.len()
        invariant
            i <= refs.len(),
            pv == text::texts(present@),
            mounts_to(kind@, refs@, *top, service@, dir@, pv, i as int) == Ok::<
                Seq<Seq<char>>,
                Seq<char>,
            >(text::texts(out@)),
        decreases refs.len() - i,
    {
        match mount_one(kind, &refs[i], top, service, dir, present) {
            Ok(m) => {
                add_word(&mut out, m.as_str());
            },
            Err(e) => {
                proof {
                    lemma_mounts_fail(
                        kind@,
                        refs@,
                        *top,
                        service@,
                        dir@,
                        pv,
                        i as int + 1,
                        refs@.len() as int,
                    );
                }
                return Err(e);
            },
        }
        i += 1;
    }
    Ok(out)
}

/// The files of the first `n` entries.
pub open spec fn files_to(top: Table<ComposeSecretConfig>, dir: Seq<char>, n: int) -> Seq<Seq<char>>
    decreases n,
{
    if n <= 0 {
        Seq::empty()
    } else {
        match top.entries@[n - 1].1.file {
            Some(f) => files_to(top, dir, n - 1).push(inherit::joined(dir, f@)),
            None => files_to(top, dir, n - 1),
        }
    }
}

/// The files that secrets or configurations come from.
pub fn credential_files(top: &Table<ComposeSecretConfig>, dir: &str) -> (r: Vec<String>)
    ensures
        text::texts(r@) == files_to(*top, dir@, top.entries@.len() as int),
{
    let mut out: Vec<String> = Vec::new();
    let mut i: usize = 0;
    assert(text::texts(out@) =~= Seq::empty());
    while i < top.entries.len()
        invariant
            i <= top.entries.len(),
            text::texts(out@) == files_to(*top, dir@, i as int),
        decreases top.entries.len() - i,
    {
        if let Some(f) = &top.entries[i].1.file {
            add_word(&mut out, join_path(dir, f.as_str()).as_str());
        }
        i += 1;
    }
    out
}

pub proof fn lemma_mounts_shape(
    kind: Seq<char>,
    refs: Seq<SecretRef>,
    top: Table<ComposeSecretConfig>,
    service: Seq<char>,
    dir: Seq<char>,
    present: Seq<Seq<char>>,
    n: int,
)
    requires
        0 <= n,
        mounts_to(kind, refs, top, service, dir, present, n) is Ok,
    ensures
        mounts_to(kind, refs, top, service, dir, present, n)->Ok_0.len() == n,
        forall|i: int|
            0 <= i < n ==> mount_of(kind, refs[i], top, service, dir, present) == Ok::<
                Seq<char>,
                Seq<char>,
            >(#[trigger] mounts_to(kind, refs, top, service, dir, present, n)->Ok_0[i]),
    decreases n,
{
    if n > 0 {
        lemma_mounts_shape(kind, refs, top, service, dir, present, n - 1);
    }
}

/// Whatever is mounted for a service is one mount for each reference, in order, read-only
/// and under the reference's own name.
pub proof fn law_credentials_are_read_only(
    kind: Seq<char>,
    refs: Seq<SecretRef>,
    top: Table<ComposeSecretConfig>,
    service: Seq<char>,
    dir: Seq<char>,
    present: Seq<Seq<char>>,
    i: int,
)
    requires
        mounts(kind, refs, top, service, dir, present) is Ok,
        0 <= i < refs.len(),
    ensures
        mounts(kind, refs, top, service, dir, present)->Ok_0.len() == refs.len(),
        ({
            let m = mounts(kind, refs, top, service, dir, present)->Ok_0[i];
            let t = ref_names(refs[i]).1;
            &&& text::ends_with(m, t + ":ro"@)
            &&& is_file_name(t)
            &&& exists|f: Seq<char>| present.contains(f) && #[trigger] text::starts_with(m, f)
        }),
{
    lemma_mounts_shape(kind, refs, top, service, dir, present, refs.len() as int);
    let m = mounts(kind, refs, top, service, dir, present)->Ok_0[i];
    let (source, t) = ref_names(refs[i]);
    let f = inherit::joined(dir, top.at(source)->0.file->0@);
    let mid = ":"@ + (if kind == "secrets"@ {
        "/run/secrets/"@
    } else {
        "/"@
    });
    assert(m =~= f + mid + (t + ":ro"@));
    let k = m.len() - (t + ":ro"@).len();
    assert(m.subrange(k as int, m.len() as int) =~= t + ":ro"@);
    assert(m.subrange(0, f.len() as int) =~= f);
    assert(text::starts_with(m, f));
}

// ---------------------------------------------------------------- networks and volumes

/// The name of something that belongs to a project.
pub open spec fn owned(project: Seq<char>, name: Seq<char>) -> Seq<char> {
    project + "_"@ + name
}

/// The name that a volume of a project has, or its network.
pub fn owned_name(project: &str, name: &str) -> (r: String)
    ensures
        r@ == owned(project@, name@),
{
    let mut s: String = project.to_owned();
    s.append("_");
    s.append(name);
    s
}

/// The request for a project's network.
pub open spec fn network_json(project: Seq<char>) -> Seq<char> {
    json::json_object(
        seq!["CheckDuplicate"@, "Driver"@, "Labels"@, "Name"@],
        seq![
            json::json_bool(true),
            json::json_quoted("bridge"@),
            json::json_object(
                seq!["com.docker.compose.network"@, "com.docker.compose.project"@],
                seq![json::json_quoted("default"@), json::json_quoted(project)],
            ),
            json::json_quoted(owned(project, "default"@)),
        ],
    )
}

/// The request for a volume of a project.
pub open spec fn volume_json(project: Seq<char>, volume: Seq<char>) -> Seq<char> {
    json::json_object(
        seq!["Driver"@, "Labels"@, "Name"@],
        seq![
            json::json_quoted("local"@),
            json::json_object(
                seq!["com.docker.compose.project"@, "com.docker.compose.volume"@],
                seq![json::json_quoted(project), json::json_quoted(volume)],
            ),
            json::json_quoted(owned(project, volume)),
        ],
    )
}

/// The request for a project's network.
pub fn network_body(project: &str) -> (r: String)
    ensures
        r@ == network_json(project@),
{
    let lk: Vec<String> = words_of(&["com.docker.compose.network", "com.docker.compose.project"]);
    let mut lv: Vec<String> = Vec::new();
    lv.push(write_text("default"));
    lv.push(write_text(project));
    assert(text::texts(lk@) =~= seq!["com.docker.compose.network"@, "com.docker.compose.project"@]);
    assert(text::texts(lv@) =~= seq![json::json_quoted("default"@), json::json_quoted(project@)]);
    let labels: String = write_object(&lk, &lv);
    let ks: Vec<String> = words_of(&["CheckDuplicate", "Driver", "Labels", "Name"]);
    let mut vs: Vec<String> = Vec::new();
    vs.push(write_bool(true));
    vs.push(write_text("bridge"));
    vs.push(labels);
    vs.push(write_text(owned_name(project, "default").as_str()));
    assert(text::texts(ks@) =~= seq!["CheckDuplicate"@, "Driver"@, "Labels"@, "Name"@]);
    assert(text::texts(vs@) =~= seq![
        json::json_bool(true),
        json::json_quoted("bridge"@),
        labels@,
        json::json_quoted(owned(project@, "default"@)),
    ]);
    write_object(&ks, &vs)
}

/// The request for a volume of a project.
pub fn volume_body(project: &str, volume: &str) -> (r: String)
    ensures
        r@ == volume_json(project@, volume@),
{
    let lk: Vec<String> = words_of(&["com.docker.compose.project", "com.docker.compose.volume"]);
    let mut lv: Vec<String> = Vec::new();
    lv.push(write_text(project));
    lv.push(write_text(volume));
    assert(text::texts(lk@) =~= seq!["com.docker.compose.project"@, "com.docker.compose.volume"@]);
    assert(text::texts(lv@) =~= seq![json::json_quoted(project@), json::json_quoted(volume@)]);
    let labels: String = write_object(&lk, &lv);
    let ks: Vec<String> = words_of(&["Driver", "Labels", "Name"]);
    let mut vs: Vec<String> = Vec::new();
    vs.push(write_text("local"));
    vs.push(labels);
    vs.push(write_text(owned_name(project, volume).as_str()));
    assert(text::texts(ks@) =~= seq!["Driver"@, "Labels"@, "Name"@]);
    assert(text::texts(vs@) =~= seq![
        json::json_quoted("local"@),
        labels@,
        json::json_quoted(owned(project@, volume@)),
    ]);
    write_object(&ks, &vs)
}

/// An error that says only that something is there already.
pub open spec fn there_already(message: Seq<char>) -> bool {
    text::contains(message, "Conflict"@) || text::contains(message, "already exists"@)
}

/// Whether what could not be made is there already, so that nothing is wrong.
pub fn is_conflict(message: &str) -> (r: bool)
    ensures
        r == there_already(message@),
{
    str_contains(message, "Conflict") || str_contains(message, "already exists")
}

// ---------------------------------------------------------------- which services, and in what order

/// The services that take part, among the first `n`.
pub open spec fn enabled_to(
    e: Seq<(String, ServiceConfig)>,
    active: Seq<Seq<char>>,
    n: int,
) -> Seq<(String, ServiceConfig)>
    decreases n,
{
    if n <= 0 {
        Seq::empty()
    } else if compose::enabled(text::texts(e[n - 1].1.profiles@), active) {
        enabled_to(e, active, n - 1).push(e[n - 1])
    } else {
        enabled_to(e, active, n - 1)
    }
}

/// What is told of the others.
pub open spec fn skipped_to(
    e: Seq<(String, ServiceConfig)>,
    active: Seq<Seq<char>>,
    n: int,
) -> Seq<Seq<char>>
    decreases n,
{
    if n <= 0 {
        Seq::empty()
    } else if compose::enabled(text::texts(e[n - 1].1.profiles@), active) {
        skipped_to(e, active, n - 1)
    } else {
        skipped_to(e, active, n - 1).push(
            compose::skipped(e[n - 1].0@, text::texts(e[n - 1].1.profiles@)),
        )
    }
}

/// The services that take part, in their order, and what is told of the others.
pub fn choose_services(services: Table<ServiceConfig>, active: &Vec<String>) -> (r: (
    Table<ServiceConfig>,
    Vec<String>,
))
    ensures
        r.0.entries@ == enabled_to(
            services.entries@,
            text::texts(active@),
            services.entries@.len() as int,
        ),
        text::texts(r.1@) == skipped_to(
            services.entries@,
            text::texts(active@),
            services.entries@.len() as int,
        ),
{
    let ghost e = services.entries@;
    let ghost av = text::texts(active@);
    let mut rest: Vec<(String, ServiceConfig)> = services.entries;
    let mut kept: Vec<(String, ServiceConfig)> = Vec::new();
    let mut told: Vec<String> = Vec::new();
    let ghost mut i: int = 0;
    assert(text::texts(told@) =~= Seq::empty());
    assert(e.skip(0) =~= e);
    while rest.len() > 0
        invariant
            0 <= i <= e.len(),
            av == text::texts(active@),
            rest@ == e.skip(i),
            kept@ == enabled_to(e, av, i),
            text::texts(told@) == skipped_to(e, av, i),
        decreases rest.len(),
    {
        let x: (String, ServiceConfig) = rest.remove(0);
        assert(x == e[i]);
        assert(rest@ =~= e.skip(i + 1));
        proof {
            i = i + 1;
        }
        if service_enabled(&x.1, active) {
            kept.push(x);
        } else {
            add_word(&mut told, skipped_message(x.0.as_str(), &x.1.profiles).as_str());
        }
    }
    assert(i == e.len());
    (Table { entries: kept }, told)
}

/// What is wrong with a service, where anything is: the policy that it pulls by, the
/// conditions that it waits for, its limits, its secrets or its configurations.
pub open spec fn fault_of(
    name: Seq<char>,
    s: ServiceConfig,
    secrets: Table<ComposeSecretConfig>,
    configs: Table<ComposeSecretConfig>,
    dir: Seq<char>,
    present: Seq<Seq<char>>,
    force_build: bool,
) -> Option<Seq<char>> {
    match compose::pull_decision(
        reference::opt_text(s.pull_policy),
        s.image is Some,
        s.build is Some,
        force_build,
    ) {
        Err(e) => Some(inherit::about_service(name, e)),
        Ok(_) => match compose::conditions(s.depends_on) {
            Err(e) => Some(inherit::about_service(name, e)),
            Ok(_) => match limits_of(s.deploy, name) {
                Err(e) => Some(e),
                Ok(_) => match mounts("secrets"@, s.secrets@, secrets, name, dir, present) {
                    Err(e) => Some(e),
                    Ok(_) => match mounts("configs"@, s.configs@, configs, name, dir, present) {
                        Err(e) => Some(e),
                        Ok(_) => None,
                    },
                },
            },
        },
    }
}

/// The first fault among the first `n` services.
pub open spec fn first_fault(
    order: Seq<Seq<char>>,
    services: Table<ServiceConfig>,
    secrets: Table<ComposeSecretConfig>,
    configs: Table<ComposeSecretConfig>,
    dir: Seq<char>,
    present: Seq<Seq<char>>,
    force_build: bool,
    n: int,
) -> Option<Seq<char>>
    decreases n,
{
    if n <= 0 {
        None
    } else {
        match first_fault(
            order,
            services,
            secrets,
            configs,
            dir,
            present,
            force_build,
            n - 1,
        ) {
            Some(e) => Some(e),
            None => match services.at(order[n - 1]) {
                Some(s) => fault_of(
                    order[n - 1],
                    s,
                    secrets,
                    configs,
                    dir,
                    present,
                    force_build,
                ),
                None => None,
            },
        }
    }
}

fn check_one(
    name: &str,
    s: &ServiceConfig,
    compose: &ComposeFile,
    dir: &str,
    present: &Vec<String>,
    force_build: bool,
) -> (r: Option<String>)
    ensures
        reference::opt_text(r) == fault_of(
            name@,
            *s,
            compose.secrets,
            compose.configs,
            dir@,
            text::texts(present@),
            force_build,
        ),
{
    let policy: Option<&str> = match &s.pull_policy {
        Some(p) => Some(p.as_str()),
        None => None,
    };
    if let Err(e) = decide_pull(policy, s.image.is_some(), s.build.is_some(), force_build) {
        return Some(say_of_service(name, e.as_str()));
    }
    if let Err(e) = dependency_conditions(s.depends_on.as_ref()) {
        return Some(say_of_service(name, e.as_str()));
    }
    if let Err(e) = deploy_limits(s.deploy.as_ref(), name) {
        return Some(e);
    }
    if let Err(e) = credential_mounts("secrets", &s.secrets, &compose.secrets, name, dir, present) {
        return Some(e);
    }
    if let Err(e) = credential_mounts("configs", &s.configs, &compose.configs, name, dir, present) {
        return Some(e);
    }
    None
}

/// Looks for faults in services before anything is made for any of them.
pub fn check_services(
    order: &Vec<String>,
    services: &Table<ServiceConfig>,
    compose: &ComposeFile,
    dir: &str,
    present: &Vec<String>,
    force_build: bool,
) -> (r: Result<(), String>)
    ensures
        match r {
            Ok(_) => first_fault(
                text::texts(order@),
                *services,
                compose.secrets,
                compose.configs,
                dir@,
                text::texts(present@),
                force_build,
                order@.len() as int,
            ) is None,
            Err(e) => first_fault(
                text::texts(order@),
                *services,
                compose.secrets,
                compose.configs,
                dir@,
                text::texts(present@),
                force_build,
                order@.len() as int,
            ) == Some(e@),
        },
{
    let ghost ov = text::texts(order@);
    let ghost pv = text::texts(present@);
    let mut i: usize = 0;
    while i < order.len()
        invariant
            i <= order.len(),
            ov == text::texts(order@),
            pv == text::texts(present@),
            first_fault(
                ov,
                *services,
                compose.secrets,
                compose.configs,
                dir@,
                pv,
                force_build,
                i as int,
            ) is None,
        decreases order.len() - i,
    {
        assert(ov[i as int] == order@[i as int]@);
        if let Some(s) = services.get(order[i].as_str()) {
            if let Some(e) = check_one(order[i].as_str(), s, compose, dir, present, force_build) {
                proof {
                    lemma_fault_stays(
                        ov,
                        *services,
                        compose.secrets,
                        compose.configs,
                        dir@,
                        pv,
                        force_build,
                        i as int + 1,
                        ov.len() as int,
                    );
                }
                return Err(e);
            }
        }
        i += 1;
    }
    Ok(())
}

proof fn lemma_fault_stays(
    order: Seq<Seq<char>>,
    services: Table<ServiceConfig>,
    secrets: Table<ComposeSecretConfig>,
    configs: Table<ComposeSecretConfig>,
    dir: Seq<char>,
    present: Seq<Seq<char>>,
    force_build: bool,
    k: int,
    n: int,
)
    requires
        0 <= k <= n,
        first_fault(order, services, secrets, configs, dir, present, force_build, k) is Some,
    ensures
        first_fault(order, services, secrets, configs, dir, present, force_build, n)
            == first_fault(order, services, secrets, configs, dir, present, force_build, k),
    decreases n - k,
{
    if k < n {
        lemma_fault_stays(
            order,
            services,
            secrets,
            configs,
            dir,
            present,
            force_build,
            k,
            n - 1,
        );
    }
}

proof fn lemma_no_fault(
    order: Seq<Seq<char>>,
    services: Table<ServiceConfig>,
    secrets: Table<ComposeSecretConfig>,
    configs: Table<ComposeSecretConfig>,
    dir: Seq<char>,
    present: Seq<Seq<char>>,
    force_build: bool,
    i: int,
    n: int,
)
    requires
        0 <= i < n,
        first_fault(order, services, secrets, configs, dir, present, force_build, n) is None,
        services.at(order[i]) is Some,
    ensures
        fault_of(
            order[i],
            services.at(order[i])->0,
            secrets,
            configs,
            dir,
            present,
            force_build,
        ) is None,
    decreases n - i,
{
    if i < n - 1 {
        lemma_no_fault(
            order,
            services,
            secrets,
            configs,
            dir,
            present,
            force_build,
            i,
            n - 1,
        );
    }
}

/// Where the look for faults finds none, no service that is started has one: none fails
/// for its policy, its conditions, its limits or its mounts with others started before it.
pub proof fn law_faults_come_first(
    services: Table<ServiceConfig>,
    secrets: Table<ComposeSecretConfig>,
    configs: Table<ComposeSecretConfig>,
    dir: Seq<char>,
    present: Seq<Seq<char>>,
    force_build: bool,
    name: Seq<char>,
)
    requires
        first_fault(
            compose::start_order(services),
            services,
            secrets,
            configs,
            dir,
            present,
            force_build,
            compose::start_order(services).len() as int,
        ) is None,
        services.has(name),
    ensures
        fault_of(
            name,
            services.at(name)->0,
            secrets,
            configs,
            dir,
            present,
            force_build,
        ) is None,
{
    compose::law_each_service_once(services);
    let o = compose::start_order(services);
    assert(o.contains(name));
    let i = choose|i: int| 0 <= i < o.len() && o[i] == name;
    lemma_no_fault(
        o,
        services,
        secrets,
        configs,
        dir,
        present,
        force_build,
        i,
        o.len() as int,
    );
}

// ---------------------------------------------------------------- waiting for others

/// What is done about a dependency before a service starts.
#[derive(Debug, Clone)]
pub enum Gate {
    Pass,
    AwaitHealthy,
    AwaitExit,
    Refuse(String),
}

/// What is done about a dependency that this project started, or did not.
pub fn gate(service: &str, dep: &str, cond: DepCondition, started: bool) -> (r: Gate)
    ensures
        cond == DepCondition::Started ==> r is Pass,
        cond != DepCondition::Started && !started ==> (r matches Gate::Refuse(e) && e@
            == "service "@ + service@ + " waits for "@ + dep@
            + ", which was not started by this project"@),
        cond == DepCondition::Healthy && started ==> r is AwaitHealthy,
        cond == DepCondition::Completed && started ==> r is AwaitExit,
{
    match cond {
        DepCondition::Started => Gate::Pass,
        DepCondition::Healthy if started => Gate::AwaitHealthy,
        DepCondition::Completed if started => Gate::AwaitExit,
        _ => {
            let mut e: String = "service ".to_owned();
            e.append(service);
            e.append(" waits for ");
            e.append(dep);
            e.append(", which was not started by this project");
            Gate::Refuse(e)
        },
    }
}

/// For how long a dependency is waited for, in seconds.
pub const HEALTH_WAIT_SECS: u64 = 60;

/// How a dependency is.
#[derive(Debug, Clone)]
pub enum Readiness {
    Ready,
    /// It is looked at again a second later.
    Again,
    Failed(String),
}

pub open spec fn about_dependency(dep: Seq<char>, what: Seq<char>) -> Seq<char> {
    "dependency "@ + dep + what
}

/// How a dependency is, from what its container says of itself; `late` where it has been
/// waited for long enough.
pub open spec fn health_of(doc: Seq<u8>, dep: Seq<char>, late: bool) -> Result<bool, Seq<char>> {
    let status = json::json_text(doc, "/State/Health/Status"@);
    if json::json_flag(doc, "/State/Running"@) != Some(true) {
        Err(about_dependency(dep, " is not running while waiting for healthy"@))
    } else if status == Some("healthy"@) {
        Ok(true)
    } else if status == Some("unhealthy"@) {
        Err(about_dependency(dep, " reported unhealthy"@))
    } else if status is None || status == Some("none"@) {
        Err(
            about_dependency(
                dep,
                " has no healthcheck, but a dependent requires service_healthy"@,
            ),
        )
    } else if late {
        Err(about_dependency(dep, " did not become healthy within 60s"@))
    } else {
        Ok(false)
    }
}

fn say_of_dependency(dep: &str, what: &str) -> (r: String)
    ensures
        r@ == about_dependency(dep@, what@),
{
    let mut s: String = "dependency ".to_owned();
    s.append(dep);
    s.append(what);
    s
}

/// How a dependency is, from its container as the daemon shows it.
pub fn health(doc: &[u8], dep: &str, late: bool) -> (r: Readiness)
    ensures
        match r {
            Readiness::Ready => health_of(doc@, dep@, late) == Ok::<bool, Seq<char>>(true),
            Readiness::Again => health_of(doc@, dep@, late) == Ok::<bool, Seq<char>>(false),
            Readiness::Failed(e) => health_of(doc@, dep@, late) == Err::<bool, Seq<char>>(e@),
        },
{
    let running: bool = match flag_at(doc, "/State/Running") {
        Some(b) => b,
        None => false,
    };
    if !running {
        return Readiness::Failed(say_of_dependency(dep, " is not running while waiting for healthy"));
    }
    let status: String = match text_at(doc, "/State/Health/Status") {
        Some(s) => s,
        None => {
            return Readiness::Failed(
                say_of_dependency(
                    dep,
                    " has no healthcheck, but a dependent requires service_healthy",
                ),
            );
        },
    };
    if same(status.as_str(), "healthy") {
        Readiness::Ready
    } else if same(status.as_str(), "unhealthy") {
        Readiness::Failed(say_of_dependency(dep, " reported unhealthy"))
    } else if same(status.as_str(), "none") {
        Readiness::Failed(
            say_of_dependency(
                dep,
                " has no healthcheck, but a dependent requires service_healthy",
            ),
        )
    } else if late {
        Readiness::Failed(say_of_dependency(dep, " did not become healthy within 60s"))
    } else {
        Readiness::Again
    }
}

/// The status that a dependency ended with, from what waiting for it gave.
pub open spec fn exit_of(doc: Seq<u8>) -> int {
    match json::json_integer(doc, "/StatusCode"@) {
        Some(c) => c as int,
        None => -1,
    }
}

/// What is said of a dependency that came to a bad end.
pub open spec fn exit_message(doc: Seq<u8>, dep: Seq<char>) -> Seq<char> {
    about_dependency(dep, " exited with status "@ + num::signed_decimal(exit_of(doc)))
}

/// Whether a dependency came to a good end, from what waiting for it gave.
pub fn completed(doc: &[u8], dep: &str) -> (r: Result<(), String>)
    ensures
        match r {
            Ok(_) => exit_of(doc@) == 0,
            Err(e) => exit_of(doc@) != 0 && e@ == exit_message(doc@, dep@),
        },
{
    let code: i64 = match integer_at(doc, "/StatusCode") {
        Some(c) => c,
        None => -1,
    };
    if code == 0 {
        return Ok(());
    }
    let mut s: String = " exited with status ".to_owned();
    s.append(signed_decimal_text(code).as_str());
    Err(say_of_dependency(dep, s.as_str()))
}

// ---------------------------------------------------------------- the image of a service

/// Where the image of a service comes from.
#[derive(Debug, Clone)]
pub enum ImagePlan {
    Build { tag: String, context: String, dockerfile: String },
    Fetch(String),
    Neither(String),
}

pub ghost enum PlanView {
    Build { tag: Seq<char>, context: Seq<char>, dockerfile: Seq<char> },
    Fetch(Seq<char>),
    Neither(Seq<char>),
}

impl View for ImagePlan {
    type V = PlanView;

    open spec fn view(&self) -> PlanView {
        match self {
            ImagePlan::Build { tag, context, dockerfile } => PlanView::Build {
                tag: tag@,
                context: context@,
                dockerfile: dockerfile@,
            },
            ImagePlan::Fetch(i) => PlanView::Fetch(i@),
            ImagePlan::Neither(e) => PlanView::Neither(e@),
        }
    }
}

/// Text that is set, or what stands for it.
pub open spec fn or_else(o: Option<Seq<char>>, other: Seq<char>) -> Seq<char> {
    match o {
        Some(s) => s,
        None => other,
    }
}

/// The directory that an image is built from, and its Dockerfile.
pub open spec fn build_place(b: Option<BuildSpec>, dir: Seq<char>) -> (Seq<char>, Seq<char>) {
    match b {
        None => (dir, "Dockerfile"@),
        Some(BuildSpec::Simple(c)) => (inherit::joined(dir, c@), "Dockerfile"@),
        Some(BuildSpec::Detailed { context, dockerfile }) => (
            inherit::joined(dir, or_else(reference::opt_text(context), "."@)),
            or_else(reference::opt_text(dockerfile), "Dockerfile"@),
        ),
    }
}

/// Where the image of a service comes from, given how it comes by it.
pub open spec fn plan_of(
    s: ServiceConfig,
    project: Seq<char>,
    service: Seq<char>,
    action: PullAction,
    dir: Seq<char>,
) -> PlanView {
    if action == PullAction::Build {
        PlanView::Build {
            tag: project + "-"@ + service + ":latest"@,
            context: build_place(s.build, dir).0,
            dockerfile: build_place(s.build, dir).1,
        }
    } else {
        match s.image {
            Some(i) => PlanView::Fetch(i@),
            None => PlanView::Neither(
                "service "@ + service + " has neither image nor build specified"@,
            ),
        }
    }
}

fn text_or(o: &Option<String>, other: &str) -> (r: String)
    ensures
        r@ == or_else(reference::opt_text(*o), other@),
{
    match o {
        Some(s) => s.clone(),
        None => other.to_owned(),
    }
}

fn place_build(b: &Option<BuildSpec>, dir: &str) -> (r: (String, String))
    ensures
        (r.0@, r.1@) == build_place(*b, dir@),
{
    match b {
        None => (dir.to_owned(), "Dockerfile".to_owned()),
        Some(BuildSpec::Simple(c)) => (join_path(dir, c.as_str()), "Dockerfile".to_owned()),
        Some(BuildSpec::Detailed { context, dockerfile }) => {
            let c: String = text_or(context, ".");
            (join_path(dir, c.as_str()), text_or(dockerfile, "Dockerfile"))
        },
    }
}

/// Where the image of a service comes from.
pub fn plan_image(
    s: &ServiceConfig,
    project: &str,
    service: &str,
    action: PullAction,
    dir: &str,
) -> (r: ImagePlan)
    ensures
        r@ == plan_of(*s, project@, service@, action, dir@),
{
    if action == PullAction::Build {
        let mut tag: String = project.to_owned();
        tag.append("-");
        tag.append(service);
        tag.append(":latest");
        let (context, dockerfile): (String, String) = place_build(&s.build, dir);
        return ImagePlan::Build { tag, context, dockerfile };
    }
    match &s.image {
        Some(i) => ImagePlan::Fetch(i.clone()),
        None => {
            let mut e: String = "service ".to_owned();
            e.append(service);
            e.append(" has neither image nor build specified");
            ImagePlan::Neither(e)
        },
    }
}

/// What is done about an image that is there, or is not.
#[derive(Debug, Clone)]
pub enum ImageStep {
    Use,
    /// It is pulled, and this is told of it.
    Pull(String),
    Refuse(String),
}

/// What is done about the image of a service.
pub fn image_step(action: PullAction, image: &str, service: &str, present: bool) -> (r: ImageStep)
    ensures
        match r {
            ImageStep::Use => action == PullAction::Build || (present && action
                != PullAction::PullAlways),
            ImageStep::Pull(m) => (action == PullAction::PullAlways && m@ == "Pulling "@ + image@
                + " (pull_policy: always)..."@) || (action == PullAction::PullIfMissing && !present
                && m@ == "Pulling "@ + image@ + "..."@),
            ImageStep::Refuse(e) => action == PullAction::RequireLocal && !present && e@
                == inherit::about_service(
                service@,
                "image "@ + image@ + " is not present locally and pull_policy is \"never\""@,
            ),
        },
{
    match action {
        PullAction::Build => ImageStep::Use,
        PullAction::PullAlways => {
            let mut m: String = "Pulling ".to_owned();
            m.append(image);
            m.append(" (pull_policy: always)...");
            ImageStep::Pull(m)
        },
        PullAction::PullIfMissing => {
            if present {
                return ImageStep::Use;
            }
            let mut m: String = "Pulling ".to_owned();
            m.append(image);
            m.append("...");
            ImageStep::Pull(m)
        },
        PullAction::RequireLocal => {
            if present {
                return ImageStep::Use;
            }
            let mut e: String = "image ".to_owned();
            e.append(image);
            e.append(" is not present locally and pull_policy is \"never\"");
            ImageStep::Refuse(say_of_service(service, e.as_str()))
        },
    }
}

// ---------------------------------------------------------------- the container of a service

/// The name of a service's container.
pub open spec fn container_of(s: ServiceConfig, project: Seq<char>, service: Seq<char>) -> Seq<char> {
    or_else(reference::opt_text(s.container_name), project + "-"@ + service + "-1"@)
}

pub fn container_name(s: &ServiceConfig, project: &str, service: &str) -> (r: String)
    ensures
        r@ == container_of(*s, project@, service@),
{
    let mut n: String = project.to_owned();
    n.append("-");
    n.append(service);
    n.append("-1");
    text_or(&s.container_name, n.as_str())
}

/// A volume of a service as it is asked for: one of the project under its own name, a
/// path from the file's directory, anything else as it is.
pub open spec fn bind_of(
    v: Seq<char>,
    volumes: Seq<Seq<char>>,
    project: Seq<char>,
    dir: Seq<char>,
) -> Seq<char> {
    match text::split_once(v, seq![':']) {
        None => v,
        Some((src, dst)) => if volumes.contains(src) {
            owned(project, src) + ":"@ + dst
        } else if text::starts_with(src, "."@) || text::starts_with(src, "/"@) {
            inherit::joined(dir, src) + ":"@ + dst
        } else {
            v
        },
    }
}

pub open spec fn binds_of(
    v: Seq<Seq<char>>,
    volumes: Seq<Seq<char>>,
    project: Seq<char>,
    dir: Seq<char>,
) -> Seq<Seq<char>> {
    Seq::new(v.len(), |i: int| bind_of(v[i], volumes, project, dir))
}

fn bind_one(v: &str, volumes: &Vec<String>, project: &str, dir: &str) -> (r: String)
    ensures
        r@ == bind_of(v@, text::texts(volumes@), project@, dir@),
{
    match str_cut(v, ':') {
        None => v.to_owned(),
        Some((src, dst)) => {
            let mut s: String = if is_among(volumes, src.as_str()) {
                owned_name(project, src.as_str())
            } else if str_starts(src.as_str(), ".") || str_starts(src.as_str(), "/") {
                join_path(dir, src.as_str())
            } else {
                return v.to_owned();
            };
            s.append(":");
            s.append(dst.as_str());
            s
        },
    }
}

/// The volumes of a service as they are asked for.
pub fn service_binds(v: &Vec<String>, volumes: &Vec<String>, project: &str, dir: &str) -> (r: Vec<
    String,
>)
    ensures
        text::texts(r@) == binds_of(
            text::texts(v@),
            text::texts(volumes@),
            project@,
            dir@,
        ),
{
    let ghost bv = binds_of(text::texts(v@), text::texts(volumes@), project@, dir@);
    let mut out: Vec<String> = Vec::new();
    let mut i: usize = 0;
    while i < v.len()
        invariant
            i <= v.len(),
            bv == binds_of(text::texts(v@), text::texts(volumes@), project@, dir@),
            text::texts(out@) =~= bv.take(i as int),
        decreases v.len() - i,
    {
        add_word(&mut out, bind_one(v[i].as_str(), volumes, project, dir).as_str());
        assert(bv.take(i as int + 1) =~= bv.take(i as int).push(bv[i as int]));
        i += 1;
    }
    assert(bv.take(bv.len() as int) =~= bv);
    out
}

/// The labels of a service's container.
pub open spec fn labels_json(project: Seq<char>, service: Seq<char>) -> Seq<char> {
    json::json_object(
        seq![
            "com.docker.compose.container-number"@,
            "com.docker.compose.oneoff"@,
            "com.docker.compose.project"@,
            "com.docker.compose.service"@,
            "com.docker.compose.version"@,
        ],
        seq![
            json::json_quoted("1"@),
            json::json_quoted("False"@),
            json::json_quoted(project),
            json::json_quoted(service),
            json::json_quoted("2.24.0"@),
        ],
    )
}

fn write_labels(project: &str, service: &str) -> (r: String)
    ensures
        r@ == labels_json(project@, service@),
{
    let ks: Vec<String> = words_of(
        &[
            "com.docker.compose.container-number",
            "com.docker.compose.oneoff",
            "com.docker.compose.project",
            "com.docker.compose.service",
            "com.docker.compose.version",
        ],
    );
    let mut vs: Vec<String> = Vec::new();
    vs.push(write_text("1"));
    vs.push(write_text("False"));
    vs.push(write_text(project));
    vs.push(write_text(service));
    vs.push(write_text("2.24.0"));
    assert(text::texts(ks@) =~= seq![
        "com.docker.compose.container-number"@,
        "com.docker.compose.oneoff"@,
        "com.docker.compose.project"@,
        "com.docker.compose.service"@,
        "com.docker.compose.version"@,
    ]);
    assert(text::texts(vs@) =~= seq![
        json::json_quoted("1"@),
        json::json_quoted("False"@),
        json::json_quoted(project@),
        json::json_quoted(service@),
        json::json_quoted("2.24.0"@),
    ]);
    write_object(&ks, &vs)
}

/// The host's part of the request for a service's container.
pub open spec fn service_host_json(
    binds: Seq<Seq<char>>,
    limits: (i64, i64),
    network: Seq<char>,
    bindings: Seq<MappingView>,
    restart: Seq<char>,
) -> Seq<char> {
    json::json_object(
        seq![
            "Binds"@,
            "Memory"@,
            "NanoCpus"@,
            "NetworkMode"@,
            "PortBindings"@,
            "RestartPolicy"@,
        ],
        seq![
            json::json_array(binds),
            num::signed_decimal(limits.1 as int),
            num::signed_decimal(limits.0 as int),
            json::json_quoted(network),
            commands::bindings_json(bindings),
            json::json_object(
                seq!["MaximumRetryCount"@, "Name"@],
                seq!["0"@, json::json_quoted(restart)],
            ),
        ],
    )
}

fn write_service_host(
    binds: &Vec<String>,
    limits: (i64, i64),
    network: &str,
    bindings: &Vec<PortMapping>,
    restart: &str,
) -> (r: String)
    ensures
        r@ == service_host_json(
            text::texts(binds@),
            limits,
            network@,
            ports::mapping_views(bindings@),
            restart@,
        ),
{
    let pk: Vec<String> = words_of(&["MaximumRetryCount", "Name"]);
    let mut pv: Vec<String> = Vec::new();
    pv.push("0".to_owned());
    pv.push(write_text(restart));
    assert(text::texts(pk@) =~= seq!["MaximumRetryCount"@, "Name"@]);
    assert(text::texts(pv@) =~= seq!["0"@, json::json_quoted(restart@)]);
    let policy: String = write_object(&pk, &pv);
    let ks: Vec<String> = words_of(
        &["Binds", "Memory", "NanoCpus", "NetworkMode", "PortBindings", "RestartPolicy"],
    );
    let mut vs: Vec<String> = Vec::new();
    vs.push(write_array(binds));
    vs.push(signed_decimal_text(limits.1));
    vs.push(signed_decimal_text(limits.0));
    vs.push(write_text(network));
    vs.push(write_bindings(bindings));
    vs.push(policy);
    assert(text::texts(ks@) =~= seq![
        "Binds"@,
        "Memory"@,
        "NanoCpus"@,
        "NetworkMode"@,
        "PortBindings"@,
        "RestartPolicy"@,
    ]);
    assert(text::texts(vs@) =~= seq![
        json::json_array(text::texts(binds@)),
        num::signed_decimal(limits.1 as int),
        num::signed_decimal(limits.0 as int),
        json::json_quoted(network@),
        commands::bindings_json(ports::mapping_views(bindings@)),
        policy@,
    ]);
    write_object(&ks, &vs)
}

pub open spec fn env_list(e: Option<EnvSpec>) -> Seq<Seq<char>> {
    match e {
        Some(e) => e.listed(),
        None => Seq::empty(),
    }
}

pub open spec fn word_list(e: Option<StringOrList>) -> Seq<Seq<char>> {
    match e {
        Some(e) => e.listed(),
        None => Seq::empty(),
    }
}

/// What a service's container starts with, where that is said.
pub open spec fn entry_json(e: Option<StringOrList>) -> Seq<char> {
    match e {
        Some(e) => json::json_array(e.listed()),
        None => "null"@,
    }
}

/// What a service's container runs, and in what.
pub open spec fn service_json(
    s: ServiceConfig,
    image: Seq<char>,
    project: Seq<char>,
    service: Seq<char>,
    host: Seq<char>,
) -> Seq<char> {
    json::json_object(
        seq![
            "Cmd"@,
            "Entrypoint"@,
            "Env"@,
            "HostConfig"@,
            "Image"@,
            "Labels"@,
            "User"@,
            "WorkingDir"@,
        ],
        seq![
            json::json_array(word_list(s.command)),
            entry_json(s.entrypoint),
            json::json_array(env_list(s.environment)),
            host,
            json::json_quoted(image),
            labels_json(project, service),
            json::json_quoted(or_else(reference::opt_text(s.user), Seq::empty())),
            json::json_quoted(or_else(reference::opt_text(s.working_dir), Seq::empty())),
        ],
    )
}

fn write_service(s: &ServiceConfig, image: &str, project: &str, service: &str, host: &str) -> (r:
    String)
    ensures
        r@ == service_json(*s, image@, project@, service@, host@),
{
    let cmd: Vec<String> = match &s.command {
        Some(c) => c.to_vec(),
        None => Vec::new(),
    };
    assert(text::texts(cmd@) =~= word_list(s.command));
    let env: Vec<String> = match &s.environment {
        Some(e) => e.to_vec(),
        None => Vec::new(),
    };
    assert(text::texts(env@) =~= env_list(s.environment));
    let ep: String = match &s.entrypoint {
        Some(e) => write_array(&e.to_vec()),
        None => "null".to_owned(),
    };
    proof {
        reveal_strlit("");
        assert(""@ =~= Seq::empty());
    }
    let ks: Vec<String> = words_of(
        &["Cmd", "Entrypoint", "Env", "HostConfig", "Image", "Labels", "User", "WorkingDir"],
    );
    let mut vs: Vec<String> = Vec::new();
    vs.push(write_array(&cmd));
    vs.push(ep);
    vs.push(write_array(&env));
    vs.push(host.to_owned());
    vs.push(write_text(image));
    vs.push(write_labels(project, service));
    vs.push(write_text(text_or(&s.user, "").as_str()));
    vs.push(write_text(text_or(&s.working_dir, "").as_str()));
    assert(text::texts(ks@) =~= seq![
        "Cmd"@,
        "Entrypoint"@,
        "Env"@,
        "HostConfig"@,
        "Image"@,
        "Labels"@,
        "User"@,
        "WorkingDir"@,
    ]);
    assert(text::texts(vs@) =~= seq![
        json::json_array(word_list(s.command)),
        entry_json(s.entrypoint),
        json::json_array(env_list(s.environment)),
        host@,
        json::json_quoted(image@),
        labels_json(project@, service@),
        json::json_quoted(or_else(reference::opt_text(s.user), Seq::empty())),
        json::json_quoted(or_else(reference::opt_text(s.working_dir), Seq::empty())),
    ]);
    write_object(&ks, &vs)
}

/// The request for a service's container: its ports, its limits and its mounts are looked
/// at in turn, and what is wrong with the first of them is the error.
pub open spec fn service_request(
    s: ServiceConfig,
    image: Seq<char>,
    project: Seq<char>,
    service: Seq<char>,
    compose: ComposeFile,
    dir: Seq<char>,
    present: Seq<Seq<char>>,
) -> Result<Seq<char>, Seq<char>> {
    match commands::all_mappings(text::texts(s.ports@), s.ports@.len() as int) {
        Err(e) => Err(e),
        Ok(m) => match limits_of(s.deploy, service) {
            Err(e) => Err(e),
            Ok(l) => match mounts("secrets"@, s.secrets@, compose.secrets, service, dir, present) {
                Err(e) => Err(e),
                Ok(a) => match mounts(
                    "configs"@,
                    s.configs@,
                    compose.configs,
                    service,
                    dir,
                    present,
                ) {
                    Err(e) => Err(e),
                    Ok(b) => {
                        let binds = binds_of(
                            text::texts(s.volumes@),
                            compose::keys(compose.volumes),
                            project,
                            dir,
                        ) + a + b;
                        Ok(
                            service_json(
                                s,
                                image,
                                project,
                                service,
                                service_host_json(
                                    binds,
                                    l,
                                    owned(project, "default"@),
                                    m,
                                    or_else(reference::opt_text(s.restart), Seq::empty()),
                                ),
                            ),
                        )
                    },
                },
            },
        },
    }
}

/// The request for a service's container.
pub fn service_body(
    s: &ServiceConfig,
    image: &str,
    project: &str,
    service: &str,
    compose: &ComposeFile,
    dir: &str,
    present: &Vec<String>,
) -> (r: Result<String, String>)
    ensures
        ({
            let w = service_request(
                *s,
                image@,
                project@,
                service@,
                *compose,
                dir@,
                text::texts(present@),
            );
            match r {
                Ok(b) => w == Ok::<Seq<char>, Seq<char>>(b@),
                Err(e) => w == Err::<Seq<char>, Seq<char>>(e@),
            }
        }),
        r matches Ok(b) ==> requests::asks_for_service(
            b@,
            *s,
            image@,
            project@,
            service@,
            compose::keys(compose.volumes),
            dir@,
        ),
{
    let bindings: Vec<PortMapping> = match read_mappings(&s.ports) {
        Ok(m) => m,
        Err(e) => {
            return Err(e);
        },
    };
    let limits: (i64, i64) = match deploy_limits(s.deploy.as_ref(), service) {
        Ok(l) => l,
        Err(e) => {
            return Err(e);
        },
    };
    let volumes: Vec<String> = table_keys(&compose.volumes);
    let mut binds: Vec<String> = service_binds(&s.volumes, &volumes, project, dir);
    match credential_mounts("secrets", &s.secrets, &compose.secrets, service, dir, present) {
        Ok(v) => {
            add_words(&mut binds, &v);
        },
        Err(e) => {
            return Err(e);
        },
    }
    match credential_mounts("configs", &s.configs, &compose.configs, service, dir, present) {
        Ok(v) => {
            add_words(&mut binds, &v);
        },
        Err(e) => {
            return Err(e);
        },
    }
    proof {
        reveal_strlit("");
        assert(""@ =~= Seq::empty());
    }
    let host: String = write_service_host(
        &binds,
        limits,
        owned_name(project, "default").as_str(),
        &bindings,
        text_or(&s.restart, "").as_str(),
    );
    let body: String = write_service(s, image, project, service, host.as_str());
    proof {
        requests::law_service_is_asked_for_as_described(
            body@,
            *s,
            image@,
            project@,
            service@,
            *compose,
            dir@,
            text::texts(present@),
        );
    }
    Ok(body)
}

/// The id of a container that has been made, or its name where the reply gives none;
/// nothing where the reply is no JSON.
pub fn created_id(doc: &[u8], name: &str) -> (r: Option<String>)
    ensures
        reference::opt_text(r) == if json::is_json(doc@) {
            Some(or_else(json::json_text(doc@, "/Id"@), name@))
        } else {
            None
        },
{
    if !is_document(doc) {
        return None;
    }
    match text_at(doc, "/Id") {
        Some(i) => Some(i),
        None => Some(name.to_owned()),
    }
}

/// What a service that passed the look for faults asks for fails only for its ports.
pub proof fn law_checked_service_is_asked_for(
    s: ServiceConfig,
    image: Seq<char>,
    project: Seq<char>,
    service: Seq<char>,
    compose: ComposeFile,
    dir: Seq<char>,
    present: Seq<Seq<char>>,
    force_build: bool,
)
    requires
        fault_of(
            service,
            s,
            compose.secrets,
            compose.configs,
            dir,
            present,
            force_build,
        ) is None,
    ensures
        service_request(s, image, project, service, compose, dir, present) is Ok
            <==> commands::all_mappings(text::texts(s.ports@), s.ports@.len() as int) is Ok,
{
}

// ---------------------------------------------------------------- containers that are there

/// A container of a project, as far as the daemon shows it.
#[derive(Debug, Clone)]
pub struct Listed {
    pub id: Option<String>,
    pub name: Option<String>,
    pub image: Option<String>,
    pub service: Option<String>,
    pub status: Option<String>,
    pub ports: Vec<String>,
}

#[verifier::ext_equal]
pub ghost struct ListedView {
    pub id: Option<Seq<char>>,
    pub name: Option<Seq<char>>,
    pub image: Option<Seq<char>>,
    pub service: Option<Seq<char>>,
    pub status: Option<Seq<char>>,
    pub ports: Seq<Seq<char>>,
}

impl View for Listed {
    type V = ListedView;

    open spec fn view(&self) -> ListedView {
        ListedView {
            id: reference::opt_text(self.id),
            name: reference::opt_text(self.name),
            image: reference::opt_text(self.image),
            service: reference::opt_text(self.service),
            status: reference::opt_text(self.status),
            ports: text::texts(self.ports@),
        }
    }
}

pub open spec fn listed_views(v: Seq<Listed>) -> Seq<ListedView> {
    Seq::new(v.len(), |i: int| v[i]@)
}

/// The ports among the first `n` that are published, as they are shown.
pub open spec fn ports_to(doc: Seq<u8>, base: Seq<char>, n: int) -> Seq<Seq<char>>
    decreases n,
{
    if n <= 0 {
        Seq::empty()
    } else {
        let p = json::under_item(base, n - 1);
        match (
            json::json_integer(doc, p + "/PublicPort"@),
            json::json_integer(doc, p + "/PrivatePort"@),
            json::json_text(doc, p + "/Type"@),
        ) {
            (Some(a), Some(b), Some(t)) => ports_to(doc, base, n - 1).push(
                "0.0.0.0:"@ + num::signed_decimal(a as int) + "->"@ + num::signed_decimal(b as int)
                    + "/"@ + t,
            ),
            _ => ports_to(doc, base, n - 1),
        }
    }
}

pub open spec fn ports_of(doc: Seq<u8>, base: Seq<char>) -> Seq<Seq<char>> {
    match json::json_items(doc, base) {
        Some(n) => ports_to(doc, base, n as int),
        None => Seq::empty(),
    }
}

/// A container as the list shows it.
pub open spec fn listed_at(doc: Seq<u8>, p: Seq<char>) -> ListedView {
    ListedView {
        id: json::json_text(doc, p + "/Id"@),
        name: json::json_text(doc, p + "/Names/0"@),
        image: json::json_text(doc, p + "/Image"@),
        service: json::json_text(doc, p + "/Labels/com.docker.compose.service"@),
        status: json::json_text(doc, p + "/Status"@),
        ports: ports_of(doc, p + "/Ports"@),
    }
}

/// The containers of a project among the first `n` of a list.
pub open spec fn listed_to(doc: Seq<u8>, project: Seq<char>, n: int) -> Seq<ListedView>
    decreases n,
{
    if n <= 0 {
        Seq::empty()
    } else {
        let p = json::under_item(Seq::empty(), n - 1);
        if json::json_text(doc, p + "/Labels/com.docker.compose.project"@) == Some(project) {
            listed_to(doc, project, n - 1).push(listed_at(doc, p))
        } else {
            listed_to(doc, project, n - 1)
        }
    }
}

fn below(base: &str, rest: &str) -> (r: String)
    ensures
        r@ == base@ + rest@,
{
    let mut s: String = base.to_owned();
    s.append(rest);
    s
}

fn read_ports(doc: &[u8], base: &str) -> (r: Vec<String>)
    ensures
        text::texts(r@) == ports_of(doc@, base@),
{
    let mut out: Vec<String> = Vec::new();
    assert(text::texts(out@) =~= Seq::empty());
    let n: usize = match items_at(doc, base) {
        Some(n) => n,
        None => {
            return out;
        },
    };
    let mut i: usize = 0;
    while i < n
        invariant
            i <= n,
            text::texts(out@) == ports_to(doc@, base@, i as int),
        decreases n - i,
    {
        let p: String = item_pointer(base, i);
        let a: Option<i64> = integer_at(doc, below(p.as_str(), "/PublicPort").as_str());
        let b: Option<i64> = integer_at(doc, below(p.as_str(), "/PrivatePort").as_str());
        let t: Option<String> = text_at(doc, below(p.as_str(), "/Type").as_str());
        if let (Some(a), Some(b), Some(t)) = (a, b, t) {
            let mut s: String = "0.0.0.0:".to_owned();
            s.append(signed_decimal_text(a).as_str());
            s.append("->");
            s.append(signed_decimal_text(b).as_str());
            s.append("/");
            s.append(t.as_str());
            add_word(&mut out, s.as_str());
        }
        i += 1;
    }
    out
}

fn read_listed(doc: &[u8], p: &str) -> (r: Listed)
    ensures
        r@ == listed_at(doc@, p@),
{
    Listed {
        id: text_at(doc, below(p, "/Id").as_str()),
        name: text_at(doc, below(p, "/Names/0").as_str()),
        image: text_at(doc, below(p, "/Image").as_str()),
        service: text_at(doc, below(p, "/Labels/com.docker.compose.service").as_str()),
        status: text_at(doc, below(p, "/Status").as_str()),
        ports: read_ports(doc, below(p, "/Ports").as_str()),
    }
}

/// The containers of a project in the daemon's list, or nothing where that is no list.
pub fn project_containers(doc: &[u8], project: &str) -> (r: Option<Vec<Listed>>)
    ensures
        match json::json_items(doc@, Seq::empty()) {
            Some(n) => r matches Some(v) && listed_views(v@) == listed_to(
                doc@,
                project@,
                n as int,
            ),
            None => r is None,
        },
{
    proof {
        reveal_strlit("");
        assert(""@ =~= Seq::empty());
    }
    let n: usize = match items_at(doc, "") {
        Some(n) => n,
        None => {
            return None;
        },
    };
    let mut out: Vec<Listed> = Vec::new();
    let mut i: usize = 0;
    assert(listed_views(out@) =~= Seq::empty());
    while i < n
        invariant
            i <= n,
            ""@ == Seq::<char>::empty(),
            listed_views(out@) == listed_to(doc@, project@, i as int),
        decreases n - i,
    {
        let p: String = item_pointer("", i);
        let label: String = below(p.as_str(), "/Labels/com.docker.compose.project");
        let mine: bool = match text_at(doc, label.as_str()) {
            Some(l) => same(l.as_str(), project),
            None => false,
        };
        if mine {
            let ghost before = out@;
            let l: Listed = read_listed(doc, p.as_str());
            out.push(l);
            assert(listed_views(out@) =~= listed_views(before).push(l@));
        }
        i += 1;
    }
    Some(out)
}

/// A container's name without the slash before it, its id where it has none.
pub open spec fn shown_name(c: ListedView) -> Seq<char> {
    text::strip_starts(or_else(c.name, or_else(c.id, Seq::empty())), seq!['/'])
}

fn without_slash(s: &str) -> (r: String)
    ensures
        r@ == text::strip_starts(s@, seq!['/']),
{
    string_of(strip_starts_text(chars_of(s).as_slice(), one_char('/').as_slice()))
}

/// What a container is called.
pub fn listed_name(c: &Listed) -> (r: String)
    ensures
        r@ == shown_name(c@),
{
    proof {
        reveal_strlit("");
        assert(""@ =~= Seq::empty());
    }
    let id: String = text_or(&c.id, "");
    without_slash(text_or(&c.name, id.as_str()).as_str())
}

/// Whether the logs of a container are asked for: those of some services, or of all.
pub open spec fn asked_for(c: ListedView, services: Seq<Seq<char>>) -> bool {
    services.len() == 0 || services.contains(or_else(c.service, Seq::empty()))
}

pub fn is_asked_for(c: &Listed, services: &Vec<String>) -> (r: bool)
    ensures
        r == asked_for(c@, text::texts(services@)),
{
    proof {
        reveal_strlit("");
        assert(""@ =~= Seq::empty());
    }
    assert(text::texts(services@).len() == services@.len());
    services.len() == 0 || is_among(services, text_or(&c.service, "").as_str())
}

pub open spec fn ps_widths() -> Seq<int> {
    seq![25int, 20, 15, 25, 0]
}

/// The head of the list of a project's containers.
pub fn ps_head() -> (r: String)
    ensures
        r@ == commands::row(
            seq!["NAME"@, "IMAGE"@, "SERVICE"@, "STATUS"@, "PORTS"@],
            ps_widths(),
        ),
{
    let cells: [&str; 5] = ["NAME", "IMAGE", "SERVICE", "STATUS", "PORTS"];
    let widths: [usize; 5] = [25, 20, 15, 25, 0];
    assert(Seq::new(5, |i: int| cells@[i]@) =~= seq![
        "NAME"@,
        "IMAGE"@,
        "SERVICE"@,
        "STATUS"@,
        "PORTS"@,
    ]);
    assert(commands::widths_of(widths@) =~= ps_widths());
    table_row(&cells, &widths)
}

/// A line of the list of a project's containers.
pub fn ps_line(c: &Listed) -> (r: String)
    ensures
        r@ == commands::row(
            seq![
                text::strip_starts(or_else(c@.name, "?"@), seq!['/']),
                or_else(c@.image, "?"@),
                or_else(c@.service, "?"@),
                or_else(c@.status, "?"@),
                text::join(c@.ports, ", "@),
            ],
            ps_widths(),
        ),
{
    let name: String = without_slash(text_or(&c.name, "?").as_str());
    let image: String = text_or(&c.image, "?");
    let service: String = text_or(&c.service, "?");
    let status: String = text_or(&c.status, "?");
    let ports: String = join_text(&c.ports, ", ");
    let cells: [&str; 5] = [
        name.as_str(),
        image.as_str(),
        service.as_str(),
        status.as_str(),
        ports.as_str(),
    ];
    let widths: [usize; 5] = [25, 20, 15, 25, 0];
    assert(Seq::new(5, |i: int| cells@[i]@) =~= seq![
        name@,
        image@,
        service@,
        status@,
        ports@,
    ]);
    assert(commands::widths_of(widths@) =~= ps_widths());
    table_row(&cells, &widths)
}

/// What is told of the profiles that are active.
pub fn profiles_line(active: &Vec<String>) -> (r: String)
    ensures
        r@ == (if active@.len() == 0 {
            "Profiles: (none active)"@
        } else {
            "Profiles: "@ + text::join(text::texts(active@), ", "@)
        }),
{
    if active.len() == 0 {
        return "Profiles: (none active)".to_owned();
    }
    let mut s: String = "Profiles: ".to_owned();
    s.append(join_text(active, ", ").as_str());
    s
}

/// The lines that a container wrote, each behind its name.
pub open spec fn named_lines(name: Seq<char>, payload: Seq<u8>) -> Seq<Seq<char>> {
    let ls = dockerfile::lines(dns::lossy(payload));
    Seq::new(ls.len(), |i: int| name + " | "@ + ls[i])
}

/// The lines that a container wrote, each behind its name.
pub fn log_lines(name: &str, payload: &[u8]) -> (r: Vec<String>)
    ensures
        text::texts(r@) == named_lines(name@, payload@),
{
    let all: String = lossy_text(payload);
    let ls: Vec<String> = lines_text(chars_of(all.as_str()).as_slice());
    let ghost lv = text::texts(ls@);
    let ghost nv = named_lines(name@, payload@);
    let mut out: Vec<String> = Vec::new();
    let mut i: usize = 0;
    while i < ls.len()
        invariant
            i <= ls.len(),
            lv == text::texts(ls@),
            lv == dockerfile::lines(dns::lossy(payload@)),
            nv == named_lines(name@, payload@),
            text::texts(out@) =~= nv.take(i as int),
        decreases ls.len() - i,
    {
        let mut s: String = name.to_owned();
        s.append(" | ");
        s.append(ls[i].as_str());
        add_word(&mut out, s.as_str());
        assert(nv.take(i as int + 1) =~= nv.take(i as int).push(nv[i as int]));
        i += 1;
    }
    assert(nv.take(nv.len() as int) =~= nv);
    out
}

/// Every port that a container publishes is listed, with its port on the host first.
pub proof fn law_published_ports_are_listed(
    doc: Seq<u8>,
    base: Seq<char>,
    n: int,
    i: int,
    outside: i64,
    within: i64,
    proto: Seq<char>,
)
    requires
        0 <= i < n,
        json::json_integer(doc, json::under_item(base, i) + "/PublicPort"@) == Some(outside),
        json::json_integer(doc, json::under_item(base, i) + "/PrivatePort"@) == Some(within),
        json::json_text(doc, json::under_item(base, i) + "/Type"@) == Some(proto),
    ensures
        ports_to(doc, base, n).contains(
            "0.0.0.0:"@ + num::signed_decimal(outside as int) + "->"@ + num::signed_decimal(
                within as int,
            ) + "/"@ + proto,
        ),
        ports_to(doc, base, n).len() <= n,
    decreases n,
{
    let before = ports_to(doc, base, n - 1);
    let now = ports_to(doc, base, n);
    lemma_ports_length(doc, base, n);
    let x = "0.0.0.0:"@ + num::signed_decimal(outside as int) + "->"@ + num::signed_decimal(
        within as int,
    ) + "/"@ + proto;
    if i < n - 1 {
        law_published_ports_are_listed(doc, base, n - 1, i, outside, within, proto);
        let k = choose|k: int| 0 <= k < before.len() && before[k] == x;
        assert(now[k] == x);
    } else {
        assert(now[before.len() as int] == x);
    }
}

proof fn lemma_ports_length(doc: Seq<u8>, base: Seq<char>, n: int)
    requires
        0 <= n,
    ensures
        ports_to(doc, base, n).len() <= n,
    decreases n,
{
    if n > 0 {
        lemma_ports_length(doc, base, n - 1);
    }
}

} // verus!
