//! Compose files: services, what they inherit, the order they start in and what each of
//! them is made of.

use vstd::prelude::*;

use crate::network::{add_word, copy_strings};
use crate::order::{self, comes_before, sort_unique};
use crate::reference;
use crate::registry;
use crate::store;
use crate::table::{self, Table};
use crate::text::{self, chars_of, is_among, join_text, same, str_split, str_trim, words_text};
use crate::unicode::{self, is_alphanumeric, quote, to_lower};

verus! {

/// A compose file.
#[derive(Debug, Clone, Default)]
pub struct ComposeFile {
    pub version: Option<String>,
    pub services: Table<ServiceConfig>,
    pub volumes: Table<Option<ComposeVolumeConfig>>,
    pub networks: Table<Option<ComposeNetworkConfig>>,
    pub secrets: Table<ComposeSecretConfig>,
    pub configs: Table<ComposeSecretConfig>,
}

/// A service.
#[derive(Debug, Clone, Default)]
pub struct ServiceConfig {
    pub image: Option<String>,
    pub build: Option<BuildSpec>,
    pub container_name: Option<String>,
    pub command: Option<StringOrList>,
    pub entrypoint: Option<StringOrList>,
    pub ports: Vec<String>,
    pub environment: Option<EnvSpec>,
    pub volumes: Vec<String>,
    pub depends_on: Option<DependsOnSpec>,
    pub restart: Option<String>,
    pub working_dir: Option<String>,
    pub user: Option<String>,
    /// `always`, `missing`, `never` or `build`.
    pub pull_policy: Option<String>,
    /// The service starts where one of these is active, or always where there are none.
    pub profiles: Vec<String>,
    pub extends: Option<ExtendsSpec>,
    pub deploy: Option<DeployConfig>,
    pub secrets: Vec<SecretRef>,
    pub configs: Vec<SecretRef>,
}

/// The service that another one inherits from, in this file or another.
#[derive(Debug, Clone, Default)]
pub struct ExtendsSpec {
    pub file: Option<String>,
    pub service: String,
}

#[derive(Debug, Clone, Default)]
pub struct DeployConfig {
    pub resources: Option<DeployResources>,
}

/// Limits hold; reservations are only checked.
#[derive(Debug, Clone, Default)]
pub struct DeployResources {
    pub limits: Option<ResourceLimits>,
    pub reservations: Option<ResourceLimits>,
}

#[derive(Debug, Clone, Default)]
pub struct ResourceLimits {
    pub cpus: Option<LimitValue>,
    pub memory: Option<LimitValue>,
}

/// A limit: its JSON, and the number that it means, where it means one.
#[derive(Debug, Clone, Default)]
pub struct LimitValue {
    pub shown: String,
    pub value: Option<i64>,
}

/// A secret or a configuration of a service, by its name alone or at length.
#[derive(Debug, Clone)]
pub enum SecretRef {
    Short(String),
    Long(SecretRefLong),
}

/// The owner and the mode are taken and not applied.
#[derive(Debug, Clone, Default)]
pub struct SecretRefLong {
    pub source: String,
    pub target: Option<String>,
    pub uid: Option<String>,
    pub gid: Option<String>,
    pub mode: Option<String>,
}

/// Where a secret or a configuration comes from.
#[derive(Debug, Clone, Default)]
pub struct ComposeSecretConfig {
    pub file: Option<String>,
    pub environment: Option<String>,
    pub external: Option<bool>,
}

#[derive(Debug, Clone)]
pub enum BuildSpec {
    Simple(String),
    Detailed { context: Option<String>, dockerfile: Option<String> },
}

#[derive(Debug, Clone)]
pub enum StringOrList {
    Text(String),
    List(Vec<String>),
}

/// A value of the environment: text, or the JSON of anything else.
#[derive(Debug, Clone)]
pub enum EnvValue {
    Text(String),
    Json(String),
}

#[derive(Debug, Clone)]
pub enum EnvSpec {
    List(Vec<String>),
    Entries(Table<EnvValue>),
}

/// What is said of a dependency.
#[derive(Debug, Clone)]
pub enum DependValue {
    Text(String),
    /// At length: its condition, where that is text.
    Object(Option<String>),
    Other,
}

#[derive(Debug, Clone)]
pub enum DependsOnSpec {
    List(Vec<String>),
    Entries(Table<DependValue>),
}

#[derive(Debug, Clone, Default)]
pub struct ComposeVolumeConfig {
    pub driver: Option<String>,
}

#[derive(Debug, Clone, Default)]
pub struct ComposeNetworkConfig {
    pub driver: Option<String>,
}

// ---------------------------------------------------------------- images

/// How a service comes by its image.
#[derive(Debug, Clone, Copy, PartialEq, Eq, Structural)]
pub enum PullAction {
    /// It is built.
    Build,
    /// It is pulled, even where it is there.
    PullAlways,
    /// It is pulled where it is missing.
    PullIfMissing,
    /// It has to be there.
    RequireLocal,
}

/// How a service comes by its image: what the command line asks for comes first, and a
/// policy that is not known is an error.
pub open spec fn pull_decision(
    policy: Option<Seq<char>>,
    has_image: bool,
    has_build: bool,
    force_build: bool,
) -> Result<PullAction, Seq<char>> {
    let p = match policy {
        Some(p) => p,
        None => "missing"@,
    };
    if force_build {
        Ok(PullAction::Build)
    } else if p.len() == 0 || p == "missing"@ {
        Ok(
            if !has_image && has_build {
                PullAction::Build
            } else {
                PullAction::PullIfMissing
            },
        )
    } else if p == "always"@ {
        Ok(
            if !has_image && has_build {
                PullAction::Build
            } else {
                PullAction::PullAlways
            },
        )
    } else if p == "never"@ {
        Ok(PullAction::RequireLocal)
    } else if p == "build"@ {
        Ok(
            if has_build {
                PullAction::Build
            } else {
                PullAction::PullIfMissing
            },
        )
    } else {
        Err(
            "unknown pull_policy "@ + unicode::quoted(p)
                + " (expected: always, missing, never, build)"@,
        )
    }
}

pub fn decide_pull(policy: Option<&str>, has_image: bool, has_build: bool, force_build: bool) -> (r:
    Result<PullAction, String>)
    ensures
        ({
            let d = pull_decision(registry::opt_str(policy), has_image, has_build, force_build);
            match r {
                Ok(a) => d == Ok::<PullAction, Seq<char>>(a),
                Err(e) => d == Err::<PullAction, Seq<char>>(e@),
            }
        }),
{
    if force_build {
        return Ok(PullAction::Build);
    }
    let p: &str = match policy {
        Some(p) => p,
        None => "missing",
    };
    if p.is_empty() || same(p, "missing") {
        if !has_image && has_build {
            Ok(PullAction::Build)
        } else {
            Ok(PullAction::PullIfMissing)
        }
    } else if same(p, "always") {
        if !has_image && has_build {
            Ok(PullAction::Build)
        } else {
            Ok(PullAction::PullAlways)
        }
    } else if same(p, "never") {
        Ok(PullAction::RequireLocal)
    } else if same(p, "build") {
        if has_build {
            Ok(PullAction::Build)
        } else {
            Ok(PullAction::PullIfMissing)
        }
    } else {
        let mut e: String = "unknown pull_policy ".to_owned();
        e.append(quote(p).as_str());
        e.append(" (expected: always, missing, never, build)");
        Err(e)
    }
}

/// An image is built only where there is something to build, or the command line asks for
/// it; nothing is pulled where that is ruled out.
pub proof fn law_pull_policy(
    policy: Option<Seq<char>>,
    has_image: bool,
    has_build: bool,
    force_build: bool,
    a: PullAction,
)
    requires
        pull_decision(policy, has_image, has_build, force_build) == Ok::<PullAction, Seq<char>>(a),
    ensures
        a == PullAction::Build ==> has_build || force_build,
        policy == Some("never"@) && !force_build ==> a == PullAction::RequireLocal,
        a == PullAction::RequireLocal ==> policy == Some("never"@),
        force_build ==> a == PullAction::Build,
{
    reveal_strlit("never");
    reveal_strlit("missing");
    reveal_strlit("always");
    reveal_strlit("build");
    assert("never"@.len() == 5);
    assert("missing"@.len() == 7);
    assert("always"@.len() == 6);
    assert("never"@[0] == 'n');
    assert("build"@[0] == 'b');
}

// ---------------------------------------------------------------- dependencies

/// When a dependency is ready.
#[derive(Debug, Clone, Copy, PartialEq, Eq, Structural)]
pub enum DepCondition {
    Started,
    Healthy,
    Completed,
}

pub open spec fn condition_of(c: Seq<char>) -> Option<DepCondition> {
    if c.len() == 0 || c == "service_started"@ {
        Some(DepCondition::Started)
    } else if c == "service_healthy"@ {
        Some(DepCondition::Healthy)
    } else if c == "service_completed_successfully"@ {
        Some(DepCondition::Completed)
    } else {
        None
    }
}

pub open spec fn condition_text(v: DependValue) -> Seq<char> {
    match v {
        DependValue::Text(s) => s@,
        DependValue::Object(o) => registry::text_or_empty(reference::opt_text(o)),
        DependValue::Other => Seq::empty(),
    }
}

pub open spec fn condition_error(c: Seq<char>, name: Seq<char>) -> Seq<char> {
    "unknown depends_on condition "@ + unicode::quoted(c) + " for service "@ + unicode::quoted(
        name,
    )
        + " (expected: service_started, service_healthy, service_completed_successfully)"@
}

/// The keys of a table, in the order of its entries.
pub open spec fn keys<V>(t: Table<V>) -> Seq<Seq<char>> {
    Seq::new(t.entries@.len(), |i: int| t.entries@[i].0@)
}

/// The conditions of the first `n` of the names in order.
pub open spec fn conditions_to(
    t: Table<DependValue>,
    names: Seq<Seq<char>>,
    n: int,
) -> Result<Seq<(Seq<char>, DepCondition)>, Seq<char>>
    decreases n,
{
    if n <= 0 {
        Ok(Seq::empty())
    } else {
        match conditions_to(t, names, n - 1) {
            Err(e) => Err(e),
            Ok(v) => {
                let c = condition_text(t.at(names[n - 1])->0);
                match condition_of(c) {
                    Some(d) => Ok(v.push((names[n - 1], d))),
                    None => Err(condition_error(c, names[n - 1])),
                }
            },
        }
    }
}

/// The conditions of the dependencies: of those that are only named, that they have
/// started; of the others in the order of their names.
pub open spec fn conditions(deps: Option<DependsOnSpec>) -> Result<
    Seq<(Seq<char>, DepCondition)>,
    Seq<char>,
> {
    match deps {
        None => Ok(Seq::empty()),
        Some(DependsOnSpec::List(v)) => Ok(
            Seq::new(v@.len(), |i: int| (v@[i]@, DepCondition::Started)),
        ),
        Some(DependsOnSpec::Entries(t)) => {
            let names = order::sorted_set(keys(t));
            conditions_to(t, names, names.len() as int)
        },
    }
}

pub open spec fn condition_views(v: Seq<(String, DepCondition)>) -> Seq<(Seq<char>, DepCondition)> {
    Seq::new(v.len(), |i: int| (v[i].0@, v[i].1))
}

/// The keys of a table.
pub fn table_keys<V>(t: &Table<V>) -> (r: Vec<String>)
    ensures
        text::texts(r@) == keys(*t),
{
    let mut out: Vec<String> = Vec::new();
    let mut i: usize = 0;
    while i < t.entries.len()
        invariant
            i <= t.entries.len(),
            text::texts(out@) =~= keys(*t).take(i as int),
        decreases t.entries.len() - i,
    {
        add_word(&mut out, t.entries[i].0.as_str());
        i += 1;
    }
    assert(keys(*t).take(t.entries@.len() as int) =~= keys(*t));
    out
}

/// What is under a key of a table is there.
pub proof fn lemma_key_is_there<V>(t: Table<V>, k: Seq<char>)
    ensures
        keys(t).contains(k) <==> t.has(k),
        t.has(k) <==> t.at(k) is Some,
{
    table::lemma_place_from(t.entries@, k, 0);
    let p = table::place(t.entries@, k);
    if keys(t).contains(k) {
        let ks = keys(t);
        let i = choose|i: int| 0 <= i < ks.len() && ks[i] == k;
        assert(t.entries@[i].0@ == k);
        if p == t.entries@.len() {
            assert(t.entries@[i].0@ != k);
        }
    }
    if t.has(k) {
        assert(keys(t)[p] == k);
    }
}

proof fn lemma_conditions_fail(
    t: Table<DependValue>,
    names: Seq<Seq<char>>,
    k: int,
    n: int,
)
    requires
        0 < k <= n,
        conditions_to(t, names, k) is Err,
    ensures
        conditions_to(t, names, n) == conditions_to(t, names, k),
    decreases n - k,
{
    if k < n {
        lemma_conditions_fail(t, names, k, n - 1);
    }
}

/// The conditions of a service's dependencies.
pub fn dependency_conditions(deps: Option<&DependsOnSpec>) -> (r: Result<
    Vec<(String, DepCondition)>,
    String,
>)
    ensures
        ({
            let c = conditions(
                match deps {
                    Some(d) => Some(*d),
                    None => None,
                },
            );
            match r {
                Ok(v) => c == Ok::<Seq<(Seq<char>, DepCondition)>, Seq<char>>(condition_views(v@)),
                Err(e) => c == Err::<Seq<(Seq<char>, DepCondition)>, Seq<char>>(e@),
            }
        }),
{
    let mut out: Vec<(String, DepCondition)> = Vec::new();
    assert(condition_views(out@) =~= Seq::empty());
    match deps {
        None => Ok(out),
        Some(DependsOnSpec::List(v)) => {
            let ghost want = Seq::new(v@.len(), |i: int| (v@[i]@, DepCondition::Started));
            let mut i: usize = 0;
            while i < v.len()
                invariant
                    i <= v.len(),
                    want == Seq::new(v@.len(), |i: int| (v@[i]@, DepCondition::Started)),
                    condition_views(out@) =~= want.take(i as int),
                decreases v.len() - i,
            {
                let ghost before = out@;
                out.push((v[i].clone(), DepCondition::Started));
                assert(condition_views(out@) =~= condition_views(before).push(want[i as int]));
                assert(want.take(i as int + 1) =~= want.take(i as int).push(want[i as int]));
                i += 1;
            }
            assert(want.take(want.len() as int) =~= want);
            Ok(out)
        },
        Some(DependsOnSpec::Entries(t)) => {
            let ks: Vec<String> = table_keys(t);
            let names: Vec<String> = sort_unique(&ks);
            let ghost nv = text::texts(names@);
            proof {
                order::law_sorted_set(keys(*t));
            }
            let mut i: usize = 0;
            while i < names.len()
                invariant
                    i <= names.len(),
                    nv == text::texts(names@),
                    nv == order::sorted_set(keys(*t)),
                    deps matches Some(DependsOnSpec::Entries(u)) && u == t,
                    forall|x: Seq<char>| #[trigger] nv.contains(x) <==> keys(*t).contains(x),
                    conditions_to(*t, nv, i as int) == Ok::<
                        Seq<(Seq<char>, DepCondition)>,
                        Seq<char>,
                    >(condition_views(out@)),
                decreases names.len() - i,
            {
                let n: &str = names[i].as_str();
                proof {
                    assert(nv[i as int] == n@);
                    assert(nv.contains(n@));
                    lemma_key_is_there(*t, n@);
                }
                let c: String = match t.get(n) {
                    Some(DependValue::Text(s)) => s.clone(),
                    Some(DependValue::Object(Some(s))) => s.clone(),
                    _ => String::new(),
                };
                assert(c@ =~= condition_text(t.at(n@)->0));
                let d: DepCondition = if c.as_str().is_empty() || same(
                    c.as_str(),
                    "service_started",
                ) {
                    DepCondition::Started
                } else if same(c.as_str(), "service_healthy") {
                    DepCondition::Healthy
                } else if same(c.as_str(), "service_completed_successfully") {
                    DepCondition::Completed
                } else {
                    let mut e: String = "unknown depends_on condition ".to_owned();
                    e.append(quote(c.as_str()).as_str());
                    e.append(" for service ");
                    e.append(quote(n).as_str());
                    e.append(
                        " (expected: service_started, service_healthy, service_completed_successfully)",
                    );
                    proof {
                        lemma_conditions_fail(*t, nv, i as int + 1, nv.len() as int);
                    }
                    return Err(e);
                };
                let ghost before = out@;
                out.push((names[i].clone(), d));
                assert(condition_views(out@) =~= condition_views(before).push((n@, d)));
                i += 1;
            }
            Ok(out)
        },
    }
}

// ---------------------------------------------------------------- lists

impl StringOrList {
    pub open spec fn listed(self) -> Seq<Seq<char>> {
        match self {
            StringOrList::List(v) => text::texts(v@),
            StringOrList::Text(s) => text::words(s@),
        }
    }

    /// The list, or the words of the text.
    pub fn to_vec(&self) -> (r: Vec<String>)
        ensures
            text::texts(r@) == self.listed(),
    {
        match self {
            StringOrList::List(v) => copy_strings(v),
            StringOrList::Text(s) => words_text(chars_of(s.as_str()).as_slice()),
        }
    }
}

impl EnvValue {
    pub open spec fn shown(self) -> Seq<char> {
        match self {
            EnvValue::Text(s) => s@,
            EnvValue::Json(s) => s@,
        }
    }
}

impl EnvSpec {
    pub open spec fn listed(self) -> Seq<Seq<char>> {
        match self {
            EnvSpec::List(v) => text::texts(v@),
            EnvSpec::Entries(t) => Seq::new(
                t.entries@.len(),
                |i: int| t.entries@[i].0@ + "="@ + t.entries@[i].1.shown(),
            ),
        }
    }

    /// The environment as `KEY=value`.
    pub fn to_vec(&self) -> (r: Vec<String>)
        ensures
            text::texts(r@) == self.listed(),
    {
        match self {
            EnvSpec::List(v) => copy_strings(v),
            EnvSpec::Entries(t) => {
                let ghost want = self.listed();
                let mut out: Vec<String> = Vec::new();
                let mut i: usize = 0;
                while i < t.entries.len()
                    invariant
                        i <= t.entries.len(),
                        want == (EnvSpec::Entries(*t)).listed(),
                        text::texts(out@) =~= want.take(i as int),
                    decreases t.entries.len() - i,
                {
                    let mut s: String = t.entries[i].0.clone();
                    s.append("=");
                    match &t.entries[i].1 {
                        EnvValue::Text(v) => s.append(v.as_str()),
                        EnvValue::Json(v) => s.append(v.as_str()),
                    }
                    add_word(&mut out, s.as_str());
                    assert(want.take(i as int + 1) =~= want.take(i as int).push(want[i as int]));
                    i += 1;
                }
                assert(want.take(want.len() as int) =~= want);
                out
            },
        }
    }
}

impl DependsOnSpec {
    pub open spec fn listed(self) -> Seq<Seq<char>> {
        match self {
            DependsOnSpec::List(v) => text::texts(v@),
            DependsOnSpec::Entries(t) => keys(t),
        }
    }

    /// The names of the dependencies.
    pub fn to_vec(&self) -> (r: Vec<String>)
        ensures
            text::texts(r@) == self.listed(),
    {
        match self {
            DependsOnSpec::List(v) => copy_strings(v),
            DependsOnSpec::Entries(t) => table_keys(t),
        }
    }
}

// ---------------------------------------------------------------- the order of services

/// The services that a service waits for, as they are named.
pub open spec fn deps_of(services: Table<ServiceConfig>, n: Seq<char>) -> Seq<Seq<char>> {
    match services.at(n) {
        Some(s) => match s.depends_on {
            Some(d) => d.listed(),
            None => Seq::empty(),
        },
        None => Seq::empty(),
    }
}

/// Every dependency that is a service is among those that come before.
pub open spec fn deps_done(
    services: Table<ServiceConfig>,
    done: Seq<Seq<char>>,
    n: Seq<char>,
) -> bool {
    forall|i: int|
        0 <= i < deps_of(services, n).len() && services.has(#[trigger] deps_of(services, n)[i])
            ==> done.contains(deps_of(services, n)[i])
}

/// The service can come next.
pub open spec fn is_next(
    services: Table<ServiceConfig>,
    done: Seq<Seq<char>>,
    n: Seq<char>,
) -> bool {
    !done.contains(n) && deps_done(services, done, n)
}

/// The greatest name among the first `k` that can come next.
pub open spec fn best_to(
    services: Table<ServiceConfig>,
    done: Seq<Seq<char>>,
    k: int,
) -> Option<Seq<char>>
    decreases k,
{
    if k <= 0 {
        None
    } else {
        let b = best_to(services, done, k - 1);
        let n = keys(services)[k - 1];
        if is_next(services, done, n) && (b is None || order::less(b->0, n)) {
            Some(n)
        } else {
            b
        }
    }
}

/// The services whose dependencies can all come before them, each behind its own, the
/// greatest name first among those that can come next.
pub open spec fn ordered(services: Table<ServiceConfig>, done: Seq<Seq<char>>) -> Seq<Seq<char>>
    decreases keys(services).len() - done.len(),
{
    let n = keys(services).len();
    if done.len() >= n {
        done
    } else {
        match best_to(services, done, n as int) {
            Some(b) => ordered(services, done.push(b)),
            None => done,
        }
    }
}

/// The order that services start in: those that wait for each other come last.
pub open spec fn start_order(services: Table<ServiceConfig>) -> Seq<Seq<char>> {
    store::united(ordered(services, Seq::empty()), keys(services))
}

fn dependencies_done(services: &Table<ServiceConfig>, done: &Vec<String>, n: &str) -> (r: bool)
    ensures
        r == deps_done(*services, text::texts(done@), n@),
{
    let ghost dv = text::texts(done@);
    let deps: Vec<String> = match services.get(n) {
        Some(s) => match &s.depends_on {
            Some(d) => d.to_vec(),
            None => Vec::new(),
        },
        None => Vec::new(),
    };
    let ghost want = deps_of(*services, n@);
    assert(text::texts(deps@) =~= want);
    let mut i: usize = 0;
    while i < deps.len()
        invariant
            i <= deps.len(),
            dv == text::texts(done@),
            want == deps_of(*services, n@),
            text::texts(deps@) == want,
            forall|j: int|
                0 <= j < i && services.has(#[trigger] want[j]) ==> dv.contains(want[j]),
        decreases deps.len() - i,
    {
        assert(want[i as int] == deps@[i as int]@);
        if services.contains_key(deps[i].as_str()) && !is_among(done, deps[i].as_str()) {
            return false;
        }
        i += 1;
    }
    true
}

fn next_service(services: &Table<ServiceConfig>, done: &Vec<String>) -> (r: Option<String>)
    ensures
        reference::opt_text(r) == best_to(
            *services,
            text::texts(done@),
            keys(*services).len() as int,
        ),
{
    let ghost dv = text::texts(done@);
    let mut best: Option<String> = None;
    let mut k: usize = 0;
    while k < services.entries.len()
        invariant
            k <= services.entries.len(),
            dv == text::texts(done@),
            reference::opt_text(best) == best_to(*services, dv, k as int),
        decreases services.entries.len() - k,
    {
        let n: &str = services.entries[k].0.as_str();
        assert(keys(*services)[k as int] == n@);
        if !is_among(done, n) && dependencies_done(services, done, n) {
            let better: bool = match &best {
                Some(b) => comes_before(b.as_str(), n),
                None => true,
            };
            if better {
                best = Some(n.to_owned());
            }
        }
        k += 1;
    }
    best
}

/// The order that services start in: each behind those that it waits for.
pub fn topological_sort(services: &Table<ServiceConfig>) -> (r: Result<Vec<String>, String>)
    ensures
        r matches Ok(v) && text::texts(v@) == start_order(*services),
{
    let n: usize = services.entries.len();
    let mut done: Vec<String> = Vec::new();
    assert(text::texts(done@) =~= Seq::empty());
    loop
        invariant_except_break
            ordered(*services, Seq::empty()) == ordered(*services, text::texts(done@)),
        invariant
            n == keys(*services).len(),
            done@.len() <= n,
        ensures
            ordered(*services, Seq::empty()) == text::texts(done@),
        decreases n - done@.len(),
    {
        assert(text::texts(done@).len() == done@.len());
        if done.len() >= n {
            break;
        }
        match next_service(services, &done) {
            Some(b) => {
                add_word(&mut done, b.as_str());
            },
            None => {
                break;
            },
        }
    }
    let ghost first = text::texts(done@);
    let ghost kv = keys(*services);
    let mut i: usize = 0;
    assert(kv.take(0) =~= Seq::empty());
    while i < n
        invariant
            i <= n,
            n == services.entries@.len(),
            kv == keys(*services),
            text::texts(done@) == store::united(first, kv.take(i as int)),
        decreases n - i,
    {
        assert(kv.take(i as int + 1).drop_last() =~= kv.take(i as int));
        if !is_among(&done, services.entries[i].0.as_str()) {
            add_word(&mut done, services.entries[i].0.as_str());
        }
        i += 1;
    }
    assert(kv.take(kv.len() as int) =~= kv);
    Ok(done)
}

/// The services so far: each once, each behind its dependencies.
pub open spec fn in_order(services: Table<ServiceConfig>, done: Seq<Seq<char>>) -> bool {
    &&& done.no_duplicates()
    &&& forall|i: int| 0 <= i < done.len() ==> keys(services).contains(#[trigger] done[i])
    &&& forall|i: int|
        0 <= i < done.len() ==> deps_done(services, done.take(i), #[trigger] done[i])
}

proof fn lemma_best(services: Table<ServiceConfig>, done: Seq<Seq<char>>, k: int)
    requires
        0 <= k <= keys(services).len(),
    ensures
        best_to(services, done, k) matches Some(b) ==> is_next(services, done, b) && keys(
            services,
        ).contains(b),
        best_to(services, done, k) is None ==> forall|i: int|
            0 <= i < k ==> !is_next(services, done, #[trigger] keys(services)[i]),
    decreases k,
{
    if k > 0 {
        lemma_best(services, done, k - 1);
        let n = keys(services)[k - 1];
        assert(keys(services).contains(n));
    }
}

proof fn lemma_ordered(services: Table<ServiceConfig>, done: Seq<Seq<char>>)
    requires
        in_order(services, done),
    ensures
        in_order(services, ordered(services, done)),
        ordered(services, done).len() >= keys(services).len() || forall|i: int|
            0 <= i < keys(services).len() ==> !is_next(
                services,
                ordered(services, done),
                #[trigger] keys(services)[i],
            ),
    decreases keys(services).len() - done.len(),
{
    let n = keys(services).len();
    if done.len() < n {
        lemma_best(services, done, n as int);
        if let Some(b) = best_to(services, done, n as int) {
            let d = done.push(b);
            assert forall|i: int| 0 <= i < d.len() implies deps_done(
                services,
                d.take(i),
                #[trigger] d[i],
            ) by {
                if i < done.len() {
                    assert(d.take(i) =~= done.take(i));
                    assert(d[i] == done[i]);
                } else {
                    assert(d.take(i) =~= done);
                }
            }
            assert forall|i: int, j: int|
                0 <= i < d.len() && 0 <= j < d.len() && i != j implies d[i] != d[j] by {
                if i == done.len() {
                    assert(done.contains(d[j]));
                } else if j == done.len() {
                    assert(done.contains(d[i]));
                }
            }
            assert forall|i: int| 0 <= i < d.len() implies keys(services).contains(
                #[trigger] d[i],
            ) by {
                if i < done.len() {
                    assert(d[i] == done[i]);
                }
            }
            lemma_ordered(services, d);
        }
    }
}

proof fn lemma_united_distinct(a: Seq<Seq<char>>, b: Seq<Seq<char>>)
    requires
        a.no_duplicates(),
    ensures
        store::united(a, b).no_duplicates(),
        store::united(a, b).len() >= a.len(),
        store::united(a, b).take(a.len() as int) == a,
    decreases b.len(),
{
    if b.len() == 0 {
        assert(a.take(a.len() as int) =~= a);
    } else {
        lemma_united_distinct(a, b.drop_last());
        let u = store::united(a, b.drop_last());
        let r = store::united(a, b);
        assert(r.take(a.len() as int) =~= u.take(a.len() as int));
    }
}

/// Every service starts exactly once.
pub proof fn law_each_service_once(services: Table<ServiceConfig>)
    ensures
        start_order(services).no_duplicates(),
        forall|n: Seq<char>| #[trigger] start_order(services).contains(n) <==> services.has(n),
{
    assert(in_order(services, Seq::empty()));
    lemma_ordered(services, Seq::empty());
    let d = ordered(services, Seq::empty());
    lemma_united_distinct(d, keys(services));
    store::lemma_united(d, keys(services));
    assert forall|n: Seq<char>| #[trigger] start_order(services).contains(n) <==> services.has(
        n,
    ) by {
        lemma_key_is_there(services, n);
        if d.contains(n) {
            let i = choose|i: int| 0 <= i < d.len() && d[i] == n;
            assert(keys(services).contains(d[i]));
        }
    }
}

/// No service waits for itself, not even through others: each ranks above those that it
/// waits for.
pub open spec fn ranked(services: Table<ServiceConfig>, rank: spec_fn(Seq<char>) -> nat) -> bool {
    forall|n: Seq<char>, i: int|
        services.has(n) && 0 <= i < deps_of(services, n).len() && services.has(
            #[trigger] deps_of(services, n)[i],
        ) ==> rank(deps_of(services, n)[i]) < rank(n)
}

proof fn lemma_ranked_done(
    services: Table<ServiceConfig>,
    rank: spec_fn(Seq<char>) -> nat,
    done: Seq<Seq<char>>,
    n: Seq<char>,
)
    requires
        ranked(services, rank),
        services.has(n),
        forall|i: int|
            0 <= i < keys(services).len() ==> !is_next(
                services,
                done,
                #[trigger] keys(services)[i],
            ),
    ensures
        done.contains(n),
    decreases rank(n),
{
    lemma_key_is_there(services, n);
    let ks = keys(services);
    let k = choose|k: int| 0 <= k < ks.len() && ks[k] == n;
    assert(!is_next(services, done, ks[k]));
    if !done.contains(n) {
        assert forall|i: int|
            0 <= i < deps_of(services, n).len() && services.has(
                #[trigger] deps_of(services, n)[i],
            ) implies done.contains(deps_of(services, n)[i]) by {
            lemma_ranked_done(services, rank, done, deps_of(services, n)[i]);
        }
        assert(deps_done(services, done, n));
    }
}

proof fn lemma_full(done: Seq<Seq<char>>, ks: Seq<Seq<char>>, n: Seq<char>)
    requires
        done.no_duplicates(),
        forall|i: int| 0 <= i < done.len() ==> ks.contains(#[trigger] done[i]),
        done.len() >= ks.len(),
        ks.contains(n),
    ensures
        done.contains(n),
{
    let a = done.to_set();
    let b = ks.to_set();
    done.unique_seq_to_set();
    ks.lemma_cardinality_of_set();
    assert(a.subset_of(b)) by {
        assert forall|x: Seq<char>| a.contains(x) implies b.contains(x) by {
            let i = choose|i: int| 0 <= i < done.len() && done[i] == x;
            assert(ks.contains(done[i]));
        }
    }
    vstd::set_lib::lemma_len_subset(a, b);
    vstd::set_lib::lemma_subset_equality(a, b);
    assert(b.contains(n));
}

/// Where no service waits for itself, each starts behind every service that it waits for.
pub proof fn law_dependencies_first(
    services: Table<ServiceConfig>,
    rank: spec_fn(Seq<char>) -> nat,
    i: int,
    d: Seq<char>,
)
    requires
        ranked(services, rank),
        0 <= i < start_order(services).len(),
        deps_of(services, start_order(services)[i]).contains(d),
        services.has(d),
    ensures
        start_order(services).take(i).contains(d),
{
    let r = start_order(services);
    let o = ordered(services, Seq::empty());
    assert(in_order(services, Seq::empty()));
    lemma_ordered(services, Seq::empty());
    law_each_service_once(services);
    lemma_united_distinct(o, keys(services));
    let n = r[i];
    assert(r.contains(n));
    assert(services.has(n));
    lemma_key_is_there(services, n);
    if o.len() >= keys(services).len() {
        lemma_full(o, keys(services), n);
    } else {
        lemma_ranked_done(services, rank, o, n);
    }
    let k = choose|k: int| 0 <= k < o.len() && o[k] == n;
    assert(r.take(o.len() as int)[k] == n);
    assert(r[k] == n);
    assert(k == i);
    assert(deps_done(services, o.take(k), o[k]));
    let ds = deps_of(services, n);
    let m = choose|m: int| 0 <= m < ds.len() && ds[m] == d;
    assert(services.has(deps_of(services, n)[m]));
    assert(o.take(k).contains(d));
    assert(o.take(k) =~= r.take(o.len() as int).take(k));
    assert(r.take(i) =~= r.take(o.len() as int).take(k));
}

// ---------------------------------------------------------------- profiles and projects

/// The profiles of the parts: without blanks, each once, behind those there are.
pub open spec fn profiles_with(v: Seq<Seq<char>>, parts: Seq<Seq<char>>) -> Seq<Seq<char>>
    decreases parts.len(),
{
    if parts.len() == 0 {
        v
    } else {
        let w = profiles_with(v, parts.drop_last());
        let p = text::trim(parts.last());
        if p.len() > 0 {
            registry::add_new(w, p)
        } else {
            w
        }
    }
}

/// The profiles of the first `n` options.
pub open spec fn cli_profiles(cli: Seq<Seq<char>>, n: int) -> Seq<Seq<char>>
    decreases n,
{
    if n <= 0 {
        Seq::empty()
    } else {
        profiles_with(cli_profiles(cli, n - 1), text::split(cli[n - 1], seq![',']))
    }
}

/// The profiles that are active: those of the command line, then those of the
/// environment.
pub open spec fn profiles_of(cli: Seq<Seq<char>>, env: Option<Seq<char>>) -> Seq<Seq<char>> {
    let c = cli_profiles(cli, cli.len() as int);
    match env {
        Some(e) => profiles_with(c, text::split(e, seq![','])),
        None => c,
    }
}

fn add_profiles(out: &mut Vec<String>, raw: &str)
    ensures
        text::texts(final(out)@) == profiles_with(
            text::texts(old(out)@),
            text::split(raw@, seq![',']),
        ),
{
    let ghost v0 = text::texts(out@);
    let parts: Vec<String> = str_split(raw, ',');
    let ghost pv = text::split(raw@, seq![',']);
    let mut i: usize = 0;
    assert(pv.take(0) =~= Seq::empty());
    while i < parts.len()
        invariant
            i <= parts.len(),
            text::texts(parts@) == pv,
            text::texts(out@) == profiles_with(v0, pv.take(i as int)),
        decreases parts.len() - i,
    {
        assert(pv.take(i as int + 1).drop_last() =~= pv.take(i as int));
        assert(pv[i as int] == parts@[i as int]@);
        let p: String = str_trim(parts[i].as_str());
        if !p.as_str().is_empty() && !is_among(out, p.as_str()) {
            add_word(out, p.as_str());
        }
        i += 1;
    }
    assert(pv.len() == parts@.len());
    assert(pv.take(pv.len() as int) =~= pv);
}

/// The profiles that are active.
pub fn active_profiles_from(cli: &[String], env: Option<&str>) -> (r: Vec<String>)
    ensures
        text::texts(r@) == profiles_of(text::texts(cli@), registry::opt_str(env)),
{
    let ghost cv = text::texts(cli@);
    let mut out: Vec<String> = Vec::new();
    let mut i: usize = 0;
    assert(text::texts(out@) =~= Seq::empty());
    while i < cli.len()
        invariant
            i <= cli.len(),
            cv == text::texts(cli@),
            text::texts(out@) == cli_profiles(cv, i as int),
        decreases cli.len() - i,
    {
        assert(cv[i as int] == cli@[i as int]@);
        add_profiles(&mut out, cli[i].as_str());
        i += 1;
    }
    if let Some(e) = env {
        add_profiles(&mut out, e);
    }
    out
}

/// The service takes part: it has no profiles, or one that is active.
pub open spec fn enabled(profiles: Seq<Seq<char>>, active: Seq<Seq<char>>) -> bool {
    profiles.len() == 0 || exists|i: int|
        0 <= i < profiles.len() && active.contains(#[trigger] profiles[i])
}

pub fn service_enabled(svc: &ServiceConfig, active: &Vec<String>) -> (r: bool)
    ensures
        r == enabled(text::texts(svc.profiles@), text::texts(active@)),
{
    let ghost pv = text::texts(svc.profiles@);
    let ghost av = text::texts(active@);
    if svc.profiles.len() == 0 {
        return true;
    }
    let mut i: usize = 0;
    while i < svc.profiles.len()
        invariant
            i <= svc.profiles.len(),
            pv == text::texts(svc.profiles@),
            av == text::texts(active@),
            pv.len() > 0,
            forall|j: int| 0 <= j < i ==> !av.contains(#[trigger] pv[j]),
        decreases svc.profiles.len() - i,
    {
        assert(pv[i as int] == svc.profiles@[i as int]@);
        if is_among(active, svc.profiles[i].as_str()) {
            return true;
        }
        i += 1;
    }
    false
}

/// What is told of a service that takes no part.
pub open spec fn skipped(name: Seq<char>, profiles: Seq<Seq<char>>) -> Seq<char> {
    "Service "@ + name + " skipped (profiles ["@ + text::join(profiles, ", "@) + "] not active)"@
}

pub fn skipped_message(name: &str, profiles: &Vec<String>) -> (r: String)
    ensures
        r@ == skipped(name@, text::texts(profiles@)),
{
    let mut s: String = "Service ".to_owned();
    s.append(name);
    s.append(" skipped (profiles [");
    s.append(join_text(profiles, ", ").as_str());
    s.append("] not active)");
    s
}

/// The letters, digits, `_` and `-` of text in lower case.
pub open spec fn cleaned(s: Seq<char>) -> Seq<char>
    decreases s.len(),
{
    if s.len() == 0 {
        Seq::empty()
    } else if unicode::alphanumeric(s.last()) || s.last() == '_' || s.last() == '-' {
        cleaned(s.drop_last()).push(s.last())
    } else {
        cleaned(s.drop_last())
    }
}

/// Without what cannot stand in a project's name.
pub fn clean_name(s: &str) -> (r: String)
    ensures
        r@ == cleaned(s@),
{
    let cs: Vec<char> = chars_of(s);
    let mut out: String = String::new();
    let mut i: usize = 0;
    assert(cs@.take(0) =~= Seq::empty());
    while i < cs.len()
        invariant
            i <= cs.len(),
            out@ == cleaned(cs@.take(i as int)),
        decreases cs.len() - i,
    {
        assert(cs@.take(i as int + 1).drop_last() =~= cs@.take(i as int));
        if is_alphanumeric(cs[i]) || cs[i] == '_' || cs[i] == '-' {
            out.push(cs[i]);
        }
        i += 1;
    }
    assert(cs@.take(cs@.len() as int) =~= cs@);
    out
}

/// The name of a project: the one that is asked for, or that of the file's directory.
pub open spec fn project_name(asked: Option<Seq<char>>, dir: Option<Seq<char>>) -> Seq<char> {
    match asked {
        Some(p) => cleaned(unicode::lowered(p)),
        None => match dir {
            Some(d) => if cleaned(unicode::lowered(d)).len() > 0 {
                cleaned(unicode::lowered(d))
            } else {
                "default"@
            },
            None => "default"@,
        },
    }
}

/// The name of a project, given the name of the directory of its file, where that has one.
pub fn resolve_project_name(proj_opt: Option<&str>, dir: Option<&str>) -> (r: String)
    ensures
        r@ == project_name(registry::opt_str(proj_opt), registry::opt_str(dir)),
{
    if let Some(p) = proj_opt {
        return clean_name(to_lower(p).as_str());
    }
    if let Some(d) = dir {
        let c: String = clean_name(to_lower(d).as_str());
        if !c.as_str().is_empty() {
            return c;
        }
    }
    "default".to_owned()
}

/// A policy decides where an image comes from: one that is always pulled is, one that is
/// missing is pulled then, one that is built is; a service with nothing but a build is built,
/// and a policy that is none of these is refused.
pub proof fn law_policy_decides(policy: Option<Seq<char>>, has_image: bool, has_build: bool)
    ensures
        ({
            let d = pull_decision(policy, has_image, has_build, false);
            let usual = policy is None || policy == Some("missing"@) || policy->0.len() == 0;
            let always = policy == Some("always"@);
            &&& (usual || always) && !has_image && has_build ==> d == Ok::<PullAction, Seq<char>>(
                PullAction::Build,
            )
            &&& usual && has_image ==> d == Ok::<PullAction, Seq<char>>(PullAction::PullIfMissing)
            &&& always && has_image ==> d == Ok::<PullAction, Seq<char>>(PullAction::PullAlways)
            &&& policy == Some("never"@) ==> d == Ok::<PullAction, Seq<char>>(
                PullAction::RequireLocal,
            )
            &&& policy == Some("build"@) && has_build ==> d == Ok::<PullAction, Seq<char>>(
                PullAction::Build,
            )
            &&& d is Err <==> !usual && !always && policy != Some("never"@) && policy != Some(
                "build"@,
            )
        }),
{
    reveal_strlit("missing");
    reveal_strlit("always");
    reveal_strlit("never");
    reveal_strlit("build");
    assert("missing"@[0] == 'm' && "always"@[0] == 'a' && "never"@[0] == 'n' && "build"@[0] == 'b');
}

} // verus!
