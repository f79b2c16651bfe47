//! What a service inherits: the service that it extends, in its own file or in another
//! one, with every key that it sets itself in place of the inherited one.

use vstd::prelude::*;

use crate::compose::{self, BuildSpec, ComposeFile, DependValue, DependsOnSpec, DeployConfig, DeployResources, EnvSpec, EnvValue, ExtendsSpec, LimitValue, ResourceLimits, SecretRef, SecretRefLong, ServiceConfig, StringOrList};
use crate::network::{add_word, copy_strings};
use crate::table::Table;
use crate::text::{self, chars_of, is_among, join_text, same, str_contains, str_starts};
use crate::unicode::{self, quote};

verus! {

// ---------------------------------------------------------------- copies

/// A value that can be copied with nothing lost.
pub trait Copied: View + Sized {
    fn copied(&self) -> (r: Self)
        ensures
            r@ == self@,
    ;
}

impl Copied for String {
    fn copied(&self) -> (r: Self) {
        self.clone()
    }
}

pub open spec fn seen<T: View>(o: Option<T>) -> Option<T::V> {
    match o {
        Some(x) => Some(x@),
        None => None,
    }
}

pub open spec fn all_seen<T: View>(v: Seq<T>) -> Seq<T::V> {
    Seq::new(v.len(), |i: int| v[i]@)
}

impl<T: View> View for Table<T> {
    type V = Seq<(Seq<char>, T::V)>;

    open spec fn view(&self) -> Seq<(Seq<char>, T::V)> {
        Seq::new(self.entries@.len(), |i: int| (self.entries@[i].0@, self.entries@[i].1@))
    }
}

pub(crate) fn copy_option<T: Copied>(o: &Option<T>) -> (r: Option<T>)
    ensures
        seen(r) == seen(*o),
{
    match o {
        Some(x) => Some(x.copied()),
        None => None,
    }
}

fn copy_all<T: Copied>(v: &Vec<T>) -> (r: Vec<T>)
    ensures
        all_seen(r@) == all_seen(v@),
{
    let mut out: Vec<T> = Vec::new();
    let mut i: usize = 0;
    while i < v.len()
        invariant
            i <= v.len(),
            all_seen(out@) =~= all_seen(v@).take(i as int),
        decreases v.len() - i,
    {
        let ghost before = out@;
        out.push(v[i].copied());
        assert(all_seen(out@) =~= all_seen(before).push(v@[i as int]@));
        i += 1;
    }
    assert(all_seen(v@).take(v@.len() as int) =~= all_seen(v@));
    out
}

pub(crate) fn copy_entries<T: Copied>(t: &Table<T>) -> (r: Table<T>)
    ensures
        r@ == t@,
{
    let mut out: Vec<(String, T)> = Vec::new();
    let mut i: usize = 0;
    while i < t.entries.len()
        invariant
            i <= t.entries.len(),
            out@.len() == i,
            forall|j: int|
                0 <= j < i ==> (#[trigger] out@[j]).0@ == t.entries@[j].0@ && out@[j].1@
                    == t.entries@[j].1@,
        decreases t.entries.len() - i,
    {
        out.push((t.entries[i].0.clone(), t.entries[i].1.copied()));
        i += 1;
    }
    let r: Table<T> = Table { entries: out };
    assert(r@ =~= t@);
    r
}

// ---------------------------------------------------------------- what a service holds

#[verifier::ext_equal]
pub ghost enum ListView {
    Text(Seq<char>),
    List(Seq<Seq<char>>),
}

impl View for StringOrList {
    type V = ListView;

    open spec fn view(&self) -> ListView {
        match self {
            StringOrList::Text(s) => ListView::Text(s@),
            StringOrList::List(v) => ListView::List(text::texts(v@)),
        }
    }
}

impl Copied for StringOrList {
    fn copied(&self) -> (r: Self) {
        match self {
            StringOrList::Text(s) => StringOrList::Text(s.clone()),
            StringOrList::List(v) => StringOrList::List(copy_strings(v)),
        }
    }
}

pub ghost enum BuildView {
    Simple(Seq<char>),
    Detailed(Option<Seq<char>>, Option<Seq<char>>),
}

impl View for BuildSpec {
    type V = BuildView;

    open spec fn view(&self) -> BuildView {
        match self {
            BuildSpec::Simple(s) => BuildView::Simple(s@),
            BuildSpec::Detailed { context, dockerfile } => BuildView::Detailed(
                seen(*context),
                seen(*dockerfile),
            ),
        }
    }
}

impl Copied for BuildSpec {
    fn copied(&self) -> (r: Self) {
        match self {
            BuildSpec::Simple(s) => BuildSpec::Simple(s.clone()),
            BuildSpec::Detailed { context, dockerfile } => BuildSpec::Detailed {
                context: copy_option(context),
                dockerfile: copy_option(dockerfile),
            },
        }
    }
}

pub ghost enum EnvValueView {
    Text(Seq<char>),
    Json(Seq<char>),
}

impl View for EnvValue {
    type V = EnvValueView;

    open spec fn view(&self) -> EnvValueView {
        match self {
            EnvValue::Text(s) => EnvValueView::Text(s@),
            EnvValue::Json(s) => EnvValueView::Json(s@),
        }
    }
}

impl Copied for EnvValue {
    fn copied(&self) -> (r: Self) {
        match self {
            EnvValue::Text(s) => EnvValue::Text(s.clone()),
            EnvValue::Json(s) => EnvValue::Json(s.clone()),
        }
    }
}

pub ghost enum EnvView {
    List(Seq<Seq<char>>),
    Entries(Seq<(Seq<char>, EnvValueView)>),
}

impl View for EnvSpec {
    type V = EnvView;

    open spec fn view(&self) -> EnvView {
        match self {
            EnvSpec::List(v) => EnvView::List(text::texts(v@)),
            EnvSpec::Entries(t) => EnvView::Entries(t@),
        }
    }
}

impl Copied for EnvSpec {
    fn copied(&self) -> (r: Self) {
        match self {
            EnvSpec::List(v) => EnvSpec::List(copy_strings(v)),
            EnvSpec::Entries(t) => EnvSpec::Entries(copy_entries(t)),
        }
    }
}

pub ghost enum DependView {
    Text(Seq<char>),
    Object(Option<Seq<char>>),
    Other,
}

impl View for DependValue {
    type V = DependView;

    open spec fn view(&self) -> DependView {
        match self {
            DependValue::Text(s) => DependView::Text(s@),
            DependValue::Object(o) => DependView::Object(seen(*o)),
            DependValue::Other => DependView::Other,
        }
    }
}

impl Copied for DependValue {
    fn copied(&self) -> (r: Self) {
        match self {
            DependValue::Text(s) => DependValue::Text(s.clone()),
            DependValue::Object(o) => DependValue::Object(copy_option(o)),
            DependValue::Other => DependValue::Other,
        }
    }
}

pub ghost enum DependsView {
    List(Seq<Seq<char>>),
    Entries(Seq<(Seq<char>, DependView)>),
}

impl View for DependsOnSpec {
    type V = DependsView;

    open spec fn view(&self) -> DependsView {
        match self {
            DependsOnSpec::List(v) => DependsView::List(text::texts(v@)),
            DependsOnSpec::Entries(t) => DependsView::Entries(t@),
        }
    }
}

impl Copied for DependsOnSpec {
    fn copied(&self) -> (r: Self) {
        match self {
            DependsOnSpec::List(v) => DependsOnSpec::List(copy_strings(v)),
            DependsOnSpec::Entries(t) => DependsOnSpec::Entries(copy_entries(t)),
        }
    }
}

impl View for ExtendsSpec {
    type V = (Option<Seq<char>>, Seq<char>);

    open spec fn view(&self) -> (Option<Seq<char>>, Seq<char>) {
        (seen(self.file), self.service@)
    }
}

impl Copied for ExtendsSpec {
    fn copied(&self) -> (r: Self) {
        ExtendsSpec { file: copy_option(&self.file), service: self.service.clone() }
    }
}

impl View for LimitValue {
    type V = (Seq<char>, Option<i64>);

    open spec fn view(&self) -> (Seq<char>, Option<i64>) {
        (self.shown@, self.value)
    }
}

impl Copied for LimitValue {
    fn copied(&self) -> (r: Self) {
        LimitValue { shown: self.shown.clone(), value: self.value }
    }
}

pub ghost struct LimitsView {
    pub cpus: Option<(Seq<char>, Option<i64>)>,
    pub memory: Option<(Seq<char>, Option<i64>)>,
}

impl View for ResourceLimits {
    type V = LimitsView;

    open spec fn view(&self) -> LimitsView {
        LimitsView { cpus: seen(self.cpus), memory: seen(self.memory) }
    }
}

impl Copied for ResourceLimits {
    fn copied(&self) -> (r: Self) {
        ResourceLimits { cpus: copy_option(&self.cpus), memory: copy_option(&self.memory) }
    }
}

pub ghost struct ResourcesView {
    pub limits: Option<LimitsView>,
    pub reservations: Option<LimitsView>,
}

impl View for DeployResources {
    type V = ResourcesView;

    open spec fn view(&self) -> ResourcesView {
        ResourcesView { limits: seen(self.limits), reservations: seen(self.reservations) }
    }
}

impl Copied for DeployResources {
    fn copied(&self) -> (r: Self) {
        DeployResources {
            limits: copy_option(&self.limits),
            reservations: copy_option(&self.reservations),
        }
    }
}

impl View for DeployConfig {
    type V = Option<ResourcesView>;

    open spec fn view(&self) -> Option<ResourcesView> {
        seen(self.resources)
    }
}

impl Copied for DeployConfig {
    fn copied(&self) -> (r: Self) {
        DeployConfig { resources: copy_option(&self.resources) }
    }
}

pub ghost enum RefView {
    Short(Seq<char>),
    Long {
        source: Seq<char>,
        target: Option<Seq<char>>,
        uid: Option<Seq<char>>,
        gid: Option<Seq<char>>,
        mode: Option<Seq<char>>,
    },
}

impl View for SecretRef {
    type V = RefView;

    open spec fn view(&self) -> RefView {
        match self {
            SecretRef::Short(s) => RefView::Short(s@),
            SecretRef::Long(l) => RefView::Long {
                source: l.source@,
                target: seen(l.target),
                uid: seen(l.uid),
                gid: seen(l.gid),
                mode: seen(l.mode),
            },
        }
    }
}

impl Copied for SecretRef {
    fn copied(&self) -> (r: Self) {
        match self {
            SecretRef::Short(s) => SecretRef::Short(s.clone()),
            SecretRef::Long(l) => SecretRef::Long(
                SecretRefLong {
                    source: l.source.clone(),
                    target: copy_option(&l.target),
                    uid: copy_option(&l.uid),
                    gid: copy_option(&l.gid),
                    mode: copy_option(&l.mode),
                },
            ),
        }
    }
}

/// What a service holds.
#[verifier::ext_equal]
pub ghost struct ServiceView {
    pub image: Option<Seq<char>>,
    pub build: Option<BuildView>,
    pub container_name: Option<Seq<char>>,
    pub command: Option<ListView>,
    pub entrypoint: Option<ListView>,
    pub ports: Seq<Seq<char>>,
    pub environment: Option<EnvView>,
    pub volumes: Seq<Seq<char>>,
    pub depends_on: Option<DependsView>,
    pub restart: Option<Seq<char>>,
    pub working_dir: Option<Seq<char>>,
    pub user: Option<Seq<char>>,
    pub pull_policy: Option<Seq<char>>,
    pub profiles: Seq<Seq<char>>,
    pub extends: Option<(Option<Seq<char>>, Seq<char>)>,
    pub deploy: Option<Option<ResourcesView>>,
    pub secrets: Seq<RefView>,
    pub configs: Seq<RefView>,
}

impl View for ServiceConfig {
    type V = ServiceView;

    open spec fn view(&self) -> ServiceView {
        ServiceView {
            image: seen(self.image),
            build: seen(self.build),
            container_name: seen(self.container_name),
            command: seen(self.command),
            entrypoint: seen(self.entrypoint),
            ports: all_seen(self.ports@),
            environment: seen(self.environment),
            volumes: all_seen(self.volumes@),
            depends_on: seen(self.depends_on),
            restart: seen(self.restart),
            working_dir: seen(self.working_dir),
            user: seen(self.user),
            pull_policy: seen(self.pull_policy),
            profiles: all_seen(self.profiles@),
            extends: seen(self.extends),
            deploy: seen(self.deploy),
            secrets: all_seen(self.secrets@),
            configs: all_seen(self.configs@),
        }
    }
}

impl Copied for ServiceConfig {
    fn copied(&self) -> (r: Self) {
        ServiceConfig {
            image: copy_option(&self.image),
            build: copy_option(&self.build),
            container_name: copy_option(&self.container_name),
            command: copy_option(&self.command),
            entrypoint: copy_option(&self.entrypoint),
            ports: copy_all(&self.ports),
            environment: copy_option(&self.environment),
            volumes: copy_all(&self.volumes),
            depends_on: copy_option(&self.depends_on),
            restart: copy_option(&self.restart),
            working_dir: copy_option(&self.working_dir),
            user: copy_option(&self.user),
            pull_policy: copy_option(&self.pull_policy),
            profiles: copy_all(&self.profiles),
            extends: copy_option(&self.extends),
            deploy: copy_option(&self.deploy),
            secrets: copy_all(&self.secrets),
            configs: copy_all(&self.configs),
        }
    }
}

// ---------------------------------------------------------------- one service over another

/// The value that is set, or the one below it.
pub open spec fn over<T>(top: Option<T>, below: Option<T>) -> Option<T> {
    match top {
        Some(x) => Some(x),
        None => below,
    }
}

/// The list that holds anything, or the one below it.
pub open spec fn over_all<T>(top: Seq<T>, below: Seq<T>) -> Seq<T> {
    if top.len() > 0 {
        top
    } else {
        below
    }
}

/// A service over the one that it extends: each key that it sets wins whole, and what it
/// extends is done with.
pub open spec fn merged(below: ServiceView, top: ServiceView) -> ServiceView {
    ServiceView {
        image: over(top.image, below.image),
        build: over(top.build, below.build),
        container_name: over(top.container_name, below.container_name),
        command: over(top.command, below.command),
        entrypoint: over(top.entrypoint, below.entrypoint),
        ports: over_all(top.ports, below.ports),
        environment: over(top.environment, below.environment),
        volumes: over_all(top.volumes, below.volumes),
        depends_on: over(top.depends_on, below.depends_on),
        restart: over(top.restart, below.restart),
        working_dir: over(top.working_dir, below.working_dir),
        user: over(top.user, below.user),
        pull_policy: over(top.pull_policy, below.pull_policy),
        profiles: over_all(top.profiles, below.profiles),
        extends: None,
        deploy: over(top.deploy, below.deploy),
        secrets: over_all(top.secrets, below.secrets),
        configs: over_all(top.configs, below.configs),
    }
}

fn pick<T: Copied>(top: &Option<T>, below: Option<T>) -> (r: Option<T>)
    ensures
        seen(r) == over(seen(*top), seen(below)),
{
    match top {
        Some(x) => Some(x.copied()),
        None => below,
    }
}

fn pick_all<T: Copied>(top: &Vec<T>, below: Vec<T>) -> (r: Vec<T>)
    ensures
        all_seen(r@) == over_all(all_seen(top@), all_seen(below@)),
{
    if top.len() > 0 {
        copy_all(top)
    } else {
        below
    }
}

/// A service over the one that it extends.
pub fn merge_service(below: ServiceConfig, top: &ServiceConfig) -> (r: ServiceConfig)
    ensures
        r@ == merged(below@, top@),
{
    ServiceConfig {
        image: pick(&top.image, below.image),
        build: pick(&top.build, below.build),
        container_name: pick(&top.container_name, below.container_name),
        command: pick(&top.command, below.command),
        entrypoint: pick(&top.entrypoint, below.entrypoint),
        ports: pick_all(&top.ports, below.ports),
        environment: pick(&top.environment, below.environment),
        volumes: pick_all(&top.volumes, below.volumes),
        depends_on: pick(&top.depends_on, below.depends_on),
        restart: pick(&top.restart, below.restart),
        working_dir: pick(&top.working_dir, below.working_dir),
        user: pick(&top.user, below.user),
        pull_policy: pick(&top.pull_policy, below.pull_policy),
        profiles: pick_all(&top.profiles, below.profiles),
        extends: None,
        deploy: pick(&top.deploy, below.deploy),
        secrets: pick_all(&top.secrets, below.secrets),
        configs: pick_all(&top.configs, below.configs),
    }
}

// ---------------------------------------------------------------- files

/// A compose file that has been read: its path and the directory that paths in it start
/// from.
#[derive(Debug, Clone, Default)]
pub struct LoadedFile {
    pub path: String,
    pub dir: String,
    pub compose: ComposeFile,
}

/// A path that starts from a directory, unless it starts from the root.
pub open spec fn joined(dir: Seq<char>, path: Seq<char>) -> Seq<char> {
    if text::starts_with(path, seq!['/']) || dir.len() == 0 {
        path
    } else if dir.last() == '/' {
        dir + path
    } else {
        dir + seq!['/'] + path
    }
}

pub fn join_path(dir: &str, path: &str) -> (r: String)
    ensures
        r@ == joined(dir@, path@),
{
    let d: Vec<char> = chars_of(dir);
    proof {
        reveal_strlit("/");
        assert("/"@ =~= seq!['/']);
    }
    if str_starts(path, "/") || d.len() == 0 {
        return path.to_owned();
    }
    let mut s: String = dir.to_owned();
    if d[d.len() - 1] != '/' {
        s.push('/');
    }
    s.append(path);
    s
}

/// The place of the first file with a path at or behind `i`, or the end.
pub open spec fn file_from(files: Seq<LoadedFile>, path: Seq<char>, i: int) -> int
    decreases files.len() - i,
{
    if i < 0 || i >= files.len() || files[i].path@ == path {
        i
    } else {
        file_from(files, path, i + 1)
    }
}

fn find_file(files: &Vec<LoadedFile>, path: &str) -> (r: usize)
    ensures
        r <= files@.len(),
        r == file_from(files@, path@, 0),
{
    let mut i: usize = 0;
    while i < files.len()
        invariant
            i <= files.len(),
            file_from(files@, path@, 0) == file_from(files@, path@, i as int),
        decreases files.len() - i,
    {
        if same(files[i].path.as_str(), path) {
            return i;
        }
        i += 1;
    }
    i
}

// ---------------------------------------------------------------- the chain of services

/// What becomes of a service, or of all of them.
#[derive(Debug, Clone)]
pub enum Inherited<T> {
    Done(T),
    /// A service extends one of a file that has not been read.
    Needs { service: String, path: String },
    Fails(String),
}

pub ghost enum InheritedView<T> {
    Done(T),
    Needs { service: Seq<char>, path: Seq<char> },
    Fails(Seq<char>),
}

impl<T: View> View for Inherited<T> {
    type V = InheritedView<T::V>;

    open spec fn view(&self) -> InheritedView<T::V> {
        match self {
            Inherited::Done(x) => InheritedView::Done(x@),
            Inherited::Needs { service, path } => InheritedView::Needs {
                service: service@,
                path: path@,
            },
            Inherited::Fails(e) => InheritedView::Fails(e@),
        }
    }
}

/// What a service of a file is known by.
pub open spec fn extends_id_of(path: Seq<char>, service: Seq<char>) -> Seq<char> {
    path + "#"@ + service
}

/// The services of a file.
pub open spec fn file_ids(f: LoadedFile) -> Seq<Seq<char>> {
    let ks = compose::keys(f.compose.services);
    Seq::new(ks.len(), |i: int| extends_id_of(f.path@, ks[i]))
}

/// The services of all files.
pub open spec fn all_ids(files: Seq<LoadedFile>) -> Seq<Seq<char>>
    decreases files.len(),
{
    if files.len() == 0 {
        Seq::empty()
    } else {
        all_ids(files.drop_last()) + file_ids(files.last())
    }
}

/// How many services are not on the way yet.
pub open spec fn left(all: Seq<Seq<char>>, stack: Seq<Seq<char>>) -> nat
    decreases all.len(),
{
    if all.len() == 0 {
        0
    } else {
        left(all.drop_last(), stack) + (if stack.contains(all.last()) {
            0nat
        } else {
            1nat
        })
    }
}

proof fn lemma_id_is_listed(files: Seq<LoadedFile>, g: int, k: Seq<char>)
    requires
        0 <= g < files.len(),
        files[g].compose.services.has(k),
    ensures
        all_ids(files).contains(extends_id_of(files[g].path@, k)),
    decreases files.len(),
{
    let id = extends_id_of(files[g].path@, k);
    let a = all_ids(files.drop_last());
    let b = file_ids(files.last());
    if g == files.len() - 1 {
        compose::lemma_key_is_there(files[g].compose.services, k);
        let ks = compose::keys(files[g].compose.services);
        let i = choose|i: int| 0 <= i < ks.len() && ks[i] == k;
        assert(b[i] == id);
        assert((a + b)[a.len() + i] == id);
    } else {
        assert(files.drop_last()[g] == files[g]);
        lemma_id_is_listed(files.drop_last(), g, k);
        let i = choose|i: int| 0 <= i < a.len() && a[i] == id;
        assert((a + b)[i] == id);
    }
}

proof fn lemma_left_shrinks(all: Seq<Seq<char>>, stack: Seq<Seq<char>>, id: Seq<char>)
    requires
        !stack.contains(id),
    ensures
        left(all, stack.push(id)) <= left(all, stack),
        all.contains(id) ==> left(all, stack.push(id)) < left(all, stack),
    decreases all.len(),
{
    if all.len() > 0 {
        let rest = all.drop_last();
        lemma_left_shrinks(rest, stack, id);
        let x = all.last();
        if stack.contains(x) {
            let i = choose|i: int| 0 <= i < stack.len() && stack[i] == x;
            assert(stack.push(id)[i] == x);
        }
        if x == id {
            assert(stack.push(id)[stack.len() as int] == x);
        } else if all.contains(id) {
            let i = choose|i: int| 0 <= i < all.len() && all[i] == id;
            assert(rest[i] == id);
        }
    }
}

/// A service over what became of the one that it extends.
pub open spec fn with_base(
    base: InheritedView<ServiceView>,
    top: ServiceView,
) -> InheritedView<ServiceView> {
    match base {
        InheritedView::Done(b) => InheritedView::Done(merged(b, top)),
        _ => base,
    }
}

pub open spec fn about_service(name: Seq<char>, what: Seq<char>) -> Seq<char> {
    "service "@ + name + ": "@ + what
}

pub open spec fn no_base_named() -> Seq<char> {
    "extends needs a `service:` key naming the base service"@
}

pub open spec fn cycle_found(stack: Seq<Seq<char>>) -> Seq<char> {
    "extends cycle detected ("@ + text::join(stack, " -> "@) + ")"@
}

pub open spec fn unknown_here(base: Seq<char>) -> Seq<char> {
    "extends unknown service "@ + unicode::quoted(base) + " in the same file"@
}

pub open spec fn unknown_there(base: Seq<char>, path: Seq<char>) -> Seq<char> {
    "extends unknown service "@ + unicode::quoted(base) + " in file "@ + path
}

pub open spec fn remote_file(file: Seq<char>) -> Seq<char> {
    "extends file "@ + unicode::quoted(file)
        + " is a remote URL, which is not supported (local files only)"@
}

pub open spec fn is_remote(file: Seq<char>) -> bool {
    text::contains(file, "://"@) || text::starts_with(file, "git@"@)
}

/// What becomes of a service of a file, given the services on the way to it: over the one
/// that it extends, and that over the next one. A way that leads back to itself fails.
pub open spec fn resolved(
    files: Seq<LoadedFile>,
    f: int,
    name: Seq<char>,
    stack: Seq<Seq<char>>,
) -> InheritedView<ServiceView>
    decreases left(all_ids(files), stack),
    via resolved_ends
{
    if f < 0 || f >= files.len() {
        InheritedView::Fails(Seq::empty())
    } else {
        match files[f].compose.services.at(name) {
            None => InheritedView::Fails(about_service(name, unknown_there(name, files[f].path@))),
            Some(s) => match s.extends {
                None => InheritedView::Done(s@),
                Some(e) => if e.service@.len() == 0 {
                    InheritedView::Fails(about_service(name, no_base_named()))
                } else {
                    match e.file {
                        None => {
                            let id = extends_id_of(files[f].path@, e.service@);
                            if stack.contains(id) {
                                InheritedView::Fails(about_service(name, cycle_found(stack)))
                            } else if !files[f].compose.services.has(e.service@) {
                                InheritedView::Fails(
                                    about_service(name, unknown_here(e.service@)),
                                )
                            } else {
                                with_base(resolved(files, f, e.service@, stack.push(id)), s@)
                            }
                        },
                        Some(file) => {
                            let path = joined(files[f].dir@, file@);
                            let g = file_from(files, path, 0);
                            let id = extends_id_of(path, e.service@);
                            if is_remote(file@) {
                                InheritedView::Fails(about_service(name, remote_file(file@)))
                            } else if g < 0 || g >= files.len() {
                                InheritedView::Needs { service: name, path }
                            } else if !files[g].compose.services.has(e.service@) {
                                InheritedView::Fails(
                                    about_service(name, unknown_there(e.service@, path)),
                                )
                            } else if stack.contains(id) {
                                InheritedView::Fails(about_service(name, cycle_found(stack)))
                            } else {
                                with_base(resolved(files, g, e.service@, stack.push(id)), s@)
                            }
                        },
                    }
                },
            },
        }
    }
}

proof fn lemma_file_from(files: Seq<LoadedFile>, path: Seq<char>, i: int)
    requires
        0 <= i <= files.len(),
    ensures
        i <= file_from(files, path, i) <= files.len(),
        file_from(files, path, i) < files.len() ==> files[file_from(files, path, i)].path@ == path,
    decreases files.len() - i,
{
    if i < files.len() && files[i].path@ != path {
        lemma_file_from(files, path, i + 1);
    }
}

proof fn lemma_step_shrinks(files: Seq<LoadedFile>, g: int, k: Seq<char>, stack: Seq<Seq<char>>)
    requires
        0 <= g < files.len(),
        files[g].compose.services.has(k),
        !stack.contains(extends_id_of(files[g].path@, k)),
    ensures
        left(all_ids(files), stack.push(extends_id_of(files[g].path@, k))) < left(
            all_ids(files),
            stack,
        ),
{
    lemma_id_is_listed(files, g, k);
    lemma_left_shrinks(all_ids(files), stack, extends_id_of(files[g].path@, k));
}

#[via_fn]
proof fn resolved_ends(files: Seq<LoadedFile>, f: int, name: Seq<char>, stack: Seq<Seq<char>>) {
    if 0 <= f < files.len() && files[f].compose.services.at(name) is Some {
        let s = files[f].compose.services.at(name)->0;
        if s.extends is Some {
            let e = s.extends->0;
            if e.file is None {
                if !stack.contains(extends_id_of(files[f].path@, e.service@))
                    && files[f].compose.services.has(e.service@) {
                    lemma_step_shrinks(files, f, e.service@, stack);
                }
            } else {
                let path = joined(files[f].dir@, e.file->0@);
                lemma_file_from(files, path, 0);
                let g = file_from(files, path, 0);
                if 0 <= g < files.len() && !stack.contains(extends_id_of(path, e.service@))
                    && files[g].compose.services.has(e.service@) {
                    lemma_step_shrinks(files, g, e.service@, stack);
                }
            }
        }
    }
}

/// What a service of a file is known by.
pub fn extends_id(path: &str, service: &str) -> (r: String)
    ensures
        r@ == extends_id_of(path@, service@),
{
    let mut s: String = path.to_owned();
    s.append("#");
    s.append(service);
    s
}

pub(crate) fn say_of_service(name: &str, what: &str) -> (r: String)
    ensures
        r@ == about_service(name@, what@),
{
    let mut s: String = "service ".to_owned();
    s.append(name);
    s.append(": ");
    s.append(what);
    s
}

fn say_cycle(stack: &Vec<String>) -> (r: String)
    ensures
        r@ == cycle_found(text::texts(stack@)),
{
    let mut s: String = "extends cycle detected (".to_owned();
    s.append(join_text(stack, " -> ").as_str());
    s.append(")");
    s
}

fn say_unknown_here(base: &str) -> (r: String)
    ensures
        r@ == unknown_here(base@),
{
    let mut s: String = "extends unknown service ".to_owned();
    s.append(quote(base).as_str());
    s.append(" in the same file");
    s
}

fn say_unknown_there(base: &str, path: &str) -> (r: String)
    ensures
        r@ == unknown_there(base@, path@),
{
    let mut s: String = "extends unknown service ".to_owned();
    s.append(quote(base).as_str());
    s.append(" in file ");
    s.append(path);
    s
}

fn say_remote(file: &str) -> (r: String)
    ensures
        r@ == remote_file(file@),
{
    let mut s: String = "extends file ".to_owned();
    s.append(quote(file).as_str());
    s.append(" is a remote URL, which is not supported (local files only)");
    s
}

fn put_over(base: Inherited<ServiceConfig>, top: &ServiceConfig) -> (r: Inherited<ServiceConfig>)
    ensures
        r@ == with_base(base@, top@),
{
    match base {
        Inherited::Done(b) => Inherited::Done(merge_service(b, top)),
        Inherited::Needs { service, path } => Inherited::Needs { service, path },
        Inherited::Fails(e) => Inherited::Fails(e),
    }
}

fn pushed(stack: &Vec<String>, id: &str) -> (r: Vec<String>)
    ensures
        text::texts(r@) == text::texts(stack@).push(id@),
{
    let mut s: Vec<String> = copy_strings(stack);
    add_word(&mut s, id);
    s
}

/// What becomes of a service of a file, given the services on the way to it.
pub fn resolve_service(files: &Vec<LoadedFile>, f: usize, name: &str, stack: &Vec<String>) -> (r:
    Inherited<ServiceConfig>)
    requires
        f < files@.len(),
    ensures
        r@ == resolved(files@, f as int, name@, text::texts(stack@)),
    decreases left(all_ids(files@), text::texts(stack@)),
{
    let ghost sv = text::texts(stack@);
    let here: &LoadedFile = &files[f];
    let svc: &ServiceConfig = match here.compose.services.get(name) {
        Some(s) => s,
        None => {
            let e: String = say_unknown_there(name, here.path.as_str());
            return Inherited::Fails(say_of_service(name, e.as_str()));
        },
    };
    let ext: &ExtendsSpec = match &svc.extends {
        Some(e) => e,
        None => {
            return Inherited::Done(svc.copied());
        },
    };
    let base: &str = ext.service.as_str();
    if base.is_empty() {
        return Inherited::Fails(
            say_of_service(name, "extends needs a `service:` key naming the base service"),
        );
    }
    match &ext.file {
        None => {
            let id: String = extends_id(here.path.as_str(), base);
            if is_among(stack, id.as_str()) {
                return Inherited::Fails(say_of_service(name, say_cycle(stack).as_str()));
            }
            if !here.compose.services.contains_key(base) {
                return Inherited::Fails(say_of_service(name, say_unknown_here(base).as_str()));
            }
            proof {
                lemma_step_shrinks(files@, f as int, base@, sv);
            }
            let way: Vec<String> = pushed(stack, id.as_str());
            put_over(resolve_service(files, f, base, &way), svc)
        },
        Some(file) => {
            if str_contains(file.as_str(), "://") || str_starts(file.as_str(), "git@") {
                return Inherited::Fails(say_of_service(name, say_remote(file.as_str()).as_str()));
            }
            let path: String = join_path(here.dir.as_str(), file.as_str());
            let g: usize = find_file(files, path.as_str());
            proof {
                lemma_file_from(files@, path@, 0);
            }
            if g >= files.len() {
                return Inherited::Needs { service: name.to_owned(), path };
            }
            if !files[g].compose.services.contains_key(base) {
                let e: String = say_unknown_there(base, path.as_str());
                return Inherited::Fails(say_of_service(name, e.as_str()));
            }
            let id: String = extends_id(path.as_str(), base);
            if is_among(stack, id.as_str()) {
                return Inherited::Fails(say_of_service(name, say_cycle(stack).as_str()));
            }
            proof {
                lemma_step_shrinks(files@, g as int, base@, sv);
            }
            let way: Vec<String> = pushed(stack, id.as_str());
            put_over(resolve_service(files, g, base, &way), svc)
        },
    }
}

/// What becomes of the first `n` services of the first file; what fails, or needs another
/// file, comes before the rest.
pub open spec fn extended_to(files: Seq<LoadedFile>, n: int) -> InheritedView<
    Seq<(Seq<char>, ServiceView)>,
>
    decreases n,
{
    if n <= 0 {
        InheritedView::Done(Seq::empty())
    } else {
        match extended_to(files, n - 1) {
            InheritedView::Done(v) => {
                let k = compose::keys(files[0].compose.services)[n - 1];
                match resolved(files, 0, k, seq![extends_id_of(files[0].path@, k)]) {
                    InheritedView::Done(s) => InheritedView::Done(v.push((k, s))),
                    InheritedView::Needs { service, path } => InheritedView::Needs {
                        service,
                        path,
                    },
                    InheritedView::Fails(e) => InheritedView::Fails(e),
                }
            },
            o => o,
        }
    }
}

proof fn lemma_extended_stays(files: Seq<LoadedFile>, k: int, n: int)
    requires
        0 <= k <= n,
        !(extended_to(files, k) is Done),
    ensures
        extended_to(files, n) == extended_to(files, k),
    decreases n - k,
{
    if k < n {
        lemma_extended_stays(files, k, n - 1);
    }
}

/// The services of the first file, each over what it extends; the other files are those
/// that have been read for them.
pub fn apply_extends(files: &Vec<LoadedFile>) -> (r: Inherited<Table<ServiceConfig>>)
    requires
        files@.len() > 0,
    ensures
        r@ == extended_to(
            files@,
            compose::keys(files@[0].compose.services).len() as int,
        ),
{
    let services: &Table<ServiceConfig> = &files[0].compose.services;
    let ghost kv = compose::keys(*services);
    let mut out: Table<ServiceConfig> = Table { entries: Vec::new() };
    let mut i: usize = 0;
    assert(out@ =~= Seq::empty());
    while i < services.entries.len()
        invariant
            files@.len() > 0,
            *services == files@[0].compose.services,
            kv == compose::keys(*services),
            i <= services.entries.len(),
            extended_to(files@, i as int) == InheritedView::<Seq<(Seq<char>, ServiceView)>>::Done(
                out@,
            ),
        decreases services.entries.len() - i,
    {
        let name: &str = services.entries[i].0.as_str();
        assert(kv[i as int] == name@);
        let mut stack: Vec<String> = Vec::new();
        stack.push(extends_id(files[0].path.as_str(), name));
        assert(text::texts(stack@) =~= seq![extends_id_of(files@[0].path@, name@)]);
        match resolve_service(files, 0, name, &stack) {
            Inherited::Done(s) => {
                let ghost before = out@;
                out.entries.push((name.to_owned(), s));
                assert(out@ =~= before.push((name@, s@)));
            },
            Inherited::Needs { service, path } => {
                proof {
                    lemma_extended_stays(files@, i as int + 1, kv.len() as int);
                }
                return Inherited::Needs { service, path };
            },
            Inherited::Fails(e) => {
                proof {
                    lemma_extended_stays(files@, i as int + 1, kv.len() as int);
                }
                return Inherited::Fails(e);
            },
        }
        i += 1;
    }
    Inherited::Done(out)
}

/// What is said of a file that a service extends and that is not there.
pub fn extends_missing(service: &str, path: &str) -> (r: String)
    ensures
        r@ == about_service(service@, "extends file "@ + unicode::quoted(path@) + " not found"@),
{
    let mut s: String = "extends file ".to_owned();
    s.append(quote(path).as_str());
    s.append(" not found");
    say_of_service(service, s.as_str())
}

/// Where a service came to its end, it extends nothing any more.
pub proof fn law_extends_is_spent(
    files: Seq<LoadedFile>,
    f: int,
    name: Seq<char>,
    stack: Seq<Seq<char>>,
    s: ServiceView,
)
    requires
        resolved(files, f, name, stack) == InheritedView::<ServiceView>::Done(s),
    ensures
        s.extends is None,
{
}

/// A service that extends nothing stays what it is.
pub proof fn law_no_base_no_change(
    files: Seq<LoadedFile>,
    f: int,
    name: Seq<char>,
    stack: Seq<Seq<char>>,
)
    requires
        0 <= f < files.len(),
        files[f].compose.services.at(name) is Some,
        files[f].compose.services.at(name)->0.extends is None,
    ensures
        resolved(files, f, name, stack) == InheritedView::<ServiceView>::Done(
            files[f].compose.services.at(name)->0@,
        ),
{
}

/// Services that extend each other fail, whichever of them is asked for.
pub proof fn law_cycle_fails(files: Seq<LoadedFile>, a: Seq<char>, b: Seq<char>)
    requires
        files.len() > 0,
        files[0].compose.services.at(a) is Some,
        files[0].compose.services.at(b) is Some,
        files[0].compose.services.at(a)->0.extends matches Some(e) && e.file is None
            && e.service@ == b,
        files[0].compose.services.at(b)->0.extends matches Some(e) && e.file is None
            && e.service@ == a,
        a.len() > 0,
        b.len() > 0,
    ensures
        resolved(files, 0, a, seq![extends_id_of(files[0].path@, a)]) is Fails,
{
    let p = files[0].path@;
    let ia = extends_id_of(p, a);
    let ib = extends_id_of(p, b);
    let s0 = seq![ia];
    assert(s0[0] == ia);
    if !s0.contains(ib) {
        let s1 = s0.push(ib);
        assert(s1[0] == ia);
        assert(s1.contains(ia));
        assert(resolved(files, 0, b, s1) is Fails);
    }
}

/// A key of a service stands over the one below it: it wins where it is set.
pub open spec fn wins<T>(now: Option<T>, top: Option<T>, below: Option<T>) -> bool {
    (top is Some ==> now == top) && (top is None ==> now == below)
}

/// The same of a list: it wins whole where it holds anything.
pub open spec fn wins_whole<T>(now: Seq<T>, top: Seq<T>, below: Seq<T>) -> bool {
    (top.len() > 0 ==> now == top) && (top.len() == 0 ==> now == below)
}

/// A service is another one over the one that it extends, key by key.
pub open spec fn stands_over(now: ServiceView, top: ServiceView, below: ServiceView) -> bool {
    &&& wins(now.image, top.image, below.image)
    &&& wins(now.build, top.build, below.build)
    &&& wins(now.container_name, top.container_name, below.container_name)
    &&& wins(now.command, top.command, below.command)
    &&& wins(now.entrypoint, top.entrypoint, below.entrypoint)
    &&& wins_whole(now.ports, top.ports, below.ports)
    &&& wins(now.environment, top.environment, below.environment)
    &&& wins_whole(now.volumes, top.volumes, below.volumes)
    &&& wins(now.depends_on, top.depends_on, below.depends_on)
    &&& wins(now.restart, top.restart, below.restart)
    &&& wins(now.working_dir, top.working_dir, below.working_dir)
    &&& wins(now.user, top.user, below.user)
    &&& wins(now.pull_policy, top.pull_policy, below.pull_policy)
    &&& wins_whole(now.profiles, top.profiles, below.profiles)
    &&& now.extends is None
    &&& wins(now.deploy, top.deploy, below.deploy)
    &&& wins_whole(now.secrets, top.secrets, below.secrets)
    &&& wins_whole(now.configs, top.configs, below.configs)
}

/// What a service sets wins over what it extends, and what it does not set it has from
/// there; once it has won, it changes nothing more.
pub proof fn law_own_keys_win(below: ServiceView, top: ServiceView)
    ensures
        stands_over(merged(below, top), top, below),
        merged(merged(below, top), top) == merged(below, top),
{
    assert(merged(merged(below, top), top) =~= merged(below, top));
}

/// A service that extends another of the same file is that one with its own keys over it.
pub proof fn law_extended_service_stands_over_its_base(
    files: Seq<LoadedFile>,
    f: int,
    name: Seq<char>,
    base: Seq<char>,
    stack: Seq<Seq<char>>,
    b: ServiceView,
)
    requires
        0 <= f < files.len(),
        base.len() > 0,
        files[f].compose.services.at(name) matches Some(s) && s.extends matches Some(e)
            && e.file is None && e.service@ == base,
        files[f].compose.services.has(base),
        !stack.contains(extends_id_of(files[f].path@, base)),
        resolved(files, f, base, stack.push(extends_id_of(files[f].path@, base)))
            == InheritedView::<ServiceView>::Done(b),
    ensures
        resolved(files, f, name, stack) matches InheritedView::Done(now) && stands_over(
            now,
            files[f].compose.services.at(name)->0@,
            b,
        ),
{
}

/// A path from the root stays what it is; another one lies in the directory.
pub proof fn law_paths_lie_in_their_directory(dir: Seq<char>, path: Seq<char>)
    requires
        dir.len() > 0,
        path.len() > 0,
    ensures
        path[0] == '/' ==> joined(dir, path) == path,
        path[0] != '/' ==> ({
            let j = joined(dir, path);
            let n = j.len() - path.len();
            &&& n >= dir.len()
            &&& j.skip(n) == path && j.take(dir.len() as int) == dir
            &&& j[n - 1] == '/'
            &&& n == dir.len() || (n == dir.len() + 1 && dir.last() != '/')
        }),
{
    let q = seq!['/'];
    assert(path.subrange(0, 1) =~= seq![path[0]]);
    assert(seq![path[0]][0] == path[0] && q[0] == '/');
    assert(text::starts_with(path, q) == (path[0] == '/'));
    let j = joined(dir, path);
    if path[0] != '/' {
        let n = j.len() - path.len();
        assert(j.skip(n) =~= path);
        assert(j.take(dir.len() as int) =~= dir);
    }
}

} // verus!
