//! How an image is built: one instruction after the other, up to the end of the stage that
//! is asked for. Each step says what is to be done next, and goes on from what came of it.

use vstd::prelude::*;
use vstd::utf8::encode_utf8;

use crate::builder::{self, ConfigState, add_pairs, apply_step, are_alike, built_config, built_record, copy_step, declare, find_stages, flag_value, read_from, run_argv, run_key, target_stage};
use crate::dockerfile::{self, Dockerfile, Instruction, InstructionView, expand_vars, lines_text};
use crate::encode::{Hashing, sha256_hex};
use crate::inherit::Copied;
use crate::network::{add_word, add_words, copy_strings};
use crate::num::{self, decimal_text, parse_unsigned, signed_decimal_text};
use crate::pushing::{self, abbreviate};
use crate::reference;
use crate::registry;
use crate::store::ImageRecord;
use crate::text::{self, chars_of, is_among, join_text, same};

verus! {

// ---------------------------------------------------------------- what is built

/// What is to be built, and how.
pub struct BuildPlan {
    pub df: Dockerfile,
    /// The stage that is asked for, by its name or its number.
    pub target: Option<String>,
    /// No layer is taken from the cache.
    pub nocache: bool,
    /// The stages that take no layer from the cache, by name or by number.
    pub fresh: Vec<String>,
    /// The values that are given for the arguments of the build.
    pub given: Vec<(String, String)>,
    pub tags: Vec<String>,
}

/// What a [`BuildPlan`] holds: `stop` is the place behind the last instruction that is
/// taken.
pub ghost struct BuildPlanView {
    pub insts: Seq<InstructionView>,
    pub stop: int,
    pub nocache: bool,
    pub fresh: Seq<Seq<char>>,
    pub given: Seq<(Seq<char>, Seq<char>)>,
    pub tags: Seq<Seq<char>>,
}

/// The place behind the stage that is asked for.
pub open spec fn stop_of(insts: Seq<InstructionView>, target: Option<Seq<char>>) -> int {
    let starts = builder::stage_starts(insts);
    let k = builder::last_stage(insts, target);
    if k + 1 < starts.len() {
        starts[k + 1]
    } else {
        insts.len() as int
    }
}

impl View for BuildPlan {
    type V = BuildPlanView;

    open spec fn view(&self) -> BuildPlanView {
        let insts = dockerfile::instruction_views(self.df.instructions@);
        BuildPlanView {
            insts,
            stop: stop_of(insts, reference::opt_text(self.target)),
            nocache: self.nocache,
            fresh: text::texts(self.fresh@),
            given: dockerfile::pair_texts(self.given@),
            tags: text::texts(self.tags@),
        }
    }
}

proof fn lemma_starts_in(v: Seq<InstructionView>, n: int)
    requires
        0 <= n <= v.len(),
    ensures
        forall|i: int|
            0 <= i < builder::starts_to(v, n).len() ==> 0 <= #[trigger] builder::starts_to(v, n)[i]
                < n,
    decreases n,
{
    if n > 0 {
        lemma_starts_in(v, n - 1);
        let before = builder::starts_to(v, n - 1);
        let now = builder::starts_to(v, n);
        assert forall|i: int| 0 <= i < now.len() implies 0 <= #[trigger] now[i] < n by {
            if i < before.len() {
                assert(0 <= before[i] < n - 1);
                assert(now[i] == before[i]);
            }
        }
    }
}

impl BuildPlan {
    /// The place behind the stage that is asked for.
    pub fn stop(&self) -> (r: usize)
        ensures
            r == self@.stop,
            r <= self.df.instructions@.len(),
    {
        let starts: Vec<usize> = find_stages(&self.df);
        let target: Option<&str> = match &self.target {
            Some(t) => Some(t.as_str()),
            None => None,
        };
        let k: usize = target_stage(&self.df, target);
        let _count: usize = starts.len();
        let ghost insts = dockerfile::instruction_views(self.df.instructions@);
        assert(builder::places(starts@).len() == starts@.len());
        assert(insts.len() == self.df.instructions@.len());
        proof {
            lemma_starts_in(insts, insts.len() as int);
        }
        if k < starts.len() && k + 1 < starts.len() {
            assert(builder::places(starts@)[k + 1] == starts@[k + 1]);
            starts[k + 1]
        } else {
            self.df.instructions.len()
        }
    }
}

// ---------------------------------------------------------------- how far it has come

/// A stage that was built.
pub struct BuiltStage {
    pub name: Option<String>,
    pub chain: Vec<String>,
    pub config: ConfigState,
}

pub ghost struct BuiltStageView {
    pub name: Option<Seq<char>>,
    pub chain: Seq<Seq<char>>,
    pub config: builder::ConfigView,
}

impl View for BuiltStage {
    type V = BuiltStageView;

    open spec fn view(&self) -> BuiltStageView {
        BuiltStageView {
            name: reference::opt_text(self.name),
            chain: text::texts(self.chain@),
            config: self.config@,
        }
    }
}

pub open spec fn stage_views(v: Seq<BuiltStage>) -> Seq<BuiltStageView> {
    v.map_values(|s: BuiltStage| s@)
}

/// What a build waits for.
pub enum BuildPhase {
    /// The next instruction can be taken.
    Ready,
    /// The image that a stage starts from is looked for, after it was pulled or before.
    Finding { base: String, pulled: bool },
    Pulling { base: String },
    /// The sources of a copy are hashed.
    Hashing,
    /// A layer is looked for in the cache.
    LookingUp { key: String },
    Running { key: String },
    Copying { key: String },
    Committing { key: String },
    /// A new layer is noted in the cache.
    Keeping { diff: String },
    /// All layers are there: the time is taken, and their size.
    Sealing,
    /// An image of the same configuration is looked for.
    Loading { created: String, created_unix: i64, size: i64 },
    Storing { id: String },
    Over,
}

pub ghost enum BuildPhaseView {
    Ready,
    Finding { base: Seq<char>, pulled: bool },
    Pulling { base: Seq<char> },
    Hashing,
    LookingUp { key: Seq<char> },
    Running { key: Seq<char> },
    Copying { key: Seq<char> },
    Committing { key: Seq<char> },
    Keeping { diff: Seq<char> },
    Sealing,
    Loading { created: Seq<char>, created_unix: i64, size: i64 },
    Storing { id: Seq<char> },
    Over,
}

impl View for BuildPhase {
    type V = BuildPhaseView;

    open spec fn view(&self) -> BuildPhaseView {
        match self {
            BuildPhase::Ready => BuildPhaseView::Ready,
            BuildPhase::Finding { base, pulled } => BuildPhaseView::Finding {
                base: base@,
                pulled: *pulled,
            },
            BuildPhase::Pulling { base } => BuildPhaseView::Pulling { base: base@ },
            BuildPhase::Hashing => BuildPhaseView::Hashing,
            BuildPhase::LookingUp { key } => BuildPhaseView::LookingUp { key: key@ },
            BuildPhase::Running { key } => BuildPhaseView::Running { key: key@ },
            BuildPhase::Copying { key } => BuildPhaseView::Copying { key: key@ },
            BuildPhase::Committing { key } => BuildPhaseView::Committing { key: key@ },
            BuildPhase::Keeping { diff } => BuildPhaseView::Keeping { diff: diff@ },
            BuildPhase::Sealing => BuildPhaseView::Sealing,
            BuildPhase::Loading { created, created_unix, size } => BuildPhaseView::Loading {
                created: created@,
                created_unix: *created_unix,
                size: *size,
            },
            BuildPhase::Storing { id } => BuildPhaseView::Storing { id: id@ },
            BuildPhase::Over => BuildPhaseView::Over,
        }
    }
}

/// How far a build has come.
pub struct BuildState {
    /// The instruction that is taken, or the next one.
    pub at: usize,
    /// A stage has begun.
    pub open: bool,
    /// The variables that `ARG` has declared ahead of all stages: `FROM` sees them.
    pub outer: Vec<String>,
    /// The stage's name.
    pub name: Option<String>,
    /// The stage's layers, the lowest first.
    pub chain: Vec<String>,
    pub config: ConfigState,
    /// The stages before it.
    pub done: Vec<BuiltStage>,
    pub phase: BuildPhase,
}

pub ghost struct BuildStateView {
    pub at: int,
    pub open: bool,
    pub outer: Seq<Seq<char>>,
    pub name: Option<Seq<char>>,
    pub chain: Seq<Seq<char>>,
    pub config: builder::ConfigView,
    pub done: Seq<BuiltStageView>,
    pub phase: BuildPhaseView,
}

impl View for BuildState {
    type V = BuildStateView;

    open spec fn view(&self) -> BuildStateView {
        BuildStateView {
            at: self.at as int,
            open: self.open,
            outer: text::texts(self.outer@),
            name: reference::opt_text(self.name),
            chain: text::texts(self.chain@),
            config: self.config@,
            done: stage_views(self.done@),
            phase: self.phase@,
        }
    }
}

/// A build of which nothing has been done.
pub open spec fn begun() -> BuildStateView {
    BuildStateView {
        at: 0,
        open: false,
        outer: Seq::empty(),
        name: None,
        chain: Seq::empty(),
        config: builder::empty_config(),
        done: Seq::empty(),
        phase: BuildPhaseView::Ready,
    }
}

impl BuildState {
    pub fn new() -> (r: BuildState)
        ensures
            r@ == begun(),
    {
        let r: BuildState = BuildState {
            at: 0,
            open: false,
            outer: Vec::new(),
            name: None,
            chain: Vec::new(),
            config: ConfigState::empty(),
            done: Vec::new(),
            phase: BuildPhase::Ready,
        };
        assert(r@.outer =~= Seq::empty());
        assert(r@.chain =~= Seq::empty());
        assert(r@.done =~= Seq::empty());
        r
    }
}

// ---------------------------------------------------------------- what is done, what comes of it

/// Where the sources of a copy come from.
pub enum CopyFrom {
    /// The build's context.
    Context,
    /// The layers of a stage, the topmost first.
    Stage(Vec<String>),
    /// Any layer at all, the newest first: there is no such stage.
    AnyLayer,
}

pub ghost enum CopyFromView {
    Context,
    Stage(Seq<Seq<char>>),
    AnyLayer,
}

impl View for CopyFrom {
    type V = CopyFromView;

    open spec fn view(&self) -> CopyFromView {
        match self {
            CopyFrom::Context => CopyFromView::Context,
            CopyFrom::Stage(v) => CopyFromView::Stage(text::texts(v@)),
            CopyFrom::AnyLayer => CopyFromView::AnyLayer,
        }
    }
}

/// What is to be done next.
pub enum BuildAction {
    /// Look for an image.
    Find { base: String },
    Pull { base: String },
    /// Hash sources, below the context or in the layers that they come from.
    Hash { sources: Vec<String>, from: CopyFrom },
    /// Look for a layer in the cache.
    Lookup { key: String },
    /// Run a command upon layers, the topmost first.
    Run { layers: Vec<String>, argv: Vec<String>, env: Vec<(String, String)>, workdir: String },
    Copy { sources: Vec<String>, dest: String, into_dir: bool, from: CopyFrom },
    /// Make a layer of what has changed.
    Commit,
    /// Note a layer in the cache.
    Keep { key: String, diff: String },
    /// Take the time, and the size of layers.
    Seal { chain: Vec<String> },
    /// Look for the image of an id.
    Load { id: String },
    /// Store an image: the text of its configuration and its record, under its tags.
    Store { text: String, record: ImageRecord, tags: Vec<String> },
    Done { id: String, status: String, line: String },
    Fail { message: String },
    /// There is nothing to do: wait for what is going on.
    Wait,
}

pub ghost enum BuildActionView {
    Find { base: Seq<char> },
    Pull { base: Seq<char> },
    Hash { sources: Seq<Seq<char>>, from: CopyFromView },
    Lookup { key: Seq<char> },
    Run {
        layers: Seq<Seq<char>>,
        argv: Seq<Seq<char>>,
        env: Seq<(Seq<char>, Seq<char>)>,
        workdir: Seq<char>,
    },
    Copy { sources: Seq<Seq<char>>, dest: Seq<char>, into_dir: bool, from: CopyFromView },
    Commit,
    Keep { key: Seq<char>, diff: Seq<char> },
    Seal { chain: Seq<Seq<char>> },
    Load { id: Seq<char> },
    Store { text: Seq<char>, id: Seq<char>, names: Seq<Seq<char>>, tags: Seq<Seq<char>> },
    Done { id: Seq<char>, status: Seq<char>, line: Seq<char> },
    Fail { message: Seq<char> },
    Wait,
}

impl View for BuildAction {
    type V = BuildActionView;

    open spec fn view(&self) -> BuildActionView {
        match self {
            BuildAction::Find { base } => BuildActionView::Find { base: base@ },
            BuildAction::Pull { base } => BuildActionView::Pull { base: base@ },
            BuildAction::Hash { sources, from } => BuildActionView::Hash {
                sources: text::texts(sources@),
                from: from@,
            },
            BuildAction::Lookup { key } => BuildActionView::Lookup { key: key@ },
            BuildAction::Run { layers, argv, env, workdir } => BuildActionView::Run {
                layers: text::texts(layers@),
                argv: text::texts(argv@),
                env: dockerfile::pair_texts(env@),
                workdir: workdir@,
            },
            BuildAction::Copy { sources, dest, into_dir, from } => BuildActionView::Copy {
                sources: text::texts(sources@),
                dest: dest@,
                into_dir: *into_dir,
                from: from@,
            },
            BuildAction::Commit => BuildActionView::Commit,
            BuildAction::Keep { key, diff } => BuildActionView::Keep { key: key@, diff: diff@ },
            BuildAction::Seal { chain } => BuildActionView::Seal { chain: text::texts(chain@) },
            BuildAction::Load { id } => BuildActionView::Load { id: id@ },
            BuildAction::Store { text, record, tags } => BuildActionView::Store {
                text: text@,
                id: record.id@,
                names: text::texts(record.repo_tags@),
                tags: text::texts(tags@),
            },
            BuildAction::Done { id, status, line } => BuildActionView::Done {
                id: id@,
                status: status@,
                line: line@,
            },
            BuildAction::Fail { message } => BuildActionView::Fail { message: message@ },
            BuildAction::Wait => BuildActionView::Wait,
        }
    }
}

/// What has come of it.
pub enum BuildEvent {
    Begun,
    /// No name leads to the image, and why.
    Unresolved(String),
    /// The image that a name leads to, where it is there.
    Image(Option<ImageRecord>),
    /// What a pull reports.
    PullStatus(String),
    Pulled,
    /// The hashes of the sources.
    Hashed(Vec<String>),
    /// The layer that the cache names, where it names one, and whether it is stored.
    Cached { diff: Option<String>, stored: bool },
    /// A command has ended: its code, and what it wrote.
    Ran { code: i64, output: String },
    Copied,
    /// No layer has a source of a copy.
    Missing(String),
    /// The digest of the new layer.
    Layer(String),
    Kept,
    Sealed { created: String, created_unix: i64, size: i64 },
    /// The tags of the image that is there already, where one is.
    Existing(Option<Vec<String>>),
    Stored,
}

pub ghost enum BuildEventView {
    Begun,
    Unresolved(Seq<char>),
    Image(Option<(Seq<Seq<char>>, builder::ConfigView)>),
    PullStatus(Seq<char>),
    Pulled,
    Hashed(Seq<Seq<char>>),
    Cached { diff: Option<Seq<char>>, stored: bool },
    Ran { code: int, output: Seq<char> },
    Copied,
    Missing(Seq<char>),
    Layer(Seq<char>),
    Kept,
    Sealed { created: Seq<char>, created_unix: i64, size: i64 },
    Existing(Seq<Seq<char>>),
    Stored,
}

/// The layers and the configuration of an image.
pub open spec fn base_of(o: Option<ImageRecord>) -> Option<(Seq<Seq<char>>, builder::ConfigView)> {
    match o {
        Some(r) => Some((text::texts(r.diff_ids@), builder::config_of(r.config))),
        None => None,
    }
}

/// The tags of an image that may be there.
pub open spec fn tags_of(o: Option<Vec<String>>) -> Seq<Seq<char>> {
    match o {
        Some(v) => text::texts(v@),
        None => Seq::empty(),
    }
}

impl View for BuildEvent {
    type V = BuildEventView;

    open spec fn view(&self) -> BuildEventView {
        match self {
            BuildEvent::Begun => BuildEventView::Begun,
            BuildEvent::Unresolved(e) => BuildEventView::Unresolved(e@),
            BuildEvent::Image(o) => BuildEventView::Image(base_of(*o)),
            BuildEvent::PullStatus(t) => BuildEventView::PullStatus(t@),
            BuildEvent::Pulled => BuildEventView::Pulled,
            BuildEvent::Hashed(v) => BuildEventView::Hashed(text::texts(v@)),
            BuildEvent::Cached { diff, stored } => BuildEventView::Cached {
                diff: reference::opt_text(*diff),
                stored: *stored,
            },
            BuildEvent::Ran { code, output } => BuildEventView::Ran {
                code: *code as int,
                output: output@,
            },
            BuildEvent::Copied => BuildEventView::Copied,
            BuildEvent::Missing(t) => BuildEventView::Missing(t@),
            BuildEvent::Layer(d) => BuildEventView::Layer(d@),
            BuildEvent::Kept => BuildEventView::Kept,
            BuildEvent::Sealed { created, created_unix, size } => BuildEventView::Sealed {
                created: created@,
                created_unix: *created_unix,
                size: *size,
            },
            BuildEvent::Existing(o) => BuildEventView::Existing(tags_of(*o)),
            BuildEvent::Stored => BuildEventView::Stored,
        }
    }
}

// ---------------------------------------------------------------- one instruction

/// What one instruction or one event makes of a build: what is said, and what is to be
/// done before the next instruction is taken.
pub ghost struct Turn {
    pub state: BuildStateView,
    pub said: Seq<Seq<char>>,
    pub action: Option<BuildActionView>,
}

/// What is said as an instruction is taken.
pub open spec fn step_line(p: BuildPlanView, at: int) -> Seq<char> {
    "Step "@ + num::decimal((at + 1) as nat) + "/"@ + num::decimal(p.insts.len()) + " : "@
        + p.insts[at].verb + " "@ + p.insts[at].args + "\n"@
}

/// The stages that are done once the present one is.
pub open spec fn closed(s: BuildStateView) -> Seq<BuiltStageView> {
    if s.open {
        s.done.push(BuiltStageView { name: s.name, chain: s.chain, config: s.config })
    } else {
        s.done
    }
}

/// The last of the first `n` stages with a name.
pub open spec fn named_stage(done: Seq<BuiltStageView>, name: Seq<char>, n: int) -> Option<int>
    decreases n,
{
    if n <= 0 {
        None
    } else if done[n - 1].name == Some(name) {
        Some(n - 1)
    } else {
        named_stage(done, name, n - 1)
    }
}

/// The stage that a copy names, by its name or its number.
pub open spec fn copied_stage(done: Seq<BuiltStageView>, name: Seq<char>) -> Option<int> {
    match named_stage(done, name, done.len() as int) {
        Some(i) => Some(i),
        None => match num::unsigned(name, usize::MAX as nat) {
            Some(i) => if i < done.len() {
                Some(i as int)
            } else {
                None
            },
            None => None,
        },
    }
}

/// Where the sources of a copy come from.
pub open spec fn sources_from(
    done: Seq<BuiltStageView>,
    from: Option<Seq<char>>,
) -> CopyFromView {
    match from {
        None => CopyFromView::Context,
        Some(name) => match copied_stage(done, name) {
            Some(i) => CopyFromView::Stage(done[i].chain.reverse()),
            None => CopyFromView::AnyLayer,
        },
    }
}

/// The words of a copy: its sources, and behind them its destination.
pub open spec fn copy_words(inst: InstructionView, c: builder::ConfigView) -> Seq<Seq<char>> {
    text::words(dockerfile::expanded(inst.args, builder::variables(c)))
}

/// The build ends.
pub open spec fn failed(s: BuildStateView, said: Seq<Seq<char>>, message: Seq<char>) -> Turn {
    Turn {
        state: BuildStateView { phase: BuildPhaseView::Over, ..s },
        said,
        action: Some(BuildActionView::Fail { message }),
    }
}

/// The layer of the present instruction is made.
pub open spec fn made(
    p: BuildPlanView,
    s: BuildStateView,
    key: Seq<char>,
    said: Seq<Seq<char>>,
) -> Turn {
    let inst = p.insts[s.at];
    let vars = builder::variables(s.config);
    let ws = copy_words(inst, s.config);
    if inst.verb == "RUN"@ {
        Turn {
            state: BuildStateView { phase: BuildPhaseView::Running { key }, ..s },
            said,
            action: Some(
                BuildActionView::Run {
                    layers: s.chain.reverse(),
                    argv: builder::argv_of(inst, vars, s.config.shell),
                    env: vars,
                    workdir: s.config.workdir,
                },
            ),
        }
    } else if ws.len() == 0 {
        failed(s, said, "COPY needs a destination"@)
    } else {
        Turn {
            state: BuildStateView { phase: BuildPhaseView::Copying { key }, ..s },
            said,
            action: Some(
                BuildActionView::Copy {
                    sources: ws.drop_last(),
                    dest: text::strip_starts(ws.last(), seq!['/']),
                    into_dir: text::ends_with(ws.last(), seq!['/']) || ws.len() > 2,
                    from: sources_from(s.done, dockerfile::lookup(inst.flags, "from"@)),
                },
            ),
        }
    }
}

/// The stage of this name and this number is one that takes nothing from the cache.
pub open spec fn is_uncached(p: BuildPlanView, name: Option<Seq<char>>, number: int) -> bool {
    exists|j: int|
        0 <= j < p.fresh.len() && means_stage(#[trigger] p.fresh[j], name, number)
}

/// A text names a stage: it is its name, whatever the case of its letters, or its number.
pub open spec fn means_stage(t: Seq<char>, name: Option<Seq<char>>, number: int) -> bool {
    t == num::decimal(number as nat) || (name matches Some(n) && builder::alike(t, n))
}

/// The present stage may take layers from the cache.
pub open spec fn may_reuse(p: BuildPlanView, s: BuildStateView) -> bool {
    !p.nocache && !is_uncached(p, s.name, s.done.len() as int)
}

/// The layer of the present instruction is taken from the cache, if it may, or made.
pub open spec fn sought(
    p: BuildPlanView,
    s: BuildStateView,
    key: Seq<char>,
    said: Seq<Seq<char>>,
) -> Turn {
    if may_reuse(p, s) {
        Turn {
            state: BuildStateView { phase: BuildPhaseView::LookingUp { key }, ..s },
            said,
            action: Some(BuildActionView::Lookup { key }),
        }
    } else {
        made(p, s, key, said)
    }
}

/// The instructions that change the configuration alone.
pub open spec fn is_setting(verb: Seq<char>) -> bool {
    ||| verb == "ENV"@
    ||| verb == "ARG"@
    ||| verb == "WORKDIR"@
    ||| verb == "USER"@
    ||| verb == "LABEL"@
    ||| verb == "EXPOSE"@
    ||| verb == "VOLUME"@
    ||| verb == "STOPSIGNAL"@
    ||| verb == "CMD"@
    ||| verb == "ENTRYPOINT"@
    ||| verb == "HEALTHCHECK"@
    ||| verb == "SHELL"@
}

/// The instructions that are passed over in silence.
pub open spec fn is_passed_over(verb: Seq<char>) -> bool {
    ||| verb == "MAINTAINER"@
    ||| verb == "ONBUILD"@
    ||| verb == "STOPSIGNAL_IGNORED"@
}

/// What a layer that files are copied to is cached under: besides the rest, what the sources
/// hold, which their hashes tell.
pub open spec fn copy_key(
    s: BuildStateView,
    inst: InstructionView,
    content: Seq<Seq<char>>,
) -> Seq<char> {
    builder::copy_key_of(
        s.chain,
        inst,
        dockerfile::expanded(inst.args, builder::variables(s.config)),
        content,
    )
}

/// A new stage begins.
pub open spec fn entered(p: BuildPlanView, s: BuildStateView) -> Turn {
    let said = seq![step_line(p, s.at)];
    let (base, name) = builder::stage_base(
        p.insts[s.at].args,
        builder::env_pairs_of(s.outer),
    );
    let t = BuildStateView {
        open: true,
        name,
        chain: Seq::empty(),
        config: builder::empty_config(),
        done: closed(s),
        ..s
    };
    if base == "scratch"@ {
        Turn { state: BuildStateView { at: s.at + 1, ..t }, said, action: None }
    } else {
        match named_stage(t.done, base, t.done.len() as int) {
            Some(i) => Turn {
                state: BuildStateView {
                    at: s.at + 1,
                    chain: t.done[i].chain,
                    config: builder::ConfigView { args: Seq::empty(), ..t.done[i].config },
                    ..t
                },
                said,
                action: None,
            },
            None => Turn {
                state: BuildStateView {
                    phase: BuildPhaseView::Finding { base, pulled: false },
                    ..t
                },
                said,
                action: Some(BuildActionView::Find { base }),
            },
        }
    }
}

/// An instruction is taken.
#[verifier::opaque]
pub open spec fn taken(p: BuildPlanView, s: BuildStateView) -> Turn {
    let inst = p.insts[s.at];
    let on = BuildStateView { at: s.at + 1, ..s };
    let said = seq![step_line(p, s.at)];
    if inst.verb == "FROM"@ {
        entered(p, s)
    } else if !s.open {
        Turn {
            state: if inst.verb == "ARG"@ {
                BuildStateView {
                    outer: builder::args_applied(
                        s.outer,
                        dockerfile::expanded(inst.args, builder::env_pairs_of(s.outer)),
                        p.given,
                    ),
                    ..on
                }
            } else {
                on
            },
            said: Seq::empty(),
            action: None,
        }
    } else if inst.verb == "RUN"@ {
        sought(p, s, builder::run_key_of(s.chain, inst, s.config), said)
    } else if inst.verb == "COPY"@ || inst.verb == "ADD"@ {
        if copy_words(inst, s.config).len() == 0 {
            failed(s, said, "COPY needs a destination"@)
        } else {
            Turn {
                state: BuildStateView { phase: BuildPhaseView::Hashing, ..s },
                said,
                action: Some(
                    BuildActionView::Hash {
                        sources: copy_words(inst, s.config).drop_last(),
                        from: sources_from(s.done, dockerfile::lookup(inst.flags, "from"@)),
                    },
                ),
            }
        }
    } else if is_setting(inst.verb) {
        Turn {
            state: BuildStateView {
                config: builder::next_config(s.config, inst, p.given),
                ..on
            },
            said,
            action: None,
        }
    } else if is_passed_over(inst.verb) {
        Turn { state: on, said, action: None }
    } else {
        Turn {
            state: on,
            said: said.push("Skipping unsupported instruction "@ + inst.verb + "\n"@),
            action: None,
        }
    }
}

/// Instructions are taken up to one that asks for something to be done; behind the last
/// one the image is sealed.
pub open spec fn advanced(p: BuildPlanView, s: BuildStateView) -> (
    BuildStateView,
    Seq<Seq<char>>,
    BuildActionView,
)
    decreases p.stop - s.at,
{
    if s.at >= p.stop {
        (
            BuildStateView { phase: BuildPhaseView::Sealing, ..s },
            Seq::empty(),
            BuildActionView::Seal { chain: s.chain },
        )
    } else {
        let t = taken(p, s);
        match t.action {
            Some(a) => (t.state, t.said, a),
            None => if s.at < t.state.at <= p.stop {
                let (end, more, a) = advanced(p, t.state);
                (end, t.said + more, a)
            } else {
                (t.state, t.said, BuildActionView::Wait)
            },
        }
    }
}

// ---------------------------------------------------------------- one event

/// Nothing changes.
pub open spec fn unmoved(s: BuildStateView) -> Turn {
    Turn { state: s, said: Seq::empty(), action: Some(BuildActionView::Wait) }
}

/// A layer is put on top, and the next instruction can be taken.
pub open spec fn layered(s: BuildStateView, diff: Seq<char>, said: Seq<Seq<char>>) -> Turn {
    Turn {
        state: BuildStateView {
            at: s.at + 1,
            chain: s.chain.push(diff),
            phase: BuildPhaseView::Ready,
            ..s
        },
        said,
        action: None,
    }
}

/// What a command wrote, as it is said.
pub open spec fn indented(ls: Seq<Seq<char>>) -> Seq<Seq<char>> {
    ls.map_values(|l: Seq<char>| "  "@ + l + "\n"@)
}

/// Tags with those of an image that is there already, each once.
pub open spec fn merged(tags: Seq<Seq<char>>, there: Seq<Seq<char>>) -> Seq<Seq<char>>
    decreases there.len(),
{
    if there.len() == 0 {
        tags
    } else {
        let rest = merged(tags, there.drop_last());
        if rest.contains(there.last()) {
            rest
        } else {
            rest.push(there.last())
        }
    }
}

/// The base of a stage is found, or not.
pub open spec fn based(
    s: BuildStateView,
    base: Seq<char>,
    pulled: bool,
    h: BuildEventView,
) -> Turn {
    match h {
        BuildEventView::Image(Some((diffs, c))) => Turn {
            state: BuildStateView {
                at: s.at + 1,
                chain: diffs,
                config: c,
                phase: BuildPhaseView::Ready,
                ..s
            },
            said: Seq::empty(),
            action: None,
        },
        BuildEventView::Image(None) => failed(
            s,
            Seq::empty(),
            "image "@ + base + " not found after pull"@,
        ),
        BuildEventView::Unresolved(e) => if pulled {
            failed(s, Seq::empty(), e)
        } else {
            Turn {
                state: BuildStateView { phase: BuildPhaseView::Pulling { base }, ..s },
                said: seq!["Pulling "@ + base + "...\n"@],
                action: Some(BuildActionView::Pull { base }),
            }
        },
        _ => unmoved(s),
    }
}

/// A base is being pulled.
pub open spec fn fetched(s: BuildStateView, base: Seq<char>, h: BuildEventView) -> Turn {
    match h {
        BuildEventView::PullStatus(t) => Turn {
            state: s,
            said: seq!["  "@ + t + "\n"@],
            action: Some(BuildActionView::Wait),
        },
        BuildEventView::Pulled => Turn {
            state: BuildStateView { phase: BuildPhaseView::Finding { base, pulled: true }, ..s },
            said: Seq::empty(),
            action: Some(BuildActionView::Find { base }),
        },
        _ => unmoved(s),
    }
}

/// What changed is to become a layer.
pub open spec fn changed(s: BuildStateView, key: Seq<char>, said: Seq<Seq<char>>) -> Turn {
    Turn {
        state: BuildStateView { phase: BuildPhaseView::Committing { key }, ..s },
        said,
        action: Some(BuildActionView::Commit),
    }
}

/// What comes of an event that concerns the present instruction.
pub open spec fn heard_at(p: BuildPlanView, s: BuildStateView, h: BuildEventView) -> Turn {
    let inst = p.insts[s.at];
    match s.phase {
        BuildPhaseView::Finding { base, pulled } => based(s, base, pulled, h),
        BuildPhaseView::Pulling { base } => fetched(s, base, h),
        BuildPhaseView::Hashing => match h {
            BuildEventView::Hashed(hs) => sought(p, s, copy_key(s, inst, hs), Seq::empty()),
            _ => unmoved(s),
        },
        BuildPhaseView::LookingUp { key } => match h {
            BuildEventView::Cached { diff: Some(d), stored: true } => layered(
                s,
                d,
                seq![" ---> Using cache\n"@],
            ),
            BuildEventView::Cached { .. } => made(p, s, key, Seq::empty()),
            _ => unmoved(s),
        },
        BuildPhaseView::Running { key } => match h {
            BuildEventView::Ran { code, output } => if code == 0 {
                changed(s, key, indented(dockerfile::lines(output)))
            } else {
                failed(
                    s,
                    indented(dockerfile::lines(output)),
                    "command exited with "@ + num::signed_decimal(code),
                )
            },
            _ => unmoved(s),
        },
        BuildPhaseView::Copying { key } => match h {
            BuildEventView::Copied => changed(s, key, Seq::empty()),
            BuildEventView::Missing(source) => failed(
                s,
                Seq::empty(),
                "COPY --from="@ + registry::text_or_empty(dockerfile::lookup(inst.flags, "from"@))
                    + ": "@ + source + " not found"@,
            ),
            _ => unmoved(s),
        },
        BuildPhaseView::Committing { key } => match h {
            BuildEventView::Layer(diff) => Turn {
                state: BuildStateView { phase: BuildPhaseView::Keeping { diff }, ..s },
                said: Seq::empty(),
                action: Some(BuildActionView::Keep { key, diff }),
            },
            _ => unmoved(s),
        },
        BuildPhaseView::Keeping { diff } => match h {
            BuildEventView::Kept => layered(s, diff, Seq::empty()),
            _ => unmoved(s),
        },
        _ => unmoved(s),
    }
}

/// The text of the image's configuration.
pub open spec fn sealed_text(s: BuildStateView, created: Seq<char>) -> Seq<char> {
    builder::built_text(s.config, created, s.chain)
}

/// What comes of an event that concerns the image as a whole.
pub open spec fn heard_at_end(p: BuildPlanView, s: BuildStateView, h: BuildEventView) -> Turn {
    match s.phase {
        BuildPhaseView::Sealing => match h {
            BuildEventView::Sealed { created, created_unix, size } => Turn {
                state: BuildStateView {
                    phase: BuildPhaseView::Loading { created, created_unix, size },
                    ..s
                },
                said: Seq::empty(),
                action: Some(
                    BuildActionView::Load { id: builder::text_hash(sealed_text(s, created)) },
                ),
            },
            _ => unmoved(s),
        },
        BuildPhaseView::Loading { created, created_unix, size } => match h {
            BuildEventView::Existing(there) => {
                let id = builder::text_hash(sealed_text(s, created));
                Turn {
                    state: BuildStateView { phase: BuildPhaseView::Storing { id }, ..s },
                    said: Seq::empty(),
                    action: Some(
                        BuildActionView::Store {
                            text: sealed_text(s, created),
                            id,
                            names: merged(p.tags, there),
                            tags: p.tags,
                        },
                    ),
                }
            },
            _ => unmoved(s),
        },
        BuildPhaseView::Storing { id } => match h {
            BuildEventView::Stored => Turn {
                state: BuildStateView { phase: BuildPhaseView::Over, ..s },
                said: Seq::empty(),
                action: Some(
                    BuildActionView::Done {
                        id,
                        status: "Successfully built "@ + pushing::abbreviated(id),
                        line: "Successfully tagged "@ + text::join(p.tags, ", "@) + "\n"@,
                    },
                ),
            },
            _ => unmoved(s),
        },
        _ => unmoved(s),
    }
}

/// What comes of an event.
pub open spec fn answered(p: BuildPlanView, s: BuildStateView, h: BuildEventView) -> Turn {
    if s.phase is Ready {
        if h is Begun {
            Turn { state: s, said: Seq::empty(), action: None }
        } else {
            unmoved(s)
        }
    } else if s.phase is Sealing || s.phase is Loading || s.phase is Storing {
        heard_at_end(p, s, h)
    } else if s.at < p.stop {
        heard_at(p, s, h)
    } else {
        unmoved(s)
    }
}

/// How a build goes on behind an event: its new state, what it says, and what is to be
/// done next.
pub open spec fn build_after(p: BuildPlanView, s: BuildStateView, h: BuildEventView) -> (
    BuildStateView,
    Seq<Seq<char>>,
    BuildActionView,
) {
    let t = answered(p, s, h);
    match t.action {
        Some(a) => (t.state, t.said, a),
        None => {
            let (end, more, a) = advanced(p, t.state);
            (end, t.said + more, a)
        },
    }
}

/// An image that is to be stored is the one that was built, under its tags and those of
/// the image of the same id.
pub open spec fn stores_what_was_built(
    p: BuildPlanView,
    s: BuildStateView,
    h: BuildEventView,
    a: BuildAction,
) -> bool {
    match a {
        BuildAction::Store { record, .. } => match (s.phase, h) {
            (
                BuildPhaseView::Loading { created, created_unix, size },
                BuildEventView::Existing(there),
            ) => builder::is_built(
                record,
                merged(p.tags, there),
                created,
                created_unix,
                s.chain,
                size,
                s.config,
            ),
            _ => false,
        },
        _ => true,
    }
}

// ---------------------------------------------------------------- taking steps

struct Turned {
    state: BuildState,
    said: Vec<String>,
    action: Option<BuildAction>,
}

spec fn action_of(o: Option<BuildAction>) -> Option<BuildActionView> {
    match o {
        Some(a) => Some(a@),
        None => None,
    }
}

spec fn turn_of(t: Turned) -> Turn {
    Turn { state: t.state@, said: text::texts(t.said@), action: action_of(t.action) }
}

fn nothing_said() -> (r: Vec<String>)
    ensures
        text::texts(r@) == Seq::<Seq<char>>::empty(),
{
    let r: Vec<String> = Vec::new();
    assert(text::texts(r@) =~= Seq::empty());
    r
}

fn say(head: &str, middle: &str, tail: &str) -> (r: String)
    ensures
        r@ == head@ + middle@ + tail@,
{
    let mut r: String = head.to_owned();
    r.append(middle);
    r.append(tail);
    r
}

fn one_said(line: String) -> (r: Vec<String>)
    ensures
        text::texts(r@) == seq![line@],
{
    let mut r: Vec<String> = Vec::new();
    r.push(line);
    assert(text::texts(r@) =~= seq![line@]);
    r
}

fn say_step(plan: &BuildPlan, at: usize) -> (r: String)
    requires
        at < plan.df.instructions@.len(),
    ensures
        r@ == step_line(plan@, at as int),
{
    let inst: &Instruction = &plan.df.instructions[at];
    let mut r: String = "Step ".to_owned();
    r.append(decimal_text(at as u128 + 1).as_str());
    r.append("/");
    r.append(decimal_text(plan.df.instructions.len() as u128).as_str());
    r.append(" : ");
    r.append(inst.verb.as_str());
    r.append(" ");
    r.append(inst.args.as_str());
    r.append("\n");
    assert(plan@.insts[at as int] == inst@);
    assert(plan@.insts.len() == plan.df.instructions@.len());
    r
}

fn fail(s: BuildState, said: Vec<String>, message: String) -> (r: Turned)
    ensures
        turn_of(r) == failed(s@, text::texts(said@), message@),
{
    Turned {
        state: BuildState { phase: BuildPhase::Over, ..s },
        said,
        action: Some(BuildAction::Fail { message }),
    }
}

fn stay(s: BuildState) -> (r: Turned)
    ensures
        turn_of(r) == unmoved(s@),
{
    Turned { state: s, said: nothing_said(), action: Some(BuildAction::Wait) }
}

fn find_stage(done: &Vec<BuiltStage>, name: &str) -> (r: Option<usize>)
    ensures
        match r {
            Some(i) => i < done@.len() && named_stage(
                stage_views(done@),
                name@,
                done@.len() as int,
            ) == Some(i as int),
            None => named_stage(stage_views(done@), name@, done@.len() as int) is None,
        },
{
    let ghost dv = stage_views(done@);
    let mut n: usize = done.len();
    while n > 0
        invariant
            n <= done.len(),
            dv == stage_views(done@),
            named_stage(dv, name@, done@.len() as int) == named_stage(dv, name@, n as int),
        decreases n,
    {
        assert(dv[n - 1] == done@[n - 1]@);
        if let Some(own) = &done[n - 1].name {
            if same(own.as_str(), name) {
                return Some(n - 1);
            }
        }
        n -= 1;
    }
    None
}

/// Layers, the topmost first.
fn top_first(chain: &Vec<String>) -> (r: Vec<String>)
    ensures
        text::texts(r@) == text::texts(chain@).reverse(),
{
    let ghost cv = text::texts(chain@);
    let mut out: Vec<String> = Vec::new();
    let mut i: usize = chain.len();
    assert(text::texts(out@) =~= cv.reverse().take(0));
    while i > 0
        invariant
            i <= chain.len(),
            cv == text::texts(chain@),
            text::texts(out@) =~= cv.reverse().take(chain@.len() - i),
        decreases i,
    {
        i -= 1;
        let ghost k: int = chain@.len() - i - 1;
        add_word(&mut out, chain[i].as_str());
        assert(cv.reverse()[k] == cv[i as int]);
        assert(cv.reverse().take(k + 1) =~= cv.reverse().take(k).push(cv.reverse()[k]));
    }
    assert(cv.reverse().take(cv.len() as int) =~= cv.reverse());
    out
}

fn find_sources(done: &Vec<BuiltStage>, from: &Option<String>) -> (r: CopyFrom)
    ensures
        r@ == sources_from(stage_views(done@), reference::opt_text(*from)),
{
    let name: &String = match from {
        Some(n) => n,
        None => {
            return CopyFrom::Context;
        },
    };
    let ghost dv = stage_views(done@);
    assert(dv.len() == done@.len());
    if let Some(i) = find_stage(done, name.as_str()) {
        assert(dv[i as int] == done@[i as int]@);
        return CopyFrom::Stage(top_first(&done[i].chain));
    }
    let cs: Vec<char> = chars_of(name.as_str());
    if let Some(n) = parse_unsigned(cs.as_slice(), usize::MAX as u64) {
        if n < done.len() as u64 {
            let i: usize = n as usize;
            assert(dv[i as int] == done@[i as int]@);
            return CopyFrom::Stage(top_first(&done[i].chain));
        }
    }
    CopyFrom::AnyLayer
}

fn make(plan: &BuildPlan, s: BuildState, key: String, said: Vec<String>) -> (r: Turned)
    requires
        s.at < plan.df.instructions@.len(),
    ensures
        turn_of(r) == made(plan@, s@, key@, text::texts(said@)),
{
    let inst: &Instruction = &plan.df.instructions[s.at];
    let ghost sv = s@;
    assert(plan@.insts[s.at as int] == inst@);
    let env: Vec<(String, String)> = s.config.env_pairs();
    if same(inst.verb.as_str(), "RUN") {
        let argv: Vec<String> = run_argv(inst, &env, &s.config.shell);
        let layers: Vec<String> = top_first(&s.chain);
        let workdir: String = s.config.workdir.clone();
        Turned {
            state: BuildState { phase: BuildPhase::Running { key }, ..s },
            said,
            action: Some(BuildAction::Run { layers, argv, env, workdir }),
        }
    } else {
        match copy_step(inst, &env) {
            Err(e) => fail(s, said, e),
            Ok(c) => {
                let from: CopyFrom = find_sources(&s.done, &c.from);
                Turned {
                    state: BuildState { phase: BuildPhase::Copying { key }, ..s },
                    said,
                    action: Some(
                        BuildAction::Copy {
                            sources: c.sources,
                            dest: c.dest,
                            into_dir: c.into_dir,
                            from,
                        },
                    ),
                }
            },
        }
    }
}

fn is_fresh(plan: &BuildPlan, name: &Option<String>, number: usize) -> (r: bool)
    ensures
        r == is_uncached(plan@, reference::opt_text(*name), number as int),
{
    let ghost fv = plan@.fresh;
    let shown: String = decimal_text(number as u128);
    let mut j: usize = 0;
    while j < plan.fresh.len()
        invariant
            j <= plan.fresh.len(),
            fv == plan@.fresh,
            shown@ == num::decimal(number as nat),
            forall|k: int|
                0 <= k < j ==> !means_stage(
                    #[trigger] fv[k],
                    reference::opt_text(*name),
                    number as int,
                ),
        decreases plan.fresh.len() - j,
    {
        assert(fv[j as int] == plan.fresh@[j as int]@);
        let named: bool = match name {
            Some(n) => are_alike(plan.fresh[j].as_str(), n.as_str()),
            None => false,
        };
        if named || same(plan.fresh[j].as_str(), shown.as_str()) {
            assert(means_stage(fv[j as int], reference::opt_text(*name), number as int));
            return true;
        }
        j += 1;
    }
    false
}

fn reuses(plan: &BuildPlan, s: &BuildState) -> (r: bool)
    ensures
        r == may_reuse(plan@, s@),
{
    assert(s@.done.len() == s.done@.len());
    !plan.nocache && !is_fresh(plan, &s.name, s.done.len())
}

fn seek(plan: &BuildPlan, s: BuildState, key: String, said: Vec<String>) -> (r: Turned)
    requires
        s.at < plan.df.instructions@.len(),
    ensures
        turn_of(r) == sought(plan@, s@, key@, text::texts(said@)),
{
    if !reuses(plan, &s) {
        make(plan, s, key, said)
    } else {
        let asked: String = key.clone();
        Turned {
            state: BuildState { phase: BuildPhase::LookingUp { key }, ..s },
            said,
            action: Some(BuildAction::Lookup { key: asked }),
        }
    }
}

fn close(s: &mut BuildState)
    ensures
        final(s)@ == (BuildStateView {
            open: true,
            name: None,
            chain: Seq::empty(),
            config: builder::empty_config(),
            done: closed(old(s)@),
            ..old(s)@
        }),
{
    let ghost before = s@;
    let mut name: Option<String> = None;
    let mut chain: Vec<String> = Vec::new();
    let mut config: ConfigState = ConfigState::empty();
    assert(text::texts(chain@) =~= Seq::empty());
    std::mem::swap(&mut name, &mut s.name);
    std::mem::swap(&mut chain, &mut s.chain);
    std::mem::swap(&mut config, &mut s.config);
    if s.open {
        s.done.push(BuiltStage { name, chain, config });
    }
    s.open = true;
    assert(s@.done =~= closed(before));
}

fn enter(plan: &BuildPlan, s: BuildState) -> (r: Turned)
    requires
        s.at < plan.df.instructions@.len(),
    ensures
        turn_of(r) == entered(plan@, s@),
{
    let _count: usize = plan.df.instructions.len();
    let ghost s0 = s@;
    let mut s: BuildState = s;
    let inst: &Instruction = &plan.df.instructions[s.at];
    assert(plan@.insts[s.at as int] == inst@);
    let said: Vec<String> = one_said(say_step(plan, s.at));
    let mut env: Vec<(String, String)> = Vec::new();
    assert(dockerfile::pair_texts(env@) =~= Seq::empty());
    add_pairs(&mut env, &s.outer);
    assert(dockerfile::pair_texts(env@) =~= builder::env_pairs_of(s0.outer));
    let (base, name): (String, Option<String>) = read_from(inst.args.as_str(), &env);
    close(&mut s);
    s.name = name;
    if same(base.as_str(), "scratch") {
        s.at = s.at + 1;
        return Turned { state: s, said, action: None };
    }
    let ghost dv = s@.done;
    if let Some(i) = find_stage(&s.done, base.as_str()) {
        assert(dv[i as int] == s.done@[i as int]@);
        let chain: Vec<String> = copy_strings(&s.done[i].chain);
        let mut config: ConfigState = s.done[i].config.copied();
        config.args = Vec::new();
        assert(config@.args =~= Seq::empty());
        s.chain = chain;
        s.config = config;
        s.at = s.at + 1;
        return Turned { state: s, said, action: None };
    }
    let asked: String = base.clone();
    s.phase = BuildPhase::Finding { base, pulled: false };
    Turned { state: s, said, action: Some(BuildAction::Find { base: asked }) }
}

fn sets(verb: &str) -> (r: bool)
    ensures
        r == is_setting(verb@),
{
    same(verb, "ENV") || same(verb, "ARG") || same(verb, "WORKDIR") || same(verb, "USER") || same(
        verb,
        "LABEL",
    ) || same(verb, "EXPOSE") || same(verb, "VOLUME") || same(verb, "STOPSIGNAL") || same(
        verb,
        "CMD",
    ) || same(verb, "ENTRYPOINT") || same(verb, "HEALTHCHECK") || same(verb, "SHELL")
}

fn key_copy(s: &BuildState, inst: &Instruction, content: &Vec<String>) -> (r: String)
    ensures
        r@ == copy_key(s@, inst@, text::texts(content@)),
{
    let env: Vec<(String, String)> = s.config.env_pairs();
    let args: String = expand_vars(inst.args.as_str(), env.as_slice());
    builder::copy_key(&s.chain, inst, args.as_str(), content)
}

fn take_one(plan: &BuildPlan, s: BuildState) -> (r: Turned)
    requires
        s.at < plan.df.instructions@.len(),
    ensures
        turn_of(r) == taken(plan@, s@),
{
    let _count: usize = plan.df.instructions.len();
    let ghost s0 = s@;
    let mut s: BuildState = s;
    let inst: &Instruction = &plan.df.instructions[s.at];
    assert(plan@.insts[s.at as int] == inst@);
    proof {
        reveal(taken);
    }
    let verb: &str = inst.verb.as_str();
    if same(verb, "FROM") {
        return enter(plan, s);
    }
    if !s.open {
        if same(verb, "ARG") {
            let mut env: Vec<(String, String)> = Vec::new();
            assert(dockerfile::pair_texts(env@) =~= Seq::empty());
            add_pairs(&mut env, &s.outer);
            assert(dockerfile::pair_texts(env@) =~= builder::env_pairs_of(s0.outer));
            let args: String = expand_vars(inst.args.as_str(), env.as_slice());
            s.outer = declare(&s.outer, args.as_str(), &plan.given);
        }
        s.at = s.at + 1;
        return Turned { state: s, said: nothing_said(), action: None };
    }
    let mut said: Vec<String> = one_said(say_step(plan, s.at));
    if same(verb, "RUN") {
        let key: String = run_key(&s.chain, inst, &s.config);
        return seek(plan, s, key, said);
    }
    if same(verb, "COPY") || same(verb, "ADD") {
        let env: Vec<(String, String)> = s.config.env_pairs();
        return match copy_step(inst, &env) {
            Err(e) => fail(s, said, e),
            Ok(c) => {
                let from: CopyFrom = find_sources(&s.done, &c.from);
                Turned {
                    state: BuildState { phase: BuildPhase::Hashing, ..s },
                    said,
                    action: Some(BuildAction::Hash { sources: c.sources, from }),
                }
            },
        };
    }
    s.at = s.at + 1;
    if sets(verb) {
        apply_step(&mut s.config, inst, &plan.given);
    } else if !(same(verb, "MAINTAINER") || same(verb, "ONBUILD") || same(
        verb,
        "STOPSIGNAL_IGNORED",
    )) {
        let line: String = say("Skipping unsupported instruction ", verb, "\n");
        add_word(&mut said, line.as_str());
    }
    Turned { state: s, said, action: None }
}

fn advance(plan: &BuildPlan, start: BuildState, spoken: Vec<String>) -> (r: (
    BuildState,
    Vec<String>,
    BuildAction,
))
    ensures
        ({
            let (end, more, a) = advanced(plan@, start@);
            r.0@ == end && text::texts(r.1@) == text::texts(spoken@) + more && r.2@ == a
        }),
        !(r.2 is Store),
{
    let ghost first = text::texts(spoken@);
    let ghost end = advanced(plan@, start@);
    let stop: usize = plan.stop();
    let mut s: BuildState = start;
    let mut said: Vec<String> = spoken;
    assert(text::texts(said@) + end.1 =~= first + end.1);
    while s.at < stop
        invariant
            stop == plan@.stop,
            end == advanced(plan@, start@),
            first == text::texts(spoken@),
            stop <= plan.df.instructions@.len(),
            end.0 == advanced(plan@, s@).0,
            first + end.1 == text::texts(said@) + advanced(plan@, s@).1,
            end.2 == advanced(plan@, s@).2,
        decreases stop - s.at,
    {
        let ghost here = s@;
        let ghost before = text::texts(said@);
        let t: Turned = take_one(plan, s);
        let ghost tv = turn_of(t);
        let Turned { state, said: more, action } = t;
        add_words(&mut said, &more);
        s = state;
        match action {
            Some(a) => {
                proof {
                    lemma_takes(plan@, here);
                }
                return (s, said, a);
            },
            None => {
                proof {
                    lemma_takes(plan@, here);
                    let (e2, m2, a2) = advanced(plan@, s@);
                    assert(before + (tv.said + m2) =~= (before + tv.said) + m2);
                }
            },
        }
    }
    let chain: Vec<String> = copy_strings(&s.chain);
    assert(text::texts(said@) + Seq::<Seq<char>>::empty() =~= text::texts(said@));
    s.phase = BuildPhase::Sealing;
    (s, said, BuildAction::Seal { chain })
}

/// An instruction that asks for nothing to be done is left behind.
proof fn lemma_takes(p: BuildPlanView, s: BuildStateView)
    ensures
        taken(p, s).action is None ==> taken(p, s).state.at == s.at + 1,
        !(taken(p, s).action matches Some(BuildActionView::Store { .. })),
{
    reveal(taken);
}

fn go_on(s: BuildState, diff: &str, said: Vec<String>) -> (r: Turned)
    requires
        s.at < usize::MAX,
    ensures
        turn_of(r) == layered(s@, diff@, text::texts(said@)),
{
    let mut s: BuildState = s;
    add_word(&mut s.chain, diff);
    s.at = s.at + 1;
    s.phase = BuildPhase::Ready;
    Turned { state: s, said, action: None }
}

fn commit(s: BuildState, key: String, said: Vec<String>) -> (r: Turned)
    ensures
        turn_of(r) == changed(s@, key@, text::texts(said@)),
{
    Turned {
        state: BuildState { phase: BuildPhase::Committing { key }, ..s },
        said,
        action: Some(BuildAction::Commit),
    }
}

fn settle_base(s: BuildState, base: String, pulled: bool, heard: BuildEvent) -> (r: Turned)
    requires
        s.at < usize::MAX,
    ensures
        turn_of(r) == based(s@, base@, pulled, heard@),
{
    let mut s: BuildState = s;
    match heard {
        BuildEvent::Image(Some(record)) => {
            s.config = ConfigState::from_image_record(&record);
            s.chain = copy_strings(&record.diff_ids);
            s.at = s.at + 1;
            s.phase = BuildPhase::Ready;
            Turned { state: s, said: nothing_said(), action: None }
        },
        BuildEvent::Image(None) => {
            let message: String = say("image ", base.as_str(), " not found after pull");
            fail(s, nothing_said(), message)
        },
        BuildEvent::Unresolved(e) => if pulled {
            fail(s, nothing_said(), e)
        } else {
            let said: Vec<String> = one_said(say("Pulling ", base.as_str(), "...\n"));
            let asked: String = base.clone();
            s.phase = BuildPhase::Pulling { base };
            Turned { state: s, said, action: Some(BuildAction::Pull { base: asked }) }
        },
        _ => stay(s),
    }
}

fn follow_pull(s: BuildState, base: String, heard: BuildEvent) -> (r: Turned)
    requires
        s@.phase == (BuildPhaseView::Pulling { base: base@ }),
    ensures
        turn_of(r) == fetched(s@, base@, heard@),
{
    let mut s: BuildState = s;
    match heard {
        BuildEvent::PullStatus(t) => Turned {
            state: s,
            said: one_said(say("  ", t.as_str(), "\n")),
            action: Some(BuildAction::Wait),
        },
        BuildEvent::Pulled => {
            let asked: String = base.clone();
            s.phase = BuildPhase::Finding { base, pulled: true };
            Turned {
                state: s,
                said: nothing_said(),
                action: Some(BuildAction::Find { base: asked }),
            }
        },
        _ => stay(s),
    }
}

fn indent(output: &str) -> (r: Vec<String>)
    ensures
        text::texts(r@) == indented(dockerfile::lines(output@)),
{
    let cs: Vec<char> = chars_of(output);
    let ls: Vec<String> = lines_text(cs.as_slice());
    let ghost lv = dockerfile::lines(output@);
    let mut out: Vec<String> = nothing_said();
    let mut i: usize = 0;
    assert(indented(lv).take(0) =~= Seq::empty());
    while i < ls.len()
        invariant
            i <= ls.len(),
            lv == text::texts(ls@),
            text::texts(out@) == indented(lv).take(i as int),
        decreases ls.len() - i,
    {
        let line: String = say("  ", ls[i].as_str(), "\n");
        add_word(&mut out, line.as_str());
        assert(indented(lv)[i as int] == line@);
        assert(indented(lv).take(i as int + 1) =~= indented(lv).take(i as int).push(line@));
        i += 1;
    }
    assert(indented(lv).take(lv.len() as int) =~= indented(lv));
    out
}

fn merge_tags(tags: &Vec<String>, there: &Option<Vec<String>>) -> (r: Vec<String>)
    ensures
        text::texts(r@) == merged(text::texts(tags@), tags_of(*there)),
{
    let mut out: Vec<String> = copy_strings(tags);
    let ghost tv = text::texts(tags@);
    if let Some(v) = there {
        let ghost vv = text::texts(v@);
        let mut i: usize = 0;
        assert(vv.take(0) =~= Seq::empty());
        while i < v.len()
            invariant
                i <= v.len(),
                vv == text::texts(v@),
                text::texts(out@) == merged(tv, vv.take(i as int)),
            decreases v.len() - i,
        {
            assert(vv.take(i as int + 1).drop_last() =~= vv.take(i as int));
            assert(vv.take(i as int + 1).last() == v@[i as int]@);
            if !is_among(&out, v[i].as_str()) {
                add_word(&mut out, v[i].as_str());
            }
            i += 1;
        }
        assert(vv.take(vv.len() as int) =~= vv);
    }
    out
}

fn hear_at(plan: &BuildPlan, s: BuildState, heard: BuildEvent) -> (r: Turned)
    requires
        s.at < plan.df.instructions@.len(),
    ensures
        turn_of(r) == heard_at(plan@, s@, heard@),
        !(r.action matches Some(BuildAction::Store { .. })),
{
    let _count: usize = plan.df.instructions.len();
    let inst: &Instruction = &plan.df.instructions[s.at];
    assert(plan@.insts[s.at as int] == inst@);
    match &s.phase {
        BuildPhase::Finding { base, pulled } => {
            let base: String = base.clone();
            let pulled: bool = *pulled;
            settle_base(s, base, pulled, heard)
        },
        BuildPhase::Pulling { base } => {
            let base: String = base.clone();
            follow_pull(s, base, heard)
        },
        BuildPhase::Hashing => match heard {
            BuildEvent::Hashed(hs) => {
                let key: String = key_copy(&s, inst, &hs);
                seek(plan, s, key, nothing_said())
            },
            _ => stay(s),
        },
        BuildPhase::LookingUp { key } => {
            let key: String = key.clone();
            match heard {
                BuildEvent::Cached { diff: Some(d), stored: true } => go_on(
                    s,
                    d.as_str(),
                    one_said(" ---> Using cache\n".to_owned()),
                ),
                BuildEvent::Cached { .. } => make(plan, s, key, nothing_said()),
                _ => stay(s),
            }
        },
        BuildPhase::Running { key } => {
            let key: String = key.clone();
            match heard {
                BuildEvent::Ran { code, output } => {
                    let said: Vec<String> = indent(output.as_str());
                    if code == 0 {
                        commit(s, key, said)
                    } else {
                        let mut message: String = "command exited with ".to_owned();
                        message.append(signed_decimal_text(code).as_str());
                        fail(s, said, message)
                    }
                },
                _ => stay(s),
            }
        },
        BuildPhase::Copying { key } => {
            let key: String = key.clone();
            match heard {
                BuildEvent::Copied => commit(s, key, nothing_said()),
                BuildEvent::Missing(source) => {
                    let mut message: String = "COPY --from=".to_owned();
                    match flag_value(&inst.flags, "from") {
                        Some(n) => message.append(n.as_str()),
                        None => {
                            assert(message@ + Seq::<char>::empty() =~= message@);
                        },
                    }
                    message.append(": ");
                    message.append(source.as_str());
                    message.append(" not found");
                    fail(s, nothing_said(), message)
                },
                _ => stay(s),
            }
        },
        BuildPhase::Committing { key } => {
            let key: String = key.clone();
            match heard {
                BuildEvent::Layer(diff) => {
                    let kept: String = diff.clone();
                    Turned {
                        state: BuildState { phase: BuildPhase::Keeping { diff }, ..s },
                        said: nothing_said(),
                        action: Some(BuildAction::Keep { key, diff: kept }),
                    }
                },
                _ => stay(s),
            }
        },
        BuildPhase::Keeping { diff } => {
            let diff: String = diff.clone();
            match heard {
                BuildEvent::Kept => go_on(s, diff.as_str(), nothing_said()),
                _ => stay(s),
            }
        },
        _ => stay(s),
    }
}

fn hear_at_end(plan: &BuildPlan, s: BuildState, heard: BuildEvent) -> (r: Turned)
    ensures
        turn_of(r) == heard_at_end(plan@, s@, heard@),
        r.action matches Some(a) ==> stores_what_was_built(plan@, s@, heard@, a),
{
    match &s.phase {
        BuildPhase::Sealing => match heard {
            BuildEvent::Sealed { created, created_unix, size } => {
                let config: String = built_config(&s.config, created.as_str(), &s.chain);
                let id: String = sha256_hex(config.as_str().as_bytes());
                Turned {
                    state: BuildState {
                        phase: BuildPhase::Loading { created, created_unix, size },
                        ..s
                    },
                    said: nothing_said(),
                    action: Some(BuildAction::Load { id }),
                }
            },
            _ => stay(s),
        },
        BuildPhase::Loading { created, created_unix, size } => match heard {
            BuildEvent::Existing(there) => {
                let text: String = built_config(&s.config, created.as_str(), &s.chain);
                let names: Vec<String> = merge_tags(&plan.tags, &there);
                let record: ImageRecord = built_record(
                    &names,
                    created.as_str(),
                    *created_unix,
                    &s.chain,
                    *size,
                    s.config.copied(),
                );
                let id: String = record.id.clone();
                Turned {
                    state: BuildState { phase: BuildPhase::Storing { id }, ..s },
                    said: nothing_said(),
                    action: Some(
                        BuildAction::Store { text, record, tags: copy_strings(&plan.tags) },
                    ),
                }
            },
            _ => stay(s),
        },
        BuildPhase::Storing { id } => match heard {
            BuildEvent::Stored => {
                let id: String = id.clone();
                let mut status: String = "Successfully built ".to_owned();
                status.append(abbreviate(id.as_str()).as_str());
                let names: String = join_text(&plan.tags, ", ");
                let line: String = say("Successfully tagged ", names.as_str(), "\n");
                Turned {
                    state: BuildState { phase: BuildPhase::Over, ..s },
                    said: nothing_said(),
                    action: Some(BuildAction::Done { id, status, line }),
                }
            },
            _ => stay(s),
        },
        _ => stay(s),
    }
}

fn answer(plan: &BuildPlan, s: BuildState, heard: BuildEvent) -> (r: Turned)
    ensures
        turn_of(r) == answered(plan@, s@, heard@),
        r.action matches Some(a) ==> stores_what_was_built(plan@, s@, heard@, a),
{
    match &s.phase {
        BuildPhase::Ready => match heard {
            BuildEvent::Begun => Turned { state: s, said: nothing_said(), action: None },
            _ => stay(s),
        },
        BuildPhase::Sealing => hear_at_end(plan, s, heard),
        BuildPhase::Loading { .. } => hear_at_end(plan, s, heard),
        BuildPhase::Storing { .. } => hear_at_end(plan, s, heard),
        _ => if s.at < plan.stop() {
            hear_at(plan, s, heard)
        } else {
            stay(s)
        },
    }
}

/// Goes on with a build: takes in what came of the last action, and says what is to be
/// done next. The lines in the middle are what the build has to say first.
pub fn build_step(plan: &BuildPlan, s: BuildState, heard: BuildEvent) -> (r: (
    BuildState,
    Vec<String>,
    BuildAction,
))
    ensures
        (r.0@, text::texts(r.1@), r.2@) == build_after(plan@, s@, heard@),
        stores_what_was_built(plan@, s@, heard@, r.2),
{
    let t: Turned = answer(plan, s, heard);
    let Turned { state, said, action } = t;
    match action {
        Some(a) => (state, said, a),
        None => advance(plan, state, said),
    }
}

// ---------------------------------------------------------------- laws

proof fn lemma_advanced(p: BuildPlanView, s: BuildStateView)
    requires
        s.at <= p.stop,
    ensures
        s.at <= advanced(p, s).0.at <= p.stop,
        !(advanced(p, s).2 is Done),
        !(advanced(p, s).2 is Store),
        p.nocache ==> !(advanced(p, s).2 is Lookup),
        !(advanced(p, s).2 is Seal) ==> s.at <= advanced(p, s).0.at < p.stop,
        advanced(p, s).2 is Seal ==> advanced(p, s).0.at == p.stop,
    decreases p.stop - s.at,
{
    if s.at < p.stop {
        reveal(taken);
        lemma_takes(p, s);
        if taken(p, s).action is None {
            lemma_advanced(p, taken(p, s).state);
        }
    }
}

/// A build that takes nothing from the cache asks it for no layer, whatever it has come to
/// and whatever comes of its actions.
pub proof fn law_no_cache_is_asked_for_nothing(
    p: BuildPlanView,
    s: BuildStateView,
    h: BuildEventView,
)
    requires
        p.nocache,
    ensures
        !(build_after(p, s, h).2 is Lookup),
{
    if answered(p, s, h).action is None && answered(p, s, h).state.at <= p.stop {
        lemma_advanced(p, answered(p, s, h).state);
    }
}

/// No instruction behind the stage that is asked for is taken: whatever comes of its
/// actions, a build stays in front of that place.
pub proof fn law_build_ends_with_its_stage(
    p: BuildPlanView,
    s: BuildStateView,
    h: BuildEventView,
)
    requires
        s.at <= p.stop,
    ensures
        s.at <= build_after(p, s, h).0.at <= p.stop,
        build_after(p, s, h).2 is Seal ==> build_after(p, s, h).0.at == p.stop,
{
    if answered(p, s, h).action is None {
        lemma_advanced(p, answered(p, s, h).state);
    }
}

/// A command that fails ends the build: it leaves no layer behind, in the build or in the
/// cache, and nothing brings the build back.
pub proof fn law_failed_command_ends_the_build(
    p: BuildPlanView,
    s: BuildStateView,
    code: int,
    output: Seq<char>,
    h: BuildEventView,
)
    requires
        s.phase is Running,
        s.at < p.stop,
        code != 0,
    ensures
        ({
            let (end, said, a) = build_after(p, s, BuildEventView::Ran { code, output });
            &&& a is Fail
            &&& end.chain == s.chain
            &&& build_after(p, end, h) == (end, Seq::<Seq<char>>::empty(), BuildActionView::Wait)
        }),
{
}

/// What is stored is named by the digest of its own configuration: the id that is looked
/// for, the id of the record and the id that the build gives back are one.
pub proof fn law_built_image_is_named_by_its_content(
    p: BuildPlanView,
    s: BuildStateView,
    created: Seq<char>,
    created_unix: i64,
    size: i64,
    there: Seq<Seq<char>>,
)
    requires
        s.phase is Sealing,
    ensures
        ({
            let (s1, said1, a1) = build_after(
                p,
                s,
                BuildEventView::Sealed { created, created_unix, size },
            );
            let (s2, said2, a2) = build_after(p, s1, BuildEventView::Existing(there));
            let (s3, said3, a3) = build_after(p, s2, BuildEventView::Stored);
            &&& a1 is Load && a2 is Store && a3 is Done
            &&& a1->Load_id == builder::text_hash(a2->text)
            &&& a2->Store_id == a1->Load_id
            &&& a3->Done_id == a1->Load_id
        }),
{
}

/// A copy is cached under what its sources hold, wherever they come from: they are hashed
/// where they are copied from, and the key goes over those hashes.
pub proof fn law_copies_are_keyed_by_their_sources(
    p: BuildPlanView,
    s: BuildStateView,
    hashes: Seq<Seq<char>>,
)
    requires
        0 <= s.at < p.insts.len(),
        s.at < p.stop,
        s.open,
        p.insts[s.at].verb == "COPY"@ || p.insts[s.at].verb == "ADD"@,
        copy_words(p.insts[s.at], s.config).len() > 0,
    ensures
        ({
            let inst = p.insts[s.at];
            let from = sources_from(s.done, dockerfile::lookup(inst.flags, "from"@));
            let sources = copy_words(inst, s.config).drop_last();
            let key = copy_key(s, inst, hashes);
            let t = taken(p, s);
            let (next, said, a) = build_after(p, t.state, BuildEventView::Hashed(hashes));
            &&& t.action == Some(BuildActionView::Hash { sources, from })
            &&& if may_reuse(p, s) {
                a == BuildActionView::Lookup { key }
            } else {
                &&& next.phase == (BuildPhaseView::Copying { key })
                &&& a matches BuildActionView::Copy { sources: copied, from: origin, .. }
                    && copied == sources && origin == from
            }
        }),
{
    reveal(taken);
    reveal_strlit("COPY");
    reveal_strlit("ADD");
    reveal_strlit("RUN");
    reveal_strlit("FROM");
    assert("ADD"@[0] == 'A' && "RUN"@[0] == 'R');
    assert("COPY"@[0] == 'C' && "FROM"@[0] == 'F');
}

} // verus!
