//! How a compose project comes up: one service after the other, each once those that it
//! waits for are ready.

use vstd::prelude::*;

use crate::api::volume::Volume;
use crate::compose::{self, ComposeFile, DepCondition, PullAction, ServiceConfig, decide_pull, dependency_conditions, topological_sort};
use crate::inherit::{self, say_of_service};
use crate::json;
use crate::project::{self, Gate, ImagePlan, ImageStep, Readiness, check_services, completed, container_name, created_id, gate, health, image_step, is_conflict, network_body, owned_name, plan_image, service_body, volume_body};
use crate::reference;
use crate::table::Table;
use crate::text::{self, same};

verus! {

/// A project that was looked through: what is to be started, and in which order.
pub struct Rollout {
    pub project: String,
    pub dir: String,
    pub compose: ComposeFile,
    pub services: Table<ServiceConfig>,
    pub order: Vec<String>,
    pub present: Vec<String>,
    pub force_build: bool,
}

/// The first fault that a project's services have.
pub open spec fn fault_in(
    services: Table<ServiceConfig>,
    compose: ComposeFile,
    dir: Seq<char>,
    present: Seq<Seq<char>>,
    force_build: bool,
) -> Option<Seq<char>> {
    project::first_fault(
        compose::start_order(services),
        services,
        compose.secrets,
        compose.configs,
        dir,
        present,
        force_build,
        compose::start_order(services).len() as int,
    )
}

/// How far a project has come up: the ids of the containers of the services that have
/// started, in their order, and what is done for the one behind them.
#[derive(Debug, Clone)]
pub struct RolloutState {
    pub ids: Vec<String>,
    pub stage: RolloutStage,
}

#[derive(Debug, Clone)]
pub enum RolloutStage {
    /// The project's network is made.
    Network,
    /// The volume at this place is made.
    Volume(usize),
    /// The state of a dependency was asked for.
    Waiting(usize),
    /// The image is built under this name.
    Building(String),
    /// Whether this image is there was asked for.
    Looking(String),
    /// This image is pulled.
    Pulling(String),
    /// The container that was there before is removed; the next one has this image.
    Removing(String),
    /// The container is made.
    Creating,
    /// The container with this id is started.
    Starting(String),
    /// All is done, or nothing more can be.
    Over,
}

/// What is done next.
#[derive(Debug, Clone)]
pub enum RolloutAction {
    CreateNetwork { name: String, body: String },
    CreateVolume { name: String, body: String },
    /// The container of a dependency is looked at.
    Inspect { service: String, dep: String, id: String },
    /// The end of a dependency's container is waited for.
    Wait { service: String, dep: String, id: String },
    Build { service: String, tag: String, context: String, dockerfile: String },
    /// Whether an image is there is asked.
    Look(String),
    Pull { image: String, message: String },
    /// A container of this name is removed, where there is one.
    Remove(String),
    Create { service: String, name: String, body: String },
    Start { service: String, name: String, id: String },
    Done,
    Fail(String),
}

/// What came of the last action: what the daemon answered or why it refused, whether the
/// image is there, and whether the dependency has been waited for long enough.
#[derive(Debug, Clone)]
pub struct Heard {
    pub doc: Vec<u8>,
    pub present: bool,
    pub late: bool,
    /// Why the daemon did not do what it was asked for.
    pub refused: Option<Refusal>,
}

/// What the daemon says against a request: in short, and with everything that led to it.
#[derive(Debug, Clone)]
pub struct Refusal {
    pub shown: String,
    pub whole: String,
}

#[verifier::ext_equal]
pub ghost struct HeardView {
    pub doc: Seq<u8>,
    pub present: bool,
    pub late: bool,
    pub refused: Option<(Seq<char>, Seq<char>)>,
}

impl View for Heard {
    type V = HeardView;

    open spec fn view(&self) -> HeardView {
        HeardView {
            doc: self.doc@,
            present: self.present,
            late: self.late,
            refused: match self.refused {
                Some(r) => Some((r.shown@, r.whole@)),
                None => None,
            },
        }
    }
}

pub ghost enum StageView {
    Network,
    Volume(int),
    Waiting(int),
    Building(Seq<char>),
    Looking(Seq<char>),
    Pulling(Seq<char>),
    Removing(Seq<char>),
    Creating,
    Starting(Seq<char>),
    Over,
}

#[verifier::ext_equal]
pub ghost struct StateView {
    pub ids: Seq<Seq<char>>,
    pub stage: StageView,
}

pub ghost enum ActView {
    CreateNetwork(Seq<char>, Seq<char>),
    CreateVolume(Seq<char>, Seq<char>),
    Inspect(Seq<char>, Seq<char>, Seq<char>),
    Wait(Seq<char>, Seq<char>, Seq<char>),
    Build(Seq<char>, Seq<char>, Seq<char>, Seq<char>),
    Look(Seq<char>),
    Pull(Seq<char>, Seq<char>),
    Remove(Seq<char>),
    Create(Seq<char>, Seq<char>, Seq<char>),
    Start(Seq<char>, Seq<char>, Seq<char>),
    Done,
    Fail(Seq<char>),
}

impl View for RolloutStage {
    type V = StageView;

    open spec fn view(&self) -> StageView {
        match self {
            RolloutStage::Network => StageView::Network,
            RolloutStage::Volume(k) => StageView::Volume(*k as int),
            RolloutStage::Waiting(k) => StageView::Waiting(*k as int),
            RolloutStage::Building(t) => StageView::Building(t@),
            RolloutStage::Looking(i) => StageView::Looking(i@),
            RolloutStage::Pulling(i) => StageView::Pulling(i@),
            RolloutStage::Removing(i) => StageView::Removing(i@),
            RolloutStage::Creating => StageView::Creating,
            RolloutStage::Starting(i) => StageView::Starting(i@),
            RolloutStage::Over => StageView::Over,
        }
    }
}

impl View for RolloutState {
    type V = StateView;

    open spec fn view(&self) -> StateView {
        StateView { ids: text::texts(self.ids@), stage: self.stage@ }
    }
}

impl View for RolloutAction {
    type V = ActView;

    open spec fn view(&self) -> ActView {
        match self {
            RolloutAction::CreateNetwork { name, body } => ActView::CreateNetwork(name@, body@),
            RolloutAction::CreateVolume { name, body } => ActView::CreateVolume(name@, body@),
            RolloutAction::Inspect { service, dep, id } => ActView::Inspect(service@, dep@, id@),
            RolloutAction::Wait { service, dep, id } => ActView::Wait(service@, dep@, id@),
            RolloutAction::Build { service, tag, context, dockerfile } => ActView::Build(
                service@,
                tag@,
                context@,
                dockerfile@,
            ),
            RolloutAction::Look(i) => ActView::Look(i@),
            RolloutAction::Pull { image, message } => ActView::Pull(image@, message@),
            RolloutAction::Remove(n) => ActView::Remove(n@),
            RolloutAction::Create { service, name, body } => ActView::Create(service@, name@, body@),
            RolloutAction::Start { service, name, id } => ActView::Start(service@, name@, id@),
            RolloutAction::Done => ActView::Done,
            RolloutAction::Fail(e) => ActView::Fail(e@),
        }
    }
}

/// The place of the first `x` in `v` at or behind `i`, or the end.
pub open spec fn place_of(v: Seq<Seq<char>>, x: Seq<char>, i: int) -> int
    decreases v.len() - i,
{
    if i < 0 || i >= v.len() || v[i] == x {
        i
    } else {
        place_of(v, x, i + 1)
    }
}

impl Rollout {
    /// The names of the services, in the order that they start in.
    pub open spec fn names(self) -> Seq<Seq<char>> {
        text::texts(self.order@)
    }

    /// The services start in their order, and none has a fault.
    pub open spec fn wf(self) -> bool {
        &&& self.names() == compose::start_order(self.services)
        &&& fault_in(
            self.services,
            self.compose,
            self.dir@,
            text::texts(self.present@),
            self.force_build,
        ) is None
    }

    /// The service with so many others before it.
    pub open spec fn service(self, n: int) -> ServiceConfig {
        self.services.at(self.names()[n])->0
    }

    /// What that service waits for.
    pub open spec fn waits_for(self, n: int) -> Seq<(Seq<char>, DepCondition)> {
        compose::conditions(self.service(n).depends_on)->Ok_0
    }

    /// How that service comes by its image.
    pub open spec fn pulls_by(self, n: int) -> PullAction {
        compose::pull_decision(
            reference::opt_text(self.service(n).pull_policy),
            self.service(n).image is Some,
            self.service(n).build is Some,
            self.force_build,
        )->Ok_0
    }

    /// The id of a service's container, once that service has started.
    pub open spec fn id_of(self, ids: Seq<Seq<char>>, dep: Seq<char>) -> Option<Seq<char>> {
        let p = place_of(self.names(), dep, 0);
        if p < ids.len() {
            Some(ids[p])
        } else {
            None
        }
    }

    /// The progress is one that this project can have made.
    pub open spec fn fits(self, p: StateView) -> bool {
        &&& p.ids.len() <= self.names().len()
        &&& match p.stage {
            StageView::Over => true,
            StageView::Network => p.ids.len() == 0,
            StageView::Volume(k) => p.ids.len() == 0 && 0 <= k < self.compose.volumes.entries@.len(),
            StageView::Waiting(k) => {
                &&& p.ids.len() < self.names().len()
                &&& 0 <= k < self.waits_for(p.ids.len() as int).len()
                &&& self.waits_for(p.ids.len() as int)[k].1 != DepCondition::Started
                &&& self.id_of(p.ids, self.waits_for(p.ids.len() as int)[k].0) is Some
            },
            _ => p.ids.len() < self.names().len(),
        }
    }
}

pub open spec fn at_stage(ids: Seq<Seq<char>>, stage: StageView, act: ActView) -> (
    StateView,
    ActView,
) {
    (StateView { ids, stage }, act)
}

pub open spec fn fails_with(ids: Seq<Seq<char>>, e: Seq<char>) -> (StateView, ActView) {
    at_stage(ids, StageView::Over, ActView::Fail(e))
}

/// What is asked about a dependency.
pub open spec fn asks_about(
    service: Seq<char>,
    dep: Seq<char>,
    cond: DepCondition,
    id: Seq<char>,
) -> ActView {
    if cond == DepCondition::Healthy {
        ActView::Inspect(service, dep, id)
    } else {
        ActView::Wait(service, dep, id)
    }
}

/// What is done for a service from its dependency at `k` on.
pub open spec fn from_gate(plan: Rollout, ids: Seq<Seq<char>>, k: int) -> (StateView, ActView)
    decreases plan.waits_for(ids.len() as int).len() - k,
{
    let name = plan.names()[ids.len() as int];
    let c = plan.waits_for(ids.len() as int);
    if k < 0 || k >= c.len() {
        for_image(plan, ids)
    } else if c[k].1 == DepCondition::Started {
        from_gate(plan, ids, k + 1)
    } else {
        match plan.id_of(ids, c[k].0) {
            None => fails_with(
                ids,
                "service "@ + name + " waits for "@ + c[k].0
                    + ", which was not started by this project"@,
            ),
            Some(id) => at_stage(ids, StageView::Waiting(k), asks_about(name, c[k].0, c[k].1, id)),
        }
    }
}

/// What is done for the image of a service that waits no longer.
pub open spec fn for_image(plan: Rollout, ids: Seq<Seq<char>>) -> (StateView, ActView) {
    let n = ids.len() as int;
    let name = plan.names()[n];
    match project::plan_of(plan.service(n), plan.project@, name, plan.pulls_by(n), plan.dir@) {
        project::PlanView::Build { tag, context, dockerfile } => at_stage(
            ids,
            StageView::Building(tag),
            ActView::Build(name, tag, context, dockerfile),
        ),
        project::PlanView::Fetch(image) => at_stage(
            ids,
            StageView::Looking(image),
            ActView::Look(image),
        ),
        project::PlanView::Neither(e) => fails_with(ids, e),
    }
}

/// The container that a service had before goes away.
pub open spec fn for_container(plan: Rollout, ids: Seq<Seq<char>>, image: Seq<char>) -> (
    StateView,
    ActView,
) {
    let n = ids.len() as int;
    at_stage(
        ids,
        StageView::Removing(image),
        ActView::Remove(
            project::container_of(plan.service(n), plan.project@, plan.names()[n]),
        ),
    )
}

/// What is done with an image that is there, or is not.
pub open spec fn image_looked_at(plan: Rollout, ids: Seq<Seq<char>>, image: Seq<char>, present: bool) -> (
    StateView,
    ActView,
) {
    let n = ids.len() as int;
    match plan.pulls_by(n) {
        PullAction::Build => for_container(plan, ids, image),
        PullAction::PullAlways => at_stage(
            ids,
            StageView::Pulling(image),
            ActView::Pull(image, "Pulling "@ + image + " (pull_policy: always)..."@),
        ),
        PullAction::PullIfMissing => if present {
            for_container(plan, ids, image)
        } else {
            at_stage(
                ids,
                StageView::Pulling(image),
                ActView::Pull(image, "Pulling "@ + image + "..."@),
            )
        },
        PullAction::RequireLocal => if present {
            for_container(plan, ids, image)
        } else {
            fails_with(
                ids,
                inherit::about_service(
                    plan.names()[n],
                    "image "@ + image + " is not present locally and pull_policy is \"never\""@,
                ),
            )
        },
    }
}

/// What is done for the next service, where there is one.
pub open spec fn for_next(plan: Rollout, ids: Seq<Seq<char>>) -> (StateView, ActView) {
    if ids.len() >= plan.names().len() {
        at_stage(ids, StageView::Over, ActView::Done)
    } else {
        from_gate(plan, ids, 0)
    }
}

/// What is done once the state of the dependency at `k` is known.
pub open spec fn dependency_waited_for(plan: Rollout, ids: Seq<Seq<char>>, k: int, doc: Seq<u8>, late: bool) -> (
    StateView,
    ActView,
) {
    let n = ids.len() as int;
    let name = plan.names()[n];
    let (dep, cond) = plan.waits_for(n)[k];
    if cond == DepCondition::Healthy {
        match project::health_of(doc, dep, late) {
            Ok(true) => from_gate(plan, ids, k + 1),
            Ok(false) => at_stage(
                ids,
                StageView::Waiting(k),
                asks_about(name, dep, cond, plan.id_of(ids, dep)->0),
            ),
            Err(e) => fails_with(
                ids,
                inherit::about_service(
                    name,
                    "dependency "@ + dep + " never became healthy: "@ + e,
                ),
            ),
        }
    } else if project::exit_of(doc) == 0 {
        from_gate(plan, ids, k + 1)
    } else {
        fails_with(
            ids,
            inherit::about_service(
                name,
                "dependency "@ + dep + " did not exit 0: "@ + project::exit_message(doc, dep),
            ),
        )
    }
}

/// What is done for the volumes from the one at `k` on, and for the services behind them.
pub open spec fn for_volume(plan: Rollout, k: int) -> (StateView, ActView) {
    let names = compose::keys(plan.compose.volumes);
    if k < names.len() {
        at_stage(
            Seq::empty(),
            StageView::Volume(k),
            ActView::CreateVolume(
                project::owned(plan.project@, names[k]),
                project::volume_json(plan.project@, names[k]),
            ),
        )
    } else {
        for_next(plan, Seq::empty())
    }
}

/// The first thing that is done: the project's network is made.
pub open spec fn for_network(plan: Rollout) -> (StateView, ActView) {
    at_stage(
        Seq::empty(),
        StageView::Network,
        ActView::CreateNetwork(
            project::owned(plan.project@, "default"@),
            project::network_json(plan.project@),
        ),
    )
}

/// Why something could not be made, unless it is there already.
pub open spec fn not_made(
    refused: Option<(Seq<char>, Seq<char>)>,
    what: Seq<char>,
) -> Option<Seq<char>> {
    match refused {
        Some((shown, whole)) => if project::there_already(whole) {
            None
        } else {
            Some("failed to create "@ + what + ": "@ + shown)
        },
        None => None,
    }
}

/// Why a project cannot come up where a request for a service was refused: none of what is
/// asked for may be missed but the look for an image and the removal of a former container.
pub open spec fn given_up(plan: Rollout, p: StateView, whole: Seq<char>) -> Option<Seq<char>> {
    let n = p.ids.len() as int;
    let name = plan.names()[n];
    match p.stage {
        StageView::Waiting(k) => {
            let (dep, cond) = plan.waits_for(n)[k];
            Some(
                inherit::about_service(
                    name,
                    if cond == DepCondition::Healthy {
                        "dependency "@ + dep + " never became healthy: inspect dependency "@ + dep
                            + ": "@ + whole
                    } else {
                        "dependency "@ + dep + " did not exit 0: wait on dependency "@ + dep
                            + ": "@ + whole
                    },
                ),
            )
        },
        StageView::Building(_) => Some(whole),
        StageView::Pulling(_) => Some(whole),
        StageView::Creating => Some("create container for "@ + name + ": "@ + whole),
        StageView::Starting(_) => Some("start container for "@ + name + ": "@ + whole),
        _ => None,
    }
}

/// What is done once it is known what came of the last action.
pub open spec fn step_after(plan: Rollout, p: StateView, h: HeardView) -> (StateView, ActView) {
    match h.refused {
        Some((_, whole)) => match given_up(plan, p, whole) {
            Some(e) => fails_with(p.ids, e),
            None => answered_after(plan, p, h),
        },
        None => answered_after(plan, p, h),
    }
}

/// What is done where the last action came to an end, or may be missed.
pub open spec fn answered_after(plan: Rollout, p: StateView, h: HeardView) -> (
    StateView,
    ActView,
) {
    let ids = p.ids;
    let n = ids.len() as int;
    let name = plan.names()[n];
    let cname = project::container_of(plan.service(n), plan.project@, name);
    match p.stage {
        StageView::Network => match not_made(
            h.refused,
            "network "@ + project::owned(plan.project@, "default"@),
        ) {
            Some(e) => fails_with(ids, e),
            None => for_volume(plan, 0),
        },
        StageView::Volume(k) => match not_made(
            h.refused,
            "volume "@ + project::owned(plan.project@, compose::keys(plan.compose.volumes)[k]),
        ) {
            Some(e) => fails_with(ids, e),
            None => for_volume(plan, k + 1),
        },
        StageView::Waiting(k) => dependency_waited_for(plan, ids, k, h.doc, h.late),
        StageView::Building(image) => for_container(plan, ids, image),
        StageView::Looking(image) => image_looked_at(plan, ids, image, h.present),
        StageView::Pulling(image) => for_container(plan, ids, image),
        StageView::Removing(image) => match project::service_request(
            plan.service(n),
            image,
            plan.project@,
            name,
            plan.compose,
            plan.dir@,
            text::texts(plan.present@),
        ) {
            Ok(body) => at_stage(
                ids,
                StageView::Creating,
                ActView::Create(name, cname, body),
            ),
            Err(e) => fails_with(ids, e),
        },
        StageView::Creating => if json::is_json(h.doc) {
            let id = project::or_else(json::json_text(h.doc, "/Id"@), cname);
            at_stage(ids, StageView::Starting(id), ActView::Start(name, cname, id))
        } else {
            fails_with(ids, "create container for "@ + name + ": bad JSON from daemon"@)
        },
        StageView::Starting(id) => for_next(plan, ids.push(id)),
        StageView::Over => at_stage(ids, StageView::Over, ActView::Done),
    }
}

// ---------------------------------------------------------------- the steps

proof fn lemma_place_of(v: Seq<Seq<char>>, x: Seq<char>, i: int)
    requires
        0 <= i <= v.len(),
    ensures
        i <= place_of(v, x, i) <= v.len(),
        place_of(v, x, i) < v.len() ==> v[place_of(v, x, i)] == x,
        forall|j: int| i <= j < place_of(v, x, i) ==> v[j] != x,
    decreases v.len() - i,
{
    if i < v.len() && v[i] != x {
        lemma_place_of(v, x, i + 1);
    }
}

/// A service of a project that was looked through is there, its conditions can be read,
/// and its policy is known.
proof fn lemma_service_is_sound(plan: Rollout, n: int)
    requires
        plan.wf(),
        0 <= n < plan.names().len(),
    ensures
        plan.services.at(plan.names()[n]) == Some(plan.service(n)),
        compose::conditions(plan.service(n).depends_on) == Ok::<
            Seq<(Seq<char>, DepCondition)>,
            Seq<char>,
        >(plan.waits_for(n)),
        compose::pull_decision(
            reference::opt_text(plan.service(n).pull_policy),
            plan.service(n).image is Some,
            plan.service(n).build is Some,
            plan.force_build,
        ) == Ok::<PullAction, Seq<char>>(plan.pulls_by(n)),
{
    let name = plan.names()[n];
    compose::law_each_service_once(plan.services);
    assert(compose::start_order(plan.services).contains(name));
    compose::lemma_key_is_there(plan.services, name);
    project::law_faults_come_first(
        plan.services,
        plan.compose.secrets,
        plan.compose.configs,
        plan.dir@,
        text::texts(plan.present@),
        plan.force_build,
        name,
    );
}

fn over(ids: Vec<String>, e: String) -> (r: (RolloutState, RolloutAction))
    ensures
        (r.0@, r.1@) == fails_with(text::texts(ids@), e@),
{
    (RolloutState { ids, stage: RolloutStage::Over }, RolloutAction::Fail(e))
}

/// Why something could not be made, unless it is there already.
fn failure(heard: &Heard, what: &str) -> (r: Option<String>)
    ensures
        reference::opt_text(r) == not_made(heard@.refused, what@),
{
    match &heard.refused {
        Some(x) => {
            if is_conflict(x.whole.as_str()) {
                return None;
            }
            let mut e: String = "failed to create ".to_owned();
            e.append(what);
            e.append(": ");
            e.append(x.shown.as_str());
            Some(e)
        },
        None => None,
    }
}

impl Rollout {
    /// A project whose services are put in order and have no fault; the first fault
    /// otherwise, with nothing started.
    pub fn new(
        project: String,
        dir: String,
        compose: ComposeFile,
        services: Table<ServiceConfig>,
        present: Vec<String>,
        force_build: bool,
    ) -> (r: Result<Rollout, String>)
        ensures
            match r {
                Ok(p) => {
                    &&& p.wf()
                    &&& p.project == project
                    &&& p.dir == dir
                    &&& p.compose == compose
                    &&& p.services == services
                    &&& p.present == present
                    &&& p.force_build == force_build
                },
                Err(e) => fault_in(
                    services,
                    compose,
                    dir@,
                    text::texts(present@),
                    force_build,
                ) == Some(e@),
            },
    {
        let order: Vec<String> = match topological_sort(&services) {
            Ok(v) => v,
            Err(e) => {
                return Err(e);
            },
        };
        assert(text::texts(order@).len() == order@.len());
        match check_services(&order, &services, &compose, dir.as_str(), &present, force_build) {
            Ok(_) => Ok(Rollout { project, dir, compose, services, order, present, force_build }),
            Err(e) => Err(e),
        }
    }

    /// The id of a service's container, once that service has started.
    fn find_id(&self, ids: &Vec<String>, dep: &str) -> (r: Option<String>)
        requires
            ids@.len() <= self.order@.len(),
        ensures
            reference::opt_text(r) == self.id_of(text::texts(ids@), dep@),
    {
        let ghost names = self.names();
        let mut i: usize = 0;
        while i < ids.len()
            invariant
                i <= ids.len() <= self.order.len(),
                names == self.names(),
                place_of(names, dep@, 0) == place_of(names, dep@, i as int),
            decreases ids.len() - i,
        {
            assert(names[i as int] == self.order@[i as int]@);
            if same(self.order[i].as_str(), dep) {
                assert(text::texts(ids@)[i as int] == ids@[i as int]@);
                return Some(ids[i].clone());
            }
            i += 1;
        }
        proof {
            lemma_place_of(names, dep@, i as int);
        }
        None
    }

    /// What is done for the next service from its dependency at `k` on.
    fn pass_gates(&self, ids: Vec<String>, k: usize) -> (r: (RolloutState, RolloutAction))
        requires
            self.wf(),
            ids@.len() < self.names().len(),
        ensures
            (r.0@, r.1@) == from_gate(*self, text::texts(ids@), k as int),
            self.fits(r.0@),
    {
        let ghost iv = text::texts(ids@);
        let n: usize = ids.len();
        let name: &str = self.order[n].as_str();
        assert(self.names()[n as int] == name@);
        assert(iv.len() == n);
        proof {
            lemma_service_is_sound(*self, n as int);
        }
        let s: &ServiceConfig = match self.services.get(name) {
            Some(s) => s,
            None => {
                return over(ids, String::new());
            },
        };
        let conditions: Vec<(String, DepCondition)> = match dependency_conditions(
            s.depends_on.as_ref(),
        ) {
            Ok(c) => c,
            Err(e) => {
                return over(ids, e);
            },
        };
        let ghost c = self.waits_for(n as int);
        assert(c == compose::condition_views(conditions@));
        let mut i: usize = k;
        while i < conditions.len()
            invariant
                self.wf(),
                iv == text::texts(ids@),
                iv.len() == n,
                n == ids@.len(),
                n < self.order@.len(),
                name@ == self.names()[n as int],
                c == self.waits_for(n as int),
                c == compose::condition_views(conditions@),
                from_gate(*self, iv, k as int) == from_gate(*self, iv, i as int),
            decreases conditions.len() - i,
        {
            let dep: &str = conditions[i].0.as_str();
            let cond: DepCondition = conditions[i].1;
            assert(c[i as int] == (dep@, cond));
            let id: Option<String> = self.find_id(&ids, dep);
            match gate(name, dep, cond, id.is_some()) {
                Gate::Pass => {},
                Gate::Refuse(e) => {
                    return over(ids, e);
                },
                Gate::AwaitHealthy => {
                    if let Some(id) = id {
                        let service: String = name.to_owned();
                        return (
                            RolloutState { ids, stage: RolloutStage::Waiting(i) },
                            RolloutAction::Inspect { service, dep: dep.to_owned(), id },
                        );
                    }
                },
                Gate::AwaitExit => {
                    if let Some(id) = id {
                        let service: String = name.to_owned();
                        return (
                            RolloutState { ids, stage: RolloutStage::Waiting(i) },
                            RolloutAction::Wait { service, dep: dep.to_owned(), id },
                        );
                    }
                },
            }
            i += 1;
        }
        assert(from_gate(*self, iv, i as int) == for_image(*self, iv));
        self.seek_image(ids)
    }

    /// What is done for the image of a service that waits no longer.
    fn seek_image(&self, ids: Vec<String>) -> (r: (RolloutState, RolloutAction))
        requires
            self.wf(),
            ids@.len() < self.names().len(),
        ensures
            (r.0@, r.1@) == for_image(*self, text::texts(ids@)),
            self.fits(r.0@),
    {
        let ghost iv = text::texts(ids@);
        let n: usize = ids.len();
        let name: &str = self.order[n].as_str();
        assert(self.names()[n as int] == name@);
        proof {
            lemma_service_is_sound(*self, n as int);
        }
        let s: &ServiceConfig = match self.services.get(name) {
            Some(s) => s,
            None => {
                return over(ids, String::new());
            },
        };
        let action: PullAction = match self.pull_action(s) {
            Ok(a) => a,
            Err(e) => {
                return over(ids, e);
            },
        };
        match plan_image(s, self.project.as_str(), name, action, self.dir.as_str()) {
            ImagePlan::Build { tag, context, dockerfile } => {
                let service: String = name.to_owned();
                (
                    RolloutState { ids, stage: RolloutStage::Building(tag.clone()) },
                    RolloutAction::Build { service, tag, context, dockerfile },
                )
            },
            ImagePlan::Fetch(image) => (
                RolloutState { ids, stage: RolloutStage::Looking(image.clone()) },
                RolloutAction::Look(image),
            ),
            ImagePlan::Neither(e) => over(ids, e),
        }
    }

    fn pull_action(&self, s: &ServiceConfig) -> (r: Result<PullAction, String>)
        ensures
            ({
                let d = compose::pull_decision(
                    reference::opt_text(s.pull_policy),
                    s.image is Some,
                    s.build is Some,
                    self.force_build,
                );
                match r {
                    Ok(a) => d == Ok::<PullAction, Seq<char>>(a),
                    Err(e) => d == Err::<PullAction, Seq<char>>(e@),
                }
            }),
    {
        let policy: Option<&str> = match &s.pull_policy {
            Some(p) => Some(p.as_str()),
            None => None,
        };
        decide_pull(policy, s.image.is_some(), s.build.is_some(), self.force_build)
    }

    /// The container that a service had before goes away.
    fn clear_container(&self, ids: Vec<String>, image: String) -> (r: (
        RolloutState,
        RolloutAction,
    ))
        requires
            self.wf(),
            ids@.len() < self.names().len(),
        ensures
            (r.0@, r.1@) == for_container(*self, text::texts(ids@), image@),
            self.fits(r.0@),
    {
        let n: usize = ids.len();
        let name: &str = self.order[n].as_str();
        assert(self.names()[n as int] == name@);
        proof {
            lemma_service_is_sound(*self, n as int);
        }
        let s: &ServiceConfig = match self.services.get(name) {
            Some(s) => s,
            None => {
                return over(ids, String::new());
            },
        };
        let old_name: String = container_name(s, self.project.as_str(), name);
        (
            RolloutState { ids, stage: RolloutStage::Removing(image) },
            RolloutAction::Remove(old_name),
        )
    }

    /// The first action: the project's network is made.
    pub fn begin(&self) -> (r: (RolloutState, RolloutAction))
        requires
            self.wf(),
        ensures
            (r.0@, r.1@) == for_network(*self),
            self.fits(r.0@),
    {
        let ids: Vec<String> = Vec::new();
        assert(text::texts(ids@) =~= Seq::empty());
        let name: String = owned_name(self.project.as_str(), "default");
        let body: String = network_body(self.project.as_str());
        (
            RolloutState { ids, stage: RolloutStage::Network },
            RolloutAction::CreateNetwork { name, body },
        )
    }

    /// What is done for the volumes from the one at `k` on, and for the services behind them.
    fn make_volume(&self, k: usize) -> (r: (RolloutState, RolloutAction))
        requires
            self.wf(),
        ensures
            (r.0@, r.1@) == for_volume(*self, k as int),
            self.fits(r.0@),
    {
        let ids: Vec<String> = Vec::new();
        assert(text::texts(ids@) =~= Seq::empty());
        if k >= self.compose.volumes.entries.len() {
            return self.go_on(ids);
        }
        let volume: &str = self.compose.volumes.entries[k].0.as_str();
        assert(compose::keys(self.compose.volumes)[k as int] == volume@);
        let name: String = owned_name(self.project.as_str(), volume);
        let body: String = volume_body(self.project.as_str(), volume);
        (
            RolloutState { ids, stage: RolloutStage::Volume(k) },
            RolloutAction::CreateVolume { name, body },
        )
    }

    /// What is done for the next service, where there is one.
    fn go_on(&self, ids: Vec<String>) -> (r: (RolloutState, RolloutAction))
        requires
            self.wf(),
            ids@.len() <= self.names().len(),
        ensures
            (r.0@, r.1@) == for_next(*self, text::texts(ids@)),
            self.fits(r.0@),
    {
        if ids.len() >= self.order.len() {
            return (RolloutState { ids, stage: RolloutStage::Over }, RolloutAction::Done);
        }
        self.pass_gates(ids, 0)
    }

    /// What is done once the state of the dependency at `k` is known.
    fn dependency_known(&self, ids: Vec<String>, k: usize, heard: &Heard) -> (r: (
        RolloutState,
        RolloutAction,
    ))
        requires
            self.wf(),
            self.fits((StateView { ids: text::texts(ids@), stage: StageView::Waiting(k as int) })),
        ensures
            (r.0@, r.1@) == dependency_waited_for(
                *self,
                text::texts(ids@),
                k as int,
                heard.doc@,
                heard.late,
            ),
            self.fits(r.0@),
    {
        let ghost iv = text::texts(ids@);
        let n: usize = ids.len();
        let name: &str = self.order[n].as_str();
        assert(self.names()[n as int] == name@);
        assert(iv.len() == n);
        proof {
            lemma_service_is_sound(*self, n as int);
        }
        let s: &ServiceConfig = match self.services.get(name) {
            Some(s) => s,
            None => {
                return over(ids, String::new());
            },
        };
        let conditions: Vec<(String, DepCondition)> = match dependency_conditions(
            s.depends_on.as_ref(),
        ) {
            Ok(c) => c,
            Err(e) => {
                return over(ids, e);
            },
        };
        let ghost c = self.waits_for(n as int);
        assert(c == compose::condition_views(conditions@));
        let dep: &str = conditions[k].0.as_str();
        let cond: DepCondition = conditions[k].1;
        assert(c[k as int] == (dep@, cond));
        // The length is a `usize`, and so is `k + 1`.
        let _count: usize = conditions.len();
        let mut why: String = "dependency ".to_owned();
        why.append(dep);
        if cond == DepCondition::Healthy {
            match health(heard.doc.as_slice(), dep, heard.late) {
                Readiness::Ready => self.pass_gates(ids, k + 1),
                Readiness::Again => {
                    let id: String = match self.find_id(&ids, dep) {
                        Some(id) => id,
                        None => String::new(),
                    };
                    let service: String = name.to_owned();
                    (
                        RolloutState { ids, stage: RolloutStage::Waiting(k) },
                        RolloutAction::Inspect { service, dep: dep.to_owned(), id },
                    )
                },
                Readiness::Failed(e) => {
                    why.append(" never became healthy: ");
                    why.append(e.as_str());
                    over(ids, say_of_service(name, why.as_str()))
                },
            }
        } else {
            match completed(heard.doc.as_slice(), dep) {
                Ok(_) => self.pass_gates(ids, k + 1),
                Err(e) => {
                    why.append(" did not exit 0: ");
                    why.append(e.as_str());
                    over(ids, say_of_service(name, why.as_str()))
                },
            }
        }
    }

    /// What is done with an image that is there, or is not.
    fn image_known(&self, ids: Vec<String>, image: String, present: bool) -> (r: (
        RolloutState,
        RolloutAction,
    ))
        requires
            self.wf(),
            ids@.len() < self.names().len(),
        ensures
            (r.0@, r.1@) == image_looked_at(*self, text::texts(ids@), image@, present),
            self.fits(r.0@),
    {
        let n: usize = ids.len();
        let name: &str = self.order[n].as_str();
        assert(self.names()[n as int] == name@);
        proof {
            lemma_service_is_sound(*self, n as int);
        }
        let s: &ServiceConfig = match self.services.get(name) {
            Some(s) => s,
            None => {
                return over(ids, String::new());
            },
        };
        let action: PullAction = match self.pull_action(s) {
            Ok(a) => a,
            Err(e) => {
                return over(ids, e);
            },
        };
        match image_step(action, image.as_str(), name, present) {
            ImageStep::Use => self.clear_container(ids, image),
            ImageStep::Pull(message) => (
                RolloutState { ids, stage: RolloutStage::Pulling(image.clone()) },
                RolloutAction::Pull { image, message },
            ),
            ImageStep::Refuse(e) => over(ids, e),
        }
    }

    /// The container is made, once the one before it is gone.
    fn make_container(&self, ids: Vec<String>, image: String, heard: &Heard) -> (r: (
        RolloutState,
        RolloutAction,
    ))
        requires
            self.wf(),
            ids@.len() < self.names().len(),
        ensures
            (r.0@, r.1@) == answered_after(
                *self,
                (StateView { ids: text::texts(ids@), stage: StageView::Removing(image@) }),
                heard@,
            ),
            self.fits(r.0@),
    {
        let n: usize = ids.len();
        let name: &str = self.order[n].as_str();
        assert(self.names()[n as int] == name@);
        proof {
            lemma_service_is_sound(*self, n as int);
        }
        let s: &ServiceConfig = match self.services.get(name) {
            Some(s) => s,
            None => {
                return over(ids, String::new());
            },
        };
        match service_body(
            s,
            image.as_str(),
            self.project.as_str(),
            name,
            &self.compose,
            self.dir.as_str(),
            &self.present,
        ) {
            Ok(body) => {
                let service: String = name.to_owned();
                let cname: String = container_name(s, self.project.as_str(), name);
                (
                    RolloutState { ids, stage: RolloutStage::Creating },
                    RolloutAction::Create { service, name: cname, body },
                )
            },
            Err(e) => over(ids, e),
        }
    }

    /// The container is started, once it is made.
    fn start_container(&self, ids: Vec<String>, heard: &Heard) -> (r: (
        RolloutState,
        RolloutAction,
    ))
        requires
            self.wf(),
            ids@.len() < self.names().len(),
        ensures
            (r.0@, r.1@) == answered_after(
                *self,
                (StateView { ids: text::texts(ids@), stage: StageView::Creating }),
                heard@,
            ),
            self.fits(r.0@),
    {
        let n: usize = ids.len();
        let name: &str = self.order[n].as_str();
        assert(self.names()[n as int] == name@);
        proof {
            lemma_service_is_sound(*self, n as int);
        }
        let s: &ServiceConfig = match self.services.get(name) {
            Some(s) => s,
            None => {
                return over(ids, String::new());
            },
        };
        let cname: String = container_name(s, self.project.as_str(), name);
        let id: String = match created_id(heard.doc.as_slice(), cname.as_str()) {
            Some(i) => i,
            None => {
                let mut e: String = "create container for ".to_owned();
                e.append(name);
                e.append(": bad JSON from daemon");
                return over(ids, e);
            },
        };
        let service: String = name.to_owned();
        (
            RolloutState { ids, stage: RolloutStage::Starting(id.clone()) },
            RolloutAction::Start { service, name: cname, id },
        )
    }

    fn give_up(&self, p: &RolloutState, whole: &str) -> (r: Option<String>)
        requires
            self.wf(),
            self.fits(p@),
        ensures
            reference::opt_text(r) == given_up(*self, p@, whole@),
    {
        let n: usize = p.ids.len();
        assert(p@.ids.len() == n);
        match &p.stage {
            RolloutStage::Waiting(k) => {
                let name: &str = self.order[n].as_str();
                assert(self.names()[n as int] == name@);
                proof {
                    lemma_service_is_sound(*self, n as int);
                }
                let s: &ServiceConfig = match self.services.get(name) {
                    Some(s) => s,
                    None => {
                        return None;
                    },
                };
                let conditions: Vec<(String, DepCondition)> = match dependency_conditions(
                    s.depends_on.as_ref(),
                ) {
                    Ok(c) => c,
                    Err(_) => {
                        return None;
                    },
                };
                let ghost c = self.waits_for(n as int);
                assert(c == compose::condition_views(conditions@));
                let dep: &str = conditions[*k].0.as_str();
                let cond: DepCondition = conditions[*k].1;
                assert(c[*k as int] == (dep@, cond));
                let healthy: bool = cond == DepCondition::Healthy;
                let mut e: String = "dependency ".to_owned();
                e.append(dep);
                if healthy {
                    e.append(" never became healthy: inspect dependency ");
                } else {
                    e.append(" did not exit 0: wait on dependency ");
                }
                e.append(dep);
                e.append(": ");
                e.append(whole);
                Some(say_of_service(name, e.as_str()))
            },
            RolloutStage::Building(_) => Some(whole.to_owned()),
            RolloutStage::Pulling(_) => Some(whole.to_owned()),
            RolloutStage::Creating => {
                let mut e: String = "create container for ".to_owned();
                e.append(self.order[n].as_str());
                e.append(": ");
                e.append(whole);
                assert(self.names()[n as int] == self.order@[n as int]@);
                Some(e)
            },
            RolloutStage::Starting(_) => {
                let mut e: String = "start container for ".to_owned();
                e.append(self.order[n].as_str());
                e.append(": ");
                e.append(whole);
                assert(self.names()[n as int] == self.order@[n as int]@);
                Some(e)
            },
            _ => None,
        }
    }

    /// The next action, once it is known what came of the last one.
    pub fn step(&self, p: RolloutState, heard: &Heard) -> (r: (RolloutState, RolloutAction))
        requires
            self.wf(),
            self.fits(p@),
        ensures
            (r.0@, r.1@) == step_after(*self, p@, heard@),
            self.fits(r.0@),
    {
        if let Some(refusal) = &heard.refused {
            if let Some(e) = self.give_up(&p, refusal.whole.as_str()) {
                return over(p.ids, e);
            }
        }
        self.answered(p, heard)
    }

    fn answered(&self, p: RolloutState, heard: &Heard) -> (r: (RolloutState, RolloutAction))
        requires
            self.wf(),
            self.fits(p@),
        ensures
            (r.0@, r.1@) == answered_after(*self, p@, heard@),
            self.fits(r.0@),
    {
        let mut ids: Vec<String> = p.ids;
        let ghost iv = text::texts(ids@);
        match p.stage {
            RolloutStage::Network => {
                assert(iv =~= Seq::empty());
                let mut what: String = "network ".to_owned();
                what.append(owned_name(self.project.as_str(), "default").as_str());
                match failure(heard, what.as_str()) {
                    Some(e) => over(ids, e),
                    None => self.make_volume(0),
                }
            },
            RolloutStage::Volume(k) => {
                assert(iv =~= Seq::empty());
                let volume: &str = self.compose.volumes.entries[k].0.as_str();
                assert(compose::keys(self.compose.volumes)[k as int] == volume@);
                let _count: usize = self.compose.volumes.entries.len();
                let mut what: String = "volume ".to_owned();
                what.append(owned_name(self.project.as_str(), volume).as_str());
                match failure(heard, what.as_str()) {
                    Some(e) => over(ids, e),
                    None => self.make_volume(k + 1),
                }
            },
            RolloutStage::Waiting(k) => self.dependency_known(ids, k, heard),
            RolloutStage::Building(image) => self.clear_container(ids, image),
            RolloutStage::Looking(image) => self.image_known(ids, image, heard.present),
            RolloutStage::Pulling(image) => self.clear_container(ids, image),
            RolloutStage::Removing(image) => self.make_container(ids, image, heard),
            RolloutStage::Creating => self.start_container(ids, heard),
            RolloutStage::Starting(id) => {
                ids.push(id);
                assert(text::texts(ids@) =~= iv.push(id@));
                self.go_on(ids)
            },
            RolloutStage::Over => (
                RolloutState { ids, stage: RolloutStage::Over },
                RolloutAction::Done,
            ),
        }
    }
}

// ---------------------------------------------------------------- laws

proof fn lemma_gate_keeps_ids(plan: Rollout, ids: Seq<Seq<char>>, k: int)
    ensures
        from_gate(plan, ids, k).0.ids == ids,
    decreases plan.waits_for(ids.len() as int).len() - k,
{
    let c = plan.waits_for(ids.len() as int);
    if 0 <= k < c.len() && c[k].1 == DepCondition::Started {
        lemma_gate_keeps_ids(plan, ids, k + 1);
    }
}

/// A service counts as started when its container was started and that was not refused, and
/// at no other time; services that have started stay so, under the same ids.
pub proof fn law_started_services_stay(
    plan: Rollout,
    p: StateView,
    h: HeardView,
)
    requires
        plan.fits(p),
    ensures
        step_after(plan, p, h).0.ids == match p.stage {
            StageView::Starting(id) => if h.refused is None {
                p.ids.push(id)
            } else {
                p.ids
            },
            _ => p.ids,
        },
{
    match p.stage {
        StageView::Network | StageView::Volume(_) => {
            assert(p.ids =~= Seq::empty());
            lemma_gate_keeps_ids(plan, Seq::empty(), 0);
        },
        StageView::Waiting(k) => lemma_gate_keeps_ids(plan, p.ids, k + 1),
        StageView::Starting(id) => lemma_gate_keeps_ids(plan, p.ids.push(id), 0),
        _ => {},
    }
}

/// A refused request ends the rollout with the reason, and no service counts as started by
/// it: a build, a pull, a container that could not be made or started, or a dependency that
/// could not be asked about. Nothing that comes after brings the rollout back.
pub proof fn law_refusal_ends_the_rollout(
    plan: Rollout,
    p: StateView,
    h: HeardView,
    later: HeardView,
)
    requires
        h.refused is Some,
        p.stage is Waiting || p.stage is Building || p.stage is Pulling || p.stage is Creating
            || p.stage is Starting,
    ensures
        ({
            let (q, act) = step_after(plan, p, h);
            &&& act is Fail
            &&& q.stage is Over
            &&& q.ids == p.ids
            &&& step_after(plan, q, later).0 == q
        }),
{
}

/// A container is made only for a service whose former container was removed just before,
/// and started only once it was made.
pub proof fn law_container_is_replaced(
    plan: Rollout,
    p: StateView,
    h: HeardView,
)
    ensures
        step_after(plan, p, h).1 is Create ==> p.stage is Removing,
        step_after(plan, p, h).1 is Start ==> p.stage is Creating,
{
    match p.stage {
        StageView::Network | StageView::Volume(_) => lemma_gate_acts(plan, Seq::empty(), 0),
        StageView::Waiting(k) => lemma_gate_acts(plan, p.ids, k + 1),
        StageView::Starting(id) => lemma_gate_acts(plan, p.ids.push(id), 0),
        _ => {},
    }
}

proof fn lemma_gate_acts(plan: Rollout, ids: Seq<Seq<char>>, k: int)
    ensures
        !(from_gate(plan, ids, k).1 is Create),
        !(from_gate(plan, ids, k).1 is Start),
        !(from_gate(plan, ids, k).1 is Done),
        !(from_gate(plan, ids, k).1 is CreateNetwork),
        !(from_gate(plan, ids, k).1 is CreateVolume),
    decreases plan.waits_for(ids.len() as int).len() - k,
{
    let c = plan.waits_for(ids.len() as int);
    if 0 <= k < c.len() && c[k].1 == DepCondition::Started {
        lemma_gate_acts(plan, ids, k + 1);
    }
}

/// A project in which a service has a fault cannot come up: there is no plan for it, so
/// that nothing is made, neither a network nor a volume nor a container.
pub proof fn law_faulty_project_makes_nothing(plan: Rollout, n: int)
    requires
        0 <= n < plan.names().len(),
        plan.names() == compose::start_order(plan.services),
        project::fault_of(
            plan.names()[n],
            plan.service(n),
            plan.compose.secrets,
            plan.compose.configs,
            plan.dir@,
            text::texts(plan.present@),
            plan.force_build,
        ) is Some,
    ensures
        !plan.wf(),
        fault_in(
            plan.services,
            plan.compose,
            plan.dir@,
            text::texts(plan.present@),
            plan.force_build,
        ) is Some,
{
    let name = plan.names()[n];
    compose::law_each_service_once(plan.services);
    assert(compose::start_order(plan.services).contains(name));
    compose::lemma_key_is_there(plan.services, name);
    if fault_in(
        plan.services,
        plan.compose,
        plan.dir@,
        text::texts(plan.present@),
        plan.force_build,
    ) is None {
        project::law_faults_come_first(
            plan.services,
            plan.compose.secrets,
            plan.compose.configs,
            plan.dir@,
            text::texts(plan.present@),
            plan.force_build,
            name,
        );
    }
}

/// The network is made first, then each volume in turn, and the services come behind them:
/// nothing is made for a service before, and neither a network nor a volume after.
pub proof fn law_network_and_volumes_come_first(plan: Rollout, p: StateView, h: HeardView)
    requires
        plan.fits(p),
    ensures
        for_network(plan).1 is CreateNetwork,
        ({
            let (q, act) = step_after(plan, p, h);
            let n = plan.compose.volumes.entries@.len();
            &&& !(act is CreateNetwork)
            &&& act is CreateVolume ==> q.stage is Volume && (p.stage is Network && q.stage->Volume_0
                == 0 || p.stage is Volume && q.stage->Volume_0 == p.stage->Volume_0 + 1)
            &&& p.stage is Network ==> act is Fail || n == 0 || act is CreateVolume
            &&& p.stage is Volume ==> act is Fail || p.stage->Volume_0 + 1 >= n
                || act is CreateVolume
        }),
{
    match p.stage {
        StageView::Network | StageView::Volume(_) => lemma_gate_acts(plan, Seq::empty(), 0),
        StageView::Waiting(k) => lemma_gate_acts(plan, p.ids, k + 1),
        StageView::Starting(id) => lemma_gate_acts(plan, p.ids.push(id), 0),
        _ => {},
    }
}

/// The project is up only when every one of its services has started.
pub proof fn law_up_means_all_started(
    plan: Rollout,
    p: StateView,
    h: HeardView,
)
    requires
        plan.fits(p),
        !(p.stage is Over),
        step_after(plan, p, h).1 is Done,
    ensures
        step_after(plan, p, h).0.ids.len() == plan.names().len(),
{
    match p.stage {
        StageView::Network | StageView::Volume(_) => lemma_gate_acts(plan, Seq::empty(), 0),
        StageView::Waiting(k) => lemma_gate_acts(plan, p.ids, k + 1),
        StageView::Starting(id) => lemma_gate_acts(plan, p.ids.push(id), 0),
        _ => {},
    }
}

/// Nothing is done for a service that waits for a dependency until that dependency is
/// healthy, or has ended well, as it was asked for: until then it is looked at again, or the
/// project fails.
pub proof fn law_dependents_wait(
    plan: Rollout,
    p: StateView,
    k: int,
    h: HeardView,
)
    requires
        p.stage == StageView::Waiting(k),
    ensures
        ({
            let (dep, cond) = plan.waits_for(p.ids.len() as int)[k];
            let (q, act) = step_after(plan, p, h);
            ||| cond == DepCondition::Healthy && project::health_of(h.doc, dep, h.late) == Ok::<
                bool,
                Seq<char>,
            >(true)
            ||| cond != DepCondition::Healthy && project::exit_of(h.doc) == 0
            ||| q == p && act is Inspect
            ||| act is Fail
        }),
{
}

/// Where no service waits for itself, every service of the project that a service waits for
/// has started, and its container is known, by the time that anything is done for the
/// latter.
pub proof fn law_dependencies_are_up(
    plan: Rollout,
    rank: spec_fn(Seq<char>) -> nat,
    p: StateView,
    dep: Seq<char>,
)
    requires
        plan.wf(),
        plan.fits(p),
        compose::ranked(plan.services, rank),
        p.ids.len() < plan.names().len(),
        compose::deps_of(plan.services, plan.names()[p.ids.len() as int]).contains(dep),
        plan.services.has(dep),
    ensures
        plan.id_of(p.ids, dep) is Some,
{
    let n = p.ids.len() as int;
    compose::law_dependencies_first(plan.services, rank, n, dep);
    let before = plan.names().take(n);
    let i = choose|i: int| 0 <= i < before.len() && before[i] == dep;
    assert(plan.names()[i] == dep);
    lemma_place_of(plan.names(), dep, 0);
}

} // verus!
