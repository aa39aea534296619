//! A subscription change as one run: which outside step comes next, what each
//! outcome leads to, and what becomes visible at the end.

use vstd::prelude::*;

use crate::config::{
    CatalogView, FactMap, PathFact, ProfileView, SubscriptionProfileConfig, SubscriptionsConfig,
};
use crate::control::{event_views, refusal, Event, EventView, Reply, ReplyView};
use crate::listener::TrafficCounters;
use crate::manifest::opt_view;
use crate::names::{Model, NameMap};
use crate::node::{pool, Node, NodeView};
use crate::runtime::{ClassRuntime, Ports, RuntimeView};
use crate::score::NodeStats;
use crate::state::{ClassState, SaveOutcome, StateFile, StateView, StatsMap};
use crate::subscription::{
    cache_target, fetched_view, snapshot_paths, snapshot_paths_of, written_view, FileText, ReadMap,
    SubscriptionError, SubscriptionFaultView,
};
use crate::text::{borrow_opt, copy_texts, opt_text, same, texts};
use crate::transaction::{
    acceptance, after_publication, begin_transaction, cache_committed, change_event, change_reply,
    check_prepared, class_published, commit_prepared_cache, committed_state, fault_event, fault_text, flip_event,
    following, identity_change, lemma_committed_selects, lemma_stage_list_from_pool, next_generation, paths_fit, plan_of, plan_state, ports_entered,
    prepare_subscription, prepared_pool, report_change, report_fault, runtimes, stage_candidates,
    stage_failed, stage_list, stage_passed, staged_views, stages, stats_for_plan, take_identities,
    usable_stats, ClassStage, LiveView, PlanView, PreparedPool, PreparedSubscription, StageAction,
    StageView, StagedPath, StagedView, Staging, StagingView, SubscriptionRuntime, SubscriptionView,
    TransactionFault, TransactionPlan,
};

verus! {

// ---------------------------------------------------------------------------
// Locked classes
// ---------------------------------------------------------------------------

/// A class whose lock the change holds.
pub struct HeldClass {
    pub name: String,
    /// The generation of its route.
    pub generation: u64,
    pub incumbent: Option<String>,
    pub regions: Vec<String>,
}

#[verifier::ext_equal]
pub struct HeldView {
    pub name: Seq<char>,
    pub generation: u64,
    pub incumbent: Option<Seq<char>>,
    pub regions: Seq<Seq<char>>,
}

impl View for HeldClass {
    type V = HeldView;

    open spec fn view(&self) -> HeldView {
        HeldView {
            name: self.name@,
            generation: self.generation,
            incumbent: opt_text(self.incumbent),
            regions: texts(self.regions@),
        }
    }
}

pub open spec fn held_views(v: Seq<HeldClass>) -> Seq<HeldView> {
    v.map_values(|c: HeldClass| c@)
}

/// What a change has to know of a class.
pub fn hold_class(rt: &ClassRuntime, regions: Vec<String>) -> (r: HeldClass)
    ensures
        r@ == (HeldView {
            name: rt@.name,
            generation: rt@.route.generation,
            incumbent: rt@.active_name(),
            regions: texts(regions@),
        }),
{
    let incumbent = match rt.active_name() {
        Some(n) => Some(n.to_string()),
        None => None,
    };
    HeldClass { name: rt.name.dup(), generation: rt.route.generation, incumbent, regions }
}

/// The stage of one class: its candidates, and the generation that follows.
pub open spec fn stage_of(
    plan: PlanView,
    nodes: Seq<NodeView>,
    stats: StatsMap,
    c: HeldView,
) -> StageView {
    StageView {
        class: c.name,
        generation: next_generation(c.generation),
        candidates: stage_list(plan, nodes, stats, c.incumbent, c.regions),
    }
}

/// The stages of all classes, in their order.
pub open spec fn stage_plan(
    plan: PlanView,
    nodes: Seq<NodeView>,
    stats: StatsMap,
    classes: Seq<HeldView>,
) -> Seq<StageView> {
    classes.map_values(|c: HeldView| stage_of(plan, nodes, stats, c))
}

fn plan_stages(
    plan: &TransactionPlan,
    nodes: &Vec<Node>,
    stats: &NameMap<NodeStats>,
    classes: &Vec<HeldClass>,
) -> (r: Vec<ClassStage>)
    ensures
        stages(r@) == stage_plan(plan@, pool(nodes@), stats@, held_views(classes@)),
{
    let mut v: Vec<ClassStage> = Vec::new();
    let ghost want = stage_plan(plan@, pool(nodes@), stats@, held_views(classes@));
    let mut i: usize = 0;
    while i < classes.len()
        invariant
            i <= classes@.len(),
            want == stage_plan(plan@, pool(nodes@), stats@, held_views(classes@)),
            v@.len() == i,
            forall|j: int| 0 <= j < i ==> (#[trigger] v@[j])@ == want[j],
        decreases classes@.len() - i,
    {
        let c = &classes[i];
        let candidates = stage_candidates(
            plan,
            nodes,
            stats,
            borrow_opt(&c.incumbent),
            &c.regions,
        );
        let stage = ClassStage {
            class: c.name.dup(),
            generation: following(c.generation),
            candidates,
        };
        assert(held_views(classes@)[i as int] == c@);
        assert(stage@ == want[i as int]);
        v.push(stage);
        i = i + 1;
    }
    assert(stages(v@) =~= want);
    v
}

// ---------------------------------------------------------------------------
// Events and steps
// ---------------------------------------------------------------------------

/// How an outside step went.
pub enum ChangeEvent<'a> {
    /// What the files hold and what the source sent, and the profile that is
    /// active by now.
    Fetched {
        read: NameMap<FileText<String>>,
        fetched: Result<String, SubscriptionError>,
        active_now: String,
    },
    /// The worker of the step died.
    WorkerLost,
    /// The deadline is over.
    Overdue,
    /// No probe or switch is under way any more, and every class is locked.
    ClassesLocked { state: &'a StateFile, classes: Vec<HeldClass> },
    /// The candidate passed its pre-check and listens on these ports.
    Passed(Ports),
    Failed,
    /// The deadline is not over yet.
    OnTime,
    CacheWritten(Result<(), SubscriptionError>),
    /// What the paths of the catalogs are now.
    Inspected { facts: NameMap<PathFact>, state: &'a StateFile, now: i64 },
    StateSaved(SaveOutcome),
    StateFailed,
}

pub enum ChangeEventView {
    Fetched {
        read: ReadMap,
        fetched: Result<Seq<char>, SubscriptionFaultView>,
        active_now: Seq<char>,
    },
    WorkerLost,
    Overdue,
    ClassesLocked { state: StateView, classes: Seq<HeldView> },
    Passed(Ports),
    Failed,
    OnTime,
    CacheWritten(Result<(), SubscriptionFaultView>),
    Inspected { facts: FactMap, state: StateView, now: i64 },
    StateSaved(SaveOutcome),
    StateFailed,
}

pub open spec fn event_view(e: ChangeEvent) -> ChangeEventView {
    match e {
        ChangeEvent::Fetched { read, fetched, active_now } => ChangeEventView::Fetched {
            read: read@,
            fetched: fetched_view(fetched),
            active_now: active_now@,
        },
        ChangeEvent::WorkerLost => ChangeEventView::WorkerLost,
        ChangeEvent::Overdue => ChangeEventView::Overdue,
        ChangeEvent::ClassesLocked { state, classes } => ChangeEventView::ClassesLocked {
            state: state@,
            classes: held_views(classes@),
        },
        ChangeEvent::Passed(ports) => ChangeEventView::Passed(ports),
        ChangeEvent::Failed => ChangeEventView::Failed,
        ChangeEvent::OnTime => ChangeEventView::OnTime,
        ChangeEvent::CacheWritten(w) => ChangeEventView::CacheWritten(written_view(w)),
        ChangeEvent::Inspected { facts, state, now } => ChangeEventView::Inspected {
            facts: facts@,
            state: state@,
            now,
        },
        ChangeEvent::StateSaved(o) => ChangeEventView::StateSaved(o),
        ChangeEvent::StateFailed => ChangeEventView::StateFailed,
    }
}

/// What has to be done outside next.
pub enum ChangeStep {
    /// Read these files and ask the source of this profile.
    Prepare { profile: SubscriptionProfileConfig, paths: Vec<String> },
    /// Let probes and switches finish, and lock every class. The pool may be
    /// the confirmed cache.
    LockClasses { cached: bool },
    /// Start this candidate and check it.
    Try { class: String, node: Node },
    /// Every class has a path: is there time left?
    CheckDeadline,
    /// Write these bytes to this path, where there is anything to write.
    WriteCache(Option<(String, Vec<u8>)>),
    /// Look at the paths of the catalogs.
    InspectCatalog,
    /// Make this state durable.
    SaveState(StateFile),
    /// Everything is committed: end the change.
    Publish,
    /// Stop every path that was staged and end the change.
    Refuse(TransactionFault),
}

pub enum ChangeStepView {
    Prepare { profile: ProfileView, paths: Seq<Seq<char>> },
    LockClasses { cached: bool },
    Try { class: Seq<char>, node: NodeView },
    CheckDeadline,
    WriteCache(Option<(Seq<char>, Seq<u8>)>),
    InspectCatalog,
    SaveState(StateView),
    Publish,
    Refuse(TransactionFault),
}

pub open spec fn step_view(s: ChangeStep) -> ChangeStepView {
    match s {
        ChangeStep::Prepare { profile, paths } => ChangeStepView::Prepare {
            profile: profile@,
            paths: texts(paths@),
        },
        ChangeStep::LockClasses { cached } => ChangeStepView::LockClasses { cached },
        ChangeStep::Try { class, node } => ChangeStepView::Try { class: class@, node: node@ },
        ChangeStep::CheckDeadline => ChangeStepView::CheckDeadline,
        ChangeStep::WriteCache(w) => ChangeStepView::WriteCache(
            match w {
                Some((path, bytes)) => Some((path@, bytes@)),
                None => None,
            },
        ),
        ChangeStep::InspectCatalog => ChangeStepView::InspectCatalog,
        ChangeStep::SaveState(s) => ChangeStepView::SaveState(s@),
        ChangeStep::Publish => ChangeStepView::Publish,
        ChangeStep::Refuse(f) => ChangeStepView::Refuse(f),
    }
}

// ---------------------------------------------------------------------------
// The run
// ---------------------------------------------------------------------------

enum Phase {
    Preparing { plan: TransactionPlan },
    Waiting { plan: TransactionPlan, pool: PreparedSubscription },
    Staging { plan: TransactionPlan, pool: PreparedSubscription, staging: Staging },
    Writing { plan: TransactionPlan, pool: PreparedSubscription, staged: Vec<StagedPath> },
    Identifying { plan: TransactionPlan, pool: PreparedSubscription, staged: Vec<StagedPath> },
    Saving {
        plan: TransactionPlan,
        pool: PreparedSubscription,
        staged: Vec<StagedPath>,
        state: StateFile,
        now: i64,
    },
    Publishing {
        plan: TransactionPlan,
        pool: PreparedSubscription,
        staged: Vec<StagedPath>,
        state: StateFile,
        now: i64,
    },
    Refused { fault: TransactionFault, stop: Vec<StagedPath> },
}

/// How far a change has come.
pub enum PhaseView {
    Preparing { plan: PlanView },
    /// The pool is accepted; no class is locked yet.
    Waiting { plan: PlanView, pool: PreparedPool },
    /// One class after the other gets a path.
    Staging { plan: PlanView, pool: PreparedPool, staging: StagingView },
    /// Every class has a path; the cache is being written.
    Writing { plan: PlanView, pool: PreparedPool, staged: Seq<StagedView> },
    /// The cache is committed.
    Identifying { plan: PlanView, pool: PreparedPool, staged: Seq<StagedView> },
    /// The state to come is known; it is being saved.
    Saving {
        plan: PlanView,
        pool: PreparedPool,
        staged: Seq<StagedView>,
        state: StateView,
        now: i64,
    },
    /// The state is saved: all of it goes live.
    Publishing {
        plan: PlanView,
        pool: PreparedPool,
        staged: Seq<StagedView>,
        state: StateView,
        now: i64,
    },
    /// Nothing of it goes live, and these paths are stopped.
    Refused { fault: TransactionFault, stop: Seq<StagedView> },
}

impl View for Phase {
    type V = PhaseView;

    closed spec fn view(&self) -> PhaseView {
        match self {
            Phase::Preparing { plan } => PhaseView::Preparing { plan: plan@ },
            Phase::Waiting { plan, pool } => PhaseView::Waiting { plan: plan@, pool: pool@ },
            Phase::Staging { plan, pool, staging } => PhaseView::Staging {
                plan: plan@,
                pool: pool@,
                staging: staging@,
            },
            Phase::Writing { plan, pool, staged } => PhaseView::Writing {
                plan: plan@,
                pool: pool@,
                staged: staged_views(staged@),
            },
            Phase::Identifying { plan, pool, staged } => PhaseView::Identifying {
                plan: plan@,
                pool: pool@,
                staged: staged_views(staged@),
            },
            Phase::Saving { plan, pool, staged, state, now } => PhaseView::Saving {
                plan: plan@,
                pool: pool@,
                staged: staged_views(staged@),
                state: state@,
                now: *now,
            },
            Phase::Publishing { plan, pool, staged, state, now } => PhaseView::Publishing {
                plan: plan@,
                pool: pool@,
                staged: staged_views(staged@),
                state: state@,
                now: *now,
            },
            Phase::Refused { fault, stop } => PhaseView::Refused {
                fault: *fault,
                stop: staged_views(stop@),
            },
        }
    }
}

/// A change under way. Only `begin_change` and `change_next` make one.
pub struct ChangeRun {
    target: String,
    /// The catalog that the change brings.
    catalog: SubscriptionsConfig,
    /// The catalog that was live when the change began.
    before: SubscriptionsConfig,
    is_reload: bool,
    phase: Phase,
}

pub struct ChangeView {
    pub target: Seq<char>,
    pub catalog: CatalogView,
    pub before: CatalogView,
    pub is_reload: bool,
    pub phase: PhaseView,
}

impl View for ChangeRun {
    type V = ChangeView;

    closed spec fn view(&self) -> ChangeView {
        ChangeView {
            target: self.target@,
            catalog: self.catalog@,
            before: self.before@,
            is_reload: self.is_reload,
            phase: self.phase@,
        }
    }
}

/// A class is next that has no candidate left.
pub open spec fn stalled(left: Seq<StageView>) -> Option<TransactionFault> {
    if left.len() > 0 && left[0].candidates.len() == 0 {
        Some(TransactionFault::NoCandidate)
    } else {
        None
    }
}

/// There is a candidate to try.
pub open spec fn trying(v: StagingView) -> bool {
    v.left.len() > 0 && v.left[0].candidates.len() > 0
}

/// The failure that an event means for a run. The deadline counts until the
/// cache is about to be written: from there on the change is carried through.
pub open spec fn fault_of(v: ChangeView, e: ChangeEventView) -> Option<TransactionFault> {
    match v.phase {
        PhaseView::Preparing { plan } => match e {
            ChangeEventView::Fetched { read, fetched, active_now } => acceptance(
                prepared_pool(plan, read, fetched),
                v.is_reload,
                plan.previous,
                active_now,
            ),
            ChangeEventView::WorkerLost => Some(TransactionFault::PreparationFailed),
            ChangeEventView::Overdue => Some(TransactionFault::TimedOut),
            _ => None,
        },
        PhaseView::Waiting { plan, pool } => match e {
            ChangeEventView::Overdue => Some(TransactionFault::TimedOut),
            ChangeEventView::ClassesLocked { state, classes } => stalled(
                stage_plan(plan, pool.nodes(), usable_stats(plan, state), classes),
            ),
            _ => None,
        },
        PhaseView::Staging { staging, .. } => match e {
            ChangeEventView::Overdue => Some(TransactionFault::TimedOut),
            ChangeEventView::Passed(ports) => if trying(staging) {
                stalled(stage_passed(staging, ports).left)
            } else {
                None
            },
            ChangeEventView::Failed => if trying(staging) {
                stalled(stage_failed(staging).left)
            } else {
                None
            },
            _ => None,
        },
        PhaseView::Writing { plan, pool, .. } => match e {
            ChangeEventView::CacheWritten(w) => match cache_committed(
                pool,
                plan.confirmed_slot,
                w,
            ) {
                Ok(_) => None,
                Err(f) => Some(f),
            },
            ChangeEventView::WorkerLost => Some(TransactionFault::CacheCommitFailed),
            _ => None,
        },
        PhaseView::Identifying { .. } => match e {
            ChangeEventView::Inspected { facts, .. } => match identity_change(
                facts,
                v.before,
                v.catalog,
            ) {
                Ok(_) => None,
                Err(f) => Some(f),
            },
            _ => None,
        },
        PhaseView::Saving { .. } => match e {
            ChangeEventView::StateFailed => Some(TransactionFault::StateCommitFailed),
            _ => None,
        },
        _ => None,
    }
}

/// The paths that a phase holds ready.
pub open spec fn ready(p: PhaseView) -> Seq<StagedView> {
    match p {
        PhaseView::Staging { staging, .. } => staging.staged,
        PhaseView::Writing { staged, .. } => staged,
        PhaseView::Identifying { staged, .. } => staged,
        PhaseView::Saving { staged, .. } => staged,
        PhaseView::Publishing { staged, .. } => staged,
        PhaseView::Refused { stop, .. } => stop,
        _ => Seq::empty(),
    }
}

/// Those paths and the one that an event brings.
pub open spec fn ready_with(p: PhaseView, e: ChangeEventView) -> Seq<StagedView> {
    match (p, e) {
        (PhaseView::Staging { staging, .. }, ChangeEventView::Passed(ports)) => if trying(
            staging,
        ) {
            stage_passed(staging, ports).staged
        } else {
            staging.staged
        },
        _ => ready(p),
    }
}

/// Where an event that means no failure leads. One that the phase does not
/// wait for leads nowhere.
pub open spec fn moved(v: ChangeView, e: ChangeEventView) -> PhaseView {
    match (v.phase, e) {
        (
            PhaseView::Preparing { plan },
            ChangeEventView::Fetched { read, fetched, .. },
        ) => PhaseView::Waiting { plan, pool: prepared_pool(plan, read, fetched)->0 },
        (
            PhaseView::Waiting { plan, pool },
            ChangeEventView::ClassesLocked { state, classes },
        ) => PhaseView::Staging {
            plan,
            pool,
            staging: StagingView {
                left: stage_plan(plan, pool.nodes(), usable_stats(plan, state), classes),
                staged: Seq::empty(),
            },
        },
        (PhaseView::Staging { plan, pool, staging }, ChangeEventView::Passed(ports)) => if trying(
            staging,
        ) {
            PhaseView::Staging { plan, pool, staging: stage_passed(staging, ports) }
        } else {
            v.phase
        },
        (PhaseView::Staging { plan, pool, staging }, ChangeEventView::Failed) => if trying(
            staging,
        ) {
            PhaseView::Staging { plan, pool, staging: stage_failed(staging) }
        } else {
            v.phase
        },
        (PhaseView::Staging { plan, pool, staging }, ChangeEventView::OnTime) => if staging.left.len()
            == 0 {
            PhaseView::Writing { plan, pool, staged: staging.staged }
        } else {
            v.phase
        },
        (
            PhaseView::Writing { plan, pool, staged },
            ChangeEventView::CacheWritten(w),
        ) => PhaseView::Identifying {
            plan,
            pool: cache_committed(pool, plan.confirmed_slot, w)->Ok_0,
            staged,
        },
        (
            PhaseView::Identifying { plan, pool, staged },
            ChangeEventView::Inspected { facts, state, now },
        ) => {
            let ids = identity_change(facts, v.before, v.catalog)->Ok_0;
            PhaseView::Saving {
                plan,
                pool,
                staged,
                state: committed_state(state, ids.0, ids.1, pool, v.target, staged, now),
                now,
            }
        },
        (
            PhaseView::Saving { plan, pool, staged, state, now },
            ChangeEventView::StateSaved(_),
        ) => PhaseView::Publishing { plan, pool, staged, state, now },
        _ => v.phase,
    }
}

/// A run after one event.
pub open spec fn advanced(v: ChangeView, e: ChangeEventView) -> ChangeView {
    ChangeView {
        phase: match fault_of(v, e) {
            Some(fault) => PhaseView::Refused { fault, stop: ready_with(v.phase, e) },
            None => moved(v, e),
        },
        ..v
    }
}

/// The step that a phase waits for.
pub open spec fn due(p: PhaseView) -> ChangeStepView {
    match p {
        PhaseView::Preparing { plan } => ChangeStepView::Prepare {
            profile: plan.profile,
            paths: plan.profile.files + snapshot_paths_of(plan.profile, plan.confirmed_slot),
        },
        PhaseView::Waiting { pool, .. } => ChangeStepView::LockClasses { cached: pool is Cached },
        PhaseView::Staging { staging, .. } => if staging.left.len() == 0 {
            ChangeStepView::CheckDeadline
        } else if trying(staging) {
            ChangeStepView::Try {
                class: staging.left[0].class,
                node: staging.left[0].candidates[0],
            }
        } else {
            ChangeStepView::Refuse(TransactionFault::NoCandidate)
        },
        PhaseView::Writing { plan, pool, .. } => ChangeStepView::WriteCache(
            match pool {
                PreparedPool::Cached(_) => None,
                PreparedPool::Fresh(p) => match cache_target(p, plan.confirmed_slot) {
                    Some(path) => Some((path, (p.pending->0).1)),
                    None => None,
                },
            },
        ),
        PhaseView::Identifying { .. } => ChangeStepView::InspectCatalog,
        PhaseView::Saving { state, .. } => ChangeStepView::SaveState(state),
        PhaseView::Publishing { .. } => ChangeStepView::Publish,
        PhaseView::Refused { fault, .. } => ChangeStepView::Refuse(fault),
    }
}

/// One event: the run that it leads to, and the step that comes next.
pub open spec fn change_step(v: ChangeView, e: ChangeEventView) -> (ChangeView, ChangeStepView) {
    (advanced(v, e), due(advanced(v, e).phase))
}

/// A run at its beginning.
pub open spec fn begun(
    rt: SubscriptionView,
    s: StateView,
    facts: FactMap,
    catalog: CatalogView,
    target: Seq<char>,
    allow_cached: bool,
    is_reload: bool,
) -> ChangeView {
    ChangeView {
        target,
        catalog,
        before: rt.catalog,
        is_reload,
        phase: match plan_of(rt, s, facts, catalog, target, allow_cached) {
            Ok(plan) => PhaseView::Preparing { plan },
            Err(fault) => PhaseView::Refused { fault, stop: Seq::empty() },
        },
    }
}

fn refused(fault: TransactionFault, stop: Vec<StagedPath>) -> (r: Phase)
    ensures
        r@ == (PhaseView::Refused { fault, stop: staged_views(stop@) }),
{
    Phase::Refused { fault, stop }
}

fn nothing_staged() -> (r: Vec<StagedPath>)
    ensures
        staged_views(r@) == Seq::<StagedView>::empty(),
{
    let v: Vec<StagedPath> = Vec::new();
    assert(staged_views(v@) =~= Seq::<StagedView>::empty());
    v
}

/// Staging goes on, or its next class has no candidate.
fn settle(plan: TransactionPlan, pool: PreparedSubscription, staging: Staging) -> (r: Phase)
    ensures
        r@ == match stalled(staging@.left) {
            Some(fault) => PhaseView::Refused { fault, stop: staging@.staged },
            None => PhaseView::Staging { plan: plan@, pool: pool@, staging: staging@ },
        },
{
    match staging.action() {
        StageAction::Abort => refused(TransactionFault::NoCandidate, staging.into_staged()),
        _ => Phase::Staging { plan, pool, staging },
    }
}

impl ChangeRun {
    fn next_phase(&self, phase: Phase, event: ChangeEvent) -> (r: Phase)
        ensures
            r@ == advanced(ChangeView { phase: phase@, ..self@ }, event_view(event)).phase,
    {
        match phase {
            Phase::Preparing { plan } => match event {
                ChangeEvent::Fetched { read, fetched, active_now } => {
                    let prepared = prepare_subscription(&plan, &read, fetched);
                    let fault = check_prepared(
                        &prepared,
                        self.is_reload,
                        plan.previous.as_str(),
                        active_now.as_str(),
                    );
                    match (fault, prepared) {
                        (None, Some(pool)) => Phase::Waiting { plan, pool },
                        (Some(f), _) => refused(f, nothing_staged()),
                        (None, None) => refused(
                            TransactionFault::PreparationFailed,
                            nothing_staged(),
                        ),
                    }
                },
                ChangeEvent::WorkerLost => refused(
                    TransactionFault::PreparationFailed,
                    nothing_staged(),
                ),
                ChangeEvent::Overdue => refused(TransactionFault::TimedOut, nothing_staged()),
                _ => Phase::Preparing { plan },
            },
            Phase::Waiting { plan, pool } => match event {
                ChangeEvent::ClassesLocked { state, classes } => {
                    let stats = stats_for_plan(&plan, state);
                    let list = plan_stages(&plan, pool.nodes(), &stats, &classes);
                    let staging = Staging::new(list);
                    assert(staging@ == (StagingView {
                        left: stages(list@),
                        staged: Seq::empty(),
                    }));
                    settle(plan, pool, staging)
                },
                ChangeEvent::Overdue => refused(TransactionFault::TimedOut, nothing_staged()),
                _ => Phase::Waiting { plan, pool },
            },
            Phase::Staging { plan, pool, staging } => {
                let mut staging = staging;
                match event {
                    ChangeEvent::Overdue => refused(
                        TransactionFault::TimedOut,
                        staging.into_staged(),
                    ),
                    ChangeEvent::Passed(ports) => match staging.action() {
                        StageAction::Try { .. } => {
                            staging.passed(ports);
                            settle(plan, pool, staging)
                        },
                        _ => Phase::Staging { plan, pool, staging },
                    },
                    ChangeEvent::Failed => match staging.action() {
                        StageAction::Try { .. } => {
                            staging.failed();
                            settle(plan, pool, staging)
                        },
                        _ => Phase::Staging { plan, pool, staging },
                    },
                    ChangeEvent::OnTime => match staging.action() {
                        StageAction::Commit => Phase::Writing {
                            plan,
                            pool,
                            staged: staging.into_staged(),
                        },
                        _ => Phase::Staging { plan, pool, staging },
                    },
                    _ => Phase::Staging { plan, pool, staging },
                }
            },
            Phase::Writing { plan, pool, staged } => match event {
                ChangeEvent::CacheWritten(written) => {
                    match commit_prepared_cache(pool, borrow_opt(&plan.confirmed_slot), written) {
                        Ok(pool) => Phase::Identifying { plan, pool, staged },
                        Err(f) => refused(f, staged),
                    }
                },
                ChangeEvent::WorkerLost => refused(TransactionFault::CacheCommitFailed, staged),
                _ => Phase::Writing { plan, pool, staged },
            },
            Phase::Identifying { plan, pool, staged } => match event {
                ChangeEvent::Inspected { facts, state, now } => {
                    match take_identities(&facts, &self.before, &self.catalog) {
                        Ok((previous, next)) => {
                            let state = plan_state(
                                state,
                                &previous,
                                &next,
                                &pool,
                                self.target.as_str(),
                                &staged,
                                now,
                            );
                            Phase::Saving { plan, pool, staged, state, now }
                        },
                        Err(f) => refused(f, staged),
                    }
                },
                _ => Phase::Identifying { plan, pool, staged },
            },
            Phase::Saving { plan, pool, staged, state, now } => match event {
                ChangeEvent::StateSaved(_) => Phase::Publishing { plan, pool, staged, state, now },
                ChangeEvent::StateFailed => refused(TransactionFault::StateCommitFailed, staged),
                _ => Phase::Saving { plan, pool, staged, state, now },
            },
            Phase::Publishing { plan, pool, staged, state, now } => Phase::Publishing {
                plan,
                pool,
                staged,
                state,
                now,
            },
            Phase::Refused { fault, stop } => Phase::Refused { fault, stop },
        }
    }

    /// The step that the run waits for.
    pub fn step(&self) -> (r: ChangeStep)
        ensures
            step_view(r) == due(self@.phase),
    {
        match &self.phase {
            Phase::Preparing { plan } => {
                let mut paths = copy_texts(&plan.profile.files);
                let mut more = snapshot_paths(&plan.profile, borrow_opt(&plan.confirmed_slot));
                let ghost a = texts(paths@);
                let ghost b = texts(more@);
                paths.append(&mut more);
                assert(texts(paths@) =~= a + b);
                ChangeStep::Prepare { profile: plan.profile.dup(), paths }
            },
            Phase::Waiting { pool, .. } => ChangeStep::LockClasses { cached: !pool.is_fresh() },
            Phase::Staging { staging, .. } => match staging.action() {
                StageAction::Commit => ChangeStep::CheckDeadline,
                StageAction::Try { class, node } => ChangeStep::Try { class, node },
                StageAction::Abort => ChangeStep::Refuse(TransactionFault::NoCandidate),
            },
            Phase::Writing { plan, pool, .. } => match pool {
                PreparedSubscription::Cached(_) => ChangeStep::WriteCache(None),
                PreparedSubscription::Fresh(p) => {
                    match p.pending_write(borrow_opt(&plan.confirmed_slot)) {
                        Some((path, bytes)) => {
                            let copy = bytes.clone();
                            assert(copy@ =~= bytes@);
                            ChangeStep::WriteCache(Some((path, copy)))
                        },
                        None => ChangeStep::WriteCache(None),
                    }
                },
            },
            Phase::Identifying { .. } => ChangeStep::InspectCatalog,
            Phase::Saving { state, .. } => ChangeStep::SaveState(state.dup()),
            Phase::Publishing { .. } => ChangeStep::Publish,
            Phase::Refused { fault, .. } => ChangeStep::Refuse(*fault),
        }
    }
}

/// Begin a change to `target` in `catalog`.
pub fn begin_change(
    runtime: &SubscriptionRuntime,
    state: &StateFile,
    facts: &NameMap<PathFact>,
    catalog: SubscriptionsConfig,
    target: &str,
    allow_cached: bool,
    is_reload: bool,
) -> (r: (ChangeRun, ChangeStep))
    ensures
        (r.0)@ == begun(
            runtime@,
            state@,
            facts@,
            catalog@,
            target@,
            allow_cached,
            is_reload,
        ),
        step_view(r.1) == due((r.0)@.phase),
{
    let phase = match begin_transaction(runtime, state, facts, &catalog, target, allow_cached) {
        Ok(plan) => Phase::Preparing { plan },
        Err(fault) => refused(fault, nothing_staged()),
    };
    let run = ChangeRun {
        target: target.to_string(),
        catalog,
        before: runtime.catalog.dup(),
        is_reload,
        phase,
    };
    let step = run.step();
    (run, step)
}

/// Take in how the last step went, and say which one comes next.
pub fn change_next(run: &mut ChangeRun, event: ChangeEvent) -> (r: ChangeStep)
    ensures
        (final(run)@, step_view(r)) == change_step(old(run)@, event_view(event)),
{
    let ghost v = run@;
    let mut phase = Phase::Refused { fault: TransactionFault::TimedOut, stop: Vec::new() };
    std::mem::swap(&mut phase, &mut run.phase);
    let next = run.next_phase(phase, event);
    assert(ChangeView { phase: phase@, ..run@ } == v);
    run.phase = next;
    run.step()
}

// ---------------------------------------------------------------------------
// The end
// ---------------------------------------------------------------------------

/// The run has come to its end, one way or the other.
pub open spec fn over(p: PhaseView) -> bool {
    p is Publishing || p is Refused
}

/// Nothing but the end of a run in which everything is committed puts staged
/// paths in front of clients, and those have to be the paths of the classes.
pub open spec fn endable(v: ChangeView, classes: Seq<RuntimeView>) -> bool {
    match v.phase {
        PhaseView::Publishing { staged, .. } => paths_fit(staged, classes),
        PhaseView::Refused { .. } => true,
        _ => false,
    }
}

/// What the end of a run leaves: what clients see, the reply, the events, and
/// the nodes whose paths drain.
#[verifier::ext_equal]
pub struct EndView {
    pub live: LiveView,
    pub reply: ReplyView,
    pub events: Seq<EventView>,
    pub retired: Seq<Option<NodeView>>,
}

pub open spec fn change_end(v: ChangeView, live: LiveView, now: i64) -> EndView {
    match v.phase {
        PhaseView::Publishing { plan, pool, staged, state, now: then } => EndView {
            live: after_publication(live, state, pool.nodes(), v.catalog, v.target, staged),
            reply: change_reply(plan, pool.nodes().len() as usize),
            events: Seq::new(
                staged.len(),
                |i: int| flip_event(live.classes[i], staged[i], then),
            ).push(change_event(plan, pool.nodes().len() as usize, then)),
            retired: Seq::new(staged.len(), |i: int| live.classes[i].active),
        },
        PhaseView::Refused { fault, .. } => EndView {
            live,
            reply: refusal(fault_text(fault)),
            events: match fault_event(fault, v.target, now) {
                Some(e) => seq![e],
                None => Seq::empty(),
            },
            retired: Seq::empty(),
        },
        _ => arbitrary(),
    }
}

pub struct ChangeEnd {
    pub classes: Vec<ClassRuntime>,
    pub reply: Reply,
    pub events: Vec<Event>,
    pub retired: Vec<Option<Node>>,
}

pub open spec fn retired_views(v: Seq<Option<Node>>) -> Seq<Option<NodeView>> {
    v.map_values(|n: Option<Node>| opt_view(n))
}

impl ChangeRun {
    /// May the run be ended on these classes?
    pub fn can_end(&self, classes: &Vec<ClassRuntime>) -> (r: bool)
        ensures
            r == endable(self@, runtimes(classes@)),
    {
        let staged = match &self.phase {
            Phase::Publishing { staged, .. } => staged,
            Phase::Refused { .. } => return true,
            _ => return false,
        };
        let ghost all = staged_views(staged@);
        let ghost held = runtimes(classes@);
        if staged.len() != classes.len() {
            return false;
        }
        let mut i: usize = 0;
        while i < classes.len()
            invariant
                i <= classes@.len(),
                classes@.len() == staged@.len(),
                all == staged_views(staged@),
                held == runtimes(classes@),
                endable(self@, held) == paths_fit(all, held),
                forall|j: int|
                    0 <= j < i ==> (#[trigger] all[j]).class == held[j].name && all[j].generation
                        == next_generation(held[j].route.generation),
            decreases classes@.len() - i,
        {
            let p = &staged[i];
            let c = &classes[i];
            assert(all[i as int] == p@ && held[i as int] == c@);
            if !same(p.class.as_str(), c.name.as_str()) || p.generation != following(
                c.route.generation,
            ) {
                assert(!paths_fit(all, held));
                return false;
            }
            i = i + 1;
        }
        assert(paths_fit(all, held));
        true
    }
}

/// The ports of the routes that go live.
fn publish_state(committed: StateFile, staged: &Vec<StagedPath>) -> (r: StateFile)
    ensures
        r@ == ports_entered(committed@, staged_views(staged@)),
{
    let mut st = committed;
    let ghost s = st@;
    let ghost all = staged_views(staged@);
    let mut i: usize = 0;
    assert(all.take(0) =~= Seq::<StagedView>::empty());
    while i < staged.len()
        invariant
            i <= staged@.len(),
            all == staged_views(staged@),
            st@ == ports_entered(s, all.take(i as int)),
        decreases staged@.len() - i,
    {
        let path = &staged[i];
        proof {
            let t = all.take(i + 1);
            assert(t.drop_last() =~= all.take(i as int));
            assert(t.last() == path@);
        }
        let mut route = match st.routes().get(path.class.as_str()) {
            Some(c) => c.dup(),
            None => ClassState::default(),
        };
        route.socks_port = Some(path.ports.socks);
        route.http_port = Some(path.ports.http);
        st.set_class(path.class.as_str(), route);
        i = i + 1;
    }
    assert(all.take(staged@.len() as int) =~= all);
    st
}

/// Flip one class to its staged path. The node that was there before comes
/// back, for its path to drain.
fn publish_class(rt: &mut ClassRuntime, path: &StagedPath, subscription: &str, now: i64) -> (r: (
    Event,
    Option<Node>,
))
    ensures
        final(rt)@ == class_published(old(rt)@, path@, subscription@),
        (r.0)@ == flip_event(old(rt)@, path@, now),
        opt_view(r.1) == old(rt)@.active,
{
    let mut old_active: Option<Node> = Some(path.node.dup());
    std::mem::swap(&mut old_active, &mut rt.active);
    rt.auto_recovery.reset();
    rt.health_failures = 0;
    rt.route.publish(
        path.ports.socks,
        path.ports.http,
        path.node.name(),
        path.generation,
        subscription,
    );
    (
        Event::Switched {
            unix: now,
            class: rt.name.clone(),
            node: path.node.name().to_string(),
            reason: "subscription-change".to_string(),
            generation: path.generation,
        },
        old_active,
    )
}

/// What goes live at the commit of a change. Every class gets its staged
/// path, and profile, pool, catalog, state and traffic counters change with
/// them; the nodes that were active come back for their paths to drain, and
/// the events come in the order of the classes.
fn publish_change(
    state: &mut StateFile,
    subscription: &mut SubscriptionRuntime,
    classes: Vec<ClassRuntime>,
    traffic: &mut TrafficCounters,
    committed: StateFile,
    nodes: Vec<Node>,
    catalog: SubscriptionsConfig,
    target: &str,
    staged: &Vec<StagedPath>,
    now: i64,
) -> (r: (Vec<ClassRuntime>, Vec<Event>, Vec<Option<Node>>))
    requires
        paths_fit(staged_views(staged@), runtimes(classes@)),
    ensures
        (LiveView {
            state: final(state)@,
            subscription: final(subscription)@,
            classes: runtimes((r.0)@),
            traffic: final(traffic)@,
        }) == after_publication(
            LiveView {
                state: old(state)@,
                subscription: old(subscription)@,
                classes: runtimes(classes@),
                traffic: old(traffic)@,
            },
            committed@,
            pool(nodes@),
            catalog@,
            target@,
            staged_views(staged@),
        ),
        (r.1)@.len() == staged@.len(),
        forall|i: int|
            0 <= i < staged@.len() ==> (#[trigger] (r.1)@[i])@ == flip_event(
                classes@[i]@,
                staged@[i]@,
                now,
            ),
        (r.2)@.len() == staged@.len(),
        forall|i: int|
            0 <= i < staged@.len() ==> opt_view(#[trigger] (r.2)@[i]) == classes@[i]@.active,
{
    let ghost before = runtimes(classes@);
    let ghost held = classes@;
    let ghost all = staged_views(staged@);
    let mut left = classes;
    let mut flipped: Vec<ClassRuntime> = Vec::new();
    let mut events: Vec<Event> = Vec::new();
    let mut retired: Vec<Option<Node>> = Vec::new();
    let n: usize = staged.len();
    let mut i: usize = 0;
    while i < n
        invariant
            i <= n,
            n == staged@.len(),
            held.len() == n,
            left@ == held.skip(i as int),
            all == staged_views(staged@),
            flipped@.len() == i,
            events@.len() == i,
            retired@.len() == i,
            forall|j: int|
                0 <= j < i ==> (#[trigger] flipped@[j])@ == class_published(
                    held[j]@,
                    all[j],
                    target@,
                ),
            forall|j: int|
                0 <= j < i ==> (#[trigger] events@[j])@ == flip_event(
                    held[j]@,
                    staged@[j]@,
                    now,
                ),
            forall|j: int| 0 <= j < i ==> opt_view(#[trigger] retired@[j]) == held[j]@.active,
        decreases n - i,
    {
        let mut rt = left.remove(0);
        assert(rt == held[i as int]);
        assert(left@ =~= held.skip(i + 1));
        let (event, old_active) = publish_class(&mut rt, &staged[i], target, now);
        flipped.push(rt);
        events.push(event);
        retired.push(old_active);
        i = i + 1;
    }
    *state = publish_state(committed, staged);
    subscription.publish(target, nodes, catalog);
    traffic.select_subscription(target);
    proof {
        let want = Seq::new(
            before.len(),
            |i: int| class_published(before[i], all[i], target@),
        );
        assert(runtimes(flipped@) =~= want);
    }
    (flipped, events, retired)
}

/// End a change. A refused one leaves everything that clients see as it was;
/// a committed one flips every class to its staged path, together with the
/// profile, the pool, the catalog, the state and the traffic counters.
pub fn end_change(
    run: ChangeRun,
    state: &mut StateFile,
    subscription: &mut SubscriptionRuntime,
    classes: Vec<ClassRuntime>,
    traffic: &mut TrafficCounters,
    now: i64,
) -> (r: ChangeEnd)
    requires
        endable(run@, runtimes(classes@)),
    ensures
        (EndView {
            live: LiveView {
                state: final(state)@,
                subscription: final(subscription)@,
                classes: runtimes(r.classes@),
                traffic: final(traffic)@,
            },
            reply: r.reply@,
            events: event_views(r.events@),
            retired: retired_views(r.retired@),
        }) == change_end(
            run@,
            LiveView {
                state: old(state)@,
                subscription: old(subscription)@,
                classes: runtimes(classes@),
                traffic: old(traffic)@,
            },
            now,
        ),
{
    let ghost v = run@;
    let ghost before = runtimes(classes@);
    match run.phase {
        Phase::Publishing { plan, pool, staged, state: committed, now: then } => {
            let nodes = pool.into_nodes();
            let count: usize = nodes.len();
            let ghost all = staged_views(staged@);
            assert(crate::node::pool(nodes@).len() == count);
            let (flipped, events, retired) = publish_change(
                state,
                subscription,
                classes,
                traffic,
                committed,
                nodes,
                run.catalog,
                run.target.as_str(),
                &staged,
                then,
            );
            let (reply, last) = report_change(&plan, count, then);
            let mut events = events;
            proof {
                let flips = Seq::new(all.len(), |i: int| flip_event(before[i], all[i], then));
                assert forall|i: int| 0 <= i < all.len() implies #[trigger] event_views(events@)[i]
                    == flips[i] by {
                    assert(events@[i]@ == flip_event(classes@[i]@, staged@[i]@, then));
                    assert(before[i] == classes@[i]@ && all[i] == staged@[i]@);
                }
                assert(event_views(events@) =~= flips);
                assert forall|i: int| 0 <= i < all.len() implies #[trigger] retired_views(
                    retired@,
                )[i] == before[i].active by {
                    assert(opt_view(retired@[i]) == classes@[i]@.active);
                }
                assert(retired_views(retired@) =~= Seq::new(
                    all.len(),
                    |i: int| before[i].active,
                ));
            }
            let ghost flips = event_views(events@);
            let ghost closing = last@;
            events.push(last);
            assert(event_views(events@) =~= flips.push(closing));
            ChangeEnd { classes: flipped, reply, events, retired }
        },
        Phase::Refused { fault, .. } => {
            let (reply, event) = report_fault(fault, run.target.as_str(), now);
            let mut events: Vec<Event> = Vec::new();
            let ghost told = opt_view(event);
            match event {
                Some(e) => {
                    events.push(e);
                    assert(event_views(events@) =~= seq![told->0]);
                },
                None => {
                    assert(event_views(events@) =~= Seq::<EventView>::empty());
                },
            }
            let retired: Vec<Option<Node>> = Vec::new();
            assert(retired_views(retired@) =~= Seq::<Option<NodeView>>::empty());
            ChangeEnd { classes, reply, events, retired }
        },
        _ => vstd::pervasive::unreached(),
    }
}

// ---------------------------------------------------------------------------
// Laws of every run
// ---------------------------------------------------------------------------

/// A run after a sequence of events, whatever they are.
pub open spec fn run_after(v: ChangeView, es: Seq<ChangeEventView>) -> ChangeView
    decreases es.len(),
{
    if es.len() == 0 {
        v
    } else {
        advanced(run_after(v, es.drop_last()), es.last())
    }
}

/// How many barriers lie behind a run.
pub open spec fn rank(p: PhaseView) -> int {
    match p {
        PhaseView::Preparing { .. } => 0,
        PhaseView::Waiting { .. } => 1,
        PhaseView::Staging { .. } => 2,
        PhaseView::Writing { .. } => 3,
        PhaseView::Identifying { .. } => 4,
        PhaseView::Saving { .. } => 5,
        PhaseView::Publishing { .. } => 6,
        PhaseView::Refused { .. } => 7,
    }
}

/// The event takes the run past its next barrier: the pool is accepted, every
/// class is held, every class has a path in time, the cache is committed, the
/// identities are taken, the state is saved.
pub open spec fn passes(v: ChangeView, e: ChangeEventView) -> bool {
    fault_of(v, e) is None && match v.phase {
        PhaseView::Preparing { .. } => e is Fetched,
        PhaseView::Waiting { .. } => e is ClassesLocked,
        PhaseView::Staging { staging, .. } => e is OnTime && staging.left.len() == 0,
        PhaseView::Writing { .. } => e is CacheWritten,
        PhaseView::Identifying { .. } => e is Inspected,
        PhaseView::Saving { .. } => e is StateSaved,
        _ => false,
    }
}

/// The `i`-th event took the run past the barrier with this rank.
pub open spec fn passed_at(v: ChangeView, es: Seq<ChangeEventView>, barrier: int, i: int) -> bool {
    &&& 0 <= i < es.len()
    &&& rank(run_after(v, es.take(i)).phase) == barrier
    &&& passes(run_after(v, es.take(i)), es[i])
}

/// Some event took the run past the barrier with this rank.
pub open spec fn is_past(v: ChangeView, es: Seq<ChangeEventView>, barrier: int) -> bool {
    exists|i: int| passed_at(v, es, barrier, i)
}

/// The `i`-th event ended the run with this failure.
pub open spec fn failed_at(
    v: ChangeView,
    es: Seq<ChangeEventView>,
    fault: TransactionFault,
    i: int,
) -> bool {
    0 <= i < es.len() && fault_of(run_after(v, es.take(i)), es[i]) == Some(fault)
}

proof fn lemma_one_event(v: ChangeView, e: ChangeEventView)
    ensures
        rank(advanced(v, e).phase) >= rank(v.phase),
        over(v.phase) ==> advanced(v, e) == v,
        advanced(v, e).phase !is Refused ==> rank(advanced(v, e).phase) == rank(v.phase) || (rank(
            advanced(v, e).phase,
        ) == rank(v.phase) + 1 && passes(v, e)),
        v.phase !is Refused ==> (advanced(v, e).phase matches PhaseView::Refused { fault, .. }
            ==> fault_of(v, e) == Some(fault)),
{
}

proof fn lemma_ranks_grow(v: ChangeView, es: Seq<ChangeEventView>, i: int, j: int)
    requires
        0 <= i <= j <= es.len(),
    ensures
        rank(run_after(v, es.take(i)).phase) <= rank(run_after(v, es.take(j)).phase),
    decreases j - i,
{
    if i < j {
        lemma_ranks_grow(v, es, i, j - 1);
        assert(es.take(j).drop_last() =~= es.take(j - 1));
        lemma_one_event(run_after(v, es.take(j - 1)), es[j - 1]);
    }
}

proof fn lemma_barriers(v: ChangeView, es: Seq<ChangeEventView>, k: int)
    requires
        v.phase is Preparing,
        run_after(v, es).phase !is Refused,
        0 <= k < rank(run_after(v, es).phase),
    ensures
        is_past(v, es, k),
    decreases es.len(),
{
    let n = es.len() as int;
    if n > 0 {
        let p = es.drop_last();
        let w = run_after(v, p);
        assert(es.take(n - 1) =~= p);
        lemma_one_event(w, es.last());
        if k < rank(w.phase) {
            lemma_barriers(v, p, k);
            let i = choose|i: int| passed_at(v, p, k, i);
            assert(p.take(i) =~= es.take(i));
            assert(passed_at(v, es, k, i));
        } else {
            assert(passed_at(v, es, k, n - 1));
        }
    }
}

/// Whatever happens, a run publishes only when it is past every barrier, one
/// after the other: the pool accepted, every class held, every class with a
/// path before the deadline, the cache committed, the identities taken and the
/// state saved.
pub proof fn law_publication_comes_last(v: ChangeView, es: Seq<ChangeEventView>)
    requires
        v.phase is Preparing,
        run_after(v, es).phase is Publishing,
    ensures
        forall|k: int| 0 <= k < 6 ==> #[trigger] is_past(v, es, k),
        forall|k: int, m: int, i: int, j: int| #[trigger]
            passed_at(v, es, k, i) && #[trigger] passed_at(v, es, m, j) && k < m ==> i < j,
{
    assert forall|k: int| 0 <= k < 6 implies #[trigger] is_past(v, es, k) by {
        lemma_barriers(v, es, k);
    }
    assert forall|k: int, m: int, i: int, j: int| #[trigger]
        passed_at(v, es, k, i) && #[trigger] passed_at(v, es, m, j) && k < m implies i < j by {
        if j <= i {
            lemma_ranks_grow(v, es, j, i);
        }
    }
}

/// A run that is refused was refused for the failure of one of its events,
/// and had not published before.
pub proof fn law_refusal_names_its_failure(
    v: ChangeView,
    es: Seq<ChangeEventView>,
    fault: TransactionFault,
)
    requires
        v.phase is Preparing,
        run_after(v, es).phase matches PhaseView::Refused { fault: f, .. } && f == fault,
    ensures
        exists|i: int| #[trigger] failed_at(v, es, fault, i),
        forall|j: int|
            0 <= j <= es.len() ==> (#[trigger] run_after(v, es.take(j))).phase !is Publishing,
    decreases es.len(),
{
    let n = es.len() as int;
    let p = es.drop_last();
    let w = run_after(v, p);
    assert(es.take(n - 1) =~= p);
    lemma_one_event(w, es.last());
    if w.phase is Refused {
        law_refusal_names_its_failure(v, p, fault);
        let i = choose|i: int| #[trigger] failed_at(v, p, fault, i);
        assert(p.take(i) =~= es.take(i));
        assert(failed_at(v, es, fault, i));
    } else {
        assert(failed_at(v, es, fault, n - 1));
    }
    assert forall|j: int| 0 <= j <= es.len() implies (#[trigger] run_after(
        v,
        es.take(j),
    )).phase !is Publishing by {
        if run_after(v, es.take(j)).phase is Publishing {
            lemma_published_stays(v, es, j, n);
            assert(es.take(n) =~= es);
        }
    }
}

proof fn lemma_published_stays(v: ChangeView, es: Seq<ChangeEventView>, i: int, j: int)
    requires
        0 <= i <= j <= es.len(),
        run_after(v, es.take(i)).phase is Publishing,
    ensures
        run_after(v, es.take(j)) == run_after(v, es.take(i)),
    decreases j - i,
{
    if i < j {
        lemma_published_stays(v, es, i, j - 1);
        assert(es.take(j).drop_last() =~= es.take(j - 1));
        lemma_one_event(run_after(v, es.take(j - 1)), es[j - 1]);
    }
}

/// The stages of the classes that still wait for a path.
pub open spec fn waiting(p: PhaseView) -> Seq<StageView> {
    match p {
        PhaseView::Staging { staging, .. } => staging.left,
        _ => Seq::empty(),
    }
}

/// The ready paths, and the classes that still wait for one, are the classes
/// that were held, in their order, each one generation on.
pub open spec fn paths_of_held(p: PhaseView, classes: Seq<HeldView>) -> bool {
    &&& ready(p).len() + waiting(p).len() == classes.len()
    &&& forall|i: int|
        0 <= i < ready(p).len() ==> (#[trigger] ready(p)[i]).class == classes[i].name && ready(
            p,
        )[i].generation == next_generation(classes[i].generation)
    &&& forall|i: int|
        0 <= i < waiting(p).len() ==> (#[trigger] waiting(p)[i]).class == classes[ready(p).len()
            + i].name && waiting(p)[i].generation == next_generation(
            classes[ready(p).len() + i].generation,
        )
}

proof fn lemma_paths_of_held(v: ChangeView, e: ChangeEventView, classes: Seq<HeldView>)
    requires
        rank(v.phase) >= 2,
        v.phase !is Refused,
        paths_of_held(v.phase, classes),
        advanced(v, e).phase !is Refused,
    ensures
        paths_of_held(advanced(v, e).phase, classes),
{
    let p = v.phase;
    let q = advanced(v, e).phase;
    if let PhaseView::Staging { staging, .. } = p {
        assert(waiting(p) == staging.left && ready(p) == staging.staged);
        if trying(staging) && e is Passed {
            let first = waiting(p)[0];
            assert(ready(q).len() == ready(p).len() + 1);
            assert forall|i: int| 0 <= i < ready(q).len() implies (#[trigger] ready(q)[i]).class
                == classes[i].name && ready(q)[i].generation == next_generation(
                classes[i].generation,
            ) by {
                if i < ready(p).len() {
                    assert(ready(q)[i] == ready(p)[i]);
                } else {
                    assert(ready(q)[i].class == first.class);
                }
            }
            assert forall|i: int| 0 <= i < waiting(q).len() implies (#[trigger] waiting(q)[i]).class
                == classes[ready(q).len() + i].name && waiting(q)[i].generation == next_generation(
                classes[ready(q).len() + i].generation,
            ) by {
                assert(waiting(q)[i] == waiting(p)[i + 1]);
            }
        } else if trying(staging) && e is Failed {
            assert forall|i: int| 0 <= i < waiting(q).len() implies (#[trigger] waiting(q)[i]).class
                == classes[ready(q).len() + i].name && waiting(q)[i].generation == next_generation(
                classes[ready(q).len() + i].generation,
            ) by {
                assert(waiting(q)[i].class == waiting(p)[i].class);
            }
        }
    }
}

/// What is published is one path for every class that was held, in their
/// order, each at the generation that follows the one its route had.
pub proof fn law_published_paths_are_of_the_held_classes(
    v: ChangeView,
    es: Seq<ChangeEventView>,
    i: int,
)
    requires
        v.phase is Preparing,
        passed_at(v, es, 1, i),
        rank(run_after(v, es).phase) >= 2,
        run_after(v, es).phase !is Refused,
    ensures
        paths_of_held(run_after(v, es).phase, es[i]->classes),
    decreases es.len(),
{
    let n = es.len() as int;
    let p = es.drop_last();
    let w = run_after(v, p);
    assert(es.take(n - 1) =~= p);
    lemma_one_event(w, es.last());
    if i == n - 1 {
        let next = run_after(v, es).phase;
        assert(next is Staging);
        assert(ready(next).len() == 0);
    } else {
        assert(p.take(i) =~= es.take(i));
        assert(p[i] == es[i]);
        assert(passed_at(v, p, 1, i));
        lemma_ranks_grow(v, es, i + 1, n - 1);
        assert(es.take(i + 1).drop_last() =~= es.take(i));
        law_published_paths_are_of_the_held_classes(v, p, i);
        lemma_paths_of_held(w, es.last(), es[i]->classes);
    }
}

/// The state that a run has put on disk.
pub open spec fn state_written(v: ChangeView, es: Seq<ChangeEventView>) -> Option<StateView>
    decreases es.len(),
{
    if es.len() == 0 {
        None
    } else {
        match (run_after(v, es.drop_last()).phase, es.last()) {
            (PhaseView::Saving { state, .. }, ChangeEventView::StateSaved(_)) => Some(state),
            _ => state_written(v, es.drop_last()),
        }
    }
}

/// The paths that a run has started and not stopped: every candidate that
/// passed, without those that its refusal stops.
pub open spec fn paths_running(v: ChangeView, es: Seq<ChangeEventView>) -> Seq<StagedView>
    decreases es.len(),
{
    if es.len() == 0 {
        Seq::empty()
    } else {
        let w = run_after(v, es.drop_last());
        let before = paths_running(v, es.drop_last());
        let started = match (w.phase, es.last()) {
            (PhaseView::Staging { staging, .. }, ChangeEventView::Passed(ports)) => if trying(
                staging,
            ) {
                before.push(
                    StagedView {
                        class: staging.left[0].class,
                        node: staging.left[0].candidates[0],
                        ports,
                        generation: staging.left[0].generation,
                    },
                )
            } else {
                before
            },
            _ => before,
        };
        match run_after(v, es).phase {
            PhaseView::Refused { stop, .. } => started.filter(|p: StagedView| !stop.contains(p)),
            _ => started,
        }
    }
}

proof fn lemma_nothing_kept(s: Seq<StagedView>, stop: Seq<StagedView>)
    requires
        forall|i: int| 0 <= i < s.len() ==> stop.contains(#[trigger] s[i]),
    ensures
        s.filter(|p: StagedView| !stop.contains(p)).len() == 0,
    decreases s.len(),
{
    reveal(Seq::filter);
    if s.len() > 0 {
        assert forall|i: int| 0 <= i < s.drop_last().len() implies stop.contains(
            #[trigger] s.drop_last()[i],
        ) by {
            assert(s.drop_last()[i] == s[i]);
        }
        lemma_nothing_kept(s.drop_last(), stop);
        assert(stop.contains(s[s.len() - 1]));
    }
}

proof fn lemma_accounts(v: ChangeView, es: Seq<ChangeEventView>)
    requires
        v.phase is Preparing,
    ensures
        ({
            let w = run_after(v, es);
            &&& w.target == v.target && w.catalog == v.catalog
            &&& w.phase is Refused ==> paths_running(v, es) == Seq::<StagedView>::empty()
            &&& w.phase !is Refused ==> paths_running(v, es) == ready(w.phase)
            &&& state_written(v, es) == match w.phase {
                PhaseView::Publishing { state, .. } => Some(state),
                _ => None,
            }
            &&& w.phase matches PhaseView::Publishing { plan, .. } ==> plan == v.phase->Preparing_plan
            &&& w.phase matches PhaseView::Saving { state, .. } ==> state.active == Some(v.target)
            &&& w.phase matches PhaseView::Publishing { state, .. } ==> state.active == Some(v.target)
            &&& w.phase !is Refused ==> drawn_from_pool(w.phase)
        }),
    decreases es.len(),
{
    lemma_plan_stays(v, es);
    if es.len() > 0 {
        let p = es.drop_last();
        let w = run_after(v, p);
        lemma_accounts(v, p);
        lemma_one_event(w, es.last());
        if run_after(v, es).phase !is Refused {
            lemma_drawn_from_pool(w, es.last());
        }
        if let (
            PhaseView::Identifying { pool, staged, .. },
            ChangeEventView::Inspected { facts, state, now },
        ) = (w.phase, es.last()) {
            let ids = identity_change(facts, w.before, w.catalog)->Ok_0;
            lemma_committed_selects(state, ids.0, ids.1, pool, w.target, staged, now);
        }
        if let PhaseView::Refused { stop, .. } = run_after(v, es).phase {
            let before = paths_running(v, p);
            let started = if w.phase is Refused {
                before
            } else {
                ready_with(w.phase, es.last())
            };
            assert(w.phase !is Refused ==> stop == started);
            assert forall|i: int| 0 <= i < started.len() implies stop.contains(
                #[trigger] started[i],
            ) by {
                assert(stop[i] == started[i]);
            }
            lemma_nothing_kept(started, stop);
            assert(paths_running(v, es) =~= Seq::<StagedView>::empty());
        }
    }
}

/// The plan that a phase works on.
pub open spec fn plan_in(p: PhaseView) -> Option<PlanView> {
    match p {
        PhaseView::Preparing { plan } => Some(plan),
        PhaseView::Waiting { plan, .. } => Some(plan),
        PhaseView::Staging { plan, .. } => Some(plan),
        PhaseView::Writing { plan, .. } => Some(plan),
        PhaseView::Identifying { plan, .. } => Some(plan),
        PhaseView::Saving { plan, .. } => Some(plan),
        PhaseView::Publishing { plan, .. } => Some(plan),
        PhaseView::Refused { .. } => None,
    }
}

/// The nodes that a phase works with.
pub open spec fn nodes_in(p: PhaseView) -> Seq<NodeView> {
    match p {
        PhaseView::Waiting { pool, .. } => pool.nodes(),
        PhaseView::Staging { pool, .. } => pool.nodes(),
        PhaseView::Writing { pool, .. } => pool.nodes(),
        PhaseView::Identifying { pool, .. } => pool.nodes(),
        PhaseView::Saving { pool, .. } => pool.nodes(),
        PhaseView::Publishing { pool, .. } => pool.nodes(),
        _ => Seq::empty(),
    }
}

/// Ready paths and candidates are all nodes of the pool.
pub open spec fn drawn_from_pool(p: PhaseView) -> bool {
    &&& forall|i: int| 0 <= i < ready(p).len() ==> nodes_in(p).contains(#[trigger] ready(p)[i].node)
    &&& forall|i: int, n: NodeView|
        #![trigger waiting(p)[i].candidates.contains(n)]
        0 <= i < waiting(p).len() && waiting(p)[i].candidates.contains(n) ==> nodes_in(p).contains(
            n,
        )
}

proof fn lemma_drawn_from_pool(v: ChangeView, e: ChangeEventView)
    requires
        drawn_from_pool(v.phase),
        advanced(v, e).phase !is Refused,
    ensures
        drawn_from_pool(advanced(v, e).phase),
{
    let p = v.phase;
    let q = advanced(v, e).phase;
    match (p, e) {
        (PhaseView::Waiting { plan, pool }, ChangeEventView::ClassesLocked { state, classes }) => {
            let stats = usable_stats(plan, state);
            assert forall|i: int, n: NodeView|
                #![trigger waiting(q)[i].candidates.contains(n)]
                0 <= i < waiting(q).len() && waiting(q)[i].candidates.contains(n) implies nodes_in(
                q,
            ).contains(n) by {
                let c = classes[i];
                assert(waiting(q)[i] == stage_of(plan, pool.nodes(), stats, c));
                lemma_stage_list_from_pool(
                    plan,
                    pool.nodes(),
                    stats,
                    c.incumbent,
                    c.regions,
                    n,
                );
            }
        },
        (PhaseView::Staging { staging, .. }, ChangeEventView::Passed(_)) => {
            if trying(staging) {
                let first = waiting(p)[0].candidates;
                assert(first.contains(first[0]));
                assert forall|i: int| 0 <= i < ready(q).len() implies nodes_in(q).contains(
                    #[trigger] ready(q)[i].node,
                ) by {
                    if i < ready(p).len() {
                        assert(ready(q)[i] == ready(p)[i]);
                    } else {
                        assert(ready(q)[i].node == first[0]);
                    }
                }
                assert forall|i: int, n: NodeView|
                    #![trigger waiting(q)[i].candidates.contains(n)]
                    0 <= i < waiting(q).len() && waiting(q)[i].candidates.contains(
                        n,
                    ) implies nodes_in(q).contains(n) by {
                    assert(waiting(q)[i] == waiting(p)[i + 1]);
                    assert(waiting(p)[i + 1].candidates.contains(n));
                }
            }
        },
        (PhaseView::Staging { staging, .. }, ChangeEventView::Failed) => {
            if trying(staging) {
                assert forall|i: int, n: NodeView|
                    #![trigger waiting(q)[i].candidates.contains(n)]
                    0 <= i < waiting(q).len() && waiting(q)[i].candidates.contains(
                        n,
                    ) implies nodes_in(q).contains(n) by {
                    let k = waiting(q)[i].candidates.index_of(n);
                    if i == 0 {
                        assert(waiting(p)[0].candidates[k + 1] == n);
                    } else {
                        assert(waiting(q)[i] == waiting(p)[i]);
                    }
                    assert(waiting(p)[i].candidates.contains(n));
                }
            }
        },
        _ => {
            assert(ready(q) == ready(p) || ready(q).len() == 0);
        },
    }
}

proof fn lemma_plan_stays(v: ChangeView, es: Seq<ChangeEventView>)
    ensures
        run_after(v, es).phase !is Refused ==> plan_in(run_after(v, es).phase) == plan_in(v.phase),
    decreases es.len(),
{
    if es.len() > 0 {
        lemma_plan_stays(v, es.drop_last());
    }
}

/// Whatever happens during a change: where it is refused, nothing that clients
/// see has changed, nothing was put on disk as the new state, and every path
/// that it started is stopped; where it succeeds, the profile, the pool, the
/// catalog and every class are on the target together, under one publication,
/// each route one generation on, and the state on disk is the one that is
/// live.
pub proof fn law_change_is_all_or_nothing(
    rt: SubscriptionView,
    s: StateView,
    facts: FactMap,
    catalog: CatalogView,
    target: Seq<char>,
    allow_cached: bool,
    is_reload: bool,
    es: Seq<ChangeEventView>,
    live: LiveView,
    now: i64,
)
    requires
        endable(
            run_after(begun(rt, s, facts, catalog, target, allow_cached, is_reload), es),
            live.classes,
        ),
    ensures
        ({
            let v = begun(rt, s, facts, catalog, target, allow_cached, is_reload);
            let end = change_end(run_after(v, es), live, now);
            &&& !end.reply.ok ==> {
                &&& end.live == live
                &&& end.retired.len() == 0
                &&& state_written(v, es) is None
                &&& paths_running(v, es).len() == 0
            }
            &&& end.reply.ok ==> {
                let paths = paths_running(v, es);
                &&& run_after(v, es).phase is Publishing
                &&& end.reply.subscription_switch matches Some(o) && o.active == target
                    && o.previous == rt.active
                &&& end.live.subscription.active == target
                &&& end.live.subscription.nodes == run_after(v, es).phase->Publishing_pool.nodes()
                &&& end.live.subscription.catalog == catalog
                &&& end.live.subscription.generation == next_generation(
                    live.subscription.generation,
                )
                &&& end.live.traffic.subscription == Some(target)
                &&& end.live.classes.len() == live.classes.len()
                &&& paths.len() == live.classes.len()
                &&& forall|i: int|
                    0 <= i < live.classes.len() ==> {
                        let c = #[trigger] end.live.classes[i];
                        &&& c.name == live.classes[i].name && paths[i].class == c.name
                        &&& c.active == Some(paths[i].node)
                        &&& end.live.subscription.nodes.contains(paths[i].node)
                        &&& c.route.traffic_subscription == target
                        &&& c.route.generation == next_generation(live.classes[i].route.generation)
                    }
                &&& state_written(v, es) matches Some(t) && t.active == Some(target)
                    && end.live.state == ports_entered(t, paths)
            }
        }),
{
    let v = begun(rt, s, facts, catalog, target, allow_cached, is_reload);
    if v.phase is Preparing {
        lemma_accounts(v, es);
    } else {
        lemma_refused_stays(v, es);
    }
}

proof fn lemma_refused_stays(v: ChangeView, es: Seq<ChangeEventView>)
    requires
        v.phase matches PhaseView::Refused { stop, .. } && stop.len() == 0,
    ensures
        run_after(v, es) == v,
        state_written(v, es) is None,
        paths_running(v, es).len() == 0,
    decreases es.len(),
{
    if es.len() > 0 {
        lemma_refused_stays(v, es.drop_last());
        lemma_one_event(v, es.last());
        let before = paths_running(v, es.drop_last());
        lemma_nothing_kept(before, v.phase->stop);
    }
}

/// The classes are staged by the statistics of the target alone: where the
/// target is not the active profile, other statistics of the active profile
/// change nothing.
pub proof fn law_staging_ignores_the_active_profile(
    v: ChangeView,
    plan: PlanView,
    pool: crate::transaction::PreparedPool,
    a: StateView,
    b: StateView,
    classes: Seq<HeldView>,
)
    requires
        v.phase == (PhaseView::Waiting { plan, pool }),
        a.active != Some(plan.target),
        b == (StateView { nodes: b.nodes, ..a }),
    ensures
        advanced(v, ChangeEventView::ClassesLocked { state: a, classes }) == advanced(
            v,
            ChangeEventView::ClassesLocked { state: b, classes },
        ),
{
}

/// The statistics of a source that is not trusted are not used: the classes
/// are staged alike in every state, by name behind the incumbent.
pub proof fn law_staging_without_trust_has_no_history(
    v: ChangeView,
    plan: PlanView,
    pool: crate::transaction::PreparedPool,
    a: StateView,
    b: StateView,
    classes: Seq<HeldView>,
    k: int,
    i: int,
    j: int,
)
    requires
        v.phase == (PhaseView::Waiting { plan, pool }),
        !plan.source_trusted,
    ensures
        advanced(v, ChangeEventView::ClassesLocked { state: a, classes }) == advanced(
            v,
            ChangeEventView::ClassesLocked { state: b, classes },
        ),
        advanced(v, ChangeEventView::ClassesLocked { state: a, classes }).phase matches
            PhaseView::Staging { staging, .. } ==> 0 <= k < classes.len() && 0 <= i < j
            < staging.left[k].candidates.len() && (i > 0 || classes[k].incumbent is None
            || !plan.refreshed) ==> !crate::names::text_less(
            staging.left[k].candidates[j].name(),
            staging.left[k].candidates[i].name(),
        ),
{
    let next = advanced(v, ChangeEventView::ClassesLocked { state: a, classes }).phase;
    if next is Staging && 0 <= k < classes.len() {
        let c = classes[k];
        let list = stage_list(plan, pool.nodes(), Map::empty(), c.incumbent, c.regions);
        assert(next->Staging_staging.left[k].candidates == list);
        if 0 <= i < j < list.len() && (i > 0 || c.incumbent is None || !plan.refreshed) {
            crate::selection::law_profile_candidates_are_by_history(
                pool.nodes(),
                Map::empty(),
                if plan.refreshed {
                    c.incumbent
                } else {
                    None
                },
                if plan.refreshed {
                    c.regions
                } else {
                    Seq::empty()
                },
                i,
                j,
            );
        }
    }
}

/// The classes of a trusted target are staged by the statistics on record for
/// it: of two candidates of a class the one that scores higher in them is
/// tried first, and each class, in the order held, gets the next generation.
pub proof fn law_staging_goes_by_the_targets_history(
    v: ChangeView,
    plan: PlanView,
    pool: crate::transaction::PreparedPool,
    s: StateView,
    m: StatsMap,
    classes: Seq<HeldView>,
    k: int,
)
    requires
        v.phase == (PhaseView::Waiting { plan, pool }),
        plan.source_trusted,
        crate::transaction::on_record(s, plan.target, m),
        0 <= k < classes.len(),
    ensures
        advanced(v, ChangeEventView::ClassesLocked { state: s, classes }).phase matches
            PhaseView::Staging { staging, plan: p, pool: q } ==> {
            &&& p == plan && q == pool
            &&& staging.staged.len() == 0
            &&& staging.left.len() == classes.len()
            &&& staging.left[k].class == classes[k].name
            &&& classes[k].generation < u64::MAX ==> staging.left[k].generation
                == classes[k].generation + 1
            &&& staging.left[k].candidates.len() <= 5
            &&& forall|i: int, j: int|
                0 <= i < j < staging.left[k].candidates.len() && (i > 0 || classes[k].incumbent is None
                    || !plan.refreshed) ==> crate::selection::may_precede(
                    m,
                    #[trigger] staging.left[k].candidates[i],
                    #[trigger] staging.left[k].candidates[j],
                )
        },
        pool.nodes().len() > 0 && !plan.refreshed && classes[0].incumbent is None ==> advanced(
            v,
            ChangeEventView::ClassesLocked { state: s, classes },
        ).phase is Staging,
{
    let next = advanced(v, ChangeEventView::ClassesLocked { state: s, classes }).phase;
    let c = classes[k];
    crate::transaction::law_staged_candidates_go_by_the_targets_history(
        plan,
        s,
        m,
        pool.nodes(),
        c.incumbent,
        c.regions,
    );
    let stats = usable_stats(plan, s);
    if next is Staging {
        assert(next->Staging_staging.left[k] == stage_of(plan, pool.nodes(), stats, c));
    }
    if pool.nodes().len() > 0 && !plan.refreshed {
        let nodes = pool.nodes();
        let none = Seq::<Seq<char>>::empty();
        crate::selection::law_profile_candidates(nodes, stats, None, none);
        let all = crate::selection::profile_list(nodes, stats, None, none);
        let keep = |n: NodeView| crate::selection::in_regions(none, n.name());
        crate::seqs::lemma_kept(nodes, keep);
        assert(nodes.contains(nodes[0]));
        let inside = crate::selection::region_pool(nodes, none);
        assert(inside.contains(nodes[0]));
        let x = inside.index_of(nodes[0]);
        assert(inside[x].name() == nodes[0].name());
        assert(crate::node::named(inside, nodes[0].name()));
        assert(crate::node::named(all, nodes[0].name()));
        assert(stage_of(plan, nodes, stats, classes[0]).candidates.len() > 0);
    }
}

/// What a change asks for next: its sources and snapshot while it prepares,
/// the classes while it waits, the first candidate of the first class that is
/// not staged, the deadline once all are, the cache of a fresh pool in the
/// slot that is not confirmed, the catalog, the state that it made, and its
/// publication; and once refused nothing but the refusal.
pub proof fn law_steps_follow_the_phase(
    plan: PlanView,
    pool: crate::transaction::PreparedPool,
    staging: StagingView,
    staged: Seq<StagedView>,
    state: StateView,
    now: i64,
    fault: TransactionFault,
)
    ensures
        due(PhaseView::Preparing { plan }) matches ChangeStepView::Prepare { profile, paths }
            && profile == plan.profile && paths == plan.profile.files + snapshot_paths_of(
            plan.profile,
            plan.confirmed_slot,
        ),
        due(PhaseView::Waiting { plan, pool }) matches ChangeStepView::LockClasses { cached }
            && cached == (pool is Cached),
        staging.left.len() == 0 ==> due(PhaseView::Staging { plan, pool, staging })
            is CheckDeadline,
        staging.left.len() > 0 && staging.left[0].candidates.len() > 0 ==> (due(
            PhaseView::Staging { plan, pool, staging },
        ) matches ChangeStepView::Try { class, node } && class == staging.left[0].class && node
            == staging.left[0].candidates[0]),
        staging.left.len() > 0 && staging.left[0].candidates.len() == 0 ==> due(
            PhaseView::Staging { plan, pool, staging },
        ) == ChangeStepView::Refuse(TransactionFault::NoCandidate),
        due(PhaseView::Writing { plan, pool, staged }) matches ChangeStepView::WriteCache(w) && match pool {
            crate::transaction::PreparedPool::Cached(_) => w is None,
            crate::transaction::PreparedPool::Fresh(f) => match f.pending {
                None => w is None,
                Some((base, bytes)) => {
                    let slot = if plan.confirmed_slot == Some("a"@) {
                        "b"@
                    } else {
                        "a"@
                    };
                    let target = crate::subscription::cache_slot_of(base, slot);
                    &&& w is Some <==> target is Some
                    &&& w is Some ==> (w->0).0 == target->0 && (w->0).1 == bytes
                },
            },
        },
        due(PhaseView::Identifying { plan, pool, staged }) is InspectCatalog,
        due(PhaseView::Saving { plan, pool, staged, state, now }) == ChangeStepView::SaveState(
            state,
        ),
        due(PhaseView::Publishing { plan, pool, staged, state, now }) is Publish,
        due(PhaseView::Refused { fault, stop: staged }) == ChangeStepView::Refuse(fault),
{
}

/// A change that is late is refused before its commit begins, and not after:
/// the paths that it staged are then stopped.
pub proof fn law_deadline_binds_until_the_commit(v: ChangeView)
    ensures
        v.phase is Preparing || v.phase is Waiting ==> advanced(v, ChangeEventView::Overdue).phase
            == (PhaseView::Refused { fault: TransactionFault::TimedOut, stop: Seq::empty() }),
        v.phase matches PhaseView::Staging { staging, .. } ==> advanced(
            v,
            ChangeEventView::Overdue,
        ).phase == (PhaseView::Refused {
            fault: TransactionFault::TimedOut,
            stop: staging.staged,
        }),
        v.phase is Writing || v.phase is Identifying || v.phase is Saving || v.phase is Publishing
            || v.phase is Refused ==> advanced(v, ChangeEventView::Overdue) == v,
{
}

/// The state that a change saves and publishes is the one made from the state
/// that was looked at, for the target and the staged paths; what was staged is
/// what is published.
pub proof fn law_saved_state_is_the_committed_one(
    v: ChangeView,
    facts: FactMap,
    s: StateView,
    now: i64,
    o: SaveOutcome,
)
    requires
        v.phase is Identifying,
        identity_change(facts, v.before, v.catalog) is Ok,
    ensures
        ({
            let w = advanced(v, ChangeEventView::Inspected { facts, state: s, now });
            let ids = identity_change(facts, v.before, v.catalog)->Ok_0;
            &&& w.phase matches PhaseView::Saving { plan, pool, staged, state, now: at } && at == now
                && state == committed_state(s, ids.0, ids.1, pool, v.target, staged, now) && staged
                == v.phase->Identifying_staged && pool == v.phase->Identifying_pool && plan
                == v.phase->Identifying_plan
            &&& advanced(w, ChangeEventView::StateSaved(o)).phase matches PhaseView::Publishing {
                pool,
                staged,
                state,
                ..
            } && state == w.phase->Saving_state && staged == v.phase->Identifying_staged && pool
                == v.phase->Identifying_pool
            &&& advanced(w, ChangeEventView::StateFailed).phase == (PhaseView::Refused {
                fault: TransactionFault::StateCommitFailed,
                stop: v.phase->Identifying_staged,
            })
        }),
{
}

/// A published change retires the paths that the classes had, reports each
/// class that moved with its new node, and then the change itself.
pub proof fn law_publication_reports_every_class(v: ChangeView, live: LiveView, now: i64, i: int)
    requires
        endable(v, live.classes),
        v.phase is Publishing,
        0 <= i < live.classes.len(),
    ensures
        ({
            let end = change_end(v, live, now);
            let staged = v.phase->Publishing_staged;
            &&& end.retired.len() == live.classes.len() && end.retired[i] == live.classes[i].active
            &&& end.events.len() == live.classes.len() + 1
            &&& end.events[i] matches Event::Switched { class, node, reason, generation, unix }
                && class == live.classes[i].name && node == staged[i].node.name() && reason
                == "subscription-change"@ && generation == staged[i].generation && unix
                == v.phase->Publishing_now
            &&& end.events.last() is SubscriptionChanged
            &&& end.live.classes[i].active == Some(staged[i].node)
            &&& end.live.classes[i].route.socks_upstream == Some(staged[i].ports.socks)
            &&& end.live.classes[i].route.http_upstream == Some(staged[i].ports.http)
        }),
{
}

} // verus!
