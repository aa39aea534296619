//! Changing the subscription: prepare the target profile, stage one path per
//! class, commit cache and state, and only then publish everything at once.

use vstd::prelude::*;

use crate::config::{
    catalog_profile, identities_of, identity_of, CatalogView, FactMap, PathFact, ProfileView,
    SubscriptionProfileConfig, SubscriptionsConfig,
};
use crate::control::{refusal, Event, EventView, Reply, ReplyView, SubscriptionSwitchOutcome};
use crate::listener::published;
use crate::manifest::opt_view;
use crate::names::{Model, NameMap};
use crate::node::{pool, Node, NodeView};
use crate::recovery::fresh_backoff;
use crate::runtime::{clear_failures, failures_cleared, ClassRuntime, Ports, RuntimeView};
use crate::score::{NodeStats, NodeStatsView};
use crate::selection::{
    law_candidates_come_from_the_pool, profile_candidates, profile_list, MAX_SWITCH_CANDIDATES,
};
use crate::state::{
    activated, catalog_applied, persisted, ClassState, ClassStateView, StateFile, StateView,
    StatsMap, TextMap, STATE_VERSION,
};
use crate::subscription::{
    after_commit, all_nodes, fetched_view, load_profile_snapshot_from_slot, prepare_profile,
    prepared, snapshot_paths_of, written_view, FileText, PreparedProfile, PreparedView, ReadMap,
    SubscriptionError, SubscriptionFaultView, MAX_PROFILE_NODES,
};
use crate::text::{borrow_opt, opt_str, opt_text, same, texts};

verus! {

/// The active profile with its pool, published together.
pub struct SubscriptionRuntime {
    pub active: String,
    pub nodes: Vec<Node>,
    pub catalog: SubscriptionsConfig,
    /// Publication counter.
    pub generation: u64,
}

#[verifier::ext_equal]
pub struct SubscriptionView {
    pub active: Seq<char>,
    pub nodes: Seq<NodeView>,
    pub catalog: CatalogView,
    pub generation: u64,
}

impl View for SubscriptionRuntime {
    type V = SubscriptionView;

    open spec fn view(&self) -> SubscriptionView {
        SubscriptionView {
            active: self.active@,
            nodes: pool(self.nodes@),
            catalog: self.catalog@,
            generation: self.generation,
        }
    }
}

// ---------------------------------------------------------------------------
// Failures
// ---------------------------------------------------------------------------

/// Why a subscription change did not happen.
#[derive(Debug, Clone, Copy, PartialEq, Eq, Structural)]
pub enum TransactionFault {
    UnknownProfile,
    InvalidIdentity,
    TimedOut,
    PreparationFailed,
    TooManyNodes,
    ReloadAborted,
    NoCandidate,
    CacheCommitFailed,
    /// The identities of the catalog could not be taken at commit time.
    IdentityLost,
    StateCommitFailed,
}

pub open spec fn fault_text(f: TransactionFault) -> Seq<char> {
    match f {
        TransactionFault::UnknownProfile => "unknown subscription profile"@,
        TransactionFault::InvalidIdentity => "invalid subscription source identity"@,
        TransactionFault::TimedOut => "subscription transaction timed out before commit"@,
        TransactionFault::PreparationFailed => "subscription preparation failed"@,
        TransactionFault::TooManyNodes => "subscription node-count limit exceeded"@,
        TransactionFault::ReloadAborted => "reload aborted: active subscription changed"@,
        TransactionFault::NoCandidate => "no candidate passed pre-check for a class"@,
        TransactionFault::CacheCommitFailed => "subscription cache commit failed"@,
        TransactionFault::IdentityLost => "invalid subscription source identity"@,
        TransactionFault::StateCommitFailed => "subscription state commit failed"@,
    }
}

impl TransactionFault {
    /// The failure in words that name no URL, path or credential.
    pub fn message(&self) -> (r: &'static str)
        ensures
            r@ == fault_text(*self),
    {
        match self {
            TransactionFault::UnknownProfile => "unknown subscription profile",
            TransactionFault::InvalidIdentity => "invalid subscription source identity",
            TransactionFault::TimedOut => "subscription transaction timed out before commit",
            TransactionFault::PreparationFailed => "subscription preparation failed",
            TransactionFault::TooManyNodes => "subscription node-count limit exceeded",
            TransactionFault::ReloadAborted => "reload aborted: active subscription changed",
            TransactionFault::NoCandidate => "no candidate passed pre-check for a class",
            TransactionFault::CacheCommitFailed => "subscription cache commit failed",
            TransactionFault::IdentityLost => "invalid subscription source identity",
            TransactionFault::StateCommitFailed => "subscription state commit failed",
        }
    }
}

/// A change that was refused before it began leaves no event.
pub open spec fn fault_event(f: TransactionFault, target: Seq<char>, now: i64) -> Option<EventView> {
    match f {
        TransactionFault::UnknownProfile
        | TransactionFault::InvalidIdentity
        | TransactionFault::ReloadAborted => None,
        _ => Some(
            Event::SubscriptionChangeFailed { unix: now, profile: target, error: fault_text(f) },
        ),
    }
}

/// What the client and the event log are told of a failure.
pub fn report_fault(fault: TransactionFault, target: &str, now: i64) -> (r: (Reply, Option<Event>))
    ensures
        (r.0)@ == refusal(fault_text(fault)),
        opt_view(r.1) == fault_event(fault, target@, now),
{
    let reply = Reply::err(fault.message());
    let event = match fault {
        TransactionFault::UnknownProfile
        | TransactionFault::InvalidIdentity
        | TransactionFault::ReloadAborted => None,
        _ => Some(
            Event::SubscriptionChangeFailed {
                unix: now,
                profile: target.to_string(),
                error: fault.message().to_string(),
            },
        ),
    };
    (reply, event)
}

// ---------------------------------------------------------------------------
// The plan
// ---------------------------------------------------------------------------

/// What a change is about, as it was when the change began.
pub struct TransactionPlan {
    pub target: String,
    pub previous: String,
    /// The target is active already.
    pub refreshed: bool,
    pub profile: SubscriptionProfileConfig,
    pub confirmed_slot: Option<String>,
    /// The statistics and the cache of the target come from its source.
    pub source_trusted: bool,
    /// A failed refresh may fall back to the confirmed cache.
    pub cached_fallback: bool,
}

#[verifier::ext_equal]
pub struct PlanView {
    pub target: Seq<char>,
    pub previous: Seq<char>,
    pub refreshed: bool,
    pub profile: ProfileView,
    pub confirmed_slot: Option<Seq<char>>,
    pub source_trusted: bool,
    pub cached_fallback: bool,
}

impl View for TransactionPlan {
    type V = PlanView;

    open spec fn view(&self) -> PlanView {
        PlanView {
            target: self.target@,
            previous: self.previous@,
            refreshed: self.refreshed,
            profile: self.profile@,
            confirmed_slot: opt_text(self.confirmed_slot),
            source_trusted: self.source_trusted,
            cached_fallback: self.cached_fallback,
        }
    }
}

/// Does the profile have this identity in the catalog?
pub open spec fn catalog_identity_is(
    facts: FactMap,
    c: CatalogView,
    name: Seq<char>,
    identity: Seq<char>,
) -> bool {
    match catalog_profile(c, name) {
        Some(p) => match identity_of(facts, p) {
            Ok(id) => id == identity,
            Err(_) => false,
        },
        None => false,
    }
}

/// A source is trusted where the state confirms it and the running catalog
/// has the same one.
pub open spec fn plan_of(
    rt: SubscriptionView,
    s: StateView,
    facts: FactMap,
    catalog: CatalogView,
    target: Seq<char>,
    allow_cached: bool,
) -> Result<PlanView, TransactionFault> {
    match catalog_profile(catalog, target) {
        None => Err(TransactionFault::UnknownProfile),
        Some(profile) => match identity_of(facts, profile) {
            Err(_) => Err(TransactionFault::InvalidIdentity),
            Ok(identity) => {
                let refreshed = rt.active == target;
                let trusted = s.trusts(target, identity) && catalog_identity_is(
                    facts,
                    rt.catalog,
                    target,
                    identity,
                );
                Ok(
                    PlanView {
                        target,
                        previous: rt.active,
                        refreshed,
                        profile,
                        confirmed_slot: if s.slots.contains_key(target) {
                            Some(s.slots[target])
                        } else {
                            None
                        },
                        source_trusted: trusted,
                        cached_fallback: allow_cached && !refreshed && trusted,
                    },
                )
            },
        },
    }
}

pub open spec fn plan_result(r: Result<TransactionPlan, TransactionFault>) -> Result<
    PlanView,
    TransactionFault,
> {
    match r {
        Ok(p) => Ok(p@),
        Err(e) => Err(e),
    }
}

/// A change that has not begun its commit after this long is given up.
pub const PRECOMMIT_TIMEOUT_MS: u64 = 150_000;

/// Begin a change to `target` in `catalog`.
pub fn begin_transaction(
    runtime: &SubscriptionRuntime,
    state: &StateFile,
    facts: &NameMap<PathFact>,
    catalog: &SubscriptionsConfig,
    target: &str,
    allow_cached: bool,
) -> (r: Result<TransactionPlan, TransactionFault>)
    ensures
        plan_result(r) == plan_of(runtime@, state@, facts@, catalog@, target@, allow_cached),
{
    let profile = match catalog.profile(target) {
        Some(p) => p,
        None => return Err(TransactionFault::UnknownProfile),
    };
    let identity = match profile.source_identity(facts) {
        Ok(id) => id,
        Err(_) => return Err(TransactionFault::InvalidIdentity),
    };
    let refreshed = same(runtime.active.as_str(), target);
    let unchanged = match runtime.catalog.profile(target) {
        Some(p) => match p.source_identity(facts) {
            Ok(id) => same(id.as_str(), identity.as_str()),
            Err(_) => false,
        },
        None => false,
    };
    let confirmed_slot = match state.slots().get(target) {
        Some(slot) => Some(slot.clone()),
        None => None,
    };
    let source_trusted = state.source_is_trusted(target, identity.as_str()) && unchanged;
    Ok(
        TransactionPlan {
            target: target.to_string(),
            previous: runtime.active.clone(),
            refreshed,
            profile,
            confirmed_slot,
            source_trusted,
            cached_fallback: allow_cached && !refreshed && source_trusted,
        },
    )
}

// ---------------------------------------------------------------------------
// Preparation
// ---------------------------------------------------------------------------

/// A candidate pool, fresh from its source or from the confirmed cache.
pub enum PreparedSubscription {
    Fresh(PreparedProfile),
    Cached(Vec<Node>),
}

pub enum PreparedPool {
    Fresh(PreparedView),
    Cached(Seq<NodeView>),
}

impl View for PreparedSubscription {
    type V = PreparedPool;

    open spec fn view(&self) -> PreparedPool {
        match self {
            PreparedSubscription::Fresh(p) => PreparedPool::Fresh(p@),
            PreparedSubscription::Cached(v) => PreparedPool::Cached(pool(v@)),
        }
    }
}

impl PreparedPool {
    pub open spec fn nodes(self) -> Seq<NodeView> {
        match self {
            PreparedPool::Fresh(p) => p.nodes,
            PreparedPool::Cached(v) => v,
        }
    }

    /// The cache slot that was committed for it.
    pub open spec fn slot(self) -> Option<Seq<char>> {
        match self {
            PreparedPool::Fresh(p) => p.slot,
            PreparedPool::Cached(_) => None,
        }
    }
}

impl PreparedSubscription {
    pub fn nodes(&self) -> (r: &Vec<Node>)
        ensures
            pool(r@) == self@.nodes(),
    {
        match self {
            PreparedSubscription::Fresh(p) => p.nodes(),
            PreparedSubscription::Cached(v) => v,
        }
    }

    pub fn into_nodes(self) -> (r: Vec<Node>)
        ensures
            pool(r@) == self@.nodes(),
    {
        match self {
            PreparedSubscription::Fresh(p) => p.into_nodes(),
            PreparedSubscription::Cached(v) => v,
        }
    }

    pub fn is_fresh(&self) -> (r: bool)
        ensures
            r == (self@ is Fresh),
    {
        match self {
            PreparedSubscription::Fresh(_) => true,
            PreparedSubscription::Cached(_) => false,
        }
    }

    pub fn committed_slot(&self) -> (r: Option<&str>)
        ensures
            opt_str(r) == self@.slot(),
    {
        match self {
            PreparedSubscription::Fresh(p) => p.committed_slot(),
            PreparedSubscription::Cached(_) => None,
        }
    }
}

/// What preparation gives: the source, or else the confirmed cache where the
/// plan allows it.
pub open spec fn prepared_pool(
    plan: PlanView,
    read: ReadMap,
    fetched: Result<Seq<char>, SubscriptionFaultView>,
) -> Option<PreparedPool> {
    match prepared(plan.profile, read, fetched) {
        Ok(p) => Some(PreparedPool::Fresh(p)),
        Err(_) => {
            let cached = all_nodes(snapshot_paths_of(plan.profile, plan.confirmed_slot), read);
            if plan.cached_fallback && cached.len() > 0 {
                Some(PreparedPool::Cached(cached))
            } else {
                None
            }
        },
    }
}

pub fn prepare_subscription(
    plan: &TransactionPlan,
    read: &NameMap<FileText<String>>,
    fetched: Result<String, SubscriptionError>,
) -> (r: Option<PreparedSubscription>)
    ensures
        opt_view(r) == prepared_pool(plan@, read@, fetched_view(fetched)),
{
    match prepare_profile(&plan.profile, read, fetched) {
        Ok(p) => Some(PreparedSubscription::Fresh(p)),
        Err(_) => {
            if !plan.cached_fallback {
                return None;
            }
            let nodes = load_profile_snapshot_from_slot(
                &plan.profile,
                borrow_opt(&plan.confirmed_slot),
                read,
            );
            assert(pool(nodes@).len() == nodes@.len());
            if nodes.len() == 0 {
                None
            } else {
                Some(PreparedSubscription::Cached(nodes))
            }
        },
    }
}

/// A pool that may be staged is neither empty nor too large, and a reload
/// does not go on once another change has won.
pub open spec fn acceptance(
    p: Option<PreparedPool>,
    is_reload: bool,
    previous: Seq<char>,
    active_now: Seq<char>,
) -> Option<TransactionFault> {
    match p {
        None => Some(TransactionFault::PreparationFailed),
        Some(p) => if p.nodes().len() == 0 {
            Some(TransactionFault::PreparationFailed)
        } else if p.nodes().len() > MAX_PROFILE_NODES {
            Some(TransactionFault::TooManyNodes)
        } else if is_reload && active_now != previous {
            Some(TransactionFault::ReloadAborted)
        } else {
            None
        },
    }
}

pub fn check_prepared(
    prepared: &Option<PreparedSubscription>,
    is_reload: bool,
    previous: &str,
    active_now: &str,
) -> (r: Option<TransactionFault>)
    ensures
        r == acceptance(opt_view(*prepared), is_reload, previous@, active_now@),
{
    match prepared {
        None => Some(TransactionFault::PreparationFailed),
        Some(p) => {
            let nodes = p.nodes();
            assert(pool(nodes@).len() == nodes@.len());
            if nodes.len() == 0 {
                Some(TransactionFault::PreparationFailed)
            } else if nodes.len() > MAX_PROFILE_NODES {
                Some(TransactionFault::TooManyNodes)
            } else if is_reload && !same(active_now, previous) {
                Some(TransactionFault::ReloadAborted)
            } else {
                None
            }
        },
    }
}

/// An unconfirmed or changed source never falls back to a cache, and neither
/// does a refresh of the active profile.
pub proof fn law_no_fallback_without_trust(
    rt: SubscriptionView,
    s: StateView,
    facts: FactMap,
    catalog: CatalogView,
    target: Seq<char>,
    allow_cached: bool,
    read: ReadMap,
    fetched: Result<Seq<char>, SubscriptionFaultView>,
)
    requires
        plan_of(rt, s, facts, catalog, target, allow_cached) is Ok,
        prepared_pool(
            plan_of(rt, s, facts, catalog, target, allow_cached)->Ok_0,
            read,
            fetched,
        ) is Some,
        prepared_pool(
            plan_of(rt, s, facts, catalog, target, allow_cached)->Ok_0,
            read,
            fetched,
        )->0 is Cached,
    ensures
        allow_cached,
        rt.active != target,
        s.trusts(target, identity_of(facts, catalog_profile(catalog, target)->0)->Ok_0),
        catalog_identity_is(
            facts,
            rt.catalog,
            target,
            identity_of(facts, catalog_profile(catalog, target)->0)->Ok_0,
        ),
{
}

// ---------------------------------------------------------------------------
// Staging
// ---------------------------------------------------------------------------

/// The statistics that order the candidates: only those of a trusted source.
pub open spec fn usable_stats(plan: PlanView, s: StateView) -> StatsMap {
    if plan.source_trusted && s.stats_of(plan.target) is Some {
        s.stats_of(plan.target)->0
    } else {
        Map::empty()
    }
}

pub fn stats_for_plan(plan: &TransactionPlan, state: &StateFile) -> (r: NameMap<NodeStats>)
    ensures
        r@ == usable_stats(plan@, state@),
{
    if plan.source_trusted {
        match state.nodes_for_subscription(plan.target.as_str()) {
            Some(m) => m.dup(),
            None => NameMap::new(),
        }
    } else {
        NameMap::new()
    }
}

pub open spec fn at_most<T>(s: Seq<T>, n: nat) -> Seq<T> {
    if s.len() <= n {
        s
    } else {
        s.take(n as int)
    }
}

/// The candidates for one class. A refresh prefers the incumbent and stays
/// inside the regions; a change of profile does neither, because the names of
/// the new profile may follow another scheme.
pub open spec fn stage_list(
    plan: PlanView,
    nodes: Seq<NodeView>,
    stats: StatsMap,
    incumbent: Option<Seq<char>>,
    regions: Seq<Seq<char>>,
) -> Seq<NodeView> {
    at_most(
        profile_list(
            nodes,
            stats,
            if plan.refreshed {
                incumbent
            } else {
                None
            },
            if plan.refreshed {
                regions
            } else {
                Seq::empty()
            },
        ),
        MAX_SWITCH_CANDIDATES as nat,
    )
}

pub proof fn lemma_stage_list_from_pool(
    plan: PlanView,
    nodes: Seq<NodeView>,
    stats: StatsMap,
    incumbent: Option<Seq<char>>,
    regions: Seq<Seq<char>>,
    n: NodeView,
)
    requires
        stage_list(plan, nodes, stats, incumbent, regions).contains(n),
    ensures
        nodes.contains(n),
{
    let preferred = if plan.refreshed {
        incumbent
    } else {
        None
    };
    let inside = if plan.refreshed {
        regions
    } else {
        Seq::empty()
    };
    let list = profile_list(nodes, stats, preferred, inside);
    let k = stage_list(plan, nodes, stats, incumbent, regions).index_of(n);
    assert(list[k] == n);
    law_candidates_come_from_the_pool(nodes, stats, preferred, inside, n);
}

pub fn stage_candidates(
    plan: &TransactionPlan,
    nodes: &Vec<Node>,
    stats: &NameMap<NodeStats>,
    incumbent: Option<&str>,
    regions: &Vec<String>,
) -> (r: Vec<Node>)
    ensures
        pool(r@) == stage_list(
            plan@,
            pool(nodes@),
            stats@,
            opt_str(incumbent),
            texts(regions@),
        ),
{
    let everywhere: Vec<String> = Vec::new();
    assert(texts(everywhere@) =~= Seq::<Seq<char>>::empty());
    let mut list = if plan.refreshed {
        profile_candidates(nodes, stats, incumbent, regions)
    } else {
        profile_candidates(nodes, stats, None, &everywhere)
    };
    let ghost all = pool(list@);
    assert(all.len() == list@.len());
    if list.len() > MAX_SWITCH_CANDIDATES {
        list.truncate(MAX_SWITCH_CANDIDATES);
        assert(pool(list@) =~= all.take(MAX_SWITCH_CANDIDATES as int));
    }
    list
}

/// One class with the candidates that are left for it.
pub struct ClassStage {
    pub class: String,
    /// The generation that its route gets.
    pub generation: u64,
    pub candidates: Vec<Node>,
}

#[verifier::ext_equal]
pub struct StageView {
    pub class: Seq<char>,
    pub generation: u64,
    pub candidates: Seq<NodeView>,
}

impl View for ClassStage {
    type V = StageView;

    open spec fn view(&self) -> StageView {
        StageView {
            class: self.class@,
            generation: self.generation,
            candidates: pool(self.candidates@),
        }
    }
}

/// A path that passed its pre-check and waits for publication.
pub struct StagedPath {
    pub class: String,
    pub node: Node,
    pub ports: Ports,
    pub generation: u64,
}

#[verifier::ext_equal]
pub struct StagedView {
    pub class: Seq<char>,
    pub node: NodeView,
    pub ports: Ports,
    pub generation: u64,
}

impl View for StagedPath {
    type V = StagedView;

    open spec fn view(&self) -> StagedView {
        StagedView {
            class: self.class@,
            node: self.node@,
            ports: self.ports,
            generation: self.generation,
        }
    }
}

pub open spec fn stages(v: Seq<ClassStage>) -> Seq<StageView> {
    v.map_values(|c: ClassStage| c@)
}

pub open spec fn staged_views(v: Seq<StagedPath>) -> Seq<StagedView> {
    v.map_values(|c: StagedPath| c@)
}

/// The generation that follows, for a route that wraps around.
pub open spec fn next_generation(g: u64) -> u64 {
    if g == u64::MAX {
        0
    } else {
        (g + 1) as u64
    }
}

pub fn following(g: u64) -> (r: u64)
    ensures
        r == next_generation(g),
{
    if g == u64::MAX {
        0
    } else {
        g + 1
    }
}

/// Staging under way: the classes that still need a path, and the paths that
/// are ready.
pub struct Staging {
    left: Vec<ClassStage>,
    class_at: usize,
    node_at: usize,
    staged: Vec<StagedPath>,
}

#[verifier::ext_equal]
pub struct StagingView {
    pub left: Seq<StageView>,
    pub staged: Seq<StagedView>,
}

/// The first class without the candidates that failed, and those behind it.
pub open spec fn remaining(all: Seq<StageView>, class_at: int, node_at: int) -> Seq<StageView> {
    if class_at < all.len() {
        let c = all[class_at];
        seq![StageView { candidates: c.candidates.skip(node_at), ..c }] + all.skip(class_at + 1)
    } else {
        Seq::empty()
    }
}

impl View for Staging {
    type V = StagingView;

    closed spec fn view(&self) -> StagingView {
        StagingView {
            left: remaining(stages(self.left@), self.class_at as int, self.node_at as int),
            staged: staged_views(self.staged@),
        }
    }
}

/// What staging does next.
pub enum StageAction {
    Try { class: String, node: Node },
    /// Every class has a path: commit.
    Commit,
    /// A class has no candidate left: stop what was staged.
    Abort,
}

pub open spec fn stage_action(v: StagingView, a: StageAction) -> bool {
    match a {
        StageAction::Commit => v.left.len() == 0,
        StageAction::Abort => v.left.len() > 0 && v.left[0].candidates.len() == 0,
        StageAction::Try { class, node } => v.left.len() > 0 && v.left[0].candidates.len() > 0
            && class@ == v.left[0].class && node@ == v.left[0].candidates[0],
    }
}

/// The candidate passed: its class is done.
pub open spec fn stage_passed(v: StagingView, ports: Ports) -> StagingView {
    StagingView {
        left: v.left.skip(1),
        staged: v.staged.push(
            StagedView {
                class: v.left[0].class,
                node: v.left[0].candidates[0],
                ports,
                generation: v.left[0].generation,
            },
        ),
    }
}

/// The candidate failed: the class goes on with the next.
pub open spec fn stage_failed(v: StagingView) -> StagingView {
    StagingView {
        left: v.left.update(
            0,
            StageView { candidates: v.left[0].candidates.skip(1), ..v.left[0] },
        ),
        ..v
    }
}

impl Staging {
    #[verifier::type_invariant]
    spec fn wf(self) -> bool {
        &&& self.class_at <= self.left@.len()
        &&& self.class_at < self.left@.len() ==> self.node_at
            <= self.left@[self.class_at as int].candidates@.len()
        &&& self.class_at == self.left@.len() ==> self.node_at == 0
    }

    pub fn new(classes: Vec<ClassStage>) -> (r: Self)
        ensures
            r@.left == stages(classes@),
            r@.staged == Seq::<StagedView>::empty(),
    {
        let r = Staging { left: classes, class_at: 0, node_at: 0, staged: Vec::new() };
        proof {
            let all = stages(classes@);
            assert(r@.staged =~= Seq::<StagedView>::empty());
            if all.len() > 0 {
                assert(all[0].candidates.skip(0) =~= all[0].candidates);
                assert(r@.left =~= all);
            } else {
                assert(r@.left =~= all);
            }
        }
        r
    }

    pub fn action(&self) -> (r: StageAction)
        ensures
            stage_action(self@, r),
    {
        proof {
            use_type_invariant(self);
        }
        if self.class_at >= self.left.len() {
            return StageAction::Commit;
        }
        let c = &self.left[self.class_at];
        assert(self@.left[0].candidates == pool(c.candidates@).skip(self.node_at as int));
        if self.node_at >= c.candidates.len() {
            return StageAction::Abort;
        }
        assert(pool(c.candidates@).skip(self.node_at as int)[0]
            == c.candidates@[self.node_at as int]@);
        StageAction::Try { class: c.class.clone(), node: c.candidates[self.node_at].dup() }
    }

    pub fn passed(&mut self, ports: Ports)
        requires
            old(self)@.left.len() > 0,
            old(self)@.left[0].candidates.len() > 0,
        ensures
            final(self)@ == stage_passed(old(self)@, ports),
    {
        proof {
            use_type_invariant(&*self);
        }
        let ghost before = self@;
        let ghost all = stages(self.left@);
        let n: usize = self.left.len();
        let mut staged: Vec<StagedPath> = Vec::new();
        std::mem::swap(&mut staged, &mut self.staged);
        let at: usize = self.class_at;
        assert(at < n);
        let k: usize = self.node_at;
        let path = {
            let c = &self.left[at];
            assert(before.left[0].candidates == pool(c.candidates@).skip(k as int));
            assert(k < c.candidates@.len());
            StagedPath {
                class: c.class.clone(),
                node: c.candidates[k].dup(),
                ports,
                generation: c.generation,
            }
        };
        let ghost pv = path@;
        let ghost sb = staged_views(staged@);
        staged.push(path);
        assert(staged_views(staged@) =~= sb.push(pv));
        self.staged = staged;
        self.node_at = 0;
        self.class_at = at + 1;
        proof {
            let want = before.left.skip(1);
            if at + 1 < all.len() {
                assert(all[at + 1].candidates.skip(0) =~= all[at + 1].candidates);
            }
            assert(self@.left =~= want);
            assert(self@.staged =~= stage_passed(before, ports).staged);
        }
    }

    pub fn failed(&mut self)
        requires
            old(self)@.left.len() > 0,
            old(self)@.left[0].candidates.len() > 0,
        ensures
            final(self)@ == stage_failed(old(self)@),
    {
        proof {
            use_type_invariant(&*self);
        }
        let ghost before = self@;
        let ghost all = stages(self.left@);
        let at: usize = self.class_at;
        let n: usize = self.left.len();
        assert(at < n);
        let m: usize = self.left[at].candidates.len();
        assert(self.node_at < m);
        let k: usize = self.node_at;
        self.node_at = k + 1;
        proof {
            let c = all[at as int];
            assert(c.candidates.skip(k + 1) =~= c.candidates.skip(k as int).skip(1));
            assert(self@.left =~= stage_failed(before).left);
        }
    }

    pub fn into_staged(self) -> (r: Vec<StagedPath>)
        ensures
            staged_views(r@) == self@.staged,
    {
        self.staged
    }
}

/// Staging holds to its plan: the ready paths are those of the first classes
/// in order, each with one of its candidates, and the others are untouched
/// but for candidates that failed.
pub open spec fn staging_follows(plan: Seq<StageView>, v: StagingView) -> bool {
    &&& v.staged.len() + v.left.len() == plan.len()
    &&& forall|i: int|
        0 <= i < v.staged.len() ==> (#[trigger] v.staged[i]).class == plan[i].class
            && v.staged[i].generation == plan[i].generation && plan[i].candidates.contains(
            v.staged[i].node,
        )
    &&& forall|i: int|
        0 <= i < v.left.len() ==> (#[trigger] v.left[i]).class == plan[v.staged.len() + i].class
            && v.left[i].generation == plan[v.staged.len() + i].generation && forall|n: NodeView|
            v.left[i].candidates.contains(n) ==> #[trigger] plan[v.staged.len()
                + i].candidates.contains(n)
}

/// However staging goes, it holds to its plan; so when it reaches the commit,
/// every class has exactly one path, through one of its own candidates.
pub proof fn law_staging_covers_every_class(plan: Seq<StageView>, v: StagingView, ports: Ports)
    ensures
        staging_follows(plan, (StagingView { left: plan, staged: Seq::empty() })),
        staging_follows(plan, v) && v.left.len() > 0 && v.left[0].candidates.len() > 0
            ==> staging_follows(plan, stage_passed(v, ports)) && staging_follows(
            plan,
            stage_failed(v),
        ),
        staging_follows(plan, v) && v.left.len() == 0 ==> v.staged.len() == plan.len(),
{
    if staging_follows(plan, v) && v.left.len() > 0 && v.left[0].candidates.len() > 0 {
        let p = stage_passed(v, ports);
        let k = v.staged.len() as int;
        assert(v.left[0].candidates.contains(v.left[0].candidates[0]));
        assert(plan[k + 0].candidates.contains(v.left[0].candidates[0]));
        assert forall|i: int| 0 <= i < p.staged.len() implies (#[trigger] p.staged[i]).class
            == plan[i].class && p.staged[i].generation == plan[i].generation
            && plan[i].candidates.contains(p.staged[i].node) by {
            if i < k {
                assert(p.staged[i] == v.staged[i]);
            } else {
                assert(plan[k + 0] == plan[i]);
            }
        }
        assert forall|i: int| 0 <= i < p.left.len() implies (#[trigger] p.left[i]).class
            == plan[p.staged.len() + i].class && p.left[i].generation == plan[p.staged.len()
            + i].generation && forall|n: NodeView|
            p.left[i].candidates.contains(n) ==> #[trigger] plan[p.staged.len()
                + i].candidates.contains(n) by {
            assert(p.left[i] == v.left[i + 1]);
            assert(p.staged.len() + i == k + (i + 1));
            assert forall|n: NodeView| p.left[i].candidates.contains(n) implies #[trigger] plan[
            p.staged.len() + i].candidates.contains(n) by {
                assert(plan[k + (i + 1)].candidates.contains(n));
            }
        }
        let f = stage_failed(v);
        assert forall|i: int| 0 <= i < f.left.len() implies (#[trigger] f.left[i]).class
            == plan[f.staged.len() + i].class && f.left[i].generation == plan[f.staged.len()
            + i].generation && forall|n: NodeView|
            f.left[i].candidates.contains(n) ==> #[trigger] plan[f.staged.len()
                + i].candidates.contains(n) by {
            assert(v.left[i].class == plan[k + i].class);
            if i == 0 {
                assert forall|n: NodeView| f.left[0].candidates.contains(n) implies #[trigger] plan[
                k + 0].candidates.contains(n) by {
                    let j = f.left[0].candidates.index_of(n);
                    assert(v.left[0].candidates[j + 1] == n);
                    assert(v.left[0].candidates.contains(n));
                }
            } else {
                assert(f.left[i] == v.left[i]);
            }
        }
    }
}

// ---------------------------------------------------------------------------
// Commit
// ---------------------------------------------------------------------------

/// The pool once its cache is committed, given how writing went. A cached
/// pool has nothing to commit.
pub open spec fn cache_committed(
    p: PreparedPool,
    confirmed: Option<Seq<char>>,
    written: Result<(), SubscriptionFaultView>,
) -> Result<PreparedPool, TransactionFault> {
    match p {
        PreparedPool::Cached(v) => Ok(PreparedPool::Cached(v)),
        PreparedPool::Fresh(f) => match after_commit(f, confirmed, written) {
            (done, Ok(_)) => Ok(PreparedPool::Fresh(done)),
            (_, Err(_)) => Err(TransactionFault::CacheCommitFailed),
        },
    }
}

pub fn commit_prepared_cache(
    prepared: PreparedSubscription,
    confirmed_slot: Option<&str>,
    written: Result<(), SubscriptionError>,
) -> (r: Result<PreparedSubscription, TransactionFault>)
    ensures
        match r {
            Ok(p) => cache_committed(
                prepared@,
                opt_str(confirmed_slot),
                written_view(written),
            ) == Ok::<PreparedPool, TransactionFault>(p@),
            Err(e) => cache_committed(
                prepared@,
                opt_str(confirmed_slot),
                written_view(written),
            ) == Err::<PreparedPool, TransactionFault>(e),
        },
{
    match prepared {
        PreparedSubscription::Cached(v) => Ok(PreparedSubscription::Cached(v)),
        PreparedSubscription::Fresh(f) => {
            let mut fresh = f;
            match fresh.commit_cache_slot(confirmed_slot, written) {
                Ok(_) => Ok(PreparedSubscription::Fresh(fresh)),
                Err(_) => Err(TransactionFault::CacheCommitFailed),
            }
        },
    }
}

/// The identities before and after the change. An old catalog that has none
/// counts as empty.
pub open spec fn identity_change(facts: FactMap, before: CatalogView, after: CatalogView) -> Result<
    (TextMap, TextMap),
    TransactionFault,
> {
    match identities_of(facts, after) {
        Err(_) => Err(TransactionFault::IdentityLost),
        Ok(next) => Ok(
            (
                match identities_of(facts, before) {
                    Ok(previous) => previous,
                    Err(_) => Map::empty(),
                },
                next,
            ),
        ),
    }
}

pub fn take_identities(
    facts: &NameMap<PathFact>,
    before: &SubscriptionsConfig,
    after: &SubscriptionsConfig,
) -> (r: Result<(NameMap<String>, NameMap<String>), TransactionFault>)
    ensures
        match r {
            Ok((previous, next)) => identity_change(facts@, before@, after@) == Ok::<
                (TextMap, TextMap),
                TransactionFault,
            >((previous@, next@)),
            Err(e) => identity_change(facts@, before@, after@) == Err::<
                (TextMap, TextMap),
                TransactionFault,
            >(e),
        },
{
    let next = match after.source_identities(facts) {
        Ok(m) => m,
        Err(_) => return Err(TransactionFault::IdentityLost),
    };
    let previous = match before.source_identities(facts) {
        Ok(m) => m,
        Err(_) => NameMap::new(),
    };
    Ok((previous, next))
}

/// The state with the staged routes entered. Their ports stay out: before
/// publication they must not look live.
pub open spec fn routes_entered(s: StateView, staged: Seq<StagedView>) -> StateView
    decreases staged.len(),
{
    if staged.len() == 0 {
        s
    } else {
        let before = routes_entered(s, staged.drop_last());
        let p = staged.last();
        StateView {
            classes: before.classes.insert(
                p.class,
                ClassStateView {
                    active_node: Some(p.node.name()),
                    socks_port: None,
                    http_port: None,
                    generation: p.generation,
                },
            ),
            nodes: failures_cleared(before.nodes, p.node.name()),
            ..before
        }
    }
}

/// The state that a change commits before anything goes live.
pub open spec fn committed_state(
    s: StateView,
    previous: TextMap,
    next: TextMap,
    p: PreparedPool,
    target: Seq<char>,
    staged: Seq<StagedView>,
    now: i64,
) -> StateView {
    let fresh = if p is Fresh {
        Some(target)
    } else {
        None
    };
    let selected = activated(catalog_applied(s, previous, next, fresh), target);
    let slotted = StateView {
        slots: match p.slot() {
            Some(slot) => selected.slots.insert(target, slot),
            None => selected.slots,
        },
        ..selected
    };
    StateView { updated_unix: now, ..routes_entered(slotted, staged) }
}

pub fn plan_state(
    state: &StateFile,
    previous: &NameMap<String>,
    next: &NameMap<String>,
    prepared: &PreparedSubscription,
    target: &str,
    staged: &Vec<StagedPath>,
    now: i64,
) -> (r: StateFile)
    ensures
        r@ == committed_state(
            state@,
            previous@,
            next@,
            prepared@,
            target@,
            staged_views(staged@),
            now,
        ),
{
    let mut st = state.dup();
    let fresh = if prepared.is_fresh() {
        Some(target)
    } else {
        None
    };
    st.apply_subscription_catalog(previous, next, fresh);
    st.activate_subscription(target);
    if let Some(slot) = prepared.committed_slot() {
        st.set_slot(target, slot);
    }
    let ghost slotted = st@;
    let ghost all = staged_views(staged@);
    let mut i: usize = 0;
    assert(all.take(0) =~= Seq::<StagedView>::empty());
    while i < staged.len()
        invariant
            i <= staged@.len(),
            all == staged_views(staged@),
            st@ == routes_entered(slotted, all.take(i as int)),
        decreases staged@.len() - i,
    {
        let path = &staged[i];
        proof {
            let t = all.take(i + 1);
            assert(t.drop_last() =~= all.take(i as int));
            assert(t.last() == path@);
        }
        st.set_class(
            path.class.as_str(),
            ClassState {
                active_node: Some(path.node.name().to_string()),
                socks_port: None,
                http_port: None,
                generation: path.generation,
            },
        );
        clear_failures(&mut st, path.node.name());
        i = i + 1;
    }
    assert(all.take(staged@.len() as int) =~= all);
    st.set_updated(now);
    st
}

proof fn lemma_routes_entered(s: StateView, staged: Seq<StagedView>)
    ensures
        ({
            let t = routes_entered(s, staged);
            &&& t.version == s.version && t.active == s.active && t.slots == s.slots
                && t.identities == s.identities && t.pending == s.pending && t.inactive
                == s.inactive && t.verdicts == s.verdicts
            &&& t.nodes.dom() == s.nodes.dom()
        }),
    decreases staged.len(),
{
    if staged.len() > 0 {
        lemma_routes_entered(s, staged.drop_last());
        let before = routes_entered(s, staged.drop_last());
        assert(routes_entered(s, staged).nodes.dom() =~= before.nodes.dom());
    }
}

pub proof fn lemma_committed_selects(
    s: StateView,
    previous: TextMap,
    next: TextMap,
    p: PreparedPool,
    target: Seq<char>,
    staged: Seq<StagedView>,
    now: i64,
)
    ensures
        committed_state(s, previous, next, p, target, staged, now).active == Some(target),
{
    let fresh = if p is Fresh {
        Some(target)
    } else {
        None
    };
    let selected = activated(catalog_applied(s, previous, next, fresh), target);
    lemma_routes_entered(
        StateView {
            slots: match p.slot() {
                Some(slot) => selected.slots.insert(target, slot),
                None => selected.slots,
            },
            ..selected
        },
        staged,
    );
}

/// The committed state selects the target, holds its statistics once, can be
/// saved, and trusts the target's source where the pool came fresh from it.
pub proof fn law_committed_state(
    s: StateView,
    previous: TextMap,
    next: TextMap,
    p: PreparedPool,
    target: Seq<char>,
    staged: Seq<StagedView>,
    now: i64,
)
    requires
        s.version == STATE_VERSION,
        s.one_copy(),
        next.contains_key(target),
    ensures
        ({
            let t = committed_state(s, previous, next, p, target, staged, now);
            &&& t.active == Some(target)
            &&& t.one_copy()
            &&& persisted(t) is Ok
            &&& t.updated_unix == now
            &&& p is Fresh ==> t.trusts(target, next[target])
            &&& p.slot() is Some ==> t.slots.contains_key(target) && t.slots[target]
                == p.slot()->0
        }),
{
    let fresh = if p is Fresh {
        Some(target)
    } else {
        None
    };
    let applied = catalog_applied(s, previous, next, fresh);
    let selected = activated(applied, target);
    let slotted = StateView {
        slots: match p.slot() {
            Some(slot) => selected.slots.insert(target, slot),
            None => selected.slots,
        },
        ..selected
    };
    lemma_routes_entered(slotted, staged);
    if p is Fresh {
        crate::state::law_fresh_source_is_trusted(s, previous, next, target);
    }
}

/// A change of profile never carries the statistics of a changed source over:
/// the target starts from nothing.
pub proof fn law_changed_target_starts_fresh(
    s: StateView,
    previous: TextMap,
    next: TextMap,
    p: PreparedPool,
    target: Seq<char>,
    staged: Seq<StagedView>,
    now: i64,
)
    requires
        s.version == STATE_VERSION,
        s.one_copy(),
        next.contains_key(target),
        crate::state::source_changed(s, previous, next, target),
    ensures
        committed_state(s, previous, next, p, target, staged, now).nodes.dom() == Set::<
            Seq<char>,
        >::empty(),
{
    let fresh = if p is Fresh {
        Some(target)
    } else {
        None
    };
    let applied = catalog_applied(s, previous, next, fresh);
    let selected = activated(applied, target);
    let slotted = StateView {
        slots: match p.slot() {
            Some(slot) => selected.slots.insert(target, slot),
            None => selected.slots,
        },
        ..selected
    };
    lemma_routes_entered(slotted, staged);
    let r = crate::state::pruned(s, next.dom());
    assert(crate::state::source_changed(r, previous, next, target));
    assert(selected.nodes == Map::<Seq<char>, NodeStatsView>::empty());
    assert(selected.nodes.dom() =~= Set::<Seq<char>>::empty());
}

// ---------------------------------------------------------------------------
// Publication
// ---------------------------------------------------------------------------

/// The committed state once its routes are live: the ports are known.
pub open spec fn ports_entered(s: StateView, staged: Seq<StagedView>) -> StateView
    decreases staged.len(),
{
    if staged.len() == 0 {
        s
    } else {
        let before = ports_entered(s, staged.drop_last());
        let p = staged.last();
        let route = if before.classes.contains_key(p.class) {
            before.classes[p.class]
        } else {
            crate::state::no_route()
        };
        StateView {
            classes: before.classes.insert(
                p.class,
                ClassStateView {
                    socks_port: Some(p.ports.socks),
                    http_port: Some(p.ports.http),
                    ..route
                },
            ),
            ..before
        }
    }
}

/// A class once its staged path is live.
pub open spec fn class_published(
    rt: RuntimeView,
    p: StagedView,
    subscription: Seq<char>,
) -> RuntimeView {
    RuntimeView {
        route: published(
            rt.route,
            p.ports.socks,
            p.ports.http,
            p.node.name(),
            p.generation,
            subscription,
        ),
        active: Some(p.node),
        auto_recovery: fresh_backoff(),
        health_failures: 0,
        ..rt
    }
}

impl SubscriptionRuntime {
    /// Publish a profile: its name, its pool and the catalog together.
    pub fn publish(&mut self, target: &str, nodes: Vec<Node>, catalog: SubscriptionsConfig)
        ensures
            final(self)@ == (SubscriptionView {
                active: target@,
                nodes: pool(nodes@),
                catalog: catalog@,
                generation: next_generation(old(self).generation),
            }),
    {
        self.active = target.to_string();
        self.nodes = nodes;
        self.catalog = catalog;
        self.generation = following(self.generation);
    }
}

/// The reply to a change that went through.
pub open spec fn change_reply(plan: PlanView, node_count: usize) -> ReplyView {
    ReplyView {
        subscription_switch: Some(
            SubscriptionSwitchOutcome {
                previous: plan.previous,
                active: plan.target,
                node_count,
                refreshed: plan.refreshed,
            },
        ),
        ..crate::control::plain_ok()
    }
}

/// The event that closes a change that went through.
pub open spec fn change_event(plan: PlanView, node_count: usize, now: i64) -> EventView {
    Event::SubscriptionChanged {
        unix: now,
        previous: plan.previous,
        active: plan.target,
        node_count,
        refreshed: plan.refreshed,
    }
}

/// The reply and the closing event of a change that went through.
pub fn report_change(plan: &TransactionPlan, node_count: usize, now: i64) -> (r: (Reply, Event))
    ensures
        (r.0)@ == change_reply(plan@, node_count),
        (r.1)@ == change_event(plan@, node_count, now),
{
    let reply = Reply::ok_subscription_switch(
        SubscriptionSwitchOutcome {
            previous: plan.previous.clone(),
            active: plan.target.clone(),
            node_count,
            refreshed: plan.refreshed,
        },
    );
    let event = Event::SubscriptionChanged {
        unix: now,
        previous: plan.previous.clone(),
        active: plan.target.clone(),
        node_count,
        refreshed: plan.refreshed,
    };
    (reply, event)
}

// ---------------------------------------------------------------------------
// The change as a whole
// ---------------------------------------------------------------------------

/// Everything that clients can see.
#[verifier::ext_equal]
pub struct LiveView {
    pub state: StateView,
    pub subscription: SubscriptionView,
    pub classes: Seq<RuntimeView>,
    pub traffic: crate::listener::TrafficView,
}

/// What clients see once a change is published.
pub open spec fn after_publication(
    live: LiveView,
    committed: StateView,
    nodes: Seq<NodeView>,
    catalog: CatalogView,
    target: Seq<char>,
    staged: Seq<StagedView>,
) -> LiveView {
    LiveView {
        state: ports_entered(committed, staged),
        subscription: SubscriptionView {
            active: target,
            nodes,
            catalog,
            generation: next_generation(live.subscription.generation),
        },
        classes: Seq::new(
            live.classes.len(),
            |i: int| class_published(live.classes[i], staged[i], target),
        ),
        traffic: crate::listener::traffic_selected(live.traffic, target),
    }
}

/// Every class has the path that was staged for it, at the generation that
/// follows the one its route has now.
pub open spec fn paths_fit(staged: Seq<StagedView>, classes: Seq<RuntimeView>) -> bool {
    &&& staged.len() == classes.len()
    &&& forall|i: int|
        0 <= i < classes.len() ==> (#[trigger] staged[i]).class == classes[i].name
            && staged[i].generation == next_generation(classes[i].route.generation)
}

/// The event of a class that was flipped to its staged path.
pub open spec fn flip_event(class: RuntimeView, p: StagedView, now: i64) -> EventView {
    Event::Switched {
        unix: now,
        class: class.name,
        node: p.node.name(),
        reason: "subscription-change"@,
        generation: p.generation,
    }
}

pub open spec fn runtimes(v: Seq<ClassRuntime>) -> Seq<RuntimeView> {
    v.map_values(|c: ClassRuntime| c@)
}

/// The statistics on record for a profile: the live ones of the active
/// profile, the ones set aside for any other, none where there are none.
pub open spec fn on_record(s: StateView, target: Seq<char>, m: StatsMap) -> bool {
    if s.active == Some(target) {
        m == s.nodes
    } else {
        s.inactive.contains_key(target) && m == s.inactive[target]
    }
}

/// The candidates staged for a trusted target go by the statistics on record
/// for the target: none stands before one that scores higher in them, at most
/// five are staged, and a node that is missing would have come later. Only the
/// incumbent of a refreshed profile may stand in front.
pub proof fn law_staged_candidates_go_by_the_targets_history(
    plan: PlanView,
    s: StateView,
    m: StatsMap,
    nodes: Seq<NodeView>,
    incumbent: Option<Seq<char>>,
    regions: Seq<Seq<char>>,
)
    requires
        plan.source_trusted,
        on_record(s, plan.target, m),
    ensures
        ({
            let list = stage_list(plan, nodes, usable_stats(plan, s), incumbent, regions);
            let from = if plan.refreshed && incumbent is Some {
                1int
            } else {
                0int
            };
            &&& list.len() <= 5
            &&& forall|i: int, j: int|
                from <= i < j < list.len() ==> crate::selection::may_precede(
                    m,
                    #[trigger] list[i],
                    #[trigger] list[j],
                )
            &&& forall|n: NodeView, i: int|
                crate::node::distinct_names(nodes) && nodes.contains(n) && (plan.refreshed
                    ==> crate::selection::in_regions(regions, n.name())) && !(
                #[trigger] list.contains(n)) && from <= i < list.len()
                    ==> crate::selection::may_precede(m, #[trigger] list[i], n)
            &&& forall|n: NodeView|
                crate::node::distinct_names(nodes) && nodes.contains(n) && (plan.refreshed
                    ==> crate::selection::in_regions(regions, n.name())) && list.len() < 5
                    ==> #[trigger] list.contains(n)
        }),
{
    let stats = usable_stats(plan, s);
    assert(stats == m);
    let preferred = if plan.refreshed {
        incumbent
    } else {
        None
    };
    let inside = if plan.refreshed {
        regions
    } else {
        Seq::empty()
    };
    let all = profile_list(nodes, m, preferred, inside);
    let list = stage_list(plan, nodes, stats, incumbent, regions);
    let from = if plan.refreshed && incumbent is Some {
        1int
    } else {
        0int
    };
    assert forall|i: int, j: int| from <= i < j < list.len() implies crate::selection::may_precede(
        m,
        #[trigger] list[i],
        #[trigger] list[j],
    ) by {
        assert(list[i] == all[i] && list[j] == all[j]);
        crate::selection::law_profile_candidates_are_by_history(
            nodes,
            m,
            preferred,
            inside,
            i,
            j,
        );
    }
    assert forall|n: NodeView, i: int|
        crate::node::distinct_names(nodes) && nodes.contains(n) && (plan.refreshed
            ==> crate::selection::in_regions(regions, n.name())) && !(#[trigger] list.contains(n))
            && from <= i < list.len() implies crate::selection::may_precede(
        m,
        #[trigger] list[i],
        n,
    ) by {
        let limit = list.len();
        assert(all.take(limit as int) =~= list);
        assert(list[i] == all[i]);
        crate::selection::law_shortened_candidates_are_the_first(
            nodes,
            m,
            preferred,
            inside,
            limit,
            n,
            i,
        );
    }
    assert forall|n: NodeView|
        crate::node::distinct_names(nodes) && nodes.contains(n) && (plan.refreshed
            ==> crate::selection::in_regions(regions, n.name())) && list.len() < 5
            implies #[trigger] list.contains(n) by {
        crate::selection::law_every_node_is_a_candidate(nodes, m, preferred, inside, n);
        assert(list == all);
    }
}

/// A transaction is planned exactly where the catalog has the target and its
/// sources can be identified. The plan is for that profile, says what was
/// active before, and trusts the source only where its identity is on record,
/// not held back, and the same in the running catalog; a cached pool may stand
/// in only for another profile with a trusted source, where that was allowed.
pub proof fn law_plan(
    rt: SubscriptionView,
    s: StateView,
    facts: FactMap,
    catalog: CatalogView,
    target: Seq<char>,
    allow_cached: bool,
)
    ensures
        ({
            let r = plan_of(rt, s, facts, catalog, target, allow_cached);
            let wanted = catalog_profile(catalog, target);
            &&& r is Ok <==> wanted is Some && identity_of(facts, wanted->0) is Ok
            &&& r matches Err(e) ==> e == if wanted is None {
                TransactionFault::UnknownProfile
            } else {
                TransactionFault::InvalidIdentity
            }
            &&& r matches Ok(plan) ==> {
                let id = identity_of(facts, wanted->0)->Ok_0;
                let running = catalog_profile(rt.catalog, target);
                &&& plan.target == target && plan.previous == rt.active && plan.profile == wanted->0
                &&& plan.refreshed <==> rt.active == target
                &&& plan.confirmed_slot is Some <==> s.slots.contains_key(target)
                &&& plan.confirmed_slot is Some ==> plan.confirmed_slot->0 == s.slots[target]
                &&& plan.source_trusted <==> {
                    &&& s.identities.contains_key(target) && s.identities[target] == id
                    &&& !s.pending.contains_key(target)
                    &&& running is Some && identity_of(facts, running->0) is Ok && identity_of(
                        facts,
                        running->0,
                    )->Ok_0 == id
                }
                &&& plan.cached_fallback <==> allow_cached && rt.active != target
                    && plan.source_trusted
            }
        }),
{
}

/// A pool that was prepared freshly is used wherever there is one; a cached
/// one only where preparing failed, a fallback was planned, and the snapshot
/// in the confirmed slot has nodes.
pub proof fn law_fresh_pool_comes_first(
    plan: PlanView,
    read: ReadMap,
    fetched: Result<Seq<char>, SubscriptionFaultView>,
)
    ensures
        ({
            let made = prepared(plan.profile, read, fetched);
            let cached = all_nodes(snapshot_paths_of(plan.profile, plan.confirmed_slot), read);
            let r = prepared_pool(plan, read, fetched);
            &&& made is Ok ==> r == Some(PreparedPool::Fresh(made->Ok_0))
            &&& made is Err && plan.cached_fallback && cached.len() > 0 ==> r == Some(
                PreparedPool::Cached(cached),
            )
            &&& made is Err && !(plan.cached_fallback && cached.len() > 0) ==> r is None
        }),
{
}

/// A pool is accepted exactly where it has from 1 to 256 nodes and, for a
/// reload, the active profile is still the one of the plan.
pub proof fn law_acceptance(
    p: Option<PreparedPool>,
    is_reload: bool,
    previous: Seq<char>,
    active_now: Seq<char>,
)
    ensures
        acceptance(p, is_reload, previous, active_now) is None <==> {
            &&& p matches Some(q) && 1 <= q.nodes().len() <= 256
            &&& is_reload ==> active_now == previous
        },
        acceptance(p, is_reload, previous, active_now) == Some(TransactionFault::ReloadAborted)
            ==> is_reload && active_now != previous,
        acceptance(p, is_reload, previous, active_now) == Some(TransactionFault::TooManyNodes) ==> (
        p matches Some(q) && q.nodes().len() > 256),
{
}

/// The staging after so many candidates of the first class failed.
pub open spec fn after_failed(v: StagingView, n: nat) -> StagingView
    decreases n,
{
    if n == 0 {
        v
    } else {
        stage_failed(after_failed(v, (n - 1) as nat))
    }
}

/// The candidates of a class are tried in their order: the first one that
/// passes is staged, with the ports it passed on and the generation of the
/// class, and the next class is up. A class whose candidates all failed has
/// none left, and no class after it moved.
pub proof fn law_first_passing_candidate_is_staged(v: StagingView, n: nat, ports: Ports)
    requires
        v.left.len() > 0,
        n <= v.left[0].candidates.len(),
    ensures
        ({
            let w = after_failed(v, n);
            &&& w.staged == v.staged
            &&& w.left.len() == v.left.len()
            &&& w.left[0].candidates.len() == v.left[0].candidates.len() - n
            &&& forall|i: int| 1 <= i < v.left.len() ==> #[trigger] w.left[i] == v.left[i]
            &&& n < v.left[0].candidates.len() ==> {
                let x = stage_passed(w, ports);
                &&& w.left[0].candidates[0] == v.left[0].candidates[n as int]
                &&& x.staged.len() == v.staged.len() + 1
                &&& x.staged.last().node == v.left[0].candidates[n as int]
                &&& x.staged.last().class == v.left[0].class
                &&& x.staged.last().ports == ports
                &&& x.staged.last().generation == v.left[0].generation
                &&& forall|i: int| 0 <= i < v.staged.len() ==> #[trigger] x.staged[i] == v.staged[i]
                &&& x.left.len() == v.left.len() - 1
                &&& forall|i: int| 0 <= i < x.left.len() ==> #[trigger] x.left[i] == v.left[i + 1]
            }
        }),
{
    lemma_after_failed(v, n);
}

proof fn lemma_after_failed(v: StagingView, n: nat)
    requires
        v.left.len() > 0,
        n <= v.left[0].candidates.len(),
    ensures
        after_failed(v, n).staged == v.staged,
        after_failed(v, n).left.len() == v.left.len(),
        after_failed(v, n).left[0].candidates == v.left[0].candidates.skip(n as int),
        after_failed(v, n).left[0].class == v.left[0].class,
        after_failed(v, n).left[0].generation == v.left[0].generation,
        forall|i: int| 1 <= i < v.left.len() ==> #[trigger] after_failed(v, n).left[i] == v.left[i],
    decreases n,
{
    if n == 0 {
        assert(v.left[0].candidates.skip(0) =~= v.left[0].candidates);
    } else {
        lemma_after_failed(v, (n - 1) as nat);
        assert(v.left[0].candidates.skip(n - 1).skip(1) =~= v.left[0].candidates.skip(n as int));
    }
}

/// Generations count up by one.
pub proof fn law_generations_count_up(g: u64)
    requires
        g < u64::MAX,
    ensures
        next_generation(g) == g + 1,
{
}

/// After a change every class that was staged has its new node and generation
/// on record, without ports until the path is live and with the ports of the
/// path after that; other classes are as they were.
pub proof fn law_committed_routes(s: StateView, staged: Seq<StagedView>, i: int, other: Seq<char>)
    requires
        0 <= i < staged.len(),
        forall|a: int, b: int|
            0 <= a < b < staged.len() ==> (#[trigger] staged[a]).class != (
            #[trigger] staged[b]).class,
        forall|a: int| 0 <= a < staged.len() ==> (#[trigger] staged[a]).class != other,
    ensures
        ({
            let t = routes_entered(s, staged);
            let u = ports_entered(t, staged);
            let p = staged[i];
            &&& t.classes.contains_key(p.class)
            &&& t.classes[p.class].active_node == Some(p.node.name())
            &&& t.classes[p.class].generation == p.generation
            &&& t.classes[p.class].socks_port is None && t.classes[p.class].http_port is None
            &&& u.classes.contains_key(p.class)
            &&& u.classes[p.class].active_node == Some(p.node.name())
            &&& u.classes[p.class].generation == p.generation
            &&& u.classes[p.class].socks_port == Some(p.ports.socks)
            &&& u.classes[p.class].http_port == Some(p.ports.http)
            &&& t.classes.contains_key(other) == s.classes.contains_key(other)
            &&& u.classes.contains_key(other) == s.classes.contains_key(other)
            &&& s.classes.contains_key(other) ==> t.classes[other] == s.classes[other]
                && u.classes[other] == s.classes[other]
            &&& u.nodes == t.nodes && u.active == s.active && u.inactive == s.inactive && u.slots
                == s.slots
        }),
{
    lemma_routes_at(s, staged, i, other);
    lemma_ports_at(routes_entered(s, staged), staged, i, other);
}

proof fn lemma_routes_at(s: StateView, staged: Seq<StagedView>, i: int, other: Seq<char>)
    requires
        0 <= i < staged.len() || staged.len() == 0,
        forall|a: int, b: int|
            0 <= a < b < staged.len() ==> (#[trigger] staged[a]).class != (
            #[trigger] staged[b]).class,
        forall|a: int| 0 <= a < staged.len() ==> (#[trigger] staged[a]).class != other,
    ensures
        routes_entered(s, staged).active == s.active,
        routes_entered(s, staged).inactive == s.inactive,
        routes_entered(s, staged).slots == s.slots,
        routes_entered(s, staged).classes.contains_key(other) == s.classes.contains_key(other),
        s.classes.contains_key(other) ==> routes_entered(s, staged).classes[other]
            == s.classes[other],
        staged.len() > 0 ==> routes_entered(s, staged).classes.contains_key(staged[i].class)
            && routes_entered(s, staged).classes[staged[i].class] == (ClassStateView {
            active_node: Some(staged[i].node.name()),
            socks_port: None,
            http_port: None,
            generation: staged[i].generation,
        }),
    decreases staged.len(),
{
    if staged.len() > 0 {
        let d = staged.drop_last();
        assert forall|a: int, b: int| 0 <= a < b < d.len() implies (#[trigger] d[a]).class != (
        #[trigger] d[b]).class by {
            assert(d[a] == staged[a] && d[b] == staged[b]);
        }
        assert forall|a: int| 0 <= a < d.len() implies (#[trigger] d[a]).class != other by {
            assert(d[a] == staged[a]);
        }
        assert(staged[staged.len() - 1].class != other);
        if i < d.len() {
            lemma_routes_at(s, d, i, other);
            assert(d[i] == staged[i]);
            assert(staged[i].class != staged[staged.len() - 1].class);
        } else {
            lemma_routes_at(s, d, 0, other);
        }
    }
}

proof fn lemma_ports_at(s: StateView, staged: Seq<StagedView>, i: int, other: Seq<char>)
    requires
        0 <= i < staged.len() || staged.len() == 0,
        forall|a: int, b: int|
            0 <= a < b < staged.len() ==> (#[trigger] staged[a]).class != (
            #[trigger] staged[b]).class,
        forall|a: int| 0 <= a < staged.len() ==> (#[trigger] staged[a]).class != other,
    ensures
        ports_entered(s, staged) == (StateView {
            classes: ports_entered(s, staged).classes,
            ..s
        }),
        ports_entered(s, staged).classes.contains_key(other) == s.classes.contains_key(other),
        s.classes.contains_key(other) ==> ports_entered(s, staged).classes[other]
            == s.classes[other],
        staged.len() > 0 && s.classes.contains_key(staged[i].class) ==> ports_entered(
            s,
            staged,
        ).classes.contains_key(staged[i].class) && ports_entered(
            s,
            staged,
        ).classes[staged[i].class] == (ClassStateView {
            socks_port: Some(staged[i].ports.socks),
            http_port: Some(staged[i].ports.http),
            ..s.classes[staged[i].class]
        }),
    decreases staged.len(),
{
    if staged.len() > 0 {
        let d = staged.drop_last();
        assert forall|a: int, b: int| 0 <= a < b < d.len() implies (#[trigger] d[a]).class != (
        #[trigger] d[b]).class by {
            assert(d[a] == staged[a] && d[b] == staged[b]);
        }
        assert forall|a: int| 0 <= a < d.len() implies (#[trigger] d[a]).class != other by {
            assert(d[a] == staged[a]);
        }
        assert(staged[staged.len() - 1].class != other);
        if i < d.len() {
            lemma_ports_at(s, d, i, other);
            assert(d[i] == staged[i]);
            assert(staged[i].class != staged[staged.len() - 1].class);
        } else {
            lemma_ports_at(s, d, 0, other);
            lemma_ports_spare(s, d, staged.last().class);
        }
    }
}

proof fn lemma_ports_spare(s: StateView, staged: Seq<StagedView>, class: Seq<char>)
    requires
        forall|a: int| 0 <= a < staged.len() ==> (#[trigger] staged[a]).class != class,
    ensures
        ports_entered(s, staged).classes.contains_key(class) == s.classes.contains_key(class),
        s.classes.contains_key(class) ==> ports_entered(s, staged).classes[class]
            == s.classes[class],
    decreases staged.len(),
{
    if staged.len() > 0 {
        let d = staged.drop_last();
        assert forall|a: int| 0 <= a < d.len() implies (#[trigger] d[a]).class != class by {
            assert(d[a] == staged[a]);
        }
        assert(staged[staged.len() - 1].class != class);
        lemma_ports_spare(s, d, class);
    }
}

/// A class that was published serves its staged path: connections go to the
/// ports of the path under the name of its node, bytes count for the new
/// profile, and all rows of failures are over.
pub proof fn law_published_class_serves_its_path(
    rt: RuntimeView,
    p: StagedView,
    subscription: Seq<char>,
)
    ensures
        ({
            let r = class_published(rt, p, subscription);
            &&& r.name == rt.name
            &&& r.active == Some(p.node)
            &&& r.route.socks_upstream == Some(p.ports.socks)
            &&& r.route.http_upstream == Some(p.ports.http)
            &&& r.route.node_name == p.node.name()
            &&& r.route.generation == p.generation
            &&& r.route.traffic_subscription == subscription
            &&& r.health_failures == 0
            &&& r.auto_recovery.consecutive_failures == 0
            &&& r.auto_recovery.retry_not_before is None
        }),
{
}

/// A change reports what was active before and what is now, how many nodes the
/// pool has and whether it was a refresh, in the reply and in the event alike.
pub proof fn law_change_report(plan: PlanView, node_count: usize, now: i64)
    ensures
        change_reply(plan, node_count).ok,
        change_reply(plan, node_count).subscription_switch matches Some(o) && o.previous
            == plan.previous && o.active == plan.target && o.node_count == node_count
            && o.refreshed == plan.refreshed,
        change_event(plan, node_count, now) == (Event::<Seq<char>>::SubscriptionChanged {
            unix: now,
            previous: plan.previous,
            active: plan.target,
            node_count,
            refreshed: plan.refreshed,
        }),
{
}

/// A refused change is reported with the same words in the reply and in the
/// event; an unknown profile, a bad identity and an aborted reload make no
/// event.
pub proof fn law_refusal_report(f: TransactionFault, target: Seq<char>, now: i64)
    ensures
        fault_event(f, target, now) is None <==> f == TransactionFault::UnknownProfile || f
            == TransactionFault::InvalidIdentity || f == TransactionFault::ReloadAborted,
        fault_event(f, target, now) matches Some(e) ==> e == (Event::<
            Seq<char>,
        >::SubscriptionChangeFailed { unix: now, profile: target, error: fault_text(f) }),
        refusal(fault_text(f)).error == Some(fault_text(f)),
        !refusal(fault_text(f)).ok,
{
}

/// What staging asks for is fixed by where it stands: the first candidate of
/// the first class left, the commit once no class is left, an end where the
/// class has no candidate left.
pub proof fn law_staging_action(v: StagingView, a: StageAction)
    requires
        stage_action(v, a),
    ensures
        a is Commit <==> v.left.len() == 0,
        a is Abort <==> v.left.len() > 0 && v.left[0].candidates.len() == 0,
        a matches StageAction::Try { class, node } ==> v.left.len() > 0
            && v.left[0].candidates.len() > 0 && class@ == v.left[0].class && node@
            == v.left[0].candidates[0],
{
}

/// The nodes that a change puts in use start without failures; nothing else in
/// the statistics changes, of them or of any other node.
pub proof fn law_committed_nodes_start_without_failures(
    s: StateView,
    staged: Seq<StagedView>,
    i: int,
    other: Seq<char>,
)
    requires
        0 <= i < staged.len() || staged.len() == 0,
        forall|a: int| 0 <= a < staged.len() ==> (#[trigger] staged[a]).node.name() != other,
    ensures
        ({
            let t = routes_entered(s, staged);
            &&& t.nodes.dom() == s.nodes.dom()
            &&& s.nodes.contains_key(other) ==> t.nodes[other] == s.nodes[other]
            &&& staged.len() > 0 ==> {
                let n = staged[i].node.name();
                s.nodes.contains_key(n) ==> {
                    &&& t.nodes[n].consecutive_health_failures == 0
                    &&& t.nodes[n].success_ema == s.nodes[n].success_ema
                    &&& t.nodes[n].rtt_ema_ms == s.nodes[n].rtt_ema_ms
                    &&& t.nodes[n].probe_count == s.nodes[n].probe_count
                    &&& t.nodes[n].recent_rtts_ms == s.nodes[n].recent_rtts_ms
                }
            }
        }),
    decreases staged.len(),
{
    if staged.len() > 0 {
        let d = staged.drop_last();
        assert forall|a: int| 0 <= a < d.len() implies (#[trigger] d[a]).node.name() != other by {
            assert(d[a] == staged[a]);
        }
        let k = if i < d.len() {
            i
        } else {
            0
        };
        law_committed_nodes_start_without_failures(s, d, k, other);
        assert(staged[staged.len() - 1].node.name() != other);
        let n = staged[i].node.name();
        lemma_routes_keep_scores(s, d, n);
        if i < d.len() {
            assert(d[i] == staged[i]);
        }
        assert(routes_entered(s, staged).nodes.dom() =~= s.nodes.dom());
    } else {
        assert(routes_entered(s, staged).nodes.dom() =~= s.nodes.dom());
    }
}

proof fn lemma_routes_keep_scores(s: StateView, staged: Seq<StagedView>, n: Seq<char>)
    ensures
        ({
            let t = routes_entered(s, staged);
            &&& t.nodes.contains_key(n) == s.nodes.contains_key(n)
            &&& s.nodes.contains_key(n) ==> {
                &&& t.nodes[n].success_ema == s.nodes[n].success_ema
                &&& t.nodes[n].rtt_ema_ms == s.nodes[n].rtt_ema_ms
                &&& t.nodes[n].probe_count == s.nodes[n].probe_count
                &&& t.nodes[n].recent_rtts_ms == s.nodes[n].recent_rtts_ms
            }
        }),
    decreases staged.len(),
{
    if staged.len() > 0 {
        lemma_routes_keep_scores(s, staged.drop_last(), n);
    }
}

/// A change from a cached pool trusts no source that was not trusted before;
/// one from a fresh pool trusts the target under its identity now.
pub proof fn law_only_a_fresh_pool_earns_trust(
    s: StateView,
    previous: TextMap,
    next: TextMap,
    p: PreparedPool,
    target: Seq<char>,
    staged: Seq<StagedView>,
    now: i64,
    name: Seq<char>,
    id: Seq<char>,
)
    requires
        s.version == STATE_VERSION,
        next.contains_key(target),
    ensures
        ({
            let t = committed_state(s, previous, next, p, target, staged, now);
            &&& p is Cached || name != target ==> (t.trusts(name, id) ==> s.trusts(name, id))
            &&& p is Fresh ==> (t.trusts(target, id) <==> id == next[target])
        }),
{
    let fresh = if p is Fresh {
        Some(target)
    } else {
        None
    };
    let applied = catalog_applied(s, previous, next, fresh);
    let selected = activated(applied, target);
    let slotted = StateView {
        slots: match p.slot() {
            Some(slot) => selected.slots.insert(target, slot),
            None => selected.slots,
        },
        ..selected
    };
    lemma_routes_entered(slotted, staged);
    lemma_routes_keep_sources(slotted, staged);
    assert(selected.identities == applied.identities && selected.pending == applied.pending);
}

proof fn lemma_routes_keep_sources(s: StateView, staged: Seq<StagedView>)
    ensures
        routes_entered(s, staged).identities == s.identities,
        routes_entered(s, staged).pending == s.pending,
        routes_entered(s, staged).inactive == s.inactive,
        routes_entered(s, staged).active == s.active,
        routes_entered(s, staged).slots == s.slots,
        routes_entered(s, staged).verdicts == s.verdicts,
    decreases staged.len(),
{
    if staged.len() > 0 {
        lemma_routes_keep_sources(s, staged.drop_last());
    }
}

/// A change leaves the history and the slot of every other profile whose
/// source did not change, also of the one that was active before.
pub proof fn law_change_keeps_other_histories(
    s: StateView,
    previous: TextMap,
    next: TextMap,
    p: PreparedPool,
    target: Seq<char>,
    staged: Seq<StagedView>,
    now: i64,
    other: Seq<char>,
)
    requires
        s.version == STATE_VERSION,
        s.one_copy(),
        next.contains_key(target),
        next.contains_key(other),
        other != target,
        !crate::state::source_changed(s, previous, next, other),
    ensures
        ({
            let t = committed_state(s, previous, next, p, target, staged, now);
            &&& t.stats_of(other) == s.stats_of(other)
            &&& t.slots.contains_key(other) == s.slots.contains_key(other)
            &&& s.slots.contains_key(other) ==> t.slots[other] == s.slots[other]
            &&& t.verdicts == s.verdicts
        }),
{
    let fresh = if p is Fresh {
        Some(target)
    } else {
        None
    };
    let applied = catalog_applied(s, previous, next, fresh);
    crate::state::law_catalog_change_spares_the_unchanged(s, previous, next, fresh, other);
    crate::state::law_activation_isolates_histories(applied, target, other);
    let selected = activated(applied, target);
    let slotted = StateView {
        slots: match p.slot() {
            Some(slot) => selected.slots.insert(target, slot),
            None => selected.slots,
        },
        ..selected
    };
    lemma_routes_keep_sources(slotted, staged);
    assert(selected.active == Some(target));
}

/// The identities that a change goes by are those of the catalog it goes to;
/// those of the catalog before count only where all of them can be had.
pub proof fn law_identities_of_a_change(facts: FactMap, before: CatalogView, after: CatalogView)
    ensures
        identity_change(facts, before, after) is Ok <==> identities_of(facts, after) is Ok,
        identity_change(facts, before, after) matches Ok((previous, next)) ==> {
            &&& identities_of(facts, after)->Ok_0 == next
            &&& identities_of(facts, before) is Ok ==> previous == identities_of(
                facts,
                before,
            )->Ok_0
            &&& identities_of(facts, before) is Err ==> previous == Map::<
                Seq<char>,
                Seq<char>,
            >::empty()
        },
        identity_change(facts, before, after) is Err ==> identity_change(facts, before, after)
            == Err::<(TextMap, TextMap), TransactionFault>(TransactionFault::IdentityLost),
{
}

/// A cached pool needs no write; a fresh one is committed where its write was,
/// and then names the slot that it went to.
pub proof fn law_commit_of_the_pool(
    p: PreparedPool,
    confirmed: Option<Seq<char>>,
    written: Result<(), SubscriptionFaultView>,
)
    ensures
        p is Cached ==> cache_committed(p, confirmed, written) == Ok::<
            PreparedPool,
            TransactionFault,
        >(p),
        cache_committed(p, confirmed, written) matches Ok(q) ==> q.nodes() == p.nodes(),
        p matches PreparedPool::Fresh(f) ==> (f.pending is Some && written is Err
            ==> cache_committed(p, confirmed, written) is Err),
        p matches PreparedPool::Fresh(f) ==> (f.pending is Some ==> (cache_committed(
            p,
            confirmed,
            written,
        ) matches Ok(q) ==> q.slot() is Some && q.slot() != confirmed)),
        cache_committed(p, confirmed, written) is Err ==> cache_committed(p, confirmed, written)
            == Err::<PreparedPool, TransactionFault>(TransactionFault::CacheCommitFailed),
{
    if p is Fresh {
        crate::subscription::law_cache_commit(p->Fresh_0, confirmed, written);
    }
}

} // verus!
