//! The live side of a class: installing a path, judging health, and booking
//! probe results.

use vstd::prelude::*;

use crate::control::{Event, EventView};
use crate::listener::{published, ClassRoute, RouteView};
use crate::manifest::opt_view;
use crate::names::{Model, NameMap};
use crate::node::{find_node, name_index, named, pool, Node, NodeView};
use crate::recovery::{fresh_backoff, ready, retry_in, AutoRecoveryBackoff};
use crate::score::{
    challenger_wins, fresh_stats, probed, wins, NodeStats, NodeStatsView, ProbeBlend, SuccessGap,
};
use crate::selection::{
    has_probes, in_regions, law_ranking, law_shortlist, left_out, ranked, ranked_candidates,
    switch_candidates, switch_list, MAX_SWITCH_CANDIDATES,
};
use crate::seqs::{first_index, lemma_first, lemma_first_is};
use crate::state::{ClassState, ClassStateView, StateFile, StateView, StatsMap};
use crate::text::{opt_str, same, texts};

verus! {

/// One traffic class while the daemon runs.
pub struct ClassRuntime {
    pub name: String,
    pub route: ClassRoute,
    /// The node whose path is installed.
    pub active: Option<Node>,
    pub auto_recovery: AutoRecoveryBackoff,
    /// Health checks of this class that failed in a row.
    pub health_failures: u32,
}

#[verifier::ext_equal]
pub struct RuntimeView {
    pub name: Seq<char>,
    pub route: RouteView,
    pub active: Option<NodeView>,
    pub auto_recovery: AutoRecoveryBackoff,
    pub health_failures: u32,
}

impl View for ClassRuntime {
    type V = RuntimeView;

    open spec fn view(&self) -> RuntimeView {
        RuntimeView {
            name: self.name@,
            route: self.route@,
            active: opt_view(self.active),
            auto_recovery: self.auto_recovery,
            health_failures: self.health_failures,
        }
    }
}

impl RuntimeView {
    pub open spec fn active_name(self) -> Option<Seq<char>> {
        match self.active {
            Some(n) => Some(n.name()),
            None => None,
        }
    }
}

impl ClassRuntime {
    pub fn active_name(&self) -> (r: Option<&str>)
        ensures
            opt_str(r) == self@.active_name(),
    {
        match &self.active {
            Some(n) => Some(n.name()),
            None => None,
        }
    }
}

/// The local ports of an adapter.
#[derive(Debug, Clone, Copy, PartialEq, Eq, Structural)]
pub struct Ports {
    pub socks: u16,
    pub http: u16,
}

/// The statistics of a node, or those of a node without any.
pub open spec fn stats_or_fresh(stats: StatsMap, name: Seq<char>) -> NodeStatsView {
    if stats.contains_key(name) {
        stats[name]
    } else {
        fresh_stats()
    }
}

pub fn stats_of(stats: &NameMap<NodeStats>, name: &str) -> (r: NodeStats)
    ensures
        r@ == stats_or_fresh(stats@, name@),
{
    match stats.get(name) {
        Some(s) => s.dup(),
        None => NodeStats::default(),
    }
}

/// A known node with its failure counter cleared; an unknown one stays
/// unknown.
pub open spec fn failures_cleared(stats: StatsMap, name: Seq<char>) -> StatsMap {
    if stats.contains_key(name) {
        stats.insert(
            name,
            NodeStatsView { consecutive_health_failures: 0, ..stats[name] },
        )
    } else {
        stats
    }
}

pub fn clear_failures(state: &mut StateFile, name: &str)
    ensures
        final(state)@ == (StateView {
            nodes: failures_cleared(old(state)@.nodes, name@),
            ..old(state)@
        }),
{
    let cleared = match state.stats().get(name) {
        Some(s) => {
            let mut s = s.dup();
            s.consecutive_health_failures = 0;
            Some(s)
        },
        None => None,
    };
    if let Some(s) = cleared {
        state.set_stats(name, s);
    }
}

// ---------------------------------------------------------------------------
// Installing a path
// ---------------------------------------------------------------------------

/// The class once a path is installed: the streaks of failures end.
pub open spec fn installed_runtime(
    rt: RuntimeView,
    node: NodeView,
    ports: Ports,
    subscription: Seq<char>,
) -> RuntimeView {
    RuntimeView {
        route: published(
            rt.route,
            ports.socks,
            ports.http,
            node.name(),
            (rt.route.generation + 1) as u64,
            subscription,
        ),
        active: Some(node),
        auto_recovery: fresh_backoff(),
        health_failures: 0,
        ..rt
    }
}

pub open spec fn installed_state(
    s: StateView,
    class: Seq<char>,
    node: Seq<char>,
    ports: Ports,
    generation: u64,
    now: i64,
) -> StateView {
    StateView {
        classes: s.classes.insert(
            class,
            ClassStateView {
                active_node: Some(node),
                socks_port: Some(ports.socks),
                http_port: Some(ports.http),
                generation,
            },
        ),
        nodes: failures_cleared(s.nodes, node),
        updated_unix: now,
        ..s
    }
}

/// Install an activated path: flip the route, record the state, and give the
/// event. The node that was there before comes back, for its path to drain.
pub fn install_active(
    rt: &mut ClassRuntime,
    state: &mut StateFile,
    node: Node,
    ports: Ports,
    subscription: &str,
    reason: &str,
    now: i64,
) -> (r: (Event, Option<Node>))
    requires
        old(rt).route.generation < u64::MAX,
    ensures
        final(rt)@ == installed_runtime(old(rt)@, node@, ports, subscription@),
        final(state)@ == installed_state(
            old(state)@,
            old(rt)@.name,
            node@.name(),
            ports,
            (old(rt).route.generation + 1) as u64,
            now,
        ),
        (r.0)@ == (Event::<Seq<char>>::Switched {
            unix: now,
            class: old(rt)@.name,
            node: node@.name(),
            reason: reason@,
            generation: (old(rt).route.generation + 1) as u64,
        }),
        opt_view(r.1) == old(rt)@.active,
{
    let generation: u64 = rt.route.generation + 1;
    let name = node.name().to_string();
    let mut old_active: Option<Node> = Some(node);
    std::mem::swap(&mut old_active, &mut rt.active);
    rt.auto_recovery.reset();
    rt.health_failures = 0;
    rt.route.publish(ports.socks, ports.http, name.as_str(), generation, subscription);
    state.set_class(
        rt.name.as_str(),
        ClassState {
            active_node: Some(name.clone()),
            socks_port: Some(ports.socks),
            http_port: Some(ports.http),
            generation,
        },
    );
    clear_failures(state, name.as_str());
    state.set_updated(now);
    (
        Event::Switched {
            unix: now,
            class: rt.name.clone(),
            node: name,
            reason: reason.to_string(),
            generation,
        },
        old_active,
    )
}

/// Installing a path on one class leaves every other class and every other
/// node as it was.
pub proof fn law_install_is_local(
    s: StateView,
    class: Seq<char>,
    node: Seq<char>,
    ports: Ports,
    generation: u64,
    now: i64,
    other_class: Seq<char>,
    other_node: Seq<char>,
)
    requires
        other_class != class,
        other_node != node,
    ensures
        ({
            let t = installed_state(s, class, node, ports, generation, now);
            &&& s.classes.contains_key(other_class) == t.classes.contains_key(other_class)
            &&& s.classes.contains_key(other_class) ==> t.classes[other_class]
                == s.classes[other_class]
            &&& s.nodes.contains_key(other_node) == t.nodes.contains_key(other_node)
            &&& s.nodes.contains_key(other_node) ==> t.nodes[other_node] == s.nodes[other_node]
            &&& t.slots == s.slots && t.identities == s.identities && t.pending == s.pending
                && t.inactive == s.inactive && t.active == s.active
        }),
{
}

// ---------------------------------------------------------------------------
// Failed activations
// ---------------------------------------------------------------------------

/// A failed activation counts as a failed probe, unless the class judged the
/// node by a target of its own.
pub open spec fn activation_failed(
    s: StateView,
    node: Seq<char>,
    own_target: bool,
    blend: ProbeBlend,
    now: i64,
) -> StateView {
    if own_target {
        s
    } else {
        StateView {
            nodes: s.nodes.insert(node, probed(stats_or_fresh(s.nodes, node), blend, now)),
            ..s
        }
    }
}

pub fn record_activation_failure(
    state: &mut StateFile,
    class: &str,
    node: &str,
    own_target: bool,
    blend: ProbeBlend,
    error: &str,
    now: i64,
) -> (ev: Event)
    requires
        stats_or_fresh(old(state)@.nodes, node@).probe_count < u64::MAX,
    ensures
        final(state)@ == activation_failed(old(state)@, node@, own_target, blend, now),
        ev@ == (Event::<Seq<char>>::ActivationFailed {
            unix: now,
            class: class@,
            node: node@,
            error: error@,
        }),
{
    if !own_target {
        let mut s = stats_of(state.stats(), node);
        s.record_probe(blend, now);
        state.set_stats(node, s);
    }
    Event::ActivationFailed {
        unix: now,
        class: class.to_string(),
        node: node.to_string(),
        error: error.to_string(),
    }
}

// ---------------------------------------------------------------------------
// Probe results
// ---------------------------------------------------------------------------

/// One probe result as it is booked.
pub struct ProbeRecord {
    pub node: String,
    pub blend: ProbeBlend,
}

/// The statistics after a list of results, booked in order.
pub open spec fn booked(stats: StatsMap, records: Seq<(Seq<char>, ProbeBlend)>, now: i64) -> StatsMap
    decreases records.len(),
{
    if records.len() == 0 {
        stats
    } else {
        let before = booked(stats, records.drop_last(), now);
        let (name, blend) = records.last();
        before.insert(name, probed(stats_or_fresh(before, name), blend, now))
    }
}

pub open spec fn record_views(v: Seq<ProbeRecord>) -> Seq<(Seq<char>, ProbeBlend)> {
    v.map_values(|r: ProbeRecord| (r.node@, r.blend))
}

/// No counter is about to overflow.
pub open spec fn countable(stats: StatsMap, room: nat) -> bool {
    forall|name: Seq<char>| #[trigger]
        stats.contains_key(name) ==> stats[name].probe_count + room <= u64::MAX
}

/// Book a cycle of probe results.
pub fn record_probes(state: &mut StateFile, records: &Vec<ProbeRecord>, now: i64)
    requires
        countable(old(state)@.nodes, records@.len()),
        records@.len() <= u64::MAX,
    ensures
        final(state)@ == (StateView {
            nodes: booked(old(state)@.nodes, record_views(records@), now),
            updated_unix: now,
            ..old(state)@
        }),
{
    let ghost s = state@;
    let ghost all = record_views(records@);
    let mut i: usize = 0;
    assert(all.take(0) =~= Seq::<(Seq<char>, ProbeBlend)>::empty());
    while i < records.len()
        invariant
            i <= records@.len(),
            records@.len() <= u64::MAX,
            all == record_views(records@),
            countable(state@.nodes, (records@.len() - i) as nat),
            state@ == (StateView { nodes: booked(s.nodes, all.take(i as int), now), ..s }),
        decreases records@.len() - i,
    {
        let r = &records[i];
        proof {
            let t = all.take(i + 1);
            assert(t.drop_last() =~= all.take(i as int));
            assert(t.last() == (r.node@, r.blend));
        }
        let ghost before = state@.nodes;
        let mut st = stats_of(state.stats(), r.node.as_str());
        assert(st@.probe_count < u64::MAX) by {
            if before.contains_key(r.node@) {
                assert(before[r.node@].probe_count + (records@.len() - i) <= u64::MAX);
            }
        }
        st.record_probe(r.blend, now);
        state.set_stats(r.node.as_str(), st);
        proof {
            let room = (records@.len() - i - 1) as nat;
            assert forall|name: Seq<char>| #[trigger] state@.nodes.contains_key(
                name,
            ) implies state@.nodes[name].probe_count + room <= u64::MAX by {
                if name != r.node@ {
                    assert(before.contains_key(name));
                } else if before.contains_key(name) {
                    assert(before[name].probe_count + (records@.len() - i) <= u64::MAX);
                }
            }
        }
        i = i + 1;
    }
    assert(all.take(records@.len() as int) =~= all);
    state.set_updated(now);
}

// ---------------------------------------------------------------------------
// Health ticks
// ---------------------------------------------------------------------------

/// The class after a health check. Its streak counts its own checks alone.
pub open spec fn judged_runtime(rt: RuntimeView, ok: bool) -> RuntimeView {
    if rt.active is None {
        rt
    } else {
        RuntimeView {
            health_failures: if ok {
                0
            } else {
                (rt.health_failures + 1) as u32
            },
            ..rt
        }
    }
}

/// The statistics of the active node show the last verdict of any class.
pub open spec fn judged_state(s: StateView, rt: RuntimeView, ok: bool) -> StateView {
    match rt.active_name() {
        None => s,
        Some(name) => {
            let before = stats_or_fresh(s.nodes, name);
            StateView {
                nodes: s.nodes.insert(
                    name,
                    NodeStatsView {
                        consecutive_health_failures: if ok {
                            0
                        } else {
                            (before.consecutive_health_failures + 1) as u32
                        },
                        ..before
                    },
                ),
                ..s
            }
        },
    }
}

/// What a health verdict means.
#[derive(Debug, PartialEq, Eq)]
pub struct HealthOutcome {
    /// Failures of this class in a row; without an active path it counts as
    /// the threshold.
    pub failures: u32,
    pub has_active: bool,
    /// The class has to look for another path.
    pub recover: bool,
}

pub open spec fn health_outcome(rt: RuntimeView, ok: bool, threshold: u32) -> HealthOutcome {
    let failures = if rt.active is None {
        threshold
    } else {
        judged_runtime(rt, ok).health_failures
    };
    HealthOutcome {
        failures,
        has_active: rt.active is Some,
        recover: !ok && failures >= threshold,
    }
}

pub open spec fn health_event(rt: RuntimeView, ok: bool, now: i64) -> Option<EventView> {
    match rt.active_name() {
        Some(node) => if ok {
            None
        } else {
            Some(
                Event::HealthFailed {
                    unix: now,
                    class: rt.name,
                    node,
                    consecutive: judged_runtime(rt, ok).health_failures,
                },
            )
        },
        None => None,
    }
}

/// Book a health verdict for a class.
pub fn record_health_outcome(
    state: &mut StateFile,
    rt: &mut ClassRuntime,
    ok: bool,
    threshold: u32,
    now: i64,
) -> (r: (HealthOutcome, Option<Event>))
    requires
        old(rt).health_failures < u32::MAX,
        old(rt)@.active is Some ==> stats_or_fresh(
            old(state)@.nodes,
            (old(rt)@.active->0).name(),
        ).consecutive_health_failures < u32::MAX,
    ensures
        final(rt)@ == judged_runtime(old(rt)@, ok),
        final(state)@ == judged_state(old(state)@, old(rt)@, ok),
        r.0 == health_outcome(old(rt)@, ok, threshold),
        opt_view(r.1) == health_event(old(rt)@, ok, now),
{
    let name = match rt.active_name() {
        Some(n) => n.to_string(),
        None => {
            return (
                HealthOutcome { failures: threshold, has_active: false, recover: !ok },
                None,
            );
        },
    };
    let mut s = stats_of(state.stats(), name.as_str());
    if ok {
        s.consecutive_health_failures = 0;
        rt.health_failures = 0;
    } else {
        s.consecutive_health_failures = s.consecutive_health_failures + 1;
        rt.health_failures = rt.health_failures + 1;
    }
    state.set_stats(name.as_str(), s);
    let failures: u32 = rt.health_failures;
    let event = if ok {
        None
    } else {
        Some(
            Event::HealthFailed {
                unix: now,
                class: rt.name.clone(),
                node: name,
                consecutive: failures,
            },
        )
    };
    (
        HealthOutcome { failures, has_active: true, recover: !ok && failures >= threshold },
        event,
    )
}

/// A class after a series of verdicts of its own.
pub open spec fn after_verdicts(rt: RuntimeView, oks: Seq<bool>) -> RuntimeView
    decreases oks.len(),
{
    if oks.len() == 0 {
        rt
    } else {
        judged_runtime(after_verdicts(rt, oks.drop_last()), oks.last())
    }
}

/// How many failures stand at the end of a series that began with a streak.
pub open spec fn trailing_failures(oks: Seq<bool>, streak: nat) -> nat
    decreases oks.len(),
{
    if oks.len() == 0 {
        streak
    } else if oks.last() {
        0
    } else {
        trailing_failures(oks.drop_last(), streak) + 1
    }
}

/// The streak of a class counts its own verdicts and nothing else, whatever
/// other classes find out about the node that they share.
pub proof fn law_health_streak_is_class_local(rt: RuntimeView, oks: Seq<bool>)
    requires
        rt.active is Some,
        rt.health_failures + oks.len() <= u32::MAX,
    ensures
        after_verdicts(rt, oks).health_failures == trailing_failures(
            oks,
            rt.health_failures as nat,
        ),
        after_verdicts(rt, oks).active == rt.active,
        trailing_failures(oks, rt.health_failures as nat) <= rt.health_failures + oks.len(),
    decreases oks.len(),
{
    if oks.len() > 0 {
        law_health_streak_is_class_local(rt, oks.drop_last());
    }
}

/// What automatic recovery does now.
#[derive(Debug, Clone, Copy, PartialEq, Eq, Structural)]
pub enum RecoveryDecision {
    /// Switching is off and the class has a node: stay.
    Pinned,
    /// The last attempt failed too recently.
    CoolingDown(u64),
    Attempt,
}

pub open spec fn recovery_decision(
    rt: RuntimeView,
    auto_switch: bool,
    now: u64,
) -> RecoveryDecision {
    if rt.active is Some && !auto_switch {
        RecoveryDecision::Pinned
    } else if !ready(rt.auto_recovery, now) {
        RecoveryDecision::CoolingDown(retry_in(rt.auto_recovery, now) as u64)
    } else {
        RecoveryDecision::Attempt
    }
}

/// Establishing a path where there is none is no switch, so pinning does not
/// stop it.
pub fn decide_recovery(rt: &ClassRuntime, auto_switch: bool, now: u64) -> (r: RecoveryDecision)
    ensures
        r == recovery_decision(rt@, auto_switch, now),
{
    if rt.active.is_some() && !auto_switch {
        RecoveryDecision::Pinned
    } else if !rt.auto_recovery.is_ready_at(now) {
        RecoveryDecision::CoolingDown(rt.auto_recovery.remaining_at(now))
    } else {
        RecoveryDecision::Attempt
    }
}

// ---------------------------------------------------------------------------
// Automatic switching
// ---------------------------------------------------------------------------

/// The nodes to try on automatic recovery, in this order: the best
/// alternates, then the current node anew.
pub struct RecoveryPlan {
    pub alternates: Vec<Node>,
    pub rebuild: Option<Node>,
}

pub open spec fn current_in(nodes: Seq<NodeView>, current: Option<Seq<char>>) -> Option<NodeView> {
    match current {
        Some(name) => if named(nodes, name) {
            Some(nodes[name_index(nodes, name) as int])
        } else {
            None
        },
        None => None,
    }
}

pub fn recovery_plan(
    nodes: &Vec<Node>,
    stats: &NameMap<NodeStats>,
    regions: &Vec<String>,
    current: Option<&str>,
) -> (r: RecoveryPlan)
    ensures
        pool(r.alternates@) == switch_list(
            pool(nodes@),
            stats@,
            texts(regions@),
            opt_str(current),
            None,
            MAX_SWITCH_CANDIDATES as nat,
        ),
        opt_view(r.rebuild) == current_in(pool(nodes@), opt_str(current)),
        r.alternates@.len() <= 5,
        forall|i: int|
            0 <= i < r.alternates@.len() ==> {
                let name = (#[trigger] pool(r.alternates@)[i]).name();
                in_regions(texts(regions@), name) && has_probes(stats@, name) && Some(name)
                    != opt_str(current)
            },
        r.rebuild is Some ==> opt_str(current) == Some((opt_view(r.rebuild)->0).name()),
{
    let alternates = switch_candidates(
        nodes,
        stats,
        regions,
        current,
        None,
        MAX_SWITCH_CANDIDATES,
    );
    proof {
        crate::selection::law_switch_list_is_the_best(
            pool(nodes@),
            stats@,
            texts(regions@),
            opt_str(current),
            None,
            MAX_SWITCH_CANDIDATES as nat,
        );
        assert forall|i: int| 0 <= i < alternates@.len() implies {
            let name = (#[trigger] pool(alternates@)[i]).name();
            in_regions(texts(regions@), name) && has_probes(stats@, name) && Some(name) != opt_str(
                current,
            )
        } by {
            crate::selection::law_regions_are_parts_of_names(
                texts(regions@),
                pool(alternates@)[i].name(),
            );
        }
        law_rebuild_is_the_current_node(pool(nodes@), opt_str(current));
    }
    let rebuild = match current {
        Some(name) => match find_node(nodes, name) {
            Some(i) => Some(nodes[i].dup()),
            None => None,
        },
        None => None,
    };
    RecoveryPlan { alternates, rebuild }
}

/// The best ranked node that is not the current one.
pub open spec fn challenger_of(
    nodes: Seq<NodeView>,
    stats: StatsMap,
    regions: Seq<Seq<char>>,
    current: Seq<char>,
) -> Option<Seq<char>> {
    let best = ranked(nodes, stats, regions);
    let i = first_index(best.len(), |i: int| best[i].name() != current) as int;
    if i < best.len() {
        Some(best[i].name())
    } else {
        None
    }
}

pub fn find_challenger(
    nodes: &Vec<Node>,
    stats: &NameMap<NodeStats>,
    regions: &Vec<String>,
    current: &str,
) -> (r: Option<String>)
    ensures
        crate::text::opt_text(r) == challenger_of(
            pool(nodes@),
            stats@,
            texts(regions@),
            current@,
        ),
{
    let best = ranked_candidates(nodes, stats, regions);
    let ghost b = pool(best@);
    let ghost p = |i: int| b[i].name() != current@;
    let mut i: usize = 0;
    while i < best.len()
        invariant
            i <= best@.len(),
            b == pool(best@),
            p == (|i: int| b[i].name() != current@),
            b == ranked(pool(nodes@), stats@, texts(regions@)),
            forall|j: int| 0 <= j < i ==> !#[trigger] p(j),
        decreases best@.len() - i,
    {
        assert(b[i as int] == best@[i as int]@);
        if !same(best[i].name(), current) {
            proof {
                assert(p(i as int));
                lemma_first_is(b.len(), p, i as nat);
            }
            return Some(best[i].name().to_string());
        }
        assert(!p(i as int));
        i = i + 1;
    }
    proof {
        lemma_first_is(b.len(), p, i as nat);
    }
    None
}

/// The challenger takes over: it wins clearly, or the current node has no
/// statistics at all. In pinned mode nothing moves.
pub open spec fn takes_over(
    stats: StatsMap,
    challenger: Seq<char>,
    current: Seq<char>,
    auto_switch: bool,
    gap: SuccessGap,
    clearly_faster: bool,
) -> bool {
    auto_switch && stats.contains_key(challenger) && (if stats.contains_key(current) {
        wins(stats[challenger], stats[current], gap, clearly_faster)
    } else {
        true
    })
}

pub fn should_switch(
    stats: &NameMap<NodeStats>,
    challenger: &str,
    current: &str,
    auto_switch: bool,
    gap: SuccessGap,
    clearly_faster: bool,
) -> (r: bool)
    ensures
        r == takes_over(stats@, challenger@, current@, auto_switch, gap, clearly_faster),
{
    if !auto_switch {
        return false;
    }
    match (stats.get(challenger), stats.get(current)) {
        (Some(c), Some(i)) => challenger_wins(c, i, gap, clearly_faster),
        (Some(_), None) => true,
        _ => false,
    }
}

/// A pinned class with a node never leaves it by itself, neither for its
/// health nor for a challenger. A class without a node is not held back.
pub proof fn law_pinned_class_stays(
    rt: RuntimeView,
    now: u64,
    stats: StatsMap,
    challenger: Seq<char>,
    current: Seq<char>,
    gap: SuccessGap,
    clearly_faster: bool,
)
    ensures
        rt.active is Some ==> recovery_decision(rt, false, now) == RecoveryDecision::Pinned,
        !takes_over(stats, challenger, current, false, gap, clearly_faster),
        rt.active is None ==> recovery_decision(rt, false, now) == recovery_decision(
            rt,
            true,
            now,
        ),
{
}

/// Automatic moves lead to probed nodes of the pool inside the regions, and
/// never to the node that is in use.
pub proof fn law_automatic_moves_stay_in_regions(
    nodes: Seq<NodeView>,
    stats: StatsMap,
    regions: Seq<Seq<char>>,
    current: Seq<char>,
    limit: nat,
)
    ensures
        forall|i: int|
            0 <= i < switch_list(nodes, stats, regions, Some(current), None, limit).len() ==> {
                let n = #[trigger] switch_list(nodes, stats, regions, Some(current), None, limit)[i];
                &&& nodes.contains(n)
                &&& has_probes(stats, n.name())
                &&& in_regions(regions, n.name())
                &&& n.name() != current
            },
        challenger_of(nodes, stats, regions, current) matches Some(c) ==> {
            &&& named(nodes, c)
            &&& has_probes(stats, c)
            &&& in_regions(regions, c)
            &&& c != current
        },
{
    let best = ranked(nodes, stats, regions);
    let out = left_out(Some(current), None);
    law_ranking(nodes, stats, regions);
    law_shortlist(best, out, limit);
    let list = switch_list(nodes, stats, regions, Some(current), None, limit);
    assert forall|i: int| 0 <= i < list.len() implies {
        let n = #[trigger] list[i];
        &&& nodes.contains(n)
        &&& has_probes(stats, n.name())
        &&& in_regions(regions, n.name())
        &&& n.name() != current
    } by {
        assert(best.contains(list[i]));
        assert(out[0] == current);
    }
    let p = |i: int| best[i].name() != current;
    lemma_first(best.len(), p);
    let i = first_index(best.len(), p) as int;
    if i < best.len() {
        assert(p(i));
        assert(best.contains(best[i]));
        let j = nodes.index_of(best[i]);
        assert(nodes[j].name() == best[i].name());
    }
}

/// A class with a node asks for recovery exactly when a verdict is a failure
/// and at least as many failures stand at the end of the series as the
/// threshold says; it then reports that many. A class without a node asks for
/// it with every failure.
pub proof fn law_recovery_starts_at_the_threshold(
    rt: RuntimeView,
    oks: Seq<bool>,
    threshold: u32,
    now: i64,
)
    requires
        oks.len() > 0,
        rt.health_failures + oks.len() <= u32::MAX,
    ensures
        ({
            let before = after_verdicts(rt, oks.drop_last());
            let outcome = health_outcome(before, oks.last(), threshold);
            &&& rt.active is Some ==> {
                &&& outcome.has_active
                &&& outcome.failures == trailing_failures(oks, rt.health_failures as nat)
                &&& outcome.recover <==> !oks.last() && trailing_failures(
                    oks,
                    rt.health_failures as nat,
                ) >= threshold
                &&& oks.last() ==> health_event(before, true, now) is None
                &&& !oks.last() ==> health_event(before, false, now) == Some(
                    Event::<Seq<char>>::HealthFailed {
                        unix: now,
                        class: rt.name,
                        node: (rt.active->0).name(),
                        consecutive: trailing_failures(oks, rt.health_failures as nat) as u32,
                    },
                )
            }
            &&& rt.active is None ==> {
                &&& !outcome.has_active
                &&& outcome.recover == !oks.last()
                &&& health_event(before, oks.last(), now) is None
            }
        }),
{
    lemma_verdicts_keep(rt, oks.drop_last());
    if rt.active is Some {
        law_health_streak_is_class_local(rt, oks);
        law_health_streak_is_class_local(rt, oks.drop_last());
    }
}

proof fn lemma_verdicts_keep(rt: RuntimeView, oks: Seq<bool>)
    ensures
        after_verdicts(rt, oks).active == rt.active,
        after_verdicts(rt, oks).name == rt.name,
        after_verdicts(rt, oks).route == rt.route,
        after_verdicts(rt, oks).auto_recovery == rt.auto_recovery,
    decreases oks.len(),
{
    if oks.len() > 0 {
        lemma_verdicts_keep(rt, oks.drop_last());
    }
}

/// A verdict is booked on the node in use and on nothing else: a success ends
/// its row of failures, a failure adds one, and its score stays what it was.
pub proof fn law_verdict_is_booked_on_the_active_node(
    s: StateView,
    rt: RuntimeView,
    ok: bool,
    other: Seq<char>,
)
    requires
        rt.active is Some,
        s.nodes.contains_key((rt.active->0).name()),
        s.nodes[(rt.active->0).name()].consecutive_health_failures < u32::MAX,
        other != (rt.active->0).name(),
    ensures
        ({
            let t = judged_state(s, rt, ok);
            let name = (rt.active->0).name();
            &&& t.nodes.contains_key(name)
            &&& ok ==> t.nodes[name].consecutive_health_failures == 0
            &&& !ok ==> t.nodes[name].consecutive_health_failures
                == s.nodes[name].consecutive_health_failures + 1
            &&& t.nodes[name].success_ema == s.nodes[name].success_ema
            &&& t.nodes[name].rtt_ema_ms == s.nodes[name].rtt_ema_ms
            &&& t.nodes[name].probe_count == s.nodes[name].probe_count
            &&& t.nodes.contains_key(other) == s.nodes.contains_key(other)
            &&& s.nodes.contains_key(other) ==> t.nodes[other] == s.nodes[other]
            &&& t.classes == s.classes && t.active == s.active && t.inactive == s.inactive
        }),
{
}

/// Once a path is installed, connections of the class reach its ports under
/// its node's name, the route is one generation on, all rows of failures are
/// over, and the state says the same.
pub proof fn law_installed_path_is_used(
    rt: RuntimeView,
    s: StateView,
    node: NodeView,
    ports: Ports,
    subscription: Seq<char>,
    now: i64,
)
    requires
        rt.route.generation < u64::MAX,
    ensures
        ({
            let r = installed_runtime(rt, node, ports, subscription);
            let g = (rt.route.generation + 1) as u64;
            let t = installed_state(s, rt.name, node.name(), ports, g, now);
            &&& r.name == rt.name
            &&& r.active == Some(node)
            &&& r.route.socks_upstream == Some(ports.socks)
            &&& r.route.http_upstream == Some(ports.http)
            &&& r.route.node_name == node.name()
            &&& r.route.generation == rt.route.generation + 1
            &&& r.route.traffic_subscription == subscription
            &&& r.health_failures == 0
            &&& r.auto_recovery.consecutive_failures == 0
            &&& r.auto_recovery.retry_not_before is None
            &&& t.classes.contains_key(rt.name)
            &&& t.classes[rt.name].active_node == Some(node.name())
            &&& t.classes[rt.name].socks_port == Some(ports.socks)
            &&& t.classes[rt.name].http_port == Some(ports.http)
            &&& t.classes[rt.name].generation == rt.route.generation + 1
            &&& t.updated_unix == now
            &&& t.nodes.dom() == s.nodes.dom()
            &&& s.nodes.contains_key(node.name()) ==> t.nodes[node.name()].consecutive_health_failures
                == 0 && t.nodes[node.name()].success_ema == s.nodes[node.name()].success_ema
                && t.nodes[node.name()].probe_count == s.nodes[node.name()].probe_count
        }),
{
    let g = (rt.route.generation + 1) as u64;
    let t = installed_state(s, rt.name, node.name(), ports, g, now);
    assert(t.nodes.dom() =~= s.nodes.dom());
}

/// A failed activation is one more failed probe of that node alone, unless the
/// class has a target of its own: then it is nothing at all.
pub proof fn law_failed_activation_counts_as_a_probe(
    s: StateView,
    node: Seq<char>,
    other: Seq<char>,
    blend: ProbeBlend,
    now: i64,
)
    requires
        other != node,
        s.nodes.contains_key(node) ==> s.nodes[node].probe_count < u64::MAX,
    ensures
        activation_failed(s, node, true, blend, now) == s,
        ({
            let t = activation_failed(s, node, false, blend, now);
            let count = if s.nodes.contains_key(node) {
                s.nodes[node].probe_count as int
            } else {
                0
            };
            &&& t.nodes.contains_key(node)
            &&& t.nodes[node].probe_count == count + 1
            &&& count > 0 ==> t.nodes[node].success_ema == blend.success
            &&& t.nodes[node].last_probe_unix == Some(now)
            &&& t.nodes.contains_key(other) == s.nodes.contains_key(other)
            &&& s.nodes.contains_key(other) ==> t.nodes[other] == s.nodes[other]
            &&& t.classes == s.classes && t.inactive == s.inactive && t.active == s.active
        }),
{
}

/// How often a node occurs in a list of results.
pub open spec fn occurrences(records: Seq<(Seq<char>, ProbeBlend)>, name: Seq<char>) -> nat
    decreases records.len(),
{
    if records.len() == 0 {
        0
    } else {
        occurrences(records.drop_last(), name) + if records.last().0 == name {
            1nat
        } else {
            0nat
        }
    }
}

/// A cycle of results counts for every node as often as it occurs, and leaves
/// a node that does not occur as it was.
pub proof fn law_results_are_booked_on_their_nodes(
    stats: StatsMap,
    records: Seq<(Seq<char>, ProbeBlend)>,
    now: i64,
    name: Seq<char>,
)
    requires
        countable(stats, records.len()),
        records.len() <= u64::MAX,
    ensures
        occurrences(records, name) == 0 ==> booked(stats, records, now).contains_key(name)
            == stats.contains_key(name) && (stats.contains_key(name) ==> booked(
            stats,
            records,
            now,
        )[name] == stats[name]),
        occurrences(records, name) > 0 ==> booked(stats, records, now).contains_key(name),
        booked(stats, records, now).contains_key(name) ==> booked(
            stats,
            records,
            now,
        )[name].probe_count == occurrences(records, name) + if stats.contains_key(name) {
            stats[name].probe_count as int
        } else {
            0
        },
        occurrences(records, name) <= records.len(),
    decreases records.len(),
{
    if records.len() > 0 {
        let d = records.drop_last();
        assert(countable(stats, d.len())) by {
            assert forall|n: Seq<char>| #[trigger] stats.contains_key(n) implies stats[n].probe_count
                + d.len() <= u64::MAX by {}
        }
        law_results_are_booked_on_their_nodes(stats, d, now, name);
        law_results_are_booked_on_their_nodes(stats, d, now, records.last().0);
        let last = records.last().0;
        assert(stats.contains_key(last) ==> stats[last].probe_count + records.len() <= u64::MAX);
    }
}

/// What recovery does about a class: nothing where it is pinned to its node,
/// nothing before the pause is over, an attempt otherwise.
pub proof fn law_recovery_waits_for_its_pause(rt: RuntimeView, auto_switch: bool, now: u64)
    ensures
        rt.active is Some && !auto_switch <==> recovery_decision(rt, auto_switch, now)
            == RecoveryDecision::Pinned,
        (rt.active is None || auto_switch) && rt.auto_recovery.retry_not_before is Some && now
            < rt.auto_recovery.retry_not_before->0 ==> recovery_decision(rt, auto_switch, now)
            == RecoveryDecision::CoolingDown(
            (rt.auto_recovery.retry_not_before->0 - now) as u64,
        ),
        (rt.active is None || auto_switch) && (rt.auto_recovery.retry_not_before is None || now
            >= rt.auto_recovery.retry_not_before->0) ==> recovery_decision(rt, auto_switch, now)
            == RecoveryDecision::Attempt,
{
}

/// The challenger is the best of the others: there is one exactly where some
/// eligible node is not the one in use, and no such node scores higher.
pub proof fn law_challenger_is_the_best_other(
    nodes: Seq<NodeView>,
    stats: StatsMap,
    regions: Seq<Seq<char>>,
    current: Seq<char>,
    n: NodeView,
)
    requires
        crate::selection::eligible(nodes, stats, regions, n),
        n.name() != current,
    ensures
        challenger_of(nodes, stats, regions, current) matches Some(c) && c != current
            && !crate::score::scores_below(stats[c], stats[n.name()]),
{
    let best = ranked(nodes, stats, regions);
    let p = |i: int| best[i].name() != current;
    law_ranking(nodes, stats, regions);
    crate::selection::law_regions_are_parts_of_names(regions, n.name());
    assert(best.contains(n));
    let q = best.index_of(n);
    lemma_first(best.len(), p);
    let i = first_index(best.len(), p) as int;
    assert(p(q));
    assert(i <= q) by {
        if q < i {
            assert(!p(q));
        }
    }
    assert(p(i));
    let after = crate::selection::score_order(stats);
    if i < q {
        assert(!after(best[i], best[q]));
    } else {
        crate::score::law_score_order(stats[n.name()], stats[n.name()], stats[n.name()]);
    }
}

/// A challenger takes over only where automatic switching is on, and then from
/// a node without statistics always, from another only if it wins.
pub proof fn law_takeover(
    stats: StatsMap,
    challenger: Seq<char>,
    current: Seq<char>,
    auto_switch: bool,
    gap: SuccessGap,
    clearly_faster: bool,
)
    requires
        stats.contains_key(challenger),
        stats[challenger].probe_count > 0,
    ensures
        !auto_switch ==> !takes_over(stats, challenger, current, auto_switch, gap, clearly_faster),
        auto_switch && !stats.contains_key(current) ==> takes_over(
            stats,
            challenger,
            current,
            auto_switch,
            gap,
            clearly_faster,
        ),
        auto_switch && stats.contains_key(current) && gap == SuccessGap::ChallengerAhead
            ==> takes_over(stats, challenger, current, auto_switch, gap, clearly_faster),
        auto_switch && stats.contains_key(current) && stats[current].probe_count > 0 && gap
            == SuccessGap::ChallengerBehind ==> !takes_over(
            stats,
            challenger,
            current,
            auto_switch,
            gap,
            clearly_faster,
        ),
{
}

/// Recovery ends with the node in use: it is rebuilt where the pool still has
/// a node of that name, and that node is the one.
pub proof fn law_rebuild_is_the_current_node(nodes: Seq<NodeView>, current: Option<Seq<char>>)
    ensures
        current is None ==> current_in(nodes, current) is None,
        current is Some && named(nodes, current->0) ==> current_in(nodes, current) is Some
            && nodes.contains(current_in(nodes, current)->0) && (current_in(
            nodes,
            current,
        )->0).name() == current->0,
        current is Some && !named(nodes, current->0) ==> current_in(nodes, current) is None,
{
    if current is Some && named(nodes, current->0) {
        crate::node::lemma_name_index(nodes, current->0);
    }
}

/// A verdict on a node without statistics starts its record with that verdict
/// alone; without a node in use a verdict is booked nowhere.
pub proof fn law_verdicts_without_a_record(s: StateView, rt: RuntimeView, ok: bool)
    ensures
        rt.active is None ==> judged_state(s, rt, ok) == s && judged_runtime(rt, ok) == rt,
        rt.active is Some && !s.nodes.contains_key((rt.active->0).name()) ==> {
            let t = judged_state(s, rt, ok);
            let n = (rt.active->0).name();
            &&& t.nodes.contains_key(n)
            &&& t.nodes[n].consecutive_health_failures == if ok {
                0int
            } else {
                1int
            }
            &&& t.nodes[n].probe_count == 0 && t.nodes[n].rtt_ema_ms is None
                && t.nodes[n].last_probe_unix is None && t.nodes[n].recent_rtts_ms.len() == 0
        },
{
}

/// Of the results for a node the last one decides its rate, once it had one
/// before, and its time is that of the cycle.
pub proof fn law_last_result_decides(
    stats: StatsMap,
    records: Seq<(Seq<char>, ProbeBlend)>,
    now: i64,
)
    requires
        countable(stats, records.len()),
        0 < records.len() <= u64::MAX,
    ensures
        ({
            let name = records.last().0;
            let blend = records.last().1;
            let t = booked(stats, records, now)[name];
            &&& t.last_probe_unix == Some(now)
            &&& occurrences(records, name) > 1 || stats.contains_key(name)
                && stats[name].probe_count > 0 ==> t.success_ema == blend.success
            &&& blend.rtt is Some ==> t.rtt_ema_ms is Some && t.recent_rtts_ms.len() > 0
                && t.recent_rtts_ms.last() == (blend.rtt->0).sample
            &&& blend.rtt is None ==> t.rtt_ema_ms == stats_or_fresh(
                booked(stats, records.drop_last(), now),
                name,
            ).rtt_ema_ms
        }),
{
    let d = records.drop_last();
    let name = records.last().0;
    assert(countable(stats, d.len())) by {
        assert forall|n: Seq<char>| #[trigger] stats.contains_key(n) implies stats[n].probe_count
            + d.len() <= u64::MAX by {}
    }
    law_results_are_booked_on_their_nodes(stats, d, now, name);
    law_results_are_booked_on_their_nodes(stats, records, now, name);
}

} // verus!
