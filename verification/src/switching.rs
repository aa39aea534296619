//! Switching a class: which nodes are tried, in which order, and what an
//! operator is told.

use vstd::prelude::*;

use crate::control::SwitchOutcome;
use crate::digest::{debug_quoted, say_quoted};
use crate::names::{Model, NameMap};
use crate::node::{find_node, name_index, named, pool, Node, NodeView};
use crate::runtime::RecoveryPlan;
use crate::score::NodeStats;
use crate::selection::{switch_candidates, switch_list, MAX_SWITCH_CANDIDATES};
use crate::text::{opt_str, same, texts};

verus! {

/// A node to try, and the reason that is recorded if it is installed.
pub struct Attempt {
    pub node: Node,
    pub reason: String,
}

#[verifier::ext_equal]
pub struct AttemptView {
    pub node: NodeView,
    pub reason: Seq<char>,
}

impl View for Attempt {
    type V = AttemptView;

    open spec fn view(&self) -> AttemptView {
        AttemptView { node: self.node@, reason: self.reason@ }
    }
}

pub open spec fn attempts(v: Seq<Attempt>) -> Seq<AttemptView> {
    v.map_values(|a: Attempt| a@)
}

/// Nodes to try one after the other, until one passes its pre-check.
pub struct SwitchRun {
    queue: Vec<Attempt>,
    at: usize,
}

impl View for SwitchRun {
    type V = Seq<AttemptView>;

    /// What is left to try.
    closed spec fn view(&self) -> Seq<AttemptView> {
        attempts(self.queue@).skip(self.at as int)
    }
}

impl SwitchRun {
    #[verifier::type_invariant]
    spec fn wf(self) -> bool {
        self.at <= self.queue@.len()
    }

    pub fn new(queue: Vec<Attempt>) -> (r: Self)
        ensures
            r@ == attempts(queue@),
    {
        let r = SwitchRun { queue, at: 0 };
        assert(r@ =~= attempts(queue@));
        r
    }

    /// The attempt to make now; none is left where the switch has failed.
    pub fn candidate(&self) -> (r: Option<&Attempt>)
        ensures
            match r {
                Some(a) => self@.len() > 0 && a@ == self@[0],
                None => self@.len() == 0,
            },
    {
        proof {
            use_type_invariant(self);
        }
        if self.at < self.queue.len() {
            Some(&self.queue[self.at])
        } else {
            None
        }
    }

    /// The attempt failed: go on with the next.
    pub fn failed(&mut self)
        requires
            old(self)@.len() > 0,
        ensures
            final(self)@ == old(self)@.skip(1),
    {
        proof {
            use_type_invariant(&*self);
        }
        let ghost before = self@;
        let n: usize = self.queue.len();
        assert(self.at < n);
        self.at = self.at + 1;
        assert(self@ =~= before.skip(1));
    }
}

/// The attempt that is installed, where `works` says which ones pass.
pub open spec fn run_outcome(
    left: Seq<AttemptView>,
    works: spec_fn(AttemptView) -> bool,
) -> Option<AttemptView>
    decreases left.len(),
{
    if left.len() == 0 {
        None
    } else if works(left[0]) {
        Some(left[0])
    } else {
        run_outcome(left.skip(1), works)
    }
}

/// The first attempt that passes is installed; the switch fails only where
/// none passes.
pub proof fn law_first_working_attempt_wins(
    left: Seq<AttemptView>,
    works: spec_fn(AttemptView) -> bool,
)
    ensures
        match run_outcome(left, works) {
            Some(a) => exists|i: int|
                0 <= i < left.len() && left[i] == a && works(#[trigger] left[i]) && forall|j: int|
                    0 <= j < i ==> !works(#[trigger] left[j]),
            None => forall|j: int| 0 <= j < left.len() ==> !works(#[trigger] left[j]),
        },
    decreases left.len(),
{
    if left.len() > 0 {
        if works(left[0]) {
            assert(left[0] == left[0]);
        } else {
            let rest = left.skip(1);
            law_first_working_attempt_wins(rest, works);
            assert forall|j: int| 0 <= j < rest.len() implies #[trigger] rest[j] == left[j + 1] by {}
            match run_outcome(rest, works) {
                Some(a) => {
                    let i = choose|i: int|
                        0 <= i < rest.len() && rest[i] == a && works(#[trigger] rest[i]) && forall|
                            j: int,
                        |
                            0 <= j < i ==> !works(#[trigger] rest[j]);
                    assert(left[i + 1] == a);
                    assert forall|j: int| 0 <= j < i + 1 implies !works(#[trigger] left[j]) by {
                        if j > 0 {
                            assert(rest[j - 1] == left[j]);
                        }
                    }
                },
                None => {
                    assert forall|j: int| 0 <= j < left.len() implies !works(#[trigger] left[j]) by {
                        if j > 0 {
                            assert(rest[j - 1] == left[j]);
                        }
                    }
                },
            }
        }
    }
}

pub open spec fn for_reason(nodes: Seq<NodeView>, reason: Seq<char>) -> Seq<AttemptView> {
    nodes.map_values(|n: NodeView| AttemptView { node: n, reason })
}

/// Give every node the same reason.
pub fn attempts_for(nodes: Vec<Node>, reason: &str) -> (r: Vec<Attempt>)
    ensures
        attempts(r@) == for_reason(pool(nodes@), reason@),
{
    let mut r: Vec<Attempt> = Vec::new();
    let mut i: usize = 0;
    let ghost want = for_reason(pool(nodes@), reason@);
    while i < nodes.len()
        invariant
            i <= nodes@.len(),
            want == for_reason(pool(nodes@), reason@),
            attempts(r@) == want.take(i as int),
        decreases nodes@.len() - i,
    {
        let a = Attempt { node: nodes[i].dup(), reason: reason.to_string() };
        let ghost before = attempts(r@);
        let ghost av = a@;
        r.push(a);
        assert(attempts(r@) =~= before.push(av));
        assert(want.take(i + 1) =~= want.take(i as int).push(want[i as int]));
        i = i + 1;
    }
    assert(want.take(nodes@.len() as int) =~= want);
    r
}

/// Why a path is installed, as events report it.
pub const INITIAL: &'static str = "initial";

pub const MANUAL: &'static str = "manual";

pub const HEALTH_FAILURES: &'static str = "health-failures";

pub const CHALLENGER_WINS: &'static str = "challenger-wins";

pub const EGRESS_CHANGE: &'static str = "egress-change";

/// Automatic recovery: the alternates first, the current node last.
pub open spec fn recovery_attempts_of(
    alternates: Seq<NodeView>,
    rebuild: Option<NodeView>,
    reason: Seq<char>,
) -> Seq<AttemptView> {
    for_reason(alternates, reason) + (match rebuild {
        Some(n) => seq![AttemptView { node: n, reason: "path-recovery"@ }],
        None => Seq::empty(),
    })
}

pub fn recovery_attempts(plan: RecoveryPlan, reason: &str) -> (r: Vec<Attempt>)
    ensures
        attempts(r@) == recovery_attempts_of(
            pool(plan.alternates@),
            crate::manifest::opt_view(plan.rebuild),
            reason@,
        ),
{
    let ghost alternates = pool(plan.alternates@);
    let ghost rebuild = crate::manifest::opt_view(plan.rebuild);
    let mut r = attempts_for(plan.alternates, reason);
    let ghost before = attempts(r@);
    if let Some(n) = plan.rebuild {
        let a = Attempt { node: n, reason: "path-recovery".to_string() };
        let ghost av = a@;
        r.push(a);
        assert(attempts(r@) =~= before.push(av));
        assert(before.push(av) =~= before + seq![av]);
    } else {
        assert(before + Seq::<AttemptView>::empty() =~= before);
    }
    r
}

// ---------------------------------------------------------------------------
// Manual switching
// ---------------------------------------------------------------------------

/// How a manual switch begins.
pub enum ManualStart {
    /// No node of the pool has the name.
    Unknown(String),
    /// The node is active already: nothing to do.
    Done(SwitchOutcome),
    Try(Node),
}

pub open spec fn unknown_node_text(requested: Seq<char>) -> Seq<char> {
    "unknown node "@ + debug_quoted(requested)
}

pub open spec fn manual_start(
    nodes: Seq<NodeView>,
    current: Option<Seq<char>>,
    requested: Seq<char>,
    r: ManualStart,
) -> bool {
    match r {
        ManualStart::Unknown(m) => !named(nodes, requested) && m@ == unknown_node_text(requested),
        ManualStart::Done(o) => named(nodes, requested) && current == Some(requested) && o@ == (
        SwitchOutcome { requested, installed: requested, fallback: false }),
        ManualStart::Try(n) => named(nodes, requested) && current != Some(requested) && n@
            == nodes[name_index(nodes, requested) as int],
    }
}

pub fn begin_manual(nodes: &Vec<Node>, current: Option<&str>, requested: &str) -> (r: ManualStart)
    ensures
        manual_start(pool(nodes@), opt_str(current), requested@, r),
{
    let i: usize = match find_node(nodes, requested) {
        Some(i) => i,
        None => {
            let mut s = "unknown node ".to_string();
            say_quoted(&mut s, requested);
            return ManualStart::Unknown(s);
        },
    };
    if let Some(c) = current {
        if same(c, requested) {
            return ManualStart::Done(
                SwitchOutcome {
                    requested: requested.to_string(),
                    installed: requested.to_string(),
                    fallback: false,
                },
            );
        }
    }
    ManualStart::Try(nodes[i].dup())
}

/// What to try once the requested node has failed: the best nodes but for
/// the request and the current one. An operator is not limited to regions.
pub fn manual_fallbacks(
    nodes: &Vec<Node>,
    stats: &NameMap<NodeStats>,
    current: Option<&str>,
    requested: &str,
) -> (r: Vec<Node>)
    ensures
        pool(r@) == switch_list(
            pool(nodes@),
            stats@,
            Seq::empty(),
            opt_str(current),
            Some(requested@),
            MAX_SWITCH_CANDIDATES as nat,
        ),
        r@.len() <= 5,
        forall|i: int|
            0 <= i < r@.len() ==> (#[trigger] pool(r@)[i]).name() != requested@ && Some(
                pool(r@)[i].name(),
            ) != opt_str(current),
{
    proof {
        crate::selection::law_switch_list_is_the_best(
            pool(nodes@),
            stats@,
            Seq::empty(),
            opt_str(current),
            Some(requested@),
            MAX_SWITCH_CANDIDATES as nat,
        );
    }
    let everywhere: Vec<String> = Vec::new();
    assert(texts(everywhere@) =~= Seq::<Seq<char>>::empty());
    switch_candidates(
        nodes,
        stats,
        &everywhere,
        current,
        Some(requested),
        MAX_SWITCH_CANDIDATES,
    )
}

/// The answer to a manual switch, given what was installed and whether it
/// was the requested node or a fallback.
pub fn manual_outcome(requested: &str, installed: Option<String>, fallback: bool) -> (r: Result<
    SwitchOutcome,
    String,
>)
    ensures
        match r {
            Ok(o) => installed is Some && o@ == (SwitchOutcome {
                requested: requested@,
                installed: installed->0@,
                fallback,
            }),
            Err(m) => installed is None && m@
                == "all candidates failed to activate, keeping current path"@,
        },
{
    match installed {
        Some(name) => Ok(
            SwitchOutcome { requested: requested.to_string(), installed: name, fallback },
        ),
        None => Err("all candidates failed to activate, keeping current path".to_string()),
    }
}

/// A manual switch to a name that the pool does not have is refused; one to
/// the node in use is done already; any other tries the pool's node of that
/// very name.
pub proof fn law_manual_switch_tries_the_requested_node(
    nodes: Seq<NodeView>,
    current: Option<Seq<char>>,
    requested: Seq<char>,
    r: ManualStart,
)
    requires
        manual_start(nodes, current, requested, r),
    ensures
        (r is Unknown) == !(exists|i: int|
            0 <= i < nodes.len() && (#[trigger] nodes[i]).name() == requested),
        r is Done ==> current == Some(requested),
        r is Try ==> current != Some(requested),
        r matches ManualStart::Done(o) ==> o@.installed == requested && o@.requested == requested
            && !o@.fallback,
        r matches ManualStart::Try(n) ==> n@.name() == requested && nodes.contains(n@),
{
    if named(nodes, requested) {
        crate::node::lemma_name_index(nodes, requested);
    }
}

/// The fallbacks of a manual switch are never the node that was asked for nor
/// the one in use, and regions do not hold them back: they are the best five
/// of all probed nodes.
pub proof fn law_manual_fallbacks_are_the_best_others(
    nodes: Seq<NodeView>,
    stats: crate::state::StatsMap,
    current: Option<Seq<char>>,
    requested: Seq<char>,
    n: NodeView,
)
    requires
        nodes.contains(n),
        stats.contains_key(n.name()) && stats[n.name()].probe_count > 0,
        n.name() != requested,
        Some(n.name()) != current,
    ensures
        ({
            let list = switch_list(
                nodes,
                stats,
                Seq::empty(),
                current,
                Some(requested),
                MAX_SWITCH_CANDIDATES as nat,
            );
            &&& list.len() <= 5
            &&& list.contains(n) || list.len() == 5
            &&& forall|i: int|
                0 <= i < list.len() ==> (#[trigger] list[i]).name() != requested && Some(
                    list[i].name(),
                ) != current
        }),
{
    crate::selection::law_switch_list_is_the_best(
        nodes,
        stats,
        Seq::empty(),
        current,
        Some(requested),
        MAX_SWITCH_CANDIDATES as nat,
    );
    assert(crate::selection::eligible(nodes, stats, Seq::empty(), n));
}

/// Automatic recovery tries every alternate, for the reason given, before it
/// builds the path of the node in use anew; and that node last of all, under
/// the name of a path recovery.
pub proof fn law_recovery_rebuilds_last(
    alternates: Seq<NodeView>,
    rebuild: Option<NodeView>,
    reason: Seq<char>,
)
    ensures
        ({
            let all = recovery_attempts_of(alternates, rebuild, reason);
            &&& all.len() == alternates.len() + if rebuild is Some {
                1int
            } else {
                0int
            }
            &&& forall|i: int|
                0 <= i < alternates.len() ==> (#[trigger] all[i]).node == alternates[i]
                    && all[i].reason == reason
            &&& rebuild is Some ==> all.last().node == rebuild->0 && all.last().reason
                == "path-recovery"@
        }),
{
}

} // verus!
