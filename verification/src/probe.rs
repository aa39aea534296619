//! Probing the nodes of the pool: periodically by connecting to them, and on
//! demand end to end through a fresh data plane.

use vstd::prelude::*;

use crate::control::{result_views, Event, ProbeResult};
use crate::digest::say;
use crate::health::{is_success, success};
use crate::node::{pool, Node, NodeView};
use crate::runtime::activation_failed;
use crate::score::ProbeBlend;
use crate::state::StateView;
use crate::text::{copy_opt, same};

verus! {

// ---------------------------------------------------------------------------
// Connect probes
// ---------------------------------------------------------------------------

/// Result of connecting to one node.
#[derive(Debug, PartialEq, Eq)]
pub struct ProbeOutcome {
    pub node: Node,
    /// The round trip in nanoseconds; `None` after a timeout or a failure.
    pub rtt: Option<u64>,
}

pub struct OutcomeView {
    pub node: NodeView,
    pub rtt: Option<u64>,
}

impl View for ProbeOutcome {
    type V = OutcomeView;

    open spec fn view(&self) -> OutcomeView {
        OutcomeView { node: self.node@, rtt: self.rtt }
    }
}

pub open spec fn outcomes(v: Seq<ProbeOutcome>) -> Seq<OutcomeView> {
    v.map_values(|o: ProbeOutcome| o@)
}

/// How many of the nodes answered.
pub open spec fn reached(v: Seq<OutcomeView>) -> nat
    decreases v.len(),
{
    if v.len() == 0 {
        0
    } else {
        reached(v.drop_last()) + if v.last().rtt is Some {
            1nat
        } else {
            0nat
        }
    }
}

pub fn count_reached(v: &Vec<ProbeOutcome>) -> (n: usize)
    ensures
        n == reached(outcomes(v@)),
        n <= v@.len(),
{
    let ghost all = outcomes(v@);
    let mut n: usize = 0;
    let mut i: usize = 0;
    assert(all.take(0) =~= Seq::empty());
    while i < v.len()
        invariant
            n <= i <= v@.len(),
            all == outcomes(v@),
            n == reached(all.take(i as int)),
        decreases v@.len() - i,
    {
        let ghost t = all.take(i + 1);
        assert(t.drop_last() =~= all.take(i as int));
        assert(t.last() == v@[i as int]@);
        if v[i].rtt.is_some() {
            n = n + 1;
        }
        i = i + 1;
    }
    assert(all.take(all.len() as int) =~= all);
    n
}

/// The event of a probe cycle.
pub fn cycle_event(source: &str, results: &Vec<ProbeOutcome>, now: i64) -> (r: Event)
    ensures
        r@ == (Event::<Seq<char>>::Probed {
            unix: now,
            source: source@,
            ok: reached(outcomes(results@)) as usize,
            total: results@.len() as usize,
        }),
{
    Event::Probed {
        unix: now,
        source: source.to_string(),
        ok: count_reached(results),
        total: results.len(),
    }
}

/// How many probes run at once: at least one.
pub fn permits(concurrency: usize) -> (r: usize)
    ensures
        r == if concurrency == 0 {
            1
        } else {
            concurrency
        },
{
    if concurrency == 0 {
        1
    } else {
        concurrency
    }
}

/// Is the progress worth a line in the log?
pub fn reports_progress(done: usize, total: usize) -> (r: bool)
    ensures
        r == (done % 50 == 0 || done == total),
{
    done % 50 == 0 || done == total
}

// ---------------------------------------------------------------------------
// End-to-end tests
// ---------------------------------------------------------------------------

/// At most this many end-to-end tests run at once: each has a process.
pub const PROBE_NOW_CONCURRENCY: usize = 8;

/// As many tests at once as there are nodes, within the limit.
pub fn test_permits(total: usize) -> (r: usize)
    ensures
        1 <= r <= PROBE_NOW_CONCURRENCY,
        r == (if total == 0 {
            1
        } else if total < PROBE_NOW_CONCURRENCY {
            total
        } else {
            PROBE_NOW_CONCURRENCY
        }),
{
    if total == 0 {
        1
    } else if total < PROBE_NOW_CONCURRENCY {
        total
    } else {
        PROBE_NOW_CONCURRENCY
    }
}

/// How the end-to-end test of a node went.
#[derive(Debug, PartialEq, Eq)]
pub enum NodeTest<T = String> {
    /// The pool was replaced before the test began.
    Skipped,
    /// No local ports were to be had.
    NoPorts(T),
    /// The adapter did not start.
    NotStarted(T),
    /// A status came back, after so many milliseconds (the bits of a double).
    Answered(u16, u64),
    Failed(T),
}

pub open spec fn test_view(t: NodeTest) -> NodeTest<Seq<char>> {
    match t {
        NodeTest::Skipped => NodeTest::Skipped,
        NodeTest::NoPorts(e) => NodeTest::NoPorts(e@),
        NodeTest::NotStarted(e) => NodeTest::NotStarted(e@),
        NodeTest::Answered(code, rtt) => NodeTest::Answered(code, rtt),
        NodeTest::Failed(e) => NodeTest::Failed(e@),
    }
}

/// Is a test that was asked for under one pool out of date by now? The pool
/// carries a publication counter; once that has moved on, the node may belong
/// to a profile that is no longer live.
pub fn skip_test(asked: u64, published: u64) -> (r: Option<NodeTest>)
    ensures
        r is None <==> asked == published,
        r is Some ==> test_view(r->0) == NodeTest::<Seq<char>>::Skipped,
{
    if asked == published {
        None
    } else {
        Some(NodeTest::Skipped)
    }
}

/// What a test adds to the node's rolling statistics.
#[derive(Debug, Clone, Copy, PartialEq, Eq, Structural)]
pub enum Booking {
    Nothing,
    Failure,
    Success,
}

pub open spec fn failed_test(node: Seq<char>, status: Option<u16>, error: Option<Seq<char>>) -> ProbeResult<
    Seq<char>,
> {
    ProbeResult { node, ok: false, rtt_ms: None, http_status: status, error }
}

/// What is reported of a test.
pub open spec fn test_report(node: Seq<char>, t: NodeTest<Seq<char>>) -> ProbeResult<Seq<char>> {
    match t {
        NodeTest::Skipped => failed_test(node, None, Some("skipped: subscription changed"@)),
        NodeTest::NoPorts(e) => failed_test(node, None, Some("reserve adapter ports: "@ + e)),
        NodeTest::NotStarted(e) => failed_test(node, None, Some(e)),
        NodeTest::Answered(code, rtt) => if success(code) {
            ProbeResult { node, ok: true, rtt_ms: Some(rtt), http_status: None, error: None }
        } else {
            failed_test(node, Some(code), None)
        },
        NodeTest::Failed(e) => failed_test(node, None, Some(e)),
    }
}

/// What a test is booked as. A test against a class's own target says nothing
/// of the node for other classes, and one that never began says nothing at
/// all.
pub open spec fn test_booking(own_target: bool, t: NodeTest<Seq<char>>) -> Booking {
    if own_target {
        Booking::Nothing
    } else {
        match t {
            NodeTest::Skipped => Booking::Nothing,
            NodeTest::NoPorts(_) => Booking::Nothing,
            NodeTest::Answered(code, _) => if success(code) {
                Booking::Success
            } else {
                Booking::Failure
            },
            _ => Booking::Failure,
        }
    }
}

pub fn judge_test(node: &str, own_target: bool, test: NodeTest) -> (r: (ProbeResult, Booking))
    ensures
        (r.0)@ == test_report(node@, test_view(test)),
        r.1 == test_booking(own_target, test_view(test)),
{
    let name = node.to_string();
    let (report, booking) = match test {
        NodeTest::Skipped => (
            ProbeResult {
                node: name,
                ok: false,
                rtt_ms: None,
                http_status: None,
                error: Some("skipped: subscription changed".to_string()),
            },
            Booking::Nothing,
        ),
        NodeTest::NoPorts(e) => {
            let mut s = "reserve adapter ports: ".to_string();
            say(&mut s, e.as_str());
            (
                ProbeResult {
                    node: name,
                    ok: false,
                    rtt_ms: None,
                    http_status: None,
                    error: Some(s),
                },
                Booking::Nothing,
            )
        },
        NodeTest::NotStarted(e) => (
            ProbeResult {
                node: name,
                ok: false,
                rtt_ms: None,
                http_status: None,
                error: Some(e),
            },
            Booking::Failure,
        ),
        NodeTest::Answered(code, rtt) => if is_success(code) {
            (
                ProbeResult {
                    node: name,
                    ok: true,
                    rtt_ms: Some(rtt),
                    http_status: None,
                    error: None,
                },
                Booking::Success,
            )
        } else {
            (
                ProbeResult {
                    node: name,
                    ok: false,
                    rtt_ms: None,
                    http_status: Some(code),
                    error: None,
                },
                Booking::Failure,
            )
        },
        NodeTest::Failed(e) => (
            ProbeResult {
                node: name,
                ok: false,
                rtt_ms: None,
                http_status: None,
                error: Some(e),
            },
            Booking::Failure,
        ),
    };
    if own_target {
        (report, Booking::Nothing)
    } else {
        (report, booking)
    }
}

/// The first result for a node.
pub open spec fn result_for(results: Seq<ProbeResult<Seq<char>>>, node: Seq<char>) -> Option<
    ProbeResult<Seq<char>>,
>
    decreases results.len(),
{
    if results.len() == 0 {
        None
    } else {
        match result_for(results.drop_last(), node) {
            Some(r) => Some(r),
            None => if results.last().node == node {
                Some(results.last())
            } else {
                None
            },
        }
    }
}

/// The results in the order of the pool, whatever order they came in.
pub open spec fn pool_ordered(nodes: Seq<NodeView>, results: Seq<ProbeResult<Seq<char>>>) -> Seq<
    ProbeResult<Seq<char>>,
>
    decreases nodes.len(),
{
    if nodes.len() == 0 {
        Seq::empty()
    } else {
        let before = pool_ordered(nodes.drop_last(), results);
        match result_for(results, nodes.last().name()) {
            Some(r) => before.push(r),
            None => before,
        }
    }
}

fn copy_result(r: &ProbeResult) -> (c: ProbeResult)
    ensures
        c@ == r@,
{
    ProbeResult {
        node: r.node.clone(),
        ok: r.ok,
        rtt_ms: r.rtt_ms,
        http_status: r.http_status,
        error: copy_opt(&r.error),
    }
}

fn find_result(results: &Vec<ProbeResult>, node: &str) -> (r: Option<ProbeResult>)
    ensures
        (match r {
            Some(x) => Some(x@),
            None => None,
        }) == result_for(result_views(results@), node@),
{
    let ghost all = result_views(results@);
    let mut i: usize = 0;
    assert(all.take(0) =~= Seq::empty());
    while i < results.len()
        invariant
            i <= results@.len(),
            all == result_views(results@),
            result_for(all.take(i as int), node@) is None,
        decreases results@.len() - i,
    {
        let ghost t = all.take(i + 1);
        assert(t.drop_last() =~= all.take(i as int));
        assert(t.last() == results@[i as int]@);
        if same(results[i].node.as_str(), node) {
            proof {
                lemma_result_stays(all, node@, i + 1);
            }
            return Some(copy_result(&results[i]));
        }
        i = i + 1;
    }
    assert(all.take(all.len() as int) =~= all);
    None
}

proof fn lemma_result_stays(results: Seq<ProbeResult<Seq<char>>>, node: Seq<char>, n: int)
    requires
        0 <= n <= results.len(),
        result_for(results.take(n), node) is Some,
    ensures
        result_for(results, node) == result_for(results.take(n), node),
    decreases results.len() - n,
{
    if n < results.len() {
        assert(results.take(n + 1).drop_last() =~= results.take(n));
        lemma_result_stays(results, node, n + 1);
    } else {
        assert(results.take(n) =~= results);
    }
}

/// Put the results in the order of the pool.
pub fn in_pool_order(nodes: &Vec<Node>, results: &Vec<ProbeResult>) -> (r: Vec<ProbeResult>)
    ensures
        result_views(r@) == pool_ordered(pool(nodes@), result_views(results@)),
{
    let ghost all = pool(nodes@);
    let mut out: Vec<ProbeResult> = Vec::new();
    let mut i: usize = 0;
    assert(all.take(0) =~= Seq::empty());
    assert(result_views(out@) =~= Seq::empty());
    while i < nodes.len()
        invariant
            i <= nodes@.len(),
            all == pool(nodes@),
            result_views(out@) == pool_ordered(all.take(i as int), result_views(results@)),
        decreases nodes@.len() - i,
    {
        let ghost t = all.take(i + 1);
        assert(t.drop_last() =~= all.take(i as int));
        assert(t.last() == nodes@[i as int]@);
        if let Some(r) = find_result(results, nodes[i].name()) {
            let ghost before = result_views(out@);
            let ghost rv = r@;
            out.push(r);
            assert(result_views(out@) =~= before.push(rv));
        }
        i = i + 1;
    }
    assert(all.take(all.len() as int) =~= all);
    out
}

proof fn lemma_result_for(results: Seq<ProbeResult<Seq<char>>>, node: Seq<char>, k: int)
    requires
        0 <= k < results.len(),
        results[k].node == node,
    ensures
        result_for(results, node) is Some,
        (result_for(results, node)->0).node == node,
    decreases results.len(),
{
    if k < results.len() - 1 {
        assert(results.drop_last()[k] == results[k]);
        lemma_result_for(results.drop_last(), node, k);
    } else {
        lemma_result_named(results, node);
    }
}

proof fn lemma_result_named(results: Seq<ProbeResult<Seq<char>>>, node: Seq<char>)
    ensures
        result_for(results, node) is Some ==> (result_for(results, node)->0).node == node,
    decreases results.len(),
{
    if results.len() > 0 {
        lemma_result_named(results.drop_last(), node);
    }
}

/// A class with a target of its own judges nodes without touching the scores
/// that all classes share.
pub proof fn law_own_targets_leave_scores_alone(
    s: StateView,
    node: Seq<char>,
    blend: ProbeBlend,
    now: i64,
    test: NodeTest<Seq<char>>,
)
    ensures
        activation_failed(s, node, true, blend, now) == s,
        test_booking(true, test) == Booking::Nothing,
{
}

/// Where every node of the pool has a result, the listing has one entry per
/// node, in the order of the pool.
pub proof fn law_probe_listing_follows_the_pool(
    nodes: Seq<NodeView>,
    results: Seq<ProbeResult<Seq<char>>>,
)
    requires
        forall|i: int|
            0 <= i < nodes.len() ==> exists|k: int|
                0 <= k < results.len() && (#[trigger] results[k]).node == (
                #[trigger] nodes[i]).name(),
    ensures
        pool_ordered(nodes, results).len() == nodes.len(),
        forall|i: int|
            0 <= i < nodes.len() ==> (#[trigger] pool_ordered(nodes, results)[i]).node
                == nodes[i].name(),
    decreases nodes.len(),
{
    if nodes.len() > 0 {
        let d = nodes.drop_last();
        assert forall|i: int| 0 <= i < d.len() implies exists|k: int|
            0 <= k < results.len() && (#[trigger] results[k]).node == (#[trigger] d[i]).name() by {
            assert(d[i] == nodes[i]);
        }
        law_probe_listing_follows_the_pool(d, results);
        let last = nodes.len() - 1;
        assert(nodes[last] == nodes.last());
        let k = choose|k: int|
            0 <= k < results.len() && (#[trigger] results[k]).node == nodes[last].name();
        lemma_result_for(results, nodes.last().name(), k);
        assert forall|i: int| 0 <= i < nodes.len() implies (#[trigger] pool_ordered(
            nodes,
            results,
        )[i]).node == nodes[i].name() by {
            if i < last {
                assert(pool_ordered(nodes, results)[i] == pool_ordered(d, results)[i]);
                assert(d[i] == nodes[i]);
            }
        }
    }
}

/// How many tests succeeded.
pub open spec fn passed(v: Seq<ProbeResult<Seq<char>>>) -> nat
    decreases v.len(),
{
    if v.len() == 0 {
        0
    } else {
        passed(v.drop_last()) + if v.last().ok {
            1nat
        } else {
            0nat
        }
    }
}

/// The event of an on-demand probe.
pub fn on_demand_event(results: &Vec<ProbeResult>, now: i64) -> (r: Event)
    ensures
        r@ == (Event::<Seq<char>>::Probed {
            unix: now,
            source: "on-demand"@,
            ok: passed(result_views(results@)) as usize,
            total: results@.len() as usize,
        }),
{
    let ghost all = result_views(results@);
    let mut n: usize = 0;
    let mut i: usize = 0;
    assert(all.take(0) =~= Seq::empty());
    while i < results.len()
        invariant
            n <= i <= results@.len(),
            all == result_views(results@),
            n == passed(all.take(i as int)),
        decreases results@.len() - i,
    {
        let ghost t = all.take(i + 1);
        assert(t.drop_last() =~= all.take(i as int));
        assert(t.last() == results@[i as int]@);
        if results[i].ok {
            n = n + 1;
        }
        i = i + 1;
    }
    assert(all.take(all.len() as int) =~= all);
    Event::Probed { unix: now, source: "on-demand".to_string(), ok: n, total: results.len() }
}

/// A node passes its test exactly with an answer from 200 to 299, and then its
/// round trip is reported; a failure has no round trip, and reports the code
/// or the reason.
pub proof fn law_test_passes_with_a_2xx(node: Seq<char>, t: NodeTest<Seq<char>>)
    ensures
        ({
            let r = test_report(node, t);
            &&& r.node == node
            &&& r.ok <==> (t matches NodeTest::Answered(code, _) && 200 <= code <= 299)
            &&& t matches NodeTest::Answered(code, rtt) ==> if 200 <= code <= 299 {
                r.rtt_ms == Some(rtt) && r.error is None
            } else {
                r.rtt_ms is None && r.http_status == Some(code)
            }
            &&& !(t is Answered) ==> r.rtt_ms is None && r.http_status is None && r.error is Some
            &&& t matches NodeTest::Failed(e) ==> r.error == Some(e)
            &&& t matches NodeTest::NotStarted(e) ==> r.error == Some(e)
        }),
{
}

/// A test is booked as what it was: a pass as a success, an answer that is
/// none or no answer as a failure; a node that was never tried is not booked,
/// and nothing is where the class has a target of its own.
pub proof fn law_test_booking(node: Seq<char>, t: NodeTest<Seq<char>>)
    ensures
        test_booking(false, t) is Success <==> test_report(node, t).ok,
        test_booking(false, t) is Nothing <==> t is Skipped || t is NoPorts,
        test_booking(true, t) is Nothing,
{
}

/// Every probe counts as reached exactly where each has a round trip, and none
/// where none has.
pub proof fn law_reached_counts_round_trips(v: Seq<OutcomeView>)
    ensures
        reached(v) <= v.len(),
        reached(v) == v.len() <==> forall|i: int|
            0 <= i < v.len() ==> (#[trigger] v[i]).rtt is Some,
        reached(v) == 0 <==> forall|i: int| 0 <= i < v.len() ==> (#[trigger] v[i]).rtt is None,
    decreases v.len(),
{
    if v.len() > 0 {
        let d = v.drop_last();
        law_reached_counts_round_trips(d);
        let last = v[v.len() - 1];
        if reached(v) == v.len() || reached(v) == 0 {
            assert forall|i: int| 0 <= i < v.len() implies (#[trigger] v[i]).rtt is Some
                == (reached(v) == v.len()) by {
                if i < d.len() {
                    assert(d[i] == v[i]);
                }
            }
        }
        if forall|i: int| 0 <= i < v.len() ==> (#[trigger] v[i]).rtt is Some {
            assert forall|i: int| 0 <= i < d.len() implies (#[trigger] d[i]).rtt is Some by {
                assert(d[i] == v[i]);
            }
            assert(last.rtt is Some);
        }
        if forall|i: int| 0 <= i < v.len() ==> (#[trigger] v[i]).rtt is None {
            assert forall|i: int| 0 <= i < d.len() implies (#[trigger] d[i]).rtt is None by {
                assert(d[i] == v[i]);
            }
            assert(last.rtt is None);
        }
    }
}

/// Every test counts as passed exactly where each passed, and none where none
/// did.
pub proof fn law_passed_counts_passes(v: Seq<ProbeResult<Seq<char>>>)
    ensures
        passed(v) <= v.len(),
        passed(v) == v.len() <==> forall|i: int| 0 <= i < v.len() ==> (#[trigger] v[i]).ok,
        passed(v) == 0 <==> forall|i: int| 0 <= i < v.len() ==> !(#[trigger] v[i]).ok,
    decreases v.len(),
{
    if v.len() > 0 {
        let d = v.drop_last();
        law_passed_counts_passes(d);
        let last = v[v.len() - 1];
        if passed(v) == v.len() || passed(v) == 0 {
            assert forall|i: int| 0 <= i < v.len() implies (#[trigger] v[i]).ok == (passed(v)
                == v.len()) by {
                if i < d.len() {
                    assert(d[i] == v[i]);
                }
            }
        }
        if forall|i: int| 0 <= i < v.len() ==> (#[trigger] v[i]).ok {
            assert forall|i: int| 0 <= i < d.len() implies (#[trigger] d[i]).ok by {
                assert(d[i] == v[i]);
            }
            assert(last.ok);
        }
        if forall|i: int| 0 <= i < v.len() ==> !(#[trigger] v[i]).ok {
            assert forall|i: int| 0 <= i < d.len() implies !(#[trigger] d[i]).ok by {
                assert(d[i] == v[i]);
            }
            assert(!last.ok);
        }
    }
}

} // verus!
