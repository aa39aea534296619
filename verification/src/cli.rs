//! What the command line decides: which class it is about, how a switch is
//! asked for, and what its reports list.

use vstd::prelude::*;

use crate::config::ClassConfig;
use crate::digest::{debug_quoted, say, say_quoted};
use crate::names::{ordered, Model, NameMap};
use crate::node::{pool, Node, NodeView};
use crate::order::{lemma_insert_at, sort_by};
use crate::probe::{outcomes, OutcomeView, ProbeOutcome};
use crate::score::{is_below, scores_below, NodeStats, NodeStatsView};
use crate::state::StatsMap;
use crate::text::{chars_of, opt_str, string_of};

verus! {

// ---------------------------------------------------------------------------
// Columns
// ---------------------------------------------------------------------------

/// A text cut to a column: what does not fit ends in an ellipsis.
pub open spec fn truncated(s: Seq<char>, max_chars: nat) -> Seq<char> {
    if s.len() <= max_chars {
        s
    } else if max_chars == 0 {
        seq!['…']
    } else {
        s.take(max_chars - 1).push('…')
    }
}

pub fn truncate(s: &str, max_chars: usize) -> (r: String)
    ensures
        r@ == truncated(s@, max_chars as nat),
{
    let v = chars_of(s);
    if v.len() <= max_chars {
        return s.to_string();
    }
    let keep: usize = if max_chars == 0 {
        0
    } else {
        max_chars - 1
    };
    let mut t = string_of(&v, 0, keep);
    t.push('…');
    assert(t@ =~= truncated(s@, max_chars as nat));
    t
}

/// A cut text fits its column, unless the column has no room for anything.
pub proof fn law_truncated_fits(s: Seq<char>, max_chars: nat)
    requires
        max_chars > 0,
    ensures
        truncated(s, max_chars).len() <= max_chars,
{
}

// ---------------------------------------------------------------------------
// Switching
// ---------------------------------------------------------------------------

/// The names, separated by commas.
pub open spec fn listed_names(names: Seq<Seq<char>>) -> Seq<char>
    decreases names.len(),
{
    if names.len() == 0 {
        Seq::empty()
    } else if names.len() == 1 {
        names[0]
    } else {
        listed_names(names.drop_last()) + ", "@ + names.last()
    }
}

/// The class to manage: the one asked for, or the first configured.
pub open spec fn class_choice(classes: Set<Seq<char>>, wanted: Option<Seq<char>>) -> Result<
    Seq<char>,
    Seq<char>,
> {
    match wanted {
        Some(class) => if classes.contains(class) {
            Ok(class)
        } else {
            Err(
                "unknown class "@ + debug_quoted(class) + " (configured: "@ + listed_names(
                    ordered(classes),
                ) + ")"@,
            )
        },
        None => if ordered(classes).len() == 0 {
            Err("no classes configured"@)
        } else {
            Ok(ordered(classes)[0])
        },
    }
}

pub fn choose_class(classes: &NameMap<ClassConfig>, wanted: Option<&str>) -> (r: Result<
    String,
    String,
>)
    ensures
        match r {
            Ok(c) => class_choice(classes@.dom(), opt_str(wanted)) == Ok::<Seq<char>, Seq<char>>(
                c@,
            ),
            Err(e) => class_choice(classes@.dom(), opt_str(wanted)) == Err::<
                Seq<char>,
                Seq<char>,
            >(e@),
        },
{
    let n: usize = classes.len();
    match wanted {
        None => if n == 0 {
            Err("no classes configured".to_string())
        } else {
            Ok(classes.key_at(0).clone())
        },
        Some(class) => {
            if classes.contains_key(class) {
                return Ok(class.to_string());
            }
            let ghost ks = ordered(classes@.dom());
            let mut names = String::new();
            let mut i: usize = 0;
            assert(ks.take(0) =~= Seq::<Seq<char>>::empty());
            assert(names@ =~= Seq::<char>::empty());
            while i < n
                invariant
                    i <= n,
                    n == ks.len(),
                    ks == ordered(classes@.dom()),
                    names@ == listed_names(ks.take(i as int)),
                decreases n - i,
            {
                let ghost t = ks.take(i + 1);
                assert(t.drop_last() =~= ks.take(i as int));
                assert(t.last() == ks[i as int]);
                if i > 0 {
                    say(&mut names, ", ");
                }
                let k = classes.key_at(i);
                say(&mut names, k.as_str());
                if i == 0 {
                    assert(names@ =~= ks[0]);
                }
                i = i + 1;
            }
            assert(ks.take(n as int) =~= ks);
            let mut s = "unknown class ".to_string();
            say_quoted(&mut s, class);
            say(&mut s, " (configured: ");
            say(&mut s, names.as_str());
            say(&mut s, ")");
            Err(s)
        },
    }
}

/// How a switch is asked for.
#[derive(Debug, Clone, Copy, PartialEq, Eq, Structural)]
pub enum SwitchMode {
    Interactive,
    /// A node or a site was named, and confirmed.
    Automatic,
    /// It was named, but not confirmed.
    Unconfirmed,
}

pub fn switch_mode(node_named: bool, site_named: bool, confirmed: bool) -> (r: SwitchMode)
    ensures
        r == (if !node_named && !site_named {
            SwitchMode::Interactive
        } else if confirmed {
            SwitchMode::Automatic
        } else {
            SwitchMode::Unconfirmed
        }),
{
    if !node_named && !site_named {
        SwitchMode::Interactive
    } else if confirmed {
        SwitchMode::Automatic
    } else {
        SwitchMode::Unconfirmed
    }
}

// ---------------------------------------------------------------------------
// Reports
// ---------------------------------------------------------------------------

/// Rows of a probe report.
pub const PROBE_REPORT_ROWS: usize = 20;

/// Rows of a status report.
pub const STATUS_REPORT_ROWS: usize = 10;

/// A node that answered.
#[derive(Debug, PartialEq, Eq)]
pub struct ProbeRow {
    pub node: String,
    pub rtt: u64,
}

pub open spec fn probe_rows(v: Seq<ProbeRow>) -> Seq<(Seq<char>, u64)> {
    v.map_values(|r: ProbeRow| (r.node@, r.rtt))
}

/// The nodes that answered, as they came.
pub open spec fn answered(v: Seq<OutcomeView>) -> Seq<(Seq<char>, u64)>
    decreases v.len(),
{
    if v.len() == 0 {
        Seq::empty()
    } else {
        match v.last().rtt {
            Some(rtt) => answered(v.drop_last()).push((v.last().node.name(), rtt)),
            None => answered(v.drop_last()),
        }
    }
}

/// Shorter round trips come first.
pub open spec fn rtt_order() -> spec_fn((Seq<char>, u64), (Seq<char>, u64)) -> bool {
    |a: (Seq<char>, u64), b: (Seq<char>, u64)| a.1 > b.1
}

/// The nodes that answered, fastest first.
pub fn probe_report(results: &Vec<ProbeOutcome>) -> (r: Vec<ProbeRow>)
    ensures
        probe_rows(r@) == sort_by(answered(outcomes(results@)), rtt_order()),
{
    let ghost all = outcomes(results@);
    let ghost after = rtt_order();
    let mut r: Vec<ProbeRow> = Vec::new();
    let mut i: usize = 0;
    assert(all.take(0) =~= Seq::empty());
    assert(probe_rows(r@) =~= Seq::empty());
    while i < results.len()
        invariant
            i <= results@.len(),
            all == outcomes(results@),
            after == rtt_order(),
            probe_rows(r@) == sort_by(answered(all.take(i as int)), after),
        decreases results@.len() - i,
    {
        let ghost t = all.take(i + 1);
        let ghost sofar = answered(all.take(i as int));
        proof {
            assert(t.drop_last() =~= all.take(i as int));
            assert(t.last() == results@[i as int]@);
        }
        if let Some(rtt) = results[i].rtt {
            let x = ProbeRow { node: results[i].node.name().to_string(), rtt };
            let ghost xv = (x.node@, x.rtt);
            let ghost sorted = probe_rows(r@);
            let mut p: usize = r.len();
            let mut more = true;
            while p > 0 && more
                invariant
                    p <= r@.len(),
                    sorted == probe_rows(r@),
                    xv == (x.node@, x.rtt),
                    after == rtt_order(),
                    forall|k: int| p <= k < sorted.len() ==> after(#[trigger] sorted[k], xv),
                    !more ==> p > 0 && !after(sorted[p - 1], xv),
                decreases p + if more { 1int } else { 0int },
            {
                assert(sorted[p - 1] == (r@[p - 1].node@, r@[p - 1].rtt));
                if r[p - 1].rtt > x.rtt {
                    p = p - 1;
                } else {
                    more = false;
                }
            }
            proof {
                lemma_insert_at(sorted, xv, after, p as int);
                assert(answered(t) == sofar.push(xv));
                assert(answered(t).drop_last() =~= sofar);
            }
            r.insert(p, x);
            assert(probe_rows(r@) =~= sorted.insert(p as int, xv));
        }
        i = i + 1;
    }
    assert(all.take(all.len() as int) =~= all);
    r
}

/// A node with its statistics.
pub struct RankedNode {
    pub name: String,
    pub stats: NodeStats,
}

pub open spec fn ranked_nodes(v: Seq<RankedNode>) -> Seq<(Seq<char>, NodeStatsView)> {
    v.map_values(|r: RankedNode| (r.name@, r.stats@))
}

/// The probed nodes in the order of their names.
pub open spec fn probed_nodes(names: Seq<Seq<char>>, stats: StatsMap) -> Seq<
    (Seq<char>, NodeStatsView),
>
    decreases names.len(),
{
    if names.len() == 0 {
        Seq::empty()
    } else {
        let before = probed_nodes(names.drop_last(), stats);
        let s = stats[names.last()];
        if s.probe_count > 0 {
            before.push((names.last(), s))
        } else {
            before
        }
    }
}

/// Higher scores come first.
pub open spec fn report_order() -> spec_fn(
    (Seq<char>, NodeStatsView),
    (Seq<char>, NodeStatsView),
) -> bool {
    |a: (Seq<char>, NodeStatsView), b: (Seq<char>, NodeStatsView)| scores_below(a.1, b.1)
}

/// The probed nodes, best first; equal scores in the order of their names.
pub fn status_report(stats: &NameMap<NodeStats>) -> (r: Vec<RankedNode>)
    ensures
        ranked_nodes(r@) == sort_by(
            probed_nodes(ordered(stats@.dom()), stats@),
            report_order(),
        ),
{
    let ghost ks = ordered(stats@.dom());
    let ghost after = report_order();
    let n: usize = stats.len();
    let mut r: Vec<RankedNode> = Vec::new();
    let mut i: usize = 0;
    assert(ks.take(0) =~= Seq::empty());
    assert(ranked_nodes(r@) =~= Seq::empty());
    while i < n
        invariant
            i <= n,
            n == ks.len(),
            ks == ordered(stats@.dom()),
            after == report_order(),
            ranked_nodes(r@) == sort_by(probed_nodes(ks.take(i as int), stats@), after),
        decreases n - i,
    {
        let ghost t = ks.take(i + 1);
        let ghost sofar = probed_nodes(ks.take(i as int), stats@);
        proof {
            assert(t.drop_last() =~= ks.take(i as int));
            assert(t.last() == ks[i as int]);
        }
        let s = stats.value_at(i);
        if s.is_probed() {
            let x = RankedNode { name: stats.key_at(i).clone(), stats: s.dup() };
            let ghost xv = (x.name@, x.stats@);
            let ghost sorted = ranked_nodes(r@);
            let mut p: usize = r.len();
            let mut more = true;
            while p > 0 && more
                invariant
                    p <= r@.len(),
                    sorted == ranked_nodes(r@),
                    xv == (x.name@, x.stats@),
                    after == report_order(),
                    forall|k: int| p <= k < sorted.len() ==> after(#[trigger] sorted[k], xv),
                    !more ==> p > 0 && !after(sorted[p - 1], xv),
                decreases p + if more { 1int } else { 0int },
            {
                assert(sorted[p - 1] == (r@[p - 1].name@, r@[p - 1].stats@));
                if is_below(&r[p - 1].stats, &x.stats) {
                    p = p - 1;
                } else {
                    more = false;
                }
            }
            proof {
                lemma_insert_at(sorted, xv, after, p as int);
                assert(probed_nodes(t, stats@) == sofar.push(xv));
                assert(probed_nodes(t, stats@).drop_last() =~= sofar);
            }
            r.insert(p, x);
            assert(ranked_nodes(r@) =~= sorted.insert(p as int, xv));
        }
        i = i + 1;
    }
    assert(ks.take(n as int) =~= ks);
    r
}

/// How many nodes of each kind a pool has.
#[derive(Debug, Clone, Copy, PartialEq, Eq, Structural)]
pub struct PoolCount {
    pub ss: usize,
    pub anytls: usize,
    /// Shadowsocks nodes with a plugin.
    pub with_plugin: usize,
}

pub open spec fn counted(nodes: Seq<NodeView>, which: spec_fn(NodeView) -> bool) -> nat
    decreases nodes.len(),
{
    if nodes.len() == 0 {
        0
    } else {
        counted(nodes.drop_last(), which) + if which(nodes.last()) {
            1nat
        } else {
            0nat
        }
    }
}

pub open spec fn is_ss() -> spec_fn(NodeView) -> bool {
    |n: NodeView| n is Ss
}

pub open spec fn is_anytls() -> spec_fn(NodeView) -> bool {
    |n: NodeView| n is Anytls
}

pub open spec fn has_plugin() -> spec_fn(NodeView) -> bool {
    |n: NodeView|
        match n {
            NodeView::Ss(s) => s.plugin is Some,
            NodeView::Anytls(_) => false,
        }
}

pub fn count_nodes(nodes: &Vec<Node>) -> (r: PoolCount)
    ensures
        r.ss == counted(pool(nodes@), is_ss()),
        r.anytls == counted(pool(nodes@), is_anytls()),
        r.with_plugin == counted(pool(nodes@), has_plugin()),
        r.ss + r.anytls == nodes@.len(),
{
    let ghost all = pool(nodes@);
    let mut ss: usize = 0;
    let mut anytls: usize = 0;
    let mut with_plugin: usize = 0;
    let mut i: usize = 0;
    assert(all.take(0) =~= Seq::empty());
    while i < nodes.len()
        invariant
            i <= nodes@.len(),
            all == pool(nodes@),
            ss + anytls == i,
            with_plugin <= i,
            ss == counted(all.take(i as int), is_ss()),
            anytls == counted(all.take(i as int), is_anytls()),
            with_plugin == counted(all.take(i as int), has_plugin()),
        decreases nodes@.len() - i,
    {
        let ghost t = all.take(i + 1);
        assert(t.drop_last() =~= all.take(i as int));
        assert(t.last() == nodes@[i as int]@);
        match &nodes[i] {
            Node::Ss(s) => {
                ss = ss + 1;
                if s.plugin.is_some() {
                    with_plugin = with_plugin + 1;
                }
            },
            Node::Anytls(_) => {
                anytls = anytls + 1;
            },
        }
        i = i + 1;
    }
    assert(all.take(all.len() as int) =~= all);
    PoolCount { ss, anytls, with_plugin }
}

/// A text that fits is shown whole; one that does not is cut, the front of it
/// kept and the cut marked.
pub proof fn law_truncation_keeps_the_front(s: Seq<char>, max_chars: nat, i: int)
    requires
        max_chars > 0,
    ensures
        s.len() <= max_chars ==> truncated(s, max_chars) == s,
        s.len() > max_chars ==> truncated(s, max_chars).len() == max_chars && truncated(
            s,
            max_chars,
        ).last() == '…',
        s.len() > max_chars && 0 <= i < max_chars - 1 ==> truncated(s, max_chars)[i] == s[i],
{
}

/// The class that was asked for is used where it is configured; without one
/// the first by name is.
pub proof fn law_class_choice(classes: Set<Seq<char>>, wanted: Seq<char>, other: Seq<char>)
    requires
        classes.finite(),
    ensures
        class_choice(classes, Some(wanted)) is Ok <==> classes.contains(wanted),
        classes.contains(wanted) ==> class_choice(classes, Some(wanted)) == Ok::<
            Seq<char>,
            Seq<char>,
        >(wanted),
        classes.contains(other) ==> (class_choice(classes, None) matches Ok(c) && classes.contains(
            c,
        ) && !crate::names::text_less(other, c)),
{
    let ks = ordered(classes);
    crate::names::lemma_ordered(classes);
    crate::names::lemma_ordered_contains(classes, other);
    if classes.contains(other) {
        let i = ks.index_of(other);
        assert(ks[i] == other);
        assert(ks.contains(ks[0]));
        crate::names::lemma_ordered_contains(classes, ks[0]);
        if i == 0 {
            crate::names::lemma_less_irreflexive(other);
        } else {
            assert(crate::names::text_less(ks[0], ks[i]));
            if crate::names::text_less(other, ks[0]) {
                crate::names::lemma_less_transitive(ks[0], other, ks[0]);
                crate::names::lemma_less_irreflexive(ks[0]);
            }
        }
    }
}

/// The probe report lists exactly the probes with a round trip, the fastest
/// first.
pub proof fn law_probe_report_is_fastest_first(v: Seq<OutcomeView>, name: Seq<char>, rtt: u64)
    ensures
        ({
            let r = sort_by(answered(v), rtt_order());
            &&& forall|i: int, j: int|
                0 <= i < j < r.len() ==> (#[trigger] r[i]).1 <= (#[trigger] r[j]).1
            &&& r.contains((name, rtt)) <==> exists|i: int|
                0 <= i < v.len() && (#[trigger] v[i]).rtt == Some(rtt) && v[i].node.name() == name
        }),
{
    let after = rtt_order();
    assert(crate::order::strict_weak_order(after));
    crate::order::lemma_sort_sorted(answered(v), after);
    crate::order::lemma_sort_contains(answered(v), after, (name, rtt));
    lemma_answered(v, name, rtt);
    let r = sort_by(answered(v), after);
    assert forall|i: int, j: int| 0 <= i < j < r.len() implies (#[trigger] r[i]).1 <= (
    #[trigger] r[j]).1 by {
        assert(!after(r[i], r[j]));
    }
}

proof fn lemma_answered(v: Seq<OutcomeView>, name: Seq<char>, rtt: u64)
    ensures
        answered(v).contains((name, rtt)) <==> exists|i: int|
            0 <= i < v.len() && (#[trigger] v[i]).rtt == Some(rtt) && v[i].node.name() == name,
    decreases v.len(),
{
    if v.len() > 0 {
        let d = v.drop_last();
        lemma_answered(d, name, rtt);
        let before = answered(d);
        let all = answered(v);
        if all.contains((name, rtt)) {
            let k = all.index_of((name, rtt));
            if k < before.len() {
                assert(before[k] == (name, rtt));
                assert(before.contains((name, rtt)));
                let i = choose|i: int|
                    0 <= i < d.len() && (#[trigger] d[i]).rtt == Some(rtt) && d[i].node.name()
                        == name;
                assert(v[i] == d[i]);
            } else {
                assert(v[v.len() - 1].rtt == Some(rtt));
            }
        }
        if exists|i: int|
            0 <= i < v.len() && (#[trigger] v[i]).rtt == Some(rtt) && v[i].node.name() == name {
            let i = choose|i: int|
                0 <= i < v.len() && (#[trigger] v[i]).rtt == Some(rtt) && v[i].node.name() == name;
            if i < d.len() {
                assert(d[i] == v[i]);
                let k = before.index_of((name, rtt));
                assert(all[k] == (name, rtt));
            } else {
                assert(all[all.len() - 1] == (name, rtt));
            }
        }
    }
}

/// The status report lists exactly the probed nodes, none before one that
/// scores higher.
pub proof fn law_status_report_is_best_first(stats: StatsMap, name: Seq<char>)
    requires
        stats.dom().finite(),
    ensures
        ({
            let r = sort_by(probed_nodes(ordered(stats.dom()), stats), report_order());
            &&& forall|i: int, j: int|
                0 <= i < j < r.len() ==> !scores_below((#[trigger] r[i]).1, (#[trigger] r[j]).1)
            &&& r.contains((name, stats[name])) <==> stats.contains_key(name)
                && stats[name].probe_count > 0
        }),
{
    let after = report_order();
    assert(crate::order::strict_weak_order(after));
    let listed = probed_nodes(ordered(stats.dom()), stats);
    crate::order::lemma_sort_sorted(listed, after);
    crate::order::lemma_sort_contains(listed, after, (name, stats[name]));
    crate::names::lemma_ordered_contains(stats.dom(), name);
    lemma_probed_nodes(ordered(stats.dom()), stats, name);
    let r = sort_by(listed, after);
    assert forall|i: int, j: int| 0 <= i < j < r.len() implies !scores_below(
        (#[trigger] r[i]).1,
        (#[trigger] r[j]).1,
    ) by {
        assert(!after(r[i], r[j]));
    }
}

proof fn lemma_probed_nodes(names: Seq<Seq<char>>, stats: StatsMap, name: Seq<char>)
    ensures
        probed_nodes(names, stats).contains((name, stats[name])) <==> names.contains(name)
            && stats[name].probe_count > 0,
    decreases names.len(),
{
    if names.len() > 0 {
        let d = names.drop_last();
        lemma_probed_nodes(d, stats, name);
        let before = probed_nodes(d, stats);
        let all = probed_nodes(names, stats);
        let row = (name, stats[name]);
        if all.contains(row) {
            let k = all.index_of(row);
            if k < before.len() {
                assert(before[k] == row);
                assert(before.contains(row));
                let i = d.index_of(name);
                assert(names[i] == name);
            } else {
                assert(names[names.len() - 1] == name);
            }
        }
        if names.contains(name) && stats[name].probe_count > 0 {
            let i = names.index_of(name);
            if i < d.len() {
                assert(d[i] == name);
                assert(d.contains(name));
                let k = before.index_of(row);
                assert(all[k] == row);
            } else {
                assert(all[all.len() - 1] == row);
            }
        }
    }
}

/// A count is of the nodes that it is about.
pub proof fn law_counts_what_it_is_about(nodes: Seq<NodeView>, which: spec_fn(NodeView) -> bool)
    ensures
        counted(nodes, which) == nodes.filter(which).len(),
    decreases nodes.len(),
{
    reveal(Seq::filter);
    if nodes.len() > 0 {
        law_counts_what_it_is_about(nodes.drop_last(), which);
    }
}

/// Only Shadowsocks nodes have plugins, and only those that name one.
pub proof fn law_kinds_of_nodes(n: NodeView)
    ensures
        is_ss()(n) != is_anytls()(n),
        has_plugin()(n) <==> (n matches NodeView::Ss(s) && s.plugin is Some),
{
}

} // verus!
