//! Choice of candidates: nodes by score, inside the regions that automatic
//! selection may use.

use vstd::prelude::*;

use crate::names::{less, text_less, Model, NameMap};
use crate::node::{
    distinct_names, find_node, law_merge_keeps_first, lemma_merged_from, lemma_name_index, merge_nodes, merged,
    name_index, named, pool, Node, NodeView,
};
use crate::order::{
    in_order, lemma_insert_at, lemma_sort_contains, lemma_sort_sorted, sort_by, strict_weak_order,
};
use crate::score::{is_below, scores_below, NodeStats};
use crate::seqs::{kept, lemma_kept};
use crate::state::StatsMap;
use crate::text::{contains_str, holds, listed, opt_str, texts};

verus! {

/// Candidates that are tried per switch, highest score first.
pub const MAX_SWITCH_CANDIDATES: usize = 5;

/// Automatic selection stays inside the allowlist; an empty one allows every
/// node.
pub open spec fn in_regions(regions: Seq<Seq<char>>, name: Seq<char>) -> bool {
    regions.len() == 0 || exists|i: int|
        0 <= i < regions.len() && holds(name, #[trigger] regions[i])
}

pub fn allowed(regions: &Vec<String>, name: &str) -> (b: bool)
    ensures
        b == in_regions(texts(regions@), name@),
{
    if regions.len() == 0 {
        return true;
    }
    let mut i: usize = 0;
    let ghost rs = texts(regions@);
    while i < regions.len()
        invariant
            i <= regions@.len(),
            rs == texts(regions@),
            forall|j: int| 0 <= j < i ==> !holds(name@, #[trigger] rs[j]),
        decreases regions@.len() - i,
    {
        if contains_str(name, regions[i].as_str()) {
            assert(holds(name@, rs[i as int]));
            return true;
        }
        i = i + 1;
    }
    false
}

/// Has the node been probed?
pub open spec fn has_probes(stats: StatsMap, name: Seq<char>) -> bool {
    stats.contains_key(name) && stats[name].probe_count > 0
}

pub fn known_probed(stats: &NameMap<NodeStats>, name: &str) -> (b: bool)
    ensures
        b == has_probes(stats@, name@),
{
    match stats.get(name) {
        Some(s) => s.is_probed(),
        None => false,
    }
}

/// Higher scores come first.
pub open spec fn score_order(stats: StatsMap) -> spec_fn(NodeView, NodeView) -> bool {
    |a: NodeView, b: NodeView| scores_below(stats[a.name()], stats[b.name()])
}

/// Names ascend.
pub open spec fn name_order() -> spec_fn(NodeView, NodeView) -> bool {
    |a: NodeView, b: NodeView| text_less(b.name(), a.name())
}

fn by_score(nodes: &Vec<Node>, stats: &NameMap<NodeStats>) -> (r: Vec<Node>)
    requires
        forall|i: int|
            0 <= i < nodes@.len() ==> stats@.contains_key((#[trigger] pool(nodes@)[i]).name()),
    ensures
        pool(r@) == sort_by(pool(nodes@), score_order(stats@)),
{
    let mut r: Vec<Node> = Vec::new();
    let mut i: usize = 0;
    let ghost all = pool(nodes@);
    let ghost after = score_order(stats@);
    assert(all.take(0) =~= Seq::<NodeView>::empty());
    assert(pool(r@) =~= Seq::<NodeView>::empty());
    while i < nodes.len()
        invariant
            i <= nodes@.len(),
            all == pool(nodes@),
            after == score_order(stats@),
            forall|k: int| 0 <= k < all.len() ==> stats@.contains_key((#[trigger] all[k]).name()),
            forall|k: int|
                0 <= k < r@.len() ==> stats@.contains_key((#[trigger] pool(r@)[k]).name()),
            pool(r@) == sort_by(all.take(i as int), after),
        decreases nodes@.len() - i,
    {
        let x = nodes[i].dup();
        assert(x@ == all[i as int]);
        let ghost sorted = pool(r@);
        let mut p: usize = r.len();
        let mut more = true;
        while p > 0 && more
            invariant
                p <= r@.len(),
                sorted == pool(r@),
                after == score_order(stats@),
                stats@.contains_key(x@.name()),
                forall|k: int|
                    0 <= k < r@.len() ==> stats@.contains_key((#[trigger] pool(r@)[k]).name()),
                forall|k: int| p <= k < sorted.len() ==> after(#[trigger] sorted[k], x@),
                !more ==> p > 0 && !after(sorted[p - 1], x@),
            decreases p + if more { 1int } else { 0int },
        {
            assert(stats@.contains_key(pool(r@)[p - 1].name()));
            let below = match (stats.get(r[p - 1].name()), stats.get(x.name())) {
                (Some(a), Some(b)) => is_below(a, b),
                _ => false,
            };
            if below {
                p = p - 1;
            } else {
                more = false;
            }
        }
        proof {
            lemma_insert_at(sorted, x@, after, p as int);
            let t = all.take(i + 1);
            assert(t.drop_last() =~= all.take(i as int));
            assert(t.last() == x@);
        }
        let ghost xv = x@;
        r.insert(p, x);
        assert(pool(r@) =~= sorted.insert(p as int, xv));
        assert forall|k: int| 0 <= k < r@.len() implies stats@.contains_key(
            (#[trigger] pool(r@)[k]).name(),
        ) by {
            if k < p {
                assert(pool(r@)[k] == sorted[k]);
            } else if k > p {
                assert(pool(r@)[k] == sorted[k - 1]);
            }
        }
        i = i + 1;
    }
    assert(all.take(nodes@.len() as int) =~= all);
    r
}

fn by_name(nodes: &Vec<Node>) -> (r: Vec<Node>)
    ensures
        pool(r@) == sort_by(pool(nodes@), name_order()),
{
    let mut r: Vec<Node> = Vec::new();
    let mut i: usize = 0;
    let ghost all = pool(nodes@);
    let ghost after = name_order();
    assert(all.take(0) =~= Seq::<NodeView>::empty());
    assert(pool(r@) =~= Seq::<NodeView>::empty());
    while i < nodes.len()
        invariant
            i <= nodes@.len(),
            all == pool(nodes@),
            after == name_order(),
            pool(r@) == sort_by(all.take(i as int), after),
        decreases nodes@.len() - i,
    {
        let x = nodes[i].dup();
        assert(x@ == all[i as int]);
        let ghost sorted = pool(r@);
        let mut p: usize = r.len();
        let mut more = true;
        while p > 0 && more
            invariant
                p <= r@.len(),
                sorted == pool(r@),
                after == name_order(),
                forall|k: int| p <= k < sorted.len() ==> after(#[trigger] sorted[k], x@),
                !more ==> p > 0 && !after(sorted[p - 1], x@),
            decreases p + if more { 1int } else { 0int },
        {
            assert(sorted[p - 1] == r@[p - 1]@);
            if less(x.name(), r[p - 1].name()) {
                p = p - 1;
            } else {
                more = false;
            }
        }
        proof {
            lemma_insert_at(sorted, x@, after, p as int);
            let t = all.take(i + 1);
            assert(t.drop_last() =~= all.take(i as int));
            assert(t.last() == x@);
        }
        let ghost xv = x@;
        r.insert(p, x);
        assert(pool(r@) =~= sorted.insert(p as int, xv));
        i = i + 1;
    }
    assert(all.take(nodes@.len() as int) =~= all);
    r
}

/// Probed nodes of the pool inside the regions, from the highest to the
/// lowest score.
pub open spec fn ranked(
    nodes: Seq<NodeView>,
    stats: StatsMap,
    regions: Seq<Seq<char>>,
) -> Seq<NodeView> {
    sort_by(
        kept(nodes, |n: NodeView| has_probes(stats, n.name()) && in_regions(regions, n.name())),
        score_order(stats),
    )
}

/// Statistics of nodes that left the pool play no part.
pub fn ranked_candidates(
    nodes: &Vec<Node>,
    stats: &NameMap<NodeStats>,
    regions: &Vec<String>,
) -> (r: Vec<Node>)
    ensures
        pool(r@) == ranked(pool(nodes@), stats@, texts(regions@)),
{
    let ghost all = pool(nodes@);
    let ghost p = |n: NodeView|
        has_probes(stats@, n.name()) && in_regions(texts(regions@), n.name());
    let mut probed: Vec<Node> = Vec::new();
    let mut i: usize = 0;
    assert(all.take(0) =~= Seq::<NodeView>::empty());
    assert(pool(probed@) =~= Seq::<NodeView>::empty());
    while i < nodes.len()
        invariant
            i <= nodes@.len(),
            all == pool(nodes@),
            p == (|n: NodeView|
                has_probes(stats@, n.name()) && in_regions(texts(regions@), n.name())),
            pool(probed@) == kept(all.take(i as int), p),
        decreases nodes@.len() - i,
    {
        let ghost t = all.take(i + 1);
        assert(t.drop_last() =~= all.take(i as int));
        assert(t.last() == nodes@[i as int]@);
        let ghost before = pool(probed@);
        if known_probed(stats, nodes[i].name()) && allowed(regions, nodes[i].name()) {
            let n = nodes[i].dup();
            let ghost nv = n@;
            probed.push(n);
            assert(pool(probed@) =~= before.push(nv));
        }
        i = i + 1;
    }
    assert(all.take(nodes@.len() as int) =~= all);
    proof {
        lemma_kept(all, p);
        assert forall|k: int| 0 <= k < probed@.len() implies stats@.contains_key(
            (#[trigger] pool(probed@)[k]).name(),
        ) by {
            assert(p(kept(all, p)[k]));
        }
    }
    by_score(&probed, stats)
}

/// Not one of the names.
pub open spec fn spared(excluded: Seq<Seq<char>>, n: NodeView) -> bool {
    !excluded.contains(n.name())
}

/// The first `limit` nodes whose names are not excluded.
pub open spec fn shortlisted(
    nodes: Seq<NodeView>,
    excluded: Seq<Seq<char>>,
    limit: nat,
) -> Seq<NodeView> {
    let k = kept(nodes, |n: NodeView| spared(excluded, n));
    if k.len() <= limit {
        k
    } else {
        k.take(limit as int)
    }
}

proof fn lemma_kept_grows(nodes: Seq<NodeView>, p: spec_fn(NodeView) -> bool, i: int)
    requires
        0 <= i <= nodes.len(),
    ensures
        kept(nodes.take(i), p).len() <= kept(nodes, p).len(),
        kept(nodes, p).take(kept(nodes.take(i), p).len() as int) == kept(nodes.take(i), p),
    decreases nodes.len() - i,
{
    if i == nodes.len() {
        assert(nodes.take(i) =~= nodes);
        assert(kept(nodes, p).take(kept(nodes, p).len() as int) =~= kept(nodes, p));
    } else {
        lemma_kept_grows(nodes, p, i + 1);
        let a = kept(nodes.take(i), p);
        let b = kept(nodes.take(i + 1), p);
        assert(nodes.take(i + 1).drop_last() =~= nodes.take(i));
        assert(b.take(a.len() as int) =~= a);
        assert(kept(nodes, p).take(a.len() as int) =~= kept(nodes, p).take(b.len() as int).take(
            a.len() as int,
        ));
    }
}

/// Take the best nodes that are not excluded.
pub fn shortlist(nodes: &Vec<Node>, excluded: &Vec<String>, limit: usize) -> (r: Vec<Node>)
    ensures
        pool(r@) == shortlisted(pool(nodes@), texts(excluded@), limit as nat),
{
    let ghost all = pool(nodes@);
    let ghost p = |n: NodeView| spared(texts(excluded@), n);
    let mut r: Vec<Node> = Vec::new();
    let mut i: usize = 0;
    assert(all.take(0) =~= Seq::<NodeView>::empty());
    assert(pool(r@) =~= Seq::<NodeView>::empty());
    while i < nodes.len() && r.len() < limit
        invariant
            i <= nodes@.len(),
            all == pool(nodes@),
            p == (|n: NodeView| spared(texts(excluded@), n)),
            pool(r@) == kept(all.take(i as int), p),
            r@.len() <= limit,
        decreases nodes@.len() - i,
    {
        let ghost t = all.take(i + 1);
        assert(t.drop_last() =~= all.take(i as int));
        assert(t.last() == nodes@[i as int]@);
        let ghost before = pool(r@);
        if !listed(excluded, nodes[i].name()) {
            let n = nodes[i].dup();
            let ghost nv = n@;
            r.push(n);
            assert(pool(r@) =~= before.push(nv));
        }
        i = i + 1;
    }
    proof {
        lemma_kept_grows(all, p, i as int);
        if i == nodes@.len() {
            assert(all.take(i as int) =~= all);
        }
        assert(pool(r@).len() == r@.len());
        if kept(all, p).len() <= limit {
            assert(kept(all, p).take(kept(all, p).len() as int) =~= kept(all, p));
        }
    }
    r
}

/// The names to leave out: an optional incumbent, and an optional request.
pub open spec fn left_out(a: Option<Seq<char>>, b: Option<Seq<char>>) -> Seq<Seq<char>> {
    (match a {
        Some(x) => seq![x],
        None => Seq::empty(),
    }) + (match b {
        Some(x) => seq![x],
        None => Seq::empty(),
    })
}

fn leave_out(a: Option<&str>, b: Option<&str>) -> (r: Vec<String>)
    ensures
        texts(r@) == left_out(opt_str(a), opt_str(b)),
{
    let mut v: Vec<String> = Vec::new();
    if let Some(x) = a {
        v.push(x.to_string());
    }
    if let Some(x) = b {
        v.push(x.to_string());
    }
    assert(texts(v@) =~= left_out(opt_str(a), opt_str(b)));
    v
}

/// Candidates for a switch: the best ranked nodes but for the incumbent and
/// the request.
pub open spec fn switch_list(
    nodes: Seq<NodeView>,
    stats: StatsMap,
    regions: Seq<Seq<char>>,
    current: Option<Seq<char>>,
    requested: Option<Seq<char>>,
    limit: nat,
) -> Seq<NodeView> {
    shortlisted(ranked(nodes, stats, regions), left_out(current, requested), limit)
}

pub fn switch_candidates(
    nodes: &Vec<Node>,
    stats: &NameMap<NodeStats>,
    regions: &Vec<String>,
    current: Option<&str>,
    requested: Option<&str>,
    limit: usize,
) -> (r: Vec<Node>)
    ensures
        pool(r@) == switch_list(
            pool(nodes@),
            stats@,
            texts(regions@),
            opt_str(current),
            opt_str(requested),
            limit as nat,
        ),
{
    let best = ranked_candidates(nodes, stats, regions);
    let out = leave_out(current, requested);
    shortlist(&best, &out, limit)
}

// ---------------------------------------------------------------------------
// Candidates of a whole profile
// ---------------------------------------------------------------------------

pub open spec fn probed_part(pool: Seq<NodeView>, stats: StatsMap) -> Seq<NodeView> {
    sort_by(kept(pool, |n: NodeView| has_probes(stats, n.name())), score_order(stats))
}

pub open spec fn unprobed_part(pool: Seq<NodeView>, stats: StatsMap) -> Seq<NodeView> {
    sort_by(kept(pool, |n: NodeView| !has_probes(stats, n.name())), name_order())
}

pub open spec fn preferred_part(pool: Seq<NodeView>, preferred: Option<Seq<char>>) -> Seq<
    NodeView,
> {
    match preferred {
        Some(name) => if named(pool, name) {
            seq![pool[name_index(pool, name) as int]]
        } else {
            Seq::empty()
        },
        None => Seq::empty(),
    }
}

pub open spec fn region_pool(nodes: Seq<NodeView>, regions: Seq<Seq<char>>) -> Seq<NodeView> {
    kept(nodes, |n: NodeView| in_regions(regions, n.name()))
}

/// The preferred node, then the probed nodes by score, then the others by
/// name, each name once.
pub open spec fn profile_list(
    nodes: Seq<NodeView>,
    stats: StatsMap,
    preferred: Option<Seq<char>>,
    regions: Seq<Seq<char>>,
) -> Seq<NodeView> {
    let pool = region_pool(nodes, regions);
    merged(
        merged(preferred_part(pool, preferred), probed_part(pool, stats)),
        unprobed_part(pool, stats),
    )
}

fn split_probed(pool_nodes: &Vec<Node>, stats: &NameMap<NodeStats>, want: bool) -> (r: Vec<Node>)
    ensures
        pool(r@) == kept(
            pool(pool_nodes@),
            |n: NodeView| has_probes(stats@, n.name()) == want,
        ),
{
    let ghost all = pool(pool_nodes@);
    let ghost p = |n: NodeView| has_probes(stats@, n.name()) == want;
    let mut r: Vec<Node> = Vec::new();
    let mut i: usize = 0;
    assert(all.take(0) =~= Seq::<NodeView>::empty());
    assert(pool(r@) =~= Seq::<NodeView>::empty());
    while i < pool_nodes.len()
        invariant
            i <= pool_nodes@.len(),
            all == pool(pool_nodes@),
            p == (|n: NodeView| has_probes(stats@, n.name()) == want),
            pool(r@) == kept(all.take(i as int), p),
        decreases pool_nodes@.len() - i,
    {
        let ghost t = all.take(i + 1);
        assert(t.drop_last() =~= all.take(i as int));
        assert(t.last() == pool_nodes@[i as int]@);
        let ghost before = pool(r@);
        if known_probed(stats, pool_nodes[i].name()) == want {
            let n = pool_nodes[i].dup();
            let ghost nv = n@;
            r.push(n);
            assert(pool(r@) =~= before.push(nv));
        }
        i = i + 1;
    }
    assert(all.take(pool_nodes@.len() as int) =~= all);
    r
}

fn inside_regions(nodes: &Vec<Node>, regions: &Vec<String>) -> (r: Vec<Node>)
    ensures
        pool(r@) == region_pool(pool(nodes@), texts(regions@)),
{
    let ghost all = pool(nodes@);
    let ghost p = |n: NodeView| in_regions(texts(regions@), n.name());
    let mut r: Vec<Node> = Vec::new();
    let mut i: usize = 0;
    assert(all.take(0) =~= Seq::<NodeView>::empty());
    assert(pool(r@) =~= Seq::<NodeView>::empty());
    while i < nodes.len()
        invariant
            i <= nodes@.len(),
            all == pool(nodes@),
            p == (|n: NodeView| in_regions(texts(regions@), n.name())),
            pool(r@) == kept(all.take(i as int), p),
        decreases nodes@.len() - i,
    {
        let ghost t = all.take(i + 1);
        assert(t.drop_last() =~= all.take(i as int));
        assert(t.last() == nodes@[i as int]@);
        let ghost before = pool(r@);
        if allowed(regions, nodes[i].name()) {
            let n = nodes[i].dup();
            let ghost nv = n@;
            r.push(n);
            assert(pool(r@) =~= before.push(nv));
        }
        i = i + 1;
    }
    assert(all.take(nodes@.len() as int) =~= all);
    r
}

proof fn lemma_kept_same<T>(s: Seq<T>, p: spec_fn(T) -> bool, q: spec_fn(T) -> bool)
    requires
        forall|x: T| #[trigger] p(x) == q(x),
    ensures
        kept(s, p) == kept(s, q),
    decreases s.len(),
{
    if s.len() > 0 {
        lemma_kept_same(s.drop_last(), p, q);
        assert(p(s.last()) == q(s.last()));
    }
}

/// Candidates of a profile, which stays switchable before it has any probe
/// history.
pub fn profile_candidates(
    nodes: &Vec<Node>,
    stats: &NameMap<NodeStats>,
    preferred: Option<&str>,
    regions: &Vec<String>,
) -> (r: Vec<Node>)
    ensures
        pool(r@) == profile_list(pool(nodes@), stats@, opt_str(preferred), texts(regions@)),
{
    let inside = inside_regions(nodes, regions);
    let ghost all = pool(inside@);
    let probed = split_probed(&inside, stats, true);
    let unprobed = split_probed(&inside, stats, false);
    proof {
        let yes = |n: NodeView| has_probes(stats@, n.name());
        let no = |n: NodeView| !has_probes(stats@, n.name());
        lemma_kept_same(all, |n: NodeView| has_probes(stats@, n.name()) == true, yes);
        lemma_kept_same(all, |n: NodeView| has_probes(stats@, n.name()) == false, no);
        lemma_kept(all, yes);
        assert forall|k: int| 0 <= k < probed@.len() implies stats@.contains_key(
            (#[trigger] pool(probed@)[k]).name(),
        ) by {
            assert(yes(kept(all, yes)[k]));
        }
    }
    let best = by_score(&probed, stats);
    let rest = by_name(&unprobed);
    let mut ordered: Vec<Node> = Vec::new();
    if let Some(name) = preferred {
        if let Some(i) = find_node(&inside, name) {
            ordered.push(inside[i].dup());
        }
    }
    assert(pool(ordered@) =~= preferred_part(all, opt_str(preferred)));
    merge_nodes(&mut ordered, best);
    merge_nodes(&mut ordered, rest);
    ordered
}

// ---------------------------------------------------------------------------
// Laws
// ---------------------------------------------------------------------------

proof fn lemma_score_order(stats: StatsMap)
    ensures
        strict_weak_order(score_order(stats)),
{
}

/// Ranking puts no node before one with a higher score, and lists exactly
/// the probed nodes of the pool inside the regions.
pub proof fn law_ranking(nodes: Seq<NodeView>, stats: StatsMap, regions: Seq<Seq<char>>)
    ensures
        in_order(ranked(nodes, stats, regions), score_order(stats)),
        forall|n: NodeView| #[trigger]
            ranked(nodes, stats, regions).contains(n) <==> nodes.contains(n) && has_probes(
                stats,
                n.name(),
            ) && in_regions(regions, n.name()),
{
    let p = |n: NodeView| has_probes(stats, n.name()) && in_regions(regions, n.name());
    let k = kept(nodes, p);
    lemma_score_order(stats);
    lemma_sort_sorted(k, score_order(stats));
    lemma_kept(nodes, p);
    assert forall|n: NodeView| #[trigger]
        ranked(nodes, stats, regions).contains(n) <==> nodes.contains(n) && has_probes(
            stats,
            n.name(),
        ) && in_regions(regions, n.name()) by {
        lemma_sort_contains(k, score_order(stats), n);
        if k.contains(n) {
            let i = k.index_of(n);
            assert(p(k[i]));
        }
        if nodes.contains(n) && p(n) {
            assert(k.contains(n));
        }
    }
}

/// A shortlist holds nothing that was excluded, nothing beyond the limit and
/// nothing that was not offered.
pub proof fn law_shortlist(nodes: Seq<NodeView>, excluded: Seq<Seq<char>>, limit: nat)
    ensures
        shortlisted(nodes, excluded, limit).len() <= limit,
        forall|i: int|
            0 <= i < shortlisted(nodes, excluded, limit).len() ==> !excluded.contains(
                (#[trigger] shortlisted(nodes, excluded, limit)[i]).name(),
            ) && nodes.contains(shortlisted(nodes, excluded, limit)[i]),
{
    let p = |n: NodeView| spared(excluded, n);
    lemma_kept(nodes, p);
    let s = shortlisted(nodes, excluded, limit);
    assert forall|i: int| 0 <= i < s.len() implies !excluded.contains((#[trigger] s[i]).name())
        && nodes.contains(s[i]) by {
        assert(s[i] == kept(nodes, p)[i]);
        assert(p(kept(nodes, p)[i]));
    }
}

proof fn lemma_named(s: Seq<NodeView>, t: Seq<NodeView>, name: Seq<char>)
    requires
        named(s, name),
        forall|n: NodeView| #[trigger] s.contains(n) ==> t.contains(n),
    ensures
        named(t, name),
{
    let i = choose|i: int| 0 <= i < s.len() && (#[trigger] s[i]).name() == name;
    assert(s.contains(s[i]));
    let j = t.index_of(s[i]);
    assert(t[j].name() == name);
}

/// The candidates of a profile have distinct names, the names are exactly
/// those of the pool inside the regions, and a preferred node of that pool
/// stands first.
pub proof fn law_profile_candidates(
    nodes: Seq<NodeView>,
    stats: StatsMap,
    preferred: Option<Seq<char>>,
    regions: Seq<Seq<char>>,
)
    ensures
        distinct_names(profile_list(nodes, stats, preferred, regions)),
        forall|name: Seq<char>| #[trigger]
            named(profile_list(nodes, stats, preferred, regions), name) == named(
                region_pool(nodes, regions),
                name,
            ),
        preferred is Some && named(region_pool(nodes, regions), preferred->0) ==> ({
            let list = profile_list(nodes, stats, preferred, regions);
            list.len() > 0 && list[0].name() == preferred->0
        }),
{
    let pool = region_pool(nodes, regions);
    let first = preferred_part(pool, preferred);
    let probed = probed_part(pool, stats);
    let rest = unprobed_part(pool, stats);
    let yes = |n: NodeView| has_probes(stats, n.name());
    let no = |n: NodeView| !has_probes(stats, n.name());
    let list = profile_list(nodes, stats, preferred, regions);
    law_merge_keeps_first(first, probed);
    law_merge_keeps_first(merged(first, probed), rest);
    lemma_kept(pool, yes);
    lemma_kept(pool, no);
    if let Some(name) = preferred {
        lemma_name_index(pool, name);
        if named(pool, name) {
            let m = merged(first, probed);
            assert(m.take(first.len() as int)[0] == first[0]);
            assert(list.take(m.len() as int)[0] == m[0]);
        }
    }
    assert forall|name: Seq<char>| #[trigger] named(list, name) == named(pool, name) by {
        assert(named(merged(first, probed), name) == (named(first, name) || named(probed, name)));
        if named(first, name) {
            assert(preferred is Some);
            let i = choose|i: int| 0 <= i < first.len() && (#[trigger] first[i]).name() == name;
            assert(pool[name_index(pool, preferred->0) as int].name() == name);
        }
        if named(probed, name) {
            assert forall|n: NodeView| #[trigger] probed.contains(n) implies pool.contains(n) by {
                lemma_sort_contains(kept(pool, yes), score_order(stats), n);
                let k = kept(pool, yes).index_of(n);
                assert(pool.contains(kept(pool, yes)[k]));
            }
            lemma_named(probed, pool, name);
        }
        if named(rest, name) {
            assert forall|n: NodeView| #[trigger] rest.contains(n) implies pool.contains(n) by {
                lemma_sort_contains(kept(pool, no), name_order(), n);
                let k = kept(pool, no).index_of(n);
                assert(pool.contains(kept(pool, no)[k]));
            }
            lemma_named(rest, pool, name);
        }
        if named(pool, name) {
            let i = choose|i: int| 0 <= i < pool.len() && (#[trigger] pool[i]).name() == name;
            let n = pool[i];
            assert(pool.contains(n));
            if yes(n) {
                assert(kept(pool, yes).contains(n));
                lemma_sort_contains(kept(pool, yes), score_order(stats), n);
                let k = probed.index_of(n);
                assert(probed[k].name() == name);
            } else {
                assert(no(n));
                assert(kept(pool, no).contains(n));
                lemma_sort_contains(kept(pool, no), name_order(), n);
                let k = rest.index_of(n);
                assert(rest[k].name() == name);
            }
        }
    }
}

/// Every candidate of a profile is a node of its pool.
pub proof fn law_candidates_come_from_the_pool(
    nodes: Seq<NodeView>,
    stats: StatsMap,
    preferred: Option<Seq<char>>,
    regions: Seq<Seq<char>>,
    n: NodeView,
)
    requires
        profile_list(nodes, stats, preferred, regions).contains(n),
    ensures
        nodes.contains(n),
{
    let pool = region_pool(nodes, regions);
    let first = preferred_part(pool, preferred);
    let probed = probed_part(pool, stats);
    let rest = unprobed_part(pool, stats);
    let yes = |n: NodeView| has_probes(stats, n.name());
    let no = |n: NodeView| !has_probes(stats, n.name());
    lemma_merged_from(merged(first, probed), rest, n);
    lemma_kept(nodes, |n: NodeView| in_regions(regions, n.name()));
    assert(pool.contains(n)) by {
        if rest.contains(n) {
            lemma_kept(pool, no);
            lemma_sort_contains(kept(pool, no), name_order(), n);
            let k = kept(pool, no).index_of(n);
            assert(pool.contains(kept(pool, no)[k]));
        } else {
            lemma_merged_from(first, probed, n);
            if probed.contains(n) {
                lemma_kept(pool, yes);
                lemma_sort_contains(kept(pool, yes), score_order(stats), n);
                let k = kept(pool, yes).index_of(n);
                assert(pool.contains(kept(pool, yes)[k]));
            } else {
                let name = preferred->0;
                assert(preferred is Some && named(pool, name));
                lemma_name_index(pool, name);
                assert(pool[name_index(pool, name) as int] == first[0]);
                let k = first.index_of(n);
                assert(first[k] == n);
            }
        }
    }
    let k = pool.index_of(n);
    assert(nodes.contains(pool[k]));
}

// ---------------------------------------------------------------------------
// What the lists promise
// ---------------------------------------------------------------------------

/// A node may be used automatically: it is in the pool, it was probed, and its
/// name holds one of the regions where there are any.
pub open spec fn eligible(
    nodes: Seq<NodeView>,
    stats: StatsMap,
    regions: Seq<Seq<char>>,
    n: NodeView,
) -> bool {
    &&& nodes.contains(n)
    &&& stats.contains_key(n.name()) && stats[n.name()].probe_count > 0
    &&& regions.len() > 0 ==> exists|i: int, k: int|
        #![trigger regions[i], n.name().subrange(k, k + regions[i].len())]
        0 <= i < regions.len() && 0 <= k && k + regions[i].len() <= n.name().len()
            && n.name().subrange(k, k + regions[i].len()) == regions[i]
}

/// The regions admit a name exactly where one of them occurs in it, or where
/// there are none.
pub proof fn law_regions_are_parts_of_names(regions: Seq<Seq<char>>, name: Seq<char>)
    ensures
        in_regions(regions, name) <==> regions.len() == 0 || exists|i: int, k: int|
            #![trigger regions[i], name.subrange(k, k + regions[i].len())]
            0 <= i < regions.len() && 0 <= k && k + regions[i].len() <= name.len()
                && name.subrange(k, k + regions[i].len()) == regions[i],
{
    if regions.len() > 0 && in_regions(regions, name) {
        let i = choose|i: int| 0 <= i < regions.len() && holds(name, #[trigger] regions[i]);
        let k = choose|k: int| #[trigger] crate::text::matches_at(name, regions[i], k);
        assert(name.subrange(k, k + regions[i].len()) =~= regions[i]);
    }
    if exists|i: int, k: int|
        #![trigger regions[i], name.subrange(k, k + regions[i].len())]
        0 <= i < regions.len() && 0 <= k && k + regions[i].len() <= name.len() && name.subrange(
            k,
            k + regions[i].len(),
        ) == regions[i] {
        let (i, k) = choose|i: int, k: int|
            #![trigger regions[i], name.subrange(k, k + regions[i].len())]
            0 <= i < regions.len() && 0 <= k && k + regions[i].len() <= name.len()
                && name.subrange(k, k + regions[i].len()) == regions[i];
        assert(crate::text::matches_at(name, regions[i], k));
        assert(holds(name, regions[i]));
    }
}

proof fn lemma_eligible(nodes: Seq<NodeView>, stats: StatsMap, regions: Seq<Seq<char>>, n: NodeView)
    ensures
        ranked(nodes, stats, regions).contains(n) <==> eligible(nodes, stats, regions, n),
{
    law_ranking(nodes, stats, regions);
    law_regions_are_parts_of_names(regions, n.name());
}

/// The ranking holds the eligible nodes and no others, and never a node before
/// one with a higher score.
pub proof fn law_ranking_is_by_score(
    nodes: Seq<NodeView>,
    stats: StatsMap,
    regions: Seq<Seq<char>>,
    i: int,
    j: int,
    n: NodeView,
)
    requires
        0 <= i < j < ranked(nodes, stats, regions).len(),
    ensures
        !scores_below(
            stats[ranked(nodes, stats, regions)[i].name()],
            stats[ranked(nodes, stats, regions)[j].name()],
        ),
        ranked(nodes, stats, regions).contains(n) <==> eligible(nodes, stats, regions, n),
{
    law_ranking(nodes, stats, regions);
    lemma_eligible(nodes, stats, regions, n);
    let after = score_order(stats);
    assert(!after(ranked(nodes, stats, regions)[i], ranked(nodes, stats, regions)[j]));
}

proof fn lemma_kept_indices<T>(s: Seq<T>, p: spec_fn(T) -> bool, i: int, j: int) -> (r: (int, int))
    requires
        0 <= i < j < kept(s, p).len(),
    ensures
        0 <= r.0 < r.1 < s.len(),
        s[r.0] == kept(s, p)[i],
        s[r.1] == kept(s, p)[j],
    decreases s.len(),
{
    let d = s.drop_last();
    let k = kept(d, p);
    if p(s.last()) && j == k.len() {
        lemma_kept(d, p);
        assert(d.contains(k[i]));
        let a = d.index_of(k[i]);
        assert(s[a] == d[a]);
        (a, s.len() - 1)
    } else {
        let r = lemma_kept_indices(d, p, i, j);
        assert(s[r.0] == d[r.0] && s[r.1] == d[r.1]);
        r
    }
}

/// The candidates of a switch are the best ones: eligible nodes other than the
/// two that are left out, at most as many as asked for, none of them before
/// one with a higher score, and every eligible node that is missing gave way
/// to a full list of nodes that score no lower.
pub proof fn law_switch_list_is_the_best(
    nodes: Seq<NodeView>,
    stats: StatsMap,
    regions: Seq<Seq<char>>,
    current: Option<Seq<char>>,
    requested: Option<Seq<char>>,
    limit: nat,
)
    ensures
        ({
            let list = switch_list(nodes, stats, regions, current, requested, limit);
            &&& list.len() <= limit
            &&& forall|i: int|
                0 <= i < list.len() ==> eligible(nodes, stats, regions, #[trigger] list[i])
                    && Some(list[i].name()) != current && Some(list[i].name()) != requested
            &&& forall|i: int, j: int|
                0 <= i < j < list.len() ==> !scores_below(
                    stats[(#[trigger] list[i]).name()],
                    stats[(#[trigger] list[j]).name()],
                )
            &&& forall|n: NodeView|
                #[trigger] eligible(nodes, stats, regions, n) && Some(n.name()) != current && Some(
                    n.name(),
                ) != requested && !list.contains(n) ==> list.len() == limit && forall|i: int|
                    0 <= i < list.len() ==> !scores_below(
                        stats[(#[trigger] list[i]).name()],
                        stats[n.name()],
                    )
        }),
{
    let best = ranked(nodes, stats, regions);
    let out = left_out(current, requested);
    let p = |n: NodeView| spared(out, n);
    let k = kept(best, p);
    let list = switch_list(nodes, stats, regions, current, requested, limit);
    let after = score_order(stats);
    law_ranking(nodes, stats, regions);
    lemma_kept(best, p);
    assert(current is Some ==> out.contains(current->0)) by {
        if current is Some {
            assert(out[0] == current->0);
        }
    }
    assert(requested is Some ==> out.contains(requested->0)) by {
        if requested is Some {
            assert(out[out.len() - 1] == requested->0);
        }
    }
    assert forall|i: int| 0 <= i < list.len() implies eligible(
        nodes,
        stats,
        regions,
        #[trigger] list[i],
    ) && Some(list[i].name()) != current && Some(list[i].name()) != requested by {
        assert(list[i] == k[i]);
        assert(p(k[i]) && best.contains(k[i]));
        lemma_eligible(nodes, stats, regions, list[i]);
    }
    assert forall|i: int, j: int| 0 <= i < j < list.len() implies !scores_below(
        stats[(#[trigger] list[i]).name()],
        stats[(#[trigger] list[j]).name()],
    ) by {
        assert(list[i] == k[i] && list[j] == k[j]);
        let r = lemma_kept_indices(best, p, i, j);
        assert(!after(best[r.0], best[r.1]));
    }
    assert forall|n: NodeView|
        #[trigger] eligible(nodes, stats, regions, n) && Some(n.name()) != current && Some(n.name())
            != requested && !list.contains(n) implies list.len() == limit && forall|i: int|
        0 <= i < list.len() ==> !scores_below(
            stats[(#[trigger] list[i]).name()],
            stats[n.name()],
        ) by {
        lemma_eligible(nodes, stats, regions, n);
        assert(!out.contains(n.name())) by {
            if out.contains(n.name()) {
                let q = out.index_of(n.name());
                assert(out[q] == n.name());
            }
        }
        assert(p(n));
        assert(k.contains(n));
        let q = k.index_of(n);
        if k.len() <= limit {
            assert(list.contains(n));
        } else {
            assert(q >= limit) by {
                if q < limit {
                    assert(list[q] == n);
                }
            }
            assert forall|i: int| 0 <= i < list.len() implies !scores_below(
                stats[(#[trigger] list[i]).name()],
                stats[n.name()],
            ) by {
                assert(list[i] == k[i]);
                let r = lemma_kept_indices(best, p, i, q);
                assert(!after(best[r.0], best[r.1]));
            }
        }
    }
}

/// In these statistics the first node may stand before the second: it was
/// probed if the second was, and then does not score below it; where neither
/// was probed, its name is not the later one.
pub open spec fn may_precede(stats: StatsMap, a: NodeView, b: NodeView) -> bool {
    if stats.contains_key(b.name()) && stats[b.name()].probe_count > 0 {
        stats.contains_key(a.name()) && stats[a.name()].probe_count > 0 && !scores_below(
            stats[a.name()],
            stats[b.name()],
        )
    } else {
        stats.contains_key(a.name()) && stats[a.name()].probe_count > 0 || !text_less(
            b.name(),
            a.name(),
        )
    }
}

proof fn lemma_name_order()
    ensures
        strict_weak_order(name_order()),
{
    let after = name_order();
    assert forall|a: NodeView| !#[trigger] after(a, a) by {
        crate::names::lemma_less_irreflexive(a.name());
    }
    assert forall|a: NodeView, b: NodeView, c: NodeView| #[trigger]
        after(a, b) && #[trigger] after(b, c) implies after(a, c) by {
        crate::names::lemma_less_transitive(c.name(), b.name(), a.name());
    }
    assert forall|a: NodeView, b: NodeView, c: NodeView|
        !#[trigger] after(a, b) && !#[trigger] after(b, c) implies !after(a, c) by {
        crate::names::lemma_less_total(b.name(), a.name());
        crate::names::lemma_less_total(c.name(), b.name());
        if after(a, c) {
            if a.name() != b.name() && b.name() != c.name() {
                crate::names::lemma_less_transitive(a.name(), b.name(), c.name());
                crate::names::lemma_less_transitive(a.name(), c.name(), a.name());
                crate::names::lemma_less_irreflexive(a.name());
            }
        }
    }
}

proof fn lemma_merged_pairs(
    acc: Seq<NodeView>,
    xs: Seq<NodeView>,
    fits: spec_fn(NodeView, NodeView) -> bool,
    from: int,
)
    requires
        0 <= from <= acc.len(),
        forall|i: int, j: int|
            from <= i < j < acc.len() ==> fits(#[trigger] acc[i], #[trigger] acc[j]),
        forall|i: int, j: int|
            from <= i < acc.len() && 0 <= j < xs.len() ==> fits(#[trigger] acc[i], #[trigger] xs[j]),
        forall|i: int, j: int| 0 <= i < j < xs.len() ==> fits(#[trigger] xs[i], #[trigger] xs[j]),
    ensures
        acc.len() <= merged(acc, xs).len(),
        forall|i: int| 0 <= i < acc.len() ==> #[trigger] merged(acc, xs)[i] == acc[i],
        forall|i: int|
            acc.len() <= i < merged(acc, xs).len() ==> xs.contains(#[trigger] merged(acc, xs)[i]),
        forall|i: int, j: int|
            from <= i < j < merged(acc, xs).len() ==> fits(
                #[trigger] merged(acc, xs)[i],
                #[trigger] merged(acc, xs)[j],
            ),
    decreases xs.len(),
{
    if xs.len() > 0 {
        let d = xs.drop_last();
        let last = xs.last();
        lemma_merged_pairs(acc, d, fits, from);
        let m = merged(acc, d);
        let all = merged(acc, xs);
        assert forall|i: int| acc.len() <= i < all.len() implies xs.contains(#[trigger] all[i]) by {
            if i < m.len() {
                assert(all[i] == m[i]);
                let q = d.index_of(m[i]);
                assert(xs[q] == m[i]);
            } else {
                assert(xs[xs.len() - 1] == all[i]);
            }
        }
        assert forall|i: int, j: int| from <= i < j < all.len() implies fits(
            #[trigger] all[i],
            #[trigger] all[j],
        ) by {
            if j < m.len() {
                assert(all[i] == m[i] && all[j] == m[j]);
            } else {
                assert(all[j] == xs[xs.len() - 1]);
                if i < acc.len() {
                    assert(all[i] == acc[i]);
                } else {
                    assert(all[i] == m[i]);
                    assert(d.contains(m[i]));
                    let q = d.index_of(m[i]);
                    assert(xs[q] == m[i]);
                    assert(fits(xs[q], xs[xs.len() - 1]));
                }
            }
        }
    }
}

/// The candidates of a profile come in the order of their history: behind the
/// preferred node, where there is one, every probed node stands before every
/// unprobed one, none before one with a higher score, and the unprobed ones
/// come by name.
pub proof fn law_profile_candidates_are_by_history(
    nodes: Seq<NodeView>,
    stats: StatsMap,
    preferred: Option<Seq<char>>,
    regions: Seq<Seq<char>>,
    i: int,
    j: int,
)
    requires
        0 <= i < j < profile_list(nodes, stats, preferred, regions).len(),
        preferred is None || i > 0,
    ensures
        may_precede(
            stats,
            profile_list(nodes, stats, preferred, regions)[i],
            profile_list(nodes, stats, preferred, regions)[j],
        ),
{
    let pool = region_pool(nodes, regions);
    let first = preferred_part(pool, preferred);
    let probed = probed_part(pool, stats);
    let rest = unprobed_part(pool, stats);
    let yes = |n: NodeView| has_probes(stats, n.name());
    let no = |n: NodeView| !has_probes(stats, n.name());
    let fits = |a: NodeView, b: NodeView| may_precede(stats, a, b);
    let after = score_order(stats);
    lemma_kept(pool, yes);
    lemma_kept(pool, no);
    lemma_score_order(stats);
    lemma_sort_sorted(kept(pool, yes), after);
    assert forall|n: NodeView| #[trigger] probed.contains(n) implies yes(n) by {
        lemma_sort_contains(kept(pool, yes), after, n);
        let k = kept(pool, yes).index_of(n);
        assert(yes(kept(pool, yes)[k]));
    }
    assert forall|n: NodeView| #[trigger] rest.contains(n) implies no(n) by {
        lemma_sort_contains(kept(pool, no), name_order(), n);
        let k = kept(pool, no).index_of(n);
        assert(no(kept(pool, no)[k]));
    }
    let from = first.len() as int;
    assert forall|x: int, y: int| 0 <= x < y < probed.len() implies fits(
        #[trigger] probed[x],
        #[trigger] probed[y],
    ) by {
        assert(probed.contains(probed[x]));
        assert(!after(probed[x], probed[y]));
    }
    lemma_merged_pairs(first, probed, fits, from);
    let m = merged(first, probed);
    assert forall|x: int, y: int| from <= x < m.len() && 0 <= y < rest.len() implies fits(
        #[trigger] m[x],
        #[trigger] rest[y],
    ) by {
        assert(rest.contains(rest[y]));
        assert(m[x] == m[x]);
        assert(probed.contains(m[x]));
        assert(yes(m[x]));
    }
    lemma_name_order();
    lemma_sort_sorted(kept(pool, no), name_order());
    let later = name_order();
    assert forall|x: int, y: int| 0 <= x < y < rest.len() implies fits(
        #[trigger] rest[x],
        #[trigger] rest[y],
    ) by {
        assert(rest.contains(rest[y]));
        assert(!later(rest[x], rest[y]));
    }
    lemma_merged_pairs(m, rest, fits, from);
    let list = profile_list(nodes, stats, preferred, regions);
    assert(from <= 1);
    assert(fits(list[i], list[j]));
}

/// Whatever a shortened list of profile candidates leaves out would have come
/// later: a node of the pool inside the regions that is missing stands behind
/// all those listed.
pub proof fn law_shortened_candidates_are_the_first(
    nodes: Seq<NodeView>,
    stats: StatsMap,
    preferred: Option<Seq<char>>,
    regions: Seq<Seq<char>>,
    limit: nat,
    n: NodeView,
    i: int,
)
    requires
        distinct_names(nodes),
        nodes.contains(n),
        in_regions(regions, n.name()),
        limit <= profile_list(nodes, stats, preferred, regions).len(),
        !profile_list(nodes, stats, preferred, regions).take(limit as int).contains(n),
        0 <= i < limit,
        preferred is None || i > 0,
    ensures
        may_precede(stats, profile_list(nodes, stats, preferred, regions)[i], n),
{
    let list = profile_list(nodes, stats, preferred, regions);
    let p = |m: NodeView| in_regions(regions, m.name());
    law_profile_candidates(nodes, stats, preferred, regions);
    lemma_kept(nodes, p);
    let pool = region_pool(nodes, regions);
    assert(pool.contains(n));
    let a = pool.index_of(n);
    assert(pool[a].name() == n.name());
    assert(named(pool, n.name()));
    assert(named(list, n.name()));
    let j = choose|j: int| 0 <= j < list.len() && (#[trigger] list[j]).name() == n.name();
    assert(list.contains(list[j]));
    law_candidates_come_from_the_pool(nodes, stats, preferred, regions, list[j]);
    let x = nodes.index_of(list[j]);
    let y = nodes.index_of(n);
    assert(nodes[x].name() == nodes[y].name());
    assert(x == y);
    assert(list[j] == n);
    if j < limit {
        assert(list.take(limit as int)[j] == n);
    }
    law_profile_candidates_are_by_history(nodes, stats, preferred, regions, i, j);
}

/// Every node of a pool without double names, inside the regions, is a
/// candidate of the profile.
pub proof fn law_every_node_is_a_candidate(
    nodes: Seq<NodeView>,
    stats: StatsMap,
    preferred: Option<Seq<char>>,
    regions: Seq<Seq<char>>,
    n: NodeView,
)
    requires
        distinct_names(nodes),
        nodes.contains(n),
        in_regions(regions, n.name()),
    ensures
        profile_list(nodes, stats, preferred, regions).contains(n),
{
    let list = profile_list(nodes, stats, preferred, regions);
    let p = |m: NodeView| in_regions(regions, m.name());
    law_profile_candidates(nodes, stats, preferred, regions);
    lemma_kept(nodes, p);
    let pool = region_pool(nodes, regions);
    assert(pool.contains(n));
    let a = pool.index_of(n);
    assert(pool[a].name() == n.name());
    assert(named(list, n.name()));
    let j = choose|j: int| 0 <= j < list.len() && (#[trigger] list[j]).name() == n.name();
    assert(list.contains(list[j]));
    law_candidates_come_from_the_pool(nodes, stats, preferred, regions, list[j]);
    let x = nodes.index_of(list[j]);
    let y = nodes.index_of(n);
    assert(nodes[x].name() == nodes[y].name());
    assert(x == y);
}

} // verus!
