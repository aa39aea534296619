//! Stable sorting, as insertion from the back.

use vstd::prelude::*;

verus! {

/// Put `x` into a sorted sequence, before the run of trailing elements that
/// belong after it and behind every element that does not.
pub open spec fn insert_by<T>(sorted: Seq<T>, x: T, after: spec_fn(T, T) -> bool) -> Seq<T>
    decreases sorted.len(),
{
    if sorted.len() > 0 && after(sorted.last(), x) {
        insert_by(sorted.drop_last(), x, after).push(sorted.last())
    } else {
        sorted.push(x)
    }
}

/// The stable sort of a sequence; `after(a, b)` says that `a` belongs
/// strictly after `b`.
pub open spec fn sort_by<T>(s: Seq<T>, after: spec_fn(T, T) -> bool) -> Seq<T>
    decreases s.len(),
{
    if s.len() == 0 {
        s
    } else {
        insert_by(sort_by(s.drop_last(), after), s.last(), after)
    }
}

/// No element stands before one that it belongs after.
pub open spec fn in_order<T>(s: Seq<T>, after: spec_fn(T, T) -> bool) -> bool {
    forall|i: int, j: int| 0 <= i < j < s.len() ==> !after(#[trigger] s[i], #[trigger] s[j])
}

/// `after` is the strict part of a total preorder.
pub open spec fn strict_weak_order<T>(after: spec_fn(T, T) -> bool) -> bool {
    &&& forall|a: T| !#[trigger] after(a, a)
    &&& forall|a: T, b: T, c: T| #[trigger]
        after(a, b) && #[trigger] after(b, c) ==> after(a, c)
    &&& forall|a: T, b: T, c: T|
        !#[trigger] after(a, b) && !#[trigger] after(b, c) ==> !after(a, c)
}

pub proof fn lemma_insert_len<T>(s: Seq<T>, x: T, after: spec_fn(T, T) -> bool)
    ensures
        insert_by(s, x, after).len() == s.len() + 1,
    decreases s.len(),
{
    if s.len() > 0 && after(s.last(), x) {
        lemma_insert_len(s.drop_last(), x, after);
    }
}

pub proof fn lemma_sort_len<T>(s: Seq<T>, after: spec_fn(T, T) -> bool)
    ensures
        sort_by(s, after).len() == s.len(),
    decreases s.len(),
{
    if s.len() > 0 {
        lemma_sort_len(s.drop_last(), after);
        lemma_insert_len(sort_by(s.drop_last(), after), s.last(), after);
    }
}

/// Where insertion puts the new element: `p` splits the sequence into what
/// stays before it and a tail that belongs after it.
pub proof fn lemma_insert_at<T>(s: Seq<T>, x: T, after: spec_fn(T, T) -> bool, p: int)
    requires
        0 <= p <= s.len(),
        forall|i: int| p <= i < s.len() ==> after(#[trigger] s[i], x),
        p > 0 ==> !after(s[p - 1], x),
    ensures
        insert_by(s, x, after) == s.insert(p, x),
    decreases s.len(),
{
    if p < s.len() {
        assert(after(s[s.len() - 1], x));
        let d = s.drop_last();
        assert forall|i: int| p <= i < d.len() implies after(#[trigger] d[i], x) by {
            assert(d[i] == s[i]);
        }
        lemma_insert_at(d, x, after, p);
        assert(d.insert(p, x).push(s.last()) =~= s.insert(p, x));
    } else {
        assert(s.insert(p, x) =~= s.push(x));
    }
}

proof fn lemma_insert_members<T>(s: Seq<T>, x: T, after: spec_fn(T, T) -> bool)
    ensures
        insert_by(s, x, after).to_multiset() == s.to_multiset().insert(x),
    decreases s.len(),
{
    broadcast use vstd::seq_lib::group_to_multiset_ensures;

    if s.len() > 0 && after(s.last(), x) {
        let d = s.drop_last();
        lemma_insert_members(d, x, after);
        assert(s =~= d.push(s.last()));
        assert(s.to_multiset().insert(x) =~= d.to_multiset().insert(x).insert(s.last()));
    }
}

/// Sorting keeps every element as often as it occurs.
pub proof fn lemma_sort_members<T>(s: Seq<T>, after: spec_fn(T, T) -> bool)
    ensures
        sort_by(s, after).to_multiset() == s.to_multiset(),
    decreases s.len(),
{
    broadcast use vstd::seq_lib::group_to_multiset_ensures;

    if s.len() > 0 {
        lemma_sort_members(s.drop_last(), after);
        lemma_insert_members(sort_by(s.drop_last(), after), s.last(), after);
        assert(s =~= s.drop_last().push(s.last()));
    }
}

/// Sorting keeps the members.
pub proof fn lemma_sort_contains<T>(s: Seq<T>, after: spec_fn(T, T) -> bool, x: T)
    ensures
        sort_by(s, after).contains(x) == s.contains(x),
{
    broadcast use vstd::seq_lib::group_to_multiset_ensures;

    lemma_sort_members(s, after);
    assert(sort_by(s, after).contains(x) <==> sort_by(s, after).to_multiset().count(x) > 0);
    assert(s.contains(x) <==> s.to_multiset().count(x) > 0);
}

proof fn lemma_insert_sorted<T>(s: Seq<T>, x: T, after: spec_fn(T, T) -> bool)
    requires
        strict_weak_order(after),
        in_order(s, after),
    ensures
        in_order(insert_by(s, x, after), after),
        forall|y: T|
            #![trigger insert_by(s, x, after).contains(y)]
            insert_by(s, x, after).contains(y) ==> y == x || s.contains(y),
    decreases s.len(),
{
    let r = insert_by(s, x, after);
    if s.len() > 0 && after(s.last(), x) {
        let d = s.drop_last();
        let l = s.last();
        assert forall|i: int, j: int| 0 <= i < j < d.len() implies !after(
            #[trigger] d[i],
            #[trigger] d[j],
        ) by {
            assert(!after(s[i], s[j]));
        }
        lemma_insert_sorted(d, x, after);
        let q = insert_by(d, x, after);
        assert forall|i: int, j: int| 0 <= i < j < r.len() implies !after(
            #[trigger] r[i],
            #[trigger] r[j],
        ) by {
            if j < q.len() {
                assert(r[i] == q[i] && r[j] == q[j]);
            } else {
                assert(r[j] == l);
                assert(r[i] == q[i]);
                assert(q.contains(q[i]));
                if q[i] == x {
                    if after(x, l) {
                        assert(after(l, x) && after(x, l));
                        assert(after(l, l));
                    }
                } else {
                    let k = choose|k: int| 0 <= k < d.len() && d[k] == q[i];
                    assert(s[k] == q[i]);
                    assert(!after(s[k], s[s.len() - 1]));
                }
            }
        }
        assert forall|y: T| #![trigger r.contains(y)] r.contains(y) implies y == x || s.contains(y) by {
            let i = choose|i: int| 0 <= i < r.len() && r[i] == y;
            if i < q.len() {
                assert(q[i] == y);
                assert(q.contains(y));
                if y != x {
                    let k = choose|k: int| 0 <= k < d.len() && d[k] == y;
                    assert(s[k] == y);
                }
            } else {
                assert(s[s.len() - 1] == y);
            }
        }
    } else {
        assert forall|i: int, j: int| 0 <= i < j < r.len() implies !after(
            #[trigger] r[i],
            #[trigger] r[j],
        ) by {
            if j < s.len() {
                assert(!after(s[i], s[j]));
            } else {
                assert(r[j] == x);
                let l = s.last();
                assert(!after(l, x));
                if i < s.len() - 1 {
                    assert(!after(s[i], s[s.len() - 1]));
                    assert(!after(s[i], l) && !after(l, x));
                }
            }
        }
        assert forall|y: T| #![trigger r.contains(y)] r.contains(y) implies y == x || s.contains(y) by {
            let i = choose|i: int| 0 <= i < r.len() && r[i] == y;
            if i < s.len() {
                assert(s[i] == y);
            }
        }
    }
}

/// Sorting puts every element where the order wants it.
pub proof fn lemma_sort_sorted<T>(s: Seq<T>, after: spec_fn(T, T) -> bool)
    requires
        strict_weak_order(after),
    ensures
        in_order(sort_by(s, after), after),
    decreases s.len(),
{
    if s.len() > 0 {
        lemma_sort_sorted(s.drop_last(), after);
        lemma_insert_sorted(sort_by(s.drop_last(), after), s.last(), after);
    }
}

/// Neither belongs after the other.
pub open spec fn tied<T>(a: T, b: T, after: spec_fn(T, T) -> bool) -> bool {
    !after(a, b) && !after(b, a)
}

/// The elements of `s` that tie with `c`, in their order.
pub open spec fn ties<T>(s: Seq<T>, c: T, after: spec_fn(T, T) -> bool) -> Seq<T>
    decreases s.len(),
{
    if s.len() == 0 {
        s
    } else if tied(s.last(), c, after) {
        ties(s.drop_last(), c, after).push(s.last())
    } else {
        ties(s.drop_last(), c, after)
    }
}

proof fn lemma_insert_ties<T>(s: Seq<T>, x: T, c: T, after: spec_fn(T, T) -> bool)
    requires
        strict_weak_order(after),
    ensures
        ties(insert_by(s, x, after), c, after) == (if tied(x, c, after) {
            ties(s, c, after).push(x)
        } else {
            ties(s, c, after)
        }),
    decreases s.len(),
{
    let r = insert_by(s, x, after);
    if s.len() > 0 && after(s.last(), x) {
        let d = s.drop_last();
        let l = s.last();
        lemma_insert_ties(d, x, c, after);
        assert(r.drop_last() =~= insert_by(d, x, after));
        assert(r.last() == l);
        if tied(x, c, after) && tied(l, c, after) {
            assert(!after(l, c) && !after(c, x));
            assert(!after(l, x));
        }
    } else {
        assert(r.drop_last() =~= s);
        assert(r.last() == x);
    }
}

/// Sorting is stable: tied elements keep their order.
pub proof fn lemma_sort_stable<T>(s: Seq<T>, c: T, after: spec_fn(T, T) -> bool)
    requires
        strict_weak_order(after),
    ensures
        ties(sort_by(s, after), c, after) == ties(s, c, after),
    decreases s.len(),
{
    if s.len() > 0 {
        lemma_sort_stable(s.drop_last(), c, after);
        lemma_insert_ties(sort_by(s.drop_last(), after), s.last(), c, after);
    }
}

} // verus!
