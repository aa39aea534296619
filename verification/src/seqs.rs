//! Small facts about searching and collecting in sequences.

use vstd::prelude::*;

verus! {

/// The least index below `n` at which `p` holds, or `n`.
pub open spec fn first_index(n: nat, p: spec_fn(int) -> bool) -> nat {
    first_from(0, n, p)
}

pub open spec fn first_from(i: nat, n: nat, p: spec_fn(int) -> bool) -> nat
    decreases n - i,
{
    if i >= n {
        n
    } else if p(i as int) {
        i
    } else {
        first_from(i + 1, n, p)
    }
}

proof fn lemma_first_from(i: nat, n: nat, p: spec_fn(int) -> bool, k: nat)
    requires
        i <= k <= n,
        k < n ==> p(k as int),
        forall|j: int| i <= j < k ==> !#[trigger] p(j),
    ensures
        first_from(i, n, p) == k,
    decreases n - i,
{
    if i < k {
        assert(!p(i as int));
        lemma_first_from(i + 1, n, p, k);
    }
}

/// A least index is what `first_index` gives.
pub proof fn lemma_first_is(n: nat, p: spec_fn(int) -> bool, k: nat)
    requires
        k <= n,
        k < n ==> p(k as int),
        forall|j: int| 0 <= j < k ==> !#[trigger] p(j),
    ensures
        first_index(n, p) == k,
{
    lemma_first_from(0, n, p, k);
}

/// What `first_index` gives is the least index.
pub proof fn lemma_first(n: nat, p: spec_fn(int) -> bool)
    ensures
        first_index(n, p) <= n,
        first_index(n, p) < n ==> p(first_index(n, p) as int),
        forall|j: int| 0 <= j < first_index(n, p) ==> !#[trigger] p(j),
{
    lemma_first_bounds(0, n, p);
}

proof fn lemma_first_bounds(i: nat, n: nat, p: spec_fn(int) -> bool)
    requires
        i <= n,
    ensures
        i <= first_from(i, n, p) <= n,
        first_from(i, n, p) < n ==> p(first_from(i, n, p) as int),
        forall|j: int| i <= j < first_from(i, n, p) ==> !#[trigger] p(j),
    decreases n - i,
{
    if i < n && !p(i as int) {
        lemma_first_bounds(i + 1, n, p);
    }
}

/// The elements that satisfy `p`, in order.
pub open spec fn kept<T>(s: Seq<T>, p: spec_fn(T) -> bool) -> Seq<T>
    decreases s.len(),
{
    if s.len() == 0 {
        s
    } else if p(s.last()) {
        kept(s.drop_last(), p).push(s.last())
    } else {
        kept(s.drop_last(), p)
    }
}

/// The concatenation of a family of sequences.
pub open spec fn flattened<T>(n: nat, f: spec_fn(int) -> Seq<T>) -> Seq<T>
    decreases n,
{
    if n == 0 {
        Seq::empty()
    } else {
        flattened((n - 1) as nat, f) + f(n - 1)
    }
}

/// Everything kept was there and satisfies the predicate.
pub proof fn lemma_kept<T>(s: Seq<T>, p: spec_fn(T) -> bool)
    ensures
        kept(s, p).len() <= s.len(),
        forall|i: int| 0 <= i < kept(s, p).len() ==> p(#[trigger] kept(s, p)[i]) && s.contains(
            kept(s, p)[i],
        ),
        forall|x: T| #[trigger] s.contains(x) && p(x) ==> kept(s, p).contains(x),
    decreases s.len(),
{
    if s.len() > 0 {
        let d = s.drop_last();
        lemma_kept(d, p);
        assert forall|i: int| 0 <= i < kept(s, p).len() implies p(#[trigger] kept(s, p)[i])
            && s.contains(kept(s, p)[i]) by {
            if i < kept(d, p).len() {
                assert(kept(s, p)[i] == kept(d, p)[i]);
                let j = d.index_of(kept(d, p)[i]);
                assert(s[j] == d[j]);
            } else {
                assert(s[s.len() - 1] == s.last());
            }
        }
        assert forall|x: T| #[trigger] s.contains(x) && p(x) implies kept(s, p).contains(x) by {
            let j = s.index_of(x);
            if j < d.len() {
                assert(d[j] == x);
                assert(d.contains(x));
                let k = kept(d, p).index_of(x);
                assert(kept(s, p)[k] == x);
            } else {
                assert(kept(s, p)[kept(s, p).len() - 1] == x);
            }
        }
    }
}

} // verus!
