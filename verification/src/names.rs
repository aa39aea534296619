//! Maps keyed by names, walked in the order of their keys.

use vstd::prelude::*;

use crate::text::chars_of;

verus! {

/// A value that can be copied without changing what it stands for.
pub trait Model: View + Sized {
    fn dup(&self) -> (r: Self)
        ensures
            r@ == self@,
    ;
}

impl Model for String {
    fn dup(&self) -> (r: Self) {
        self.clone()
    }
}

impl Model for u64 {
    fn dup(&self) -> (r: Self) {
        *self
    }
}

/// The order of texts: the first differing character decides, and a proper
/// prefix comes first.
pub open spec fn text_less(a: Seq<char>, b: Seq<char>) -> bool
    decreases a.len(),
{
    if b.len() == 0 {
        false
    } else if a.len() == 0 {
        true
    } else if a[0] != b[0] {
        (a[0] as int) < (b[0] as int)
    } else {
        text_less(a.skip(1), b.skip(1))
    }
}

pub proof fn lemma_less_irreflexive(a: Seq<char>)
    ensures
        !text_less(a, a),
    decreases a.len(),
{
    if a.len() > 0 {
        lemma_less_irreflexive(a.skip(1));
    }
}

pub proof fn lemma_less_transitive(a: Seq<char>, b: Seq<char>, c: Seq<char>)
    requires
        text_less(a, b),
        text_less(b, c),
    ensures
        text_less(a, c),
    decreases a.len(),
{
    if a.len() > 0 {
        if a[0] == b[0] && b[0] == c[0] {
            lemma_less_transitive(a.skip(1), b.skip(1), c.skip(1));
        }
    }
}

pub proof fn lemma_less_total(a: Seq<char>, b: Seq<char>)
    ensures
        text_less(a, b) || text_less(b, a) || a == b,
    decreases a.len(),
{
    if a.len() == 0 || b.len() == 0 {
        if a.len() == 0 && b.len() == 0 {
            assert(a =~= b);
        }
    } else if a[0] == b[0] {
        lemma_less_total(a.skip(1), b.skip(1));
        if a.skip(1) == b.skip(1) {
            assert(a =~= seq![a[0]] + a.skip(1));
            assert(b =~= seq![b[0]] + b.skip(1));
        }
    }
}

/// Compare two texts.
pub fn less(a: &str, b: &str) -> (r: bool)
    ensures
        r == text_less(a@, b@),
{
    let x = chars_of(a);
    let y = chars_of(b);
    let mut i: usize = 0;
    assert(a@.skip(0) =~= a@);
    assert(b@.skip(0) =~= b@);
    while i < x.len() && i < y.len() && x[i] == y[i]
        invariant
            i <= x@.len(),
            i <= y@.len(),
            x@ == a@,
            y@ == b@,
            text_less(a@, b@) == text_less(a@.skip(i as int), b@.skip(i as int)),
        decreases x@.len() - i,
    {
        assert(a@.skip(i as int)[0] == a@[i as int]);
        assert(b@.skip(i as int)[0] == b@[i as int]);
        i = i + 1;
        assert(a@.skip(i - 1).skip(1) =~= a@.skip(i as int));
        assert(b@.skip(i - 1).skip(1) =~= b@.skip(i as int));
    }
    if i >= y.len() {
        assert(b@.skip(i as int).len() == 0);
        false
    } else if i >= x.len() {
        assert(a@.skip(i as int).len() == 0);
        true
    } else {
        assert(a@.skip(i as int)[0] == a@[i as int]);
        assert(b@.skip(i as int)[0] == b@[i as int]);
        let c: char = x[i];
        let d: char = y[i];
        c < d
    }
}

/// Strictly ascending keys.
pub open spec fn ascending(ks: Seq<Seq<char>>) -> bool {
    forall|i: int, j: int| 0 <= i < j < ks.len() ==> text_less(#[trigger] ks[i], #[trigger] ks[j])
}

/// The keys of a set in ascending order.
pub open spec fn ordered(dom: Set<Seq<char>>) -> Seq<Seq<char>> {
    choose|ks: Seq<Seq<char>>| ascending(ks) && #[trigger] ks.to_set() == dom
}

proof fn lemma_ascending_distinct(ks: Seq<Seq<char>>)
    requires
        ascending(ks),
    ensures
        ks.no_duplicates(),
{
    assert forall|i: int, j: int| 0 <= i < ks.len() && 0 <= j < ks.len() && i != j implies ks[i]
        != ks[j] by {
        if i < j {
            lemma_less_irreflexive(ks[i]);
        } else {
            lemma_less_irreflexive(ks[j]);
        }
    }
}

/// Ascending sequences with the same members are equal.
pub proof fn lemma_ascending_unique(a: Seq<Seq<char>>, b: Seq<Seq<char>>)
    requires
        ascending(a),
        ascending(b),
        a.to_set() == b.to_set(),
    ensures
        a == b,
    decreases a.len(),
{
    if a.len() == 0 {
        if b.len() > 0 {
            assert(b.to_set().contains(b[0]));
            assert(a.to_set().contains(b[0]));
        }
        assert(a =~= b);
    } else if b.len() == 0 {
        assert(a.to_set().contains(a[0]));
        assert(b.to_set().contains(a[0]));
    } else {
        let x = a.last();
        let y = b.last();
        assert(a.to_set().contains(x));
        assert(b.to_set().contains(y));
        assert(b.contains(x));
        assert(a.contains(y));
        let i = b.index_of(x);
        let j = a.index_of(y);
        if x != y {
            assert(i < b.len() - 1);
            assert(text_less(b[i], b[b.len() - 1]));
            assert(j < a.len() - 1);
            assert(text_less(a[j], a[a.len() - 1]));
            lemma_less_transitive(x, y, x);
            lemma_less_irreflexive(x);
        }
        lemma_ascending_distinct(a);
        lemma_ascending_distinct(b);
        assert forall|k: Seq<char>| a.drop_last().to_set().contains(k) == b.drop_last().to_set().contains(k) by {
            lemma_drop_last_members(a, k);
            lemma_drop_last_members(b, k);
            assert(a.to_set().contains(k) == a.contains(k));
            assert(b.to_set().contains(k) == b.contains(k));
        }
        assert(a.drop_last().to_set() =~= b.drop_last().to_set());
        lemma_ascending_unique(a.drop_last(), b.drop_last());
        assert(a =~= a.drop_last().push(x));
        assert(b =~= b.drop_last().push(y));
    }
}

proof fn lemma_drop_last_members(s: Seq<Seq<char>>, k: Seq<char>)
    requires
        s.len() > 0,
        s.no_duplicates(),
    ensures
        s.drop_last().contains(k) == (s.contains(k) && k != s.last()),
{
    if s.contains(k) && k != s.last() {
        let i = s.index_of(k);
        assert(i < s.len() - 1);
        assert(s.drop_last()[i] == k);
    }
    if s.drop_last().contains(k) {
        let i = s.drop_last().index_of(k);
        assert(s[i] == k);
        assert(i != s.len() - 1);
    }
}

/// An ascending sequence is the ordering of its own members.
pub proof fn lemma_ordered_is(ks: Seq<Seq<char>>, dom: Set<Seq<char>>)
    requires
        ascending(ks),
        ks.to_set() == dom,
    ensures
        ordered(dom) == ks,
{
    let o = ordered(dom);
    assert(ascending(o) && o.to_set() == dom);
    lemma_ascending_unique(o, ks);
}

proof fn split_point(ks: Seq<Seq<char>>, a: Seq<char>) -> (p: int)
    requires
        ascending(ks),
        !ks.contains(a),
    ensures
        0 <= p <= ks.len(),
        forall|j: int| 0 <= j < p ==> text_less(#[trigger] ks[j], a),
        forall|j: int| p <= j < ks.len() ==> text_less(a, #[trigger] ks[j]),
    decreases ks.len(),
{
    if ks.len() == 0 {
        0
    } else if text_less(ks.last(), a) {
        assert forall|j: int| 0 <= j < ks.len() implies text_less(#[trigger] ks[j], a) by {
            if j < ks.len() - 1 {
                lemma_less_transitive(ks[j], ks[ks.len() - 1], a);
            }
        }
        ks.len() as int
    } else {
        let d = ks.drop_last();
        assert forall|i: int, j: int| 0 <= i < j < d.len() implies text_less(
            #[trigger] d[i],
            #[trigger] d[j],
        ) by {
            assert(text_less(ks[i], ks[j]));
        }
        assert(!d.contains(a)) by {
            if d.contains(a) {
                assert(ks[d.index_of(a)] == a);
            }
        }
        let p = split_point(d, a);
        lemma_less_total(ks.last(), a);
        assert(ks[ks.len() - 1] != a);
        assert forall|j: int| 0 <= j < p implies text_less(#[trigger] ks[j], a) by {
            assert(d[j] == ks[j]);
        }
        assert forall|j: int| p <= j < ks.len() implies text_less(a, #[trigger] ks[j]) by {
            if j < d.len() {
                assert(d[j] == ks[j]);
            }
        }
        p
    }
}

/// Every finite set of keys has an ascending order, and it lists them all.
pub proof fn lemma_ordered(dom: Set<Seq<char>>)
    requires
        dom.finite(),
    ensures
        ascending(ordered(dom)),
        ordered(dom).to_set() == dom,
        ordered(dom).no_duplicates(),
        ordered(dom).len() == dom.len(),
    decreases dom.len(),
{
    if dom.len() == 0 {
        let ks = Seq::<Seq<char>>::empty();
        assert(ks.to_set() =~= dom);
        lemma_ordered_is(ks, dom);
    } else {
        let a = dom.choose();
        let rest = dom.remove(a);
        lemma_ordered(rest);
        let r = ordered(rest);
        assert(r.to_set().contains(a) == r.contains(a));
        let p = split_point(r, a);
        let ks = r.insert(p, a);
        assert forall|x: int, y: int| 0 <= x < y < ks.len() implies text_less(
            #[trigger] ks[x],
            #[trigger] ks[y],
        ) by {
            let x2 = if x < p { x } else { x - 1 };
            let y2 = if y < p { y } else { y - 1 };
            if x != p {
                assert(ks[x] == r[x2]);
            }
            if y != p {
                assert(ks[y] == r[y2]);
            }
        }
        assert forall|k: Seq<char>| ks.to_set().contains(k) == dom.contains(k) by {
            assert(ks.to_set().contains(k) == ks.contains(k));
            assert(r.to_set().contains(k) == r.contains(k));
            if ks.contains(k) && k != a {
                let j = ks.index_of(k);
                let j2 = if j < p { j } else { j - 1 };
                assert(r[j2] == k);
            }
            if r.contains(k) {
                let j = r.index_of(k);
                let j2 = if j < p { j } else { j + 1 };
                assert(ks[j2] == k);
            }
            assert(ks[p] == a);
        }
        assert(ks.to_set() =~= dom);
        lemma_ordered_is(ks, dom);
    }
    lemma_ascending_distinct(ordered(dom));
    ordered(dom).unique_seq_to_set();
}

/// A key is in the set exactly if it stands somewhere in its order.
pub proof fn lemma_ordered_contains(dom: Set<Seq<char>>, k: Seq<char>)
    requires
        dom.finite(),
    ensures
        ordered(dom).contains(k) == dom.contains(k),
{
    lemma_ordered(dom);
    assert(ordered(dom).to_set().contains(k) == ordered(dom).contains(k));
}

/// A map from names to values. Keys are kept in ascending order.
pub struct NameMap<V: Model> {
    entries: Vec<(String, V)>,
}

pub open spec fn pair_keys<V>(s: Seq<(String, V)>) -> Seq<Seq<char>> {
    s.map_values(|e: (String, V)| e.0@)
}

pub open spec fn pair_map<V: Model>(s: Seq<(String, V)>) -> Map<Seq<char>, V::V> {
    Map::new(|k: Seq<char>| pair_keys(s).contains(k), |k: Seq<char>| s[pair_keys(s).index_of(k)].1@)
}

impl<V: Model> View for NameMap<V> {
    type V = Map<Seq<char>, V::V>;

    closed spec fn view(&self) -> Map<Seq<char>, V::V> {
        pair_map(self.entries@)
    }
}

proof fn lemma_pair_at<V: Model>(s: Seq<(String, V)>, i: int)
    requires
        ascending(pair_keys(s)),
        0 <= i < s.len(),
    ensures
        pair_map(s).contains_key(s[i].0@),
        pair_map(s)[s[i].0@] == s[i].1@,
{
    let ks = pair_keys(s);
    lemma_ascending_distinct(ks);
    assert(ks[i] == s[i].0@);
    assert(ks.contains(s[i].0@));
    assert(ks.index_of(s[i].0@) == i);
}

proof fn lemma_pair_dom<V: Model>(s: Seq<(String, V)>)
    requires
        ascending(pair_keys(s)),
    ensures
        pair_map(s).dom() == pair_keys(s).to_set(),
        ordered(pair_map(s).dom()) == pair_keys(s),
        pair_map(s).dom().len() == s.len(),
        pair_map(s).dom().finite(),
{
    let ks = pair_keys(s);
    assert(pair_map(s).dom() =~= ks.to_set());
    lemma_ordered_is(ks, pair_map(s).dom());
    lemma_ascending_distinct(ks);
    ks.unique_seq_to_set();
}

/// A key that is greater than all before `i` and less than all from `i` on
/// does not occur.
proof fn lemma_absent(ks: Seq<Seq<char>>, k: Seq<char>, i: int)
    requires
        0 <= i <= ks.len(),
        forall|j: int| 0 <= j < i ==> text_less(#[trigger] ks[j], k),
        forall|j: int| i <= j < ks.len() ==> text_less(k, #[trigger] ks[j]),
    ensures
        !ks.contains(k),
{
    if ks.contains(k) {
        let j = ks.index_of(k);
        lemma_less_irreflexive(k);
        assert(ks[j] == k);
    }
}

impl<V: Model> NameMap<V> {
    #[verifier::type_invariant]
    spec fn sorted(self) -> bool {
        ascending(pair_keys(self.entries@))
    }

    pub fn new() -> (m: Self)
        ensures
            m@ == Map::<Seq<char>, V::V>::empty(),
    {
        let m = NameMap { entries: Vec::new() };
        assert(pair_map(m.entries@) =~= Map::<Seq<char>, V::V>::empty());
        m
    }

    /// The first position whose key is not less than `k`, and whether it is `k`.
    fn locate(entries: &Vec<(String, V)>, k: &str) -> (r: (usize, bool))
        requires
            ascending(pair_keys(entries@)),
        ensures
            r.0 <= entries@.len(),
            forall|j: int| 0 <= j < r.0 ==> text_less(#[trigger] pair_keys(entries@)[j], k@),
            r.1 ==> r.0 < entries@.len() && entries@[r.0 as int].0@ == k@,
            !r.1 ==> forall|j: int|
                r.0 <= j < entries@.len() ==> text_less(k@, #[trigger] pair_keys(entries@)[j]),
            r.1 == pair_keys(entries@).contains(k@),
    {
        let ghost ks = pair_keys(entries@);
        let mut i: usize = 0;
        while i < entries.len() && less(entries[i].0.as_str(), k)
            invariant
                i <= entries@.len(),
                ks == pair_keys(entries@),
                forall|j: int| 0 <= j < i ==> text_less(#[trigger] ks[j], k@),
            decreases entries@.len() - i,
        {
            assert(ks[i as int] == entries@[i as int].0@);
            i = i + 1;
        }
        if i < entries.len() && !less(k, entries[i].0.as_str()) {
            proof {
                assert(ks[i as int] == entries@[i as int].0@);
                lemma_less_total(ks[i as int], k@);
                assert(ks.contains(k@));
            }
            (i, true)
        } else {
            proof {
                assert forall|j: int| i <= j < entries@.len() implies text_less(
                    k@,
                    #[trigger] ks[j],
                ) by {
                    assert(ks[i as int] == entries@[i as int].0@);
                    if j > i {
                        lemma_less_transitive(k@, ks[i as int], ks[j]);
                    }
                }
                lemma_absent(ks, k@, i as int);
            }
            (i, false)
        }
    }

    pub fn len(&self) -> (n: usize)
        ensures
            n == self@.dom().len(),
            n == ordered(self@.dom()).len(),
            self@.dom().finite(),
    {
        proof {
            use_type_invariant(self);
            lemma_pair_dom(self.entries@);
        }
        self.entries.len()
    }

    pub fn is_empty(&self) -> (b: bool)
        ensures
            b == (self@ == Map::<Seq<char>, V::V>::empty()),
            b == (ordered(self@.dom()).len() == 0),
            self@.dom().finite(),
    {
        proof {
            use_type_invariant(self);
            lemma_pair_dom(self.entries@);
            if self.entries@.len() == 0 {
                assert(self@ =~= Map::<Seq<char>, V::V>::empty());
            } else {
                lemma_pair_at(self.entries@, 0);
            }
        }
        self.entries.len() == 0
    }

    pub fn contains_key(&self, k: &str) -> (b: bool)
        ensures
            b == self@.contains_key(k@),
    {
        proof {
            use_type_invariant(self);
        }
        Self::locate(&self.entries, k).1
    }

    pub fn get(&self, k: &str) -> (r: Option<&V>)
        ensures
            match r {
                Some(v) => self@.contains_key(k@) && v@ == self@[k@],
                None => !self@.contains_key(k@),
            },
    {
        proof {
            use_type_invariant(self);
        }
        let (i, found) = Self::locate(&self.entries, k);
        if found {
            proof {
                lemma_pair_at(self.entries@, i as int);
            }
            Some(&self.entries[i].1)
        } else {
            None
        }
    }

    /// The key at a position of the ascending order.
    pub fn key_at(&self, i: usize) -> (k: &String)
        requires
            i < ordered(self@.dom()).len(),
        ensures
            k@ == ordered(self@.dom())[i as int],
            self@.contains_key(k@),
    {
        proof {
            use_type_invariant(self);
            lemma_pair_dom(self.entries@);
            lemma_pair_at(self.entries@, i as int);
        }
        &self.entries[i].0
    }

    /// The value at a position of the ascending order.
    pub fn value_at(&self, i: usize) -> (v: &V)
        requires
            i < ordered(self@.dom()).len(),
        ensures
            v@ == self@[ordered(self@.dom())[i as int]],
    {
        proof {
            use_type_invariant(self);
            lemma_pair_dom(self.entries@);
            lemma_pair_at(self.entries@, i as int);
        }
        &self.entries[i].1
    }

    pub fn insert(&mut self, k: String, v: V)
        ensures
            final(self)@ == old(self)@.insert(k@, v@),
    {
        proof {
            use_type_invariant(&*self);
        }
        let mut entries: Vec<(String, V)> = Vec::new();
        std::mem::swap(&mut entries, &mut self.entries);
        let ghost before = entries@;
        let ghost ks = pair_keys(before);
        let (i, found) = Self::locate(&entries, k.as_str());
        let ghost key = k@;
        let ghost val = v@;
        if found {
            entries.set(i, (k, v));
            proof {
                assert(pair_keys(entries@) =~= ks);
                lemma_update(before, entries@, i as int);
            }
        } else {
            entries.insert(i, (k, v));
            proof {
                lemma_insertion(before, entries@, i as int);
            }
        }
        self.entries = entries;
    }

    pub fn remove(&mut self, k: &str)
        ensures
            final(self)@ == old(self)@.remove(k@),
    {
        proof {
            use_type_invariant(&*self);
        }
        let mut entries: Vec<(String, V)> = Vec::new();
        std::mem::swap(&mut entries, &mut self.entries);
        let ghost before = entries@;
        let (i, found) = Self::locate(&entries, k);
        if found {
            entries.remove(i);
            proof {
                lemma_removal(before, entries@, i as int);
            }
        } else {
            assert(pair_map(before).remove(k@) =~= pair_map(before));
        }
        self.entries = entries;
    }
}

proof fn lemma_update<V: Model>(a: Seq<(String, V)>, b: Seq<(String, V)>, i: int)
    requires
        ascending(pair_keys(a)),
        0 <= i < a.len(),
        b == a.update(i, b[i]),
        b[i].0@ == a[i].0@,
        pair_keys(b) == pair_keys(a),
    ensures
        pair_map(b) == pair_map(a).insert(b[i].0@, b[i].1@),
{
    let m = pair_map(a).insert(b[i].0@, b[i].1@);
    lemma_pair_at(a, i);
    assert forall|k: Seq<char>| pair_map(b).contains_key(k) implies #[trigger] pair_map(b)[k] == m[k] by {
        let j = pair_keys(b).index_of(k);
        lemma_pair_at(b, j);
        lemma_pair_at(a, j);
        lemma_ascending_distinct(pair_keys(a));
        assert(pair_keys(b)[j] == b[j].0@);
        assert(pair_keys(a)[i] == a[i].0@);
    }
    assert(pair_map(b) =~= m);
}

proof fn lemma_insertion<V: Model>(a: Seq<(String, V)>, b: Seq<(String, V)>, i: int)
    requires
        ascending(pair_keys(a)),
        0 <= i <= a.len(),
        b == a.insert(i, b[i]),
        forall|j: int| 0 <= j < i ==> text_less(#[trigger] pair_keys(a)[j], b[i].0@),
        forall|j: int| i <= j < a.len() ==> text_less(b[i].0@, #[trigger] pair_keys(a)[j]),
    ensures
        ascending(pair_keys(b)),
        pair_map(b) == pair_map(a).insert(b[i].0@, b[i].1@),
{
    let ka = pair_keys(a);
    let kb = pair_keys(b);
    let key = b[i].0@;
    assert(kb =~= ka.insert(i, key));
    assert forall|x: int, y: int| 0 <= x < y < kb.len() implies text_less(
        #[trigger] kb[x],
        #[trigger] kb[y],
    ) by {
        let x2 = if x < i { x } else { x - 1 };
        let y2 = if y < i { y } else { y - 1 };
        if x != i {
            assert(kb[x] == ka[x2]);
        }
        if y != i {
            assert(kb[y] == ka[y2]);
        }
    }
    let m = pair_map(a).insert(key, b[i].1@);
    assert forall|k: Seq<char>| #[trigger] pair_map(b).contains_key(k) == m.contains_key(k) by {
        if kb.contains(k) && k != key {
            let j = kb.index_of(k);
            let j2 = if j < i { j } else { j - 1 };
            assert(ka[j2] == k);
        }
        if ka.contains(k) {
            let j = ka.index_of(k);
            let j2 = if j < i { j } else { j + 1 };
            assert(kb[j2] == k);
        }
        assert(kb[i] == key);
    }
    assert forall|k: Seq<char>| pair_map(b).contains_key(k) implies #[trigger] pair_map(b)[k] == m[k] by {
        let j = kb.index_of(k);
        lemma_pair_at(b, j);
        assert(kb[j] == b[j].0@);
        if j != i {
            let j2 = if j < i { j } else { j - 1 };
            assert(b[j] == a[j2]);
            lemma_pair_at(a, j2);
            lemma_ascending_distinct(kb);
            assert(kb[i] == key);
        }
    }
    assert(pair_map(b) =~= m);
}

proof fn lemma_removal<V: Model>(a: Seq<(String, V)>, b: Seq<(String, V)>, i: int)
    requires
        ascending(pair_keys(a)),
        0 <= i < a.len(),
        b == a.remove(i),
    ensures
        ascending(pair_keys(b)),
        pair_map(b) == pair_map(a).remove(a[i].0@),
{
    let ka = pair_keys(a);
    let kb = pair_keys(b);
    let key = a[i].0@;
    assert(kb =~= ka.remove(i));
    assert forall|x: int, y: int| 0 <= x < y < kb.len() implies text_less(
        #[trigger] kb[x],
        #[trigger] kb[y],
    ) by {
        let x2 = if x < i { x } else { x + 1 };
        let y2 = if y < i { y } else { y + 1 };
        assert(kb[x] == ka[x2]);
        assert(kb[y] == ka[y2]);
    }
    lemma_ascending_distinct(ka);
    let m = pair_map(a).remove(key);
    assert(ka[i] == key);
    assert forall|k: Seq<char>| #[trigger] pair_map(b).contains_key(k) == m.contains_key(k) by {
        if kb.contains(k) {
            let j = kb.index_of(k);
            let j2 = if j < i { j } else { j + 1 };
            assert(ka[j2] == k);
        }
        if ka.contains(k) && k != key {
            let j = ka.index_of(k);
            let j2 = if j < i { j } else { j - 1 };
            assert(kb[j2] == k);
        }
    }
    assert forall|k: Seq<char>| pair_map(b).contains_key(k) implies #[trigger] pair_map(b)[k] == m[k] by {
        let j = kb.index_of(k);
        lemma_pair_at(b, j);
        let j2 = if j < i { j } else { j + 1 };
        assert(b[j] == a[j2]);
        lemma_pair_at(a, j2);
    }
    assert(pair_map(b) =~= m);
}

impl<V: Model> Model for NameMap<V> {
    fn dup(&self) -> (r: Self) {
        proof {
            use_type_invariant(self);
        }
        let mut entries: Vec<(String, V)> = Vec::new();
        let mut i: usize = 0;
        while i < self.entries.len()
            invariant
                i <= self.entries@.len(),
                entries@.len() == i,
                forall|j: int| #![trigger entries@[j]]
                    0 <= j < i ==> entries@[j].0@ == self.entries@[j].0@ && entries@[j].1@
                        == self.entries@[j].1@,
            decreases self.entries@.len() - i,
        {
            entries.push((self.entries[i].0.clone(), self.entries[i].1.dup()));
            i = i + 1;
        }
        proof {
            assert(pair_keys(entries@) =~= pair_keys(self.entries@));
            assert forall|k: Seq<char>| pair_map(entries@).contains_key(k) implies #[trigger] pair_map(entries@)[k]
                == pair_map(self.entries@)[k] by {
                let j = pair_keys(entries@).index_of(k);
                assert(entries@[j].1@ == self.entries@[j].1@);
            }
            assert(pair_map(entries@) =~= pair_map(self.entries@));
        }
        NameMap { entries }
    }
}

/// The first character that differs decides the order of two texts, and a text
/// comes before what it is the front of.
pub proof fn law_first_difference_decides(
    p: Seq<char>,
    x: char,
    y: char,
    a: Seq<char>,
    b: Seq<char>,
)
    requires
        x != y,
    ensures
        text_less(p + seq![x] + a, p + seq![y] + b) <==> (x as int) < (y as int),
        text_less(p, p + seq![x] + a),
        !text_less(p + seq![x] + a, p),
    decreases p.len(),
{
    let s = p + seq![x] + a;
    let t = p + seq![y] + b;
    if p.len() == 0 {
        assert(s[0] == x && t[0] == y);
    } else {
        let q = p.skip(1);
        law_first_difference_decides(q, x, y, a, b);
        assert(s.skip(1) =~= q + seq![x] + a);
        assert(t.skip(1) =~= q + seq![y] + b);
        assert(s[0] == p[0] && t[0] == p[0]);
    }
}

} // verus!
