//! Runtime state: node statistics per subscription profile, routes per class
//! and source trust, as it is persisted between runs.

use vstd::prelude::*;

use crate::digest::{debug_quoted, say, say_quoted};
use crate::names::{lemma_ordered, ordered, Model, NameMap};
use crate::paths::{parent, parent_of, with_extension, with_extension_of};
use crate::score::{NodeStats, NodeStatsView};
use crate::seqs::{first_index, lemma_first_is};
use crate::siteprobe::{SiteVerdict, SiteVerdictView};
use crate::subscription::{CACHE_SLOT_A, CACHE_SLOT_B};
use crate::text::{copy_opt, decimal, decimal_text, opt_str, opt_text, same};

verus! {

pub const STATE_VERSION: u32 = 2;

pub const LEGACY_STATE_VERSION: u32 = 1;

/// Route state of one class.
#[derive(Debug, PartialEq, Eq)]
pub struct ClassState {
    /// Name of the currently active node.
    pub active_node: Option<String>,
    /// Current data-plane local ports, for diagnosis.
    pub socks_port: Option<u16>,
    pub http_port: Option<u16>,
    /// Switch generation, one more on every successful switch.
    pub generation: u64,
}

#[verifier::ext_equal]
pub struct ClassStateView {
    pub active_node: Option<Seq<char>>,
    pub socks_port: Option<u16>,
    pub http_port: Option<u16>,
    pub generation: u64,
}

impl View for ClassState {
    type V = ClassStateView;

    open spec fn view(&self) -> ClassStateView {
        ClassStateView {
            active_node: opt_text(self.active_node),
            socks_port: self.socks_port,
            http_port: self.http_port,
            generation: self.generation,
        }
    }
}

impl Model for ClassState {
    fn dup(&self) -> (r: Self) {
        ClassState {
            active_node: copy_opt(&self.active_node),
            socks_port: self.socks_port,
            http_port: self.http_port,
            generation: self.generation,
        }
    }
}

/// A class without a path.
pub open spec fn no_route() -> ClassStateView {
    ClassStateView { active_node: None, socks_port: None, http_port: None, generation: 0 }
}

impl Default for ClassState {
    fn default() -> (c: Self)
        ensures
            c@ == no_route(),
    {
        ClassState { active_node: None, socks_port: None, http_port: None, generation: 0 }
    }
}

pub type StatsMap = Map<Seq<char>, NodeStatsView>;

pub type TextMap = Map<Seq<char>, Seq<char>>;

/// In-memory runtime state.
///
/// `nodes` is the active profile's statistics, so that the probe and switch
/// paths need no profile lookup; `subscription_nodes` holds inactive profiles
/// only.
pub struct StateFile {
    pub version: u32,
    pub updated_unix: i64,
    /// Subscription profile whose statistics are in `nodes`.
    pub active_subscription: Option<String>,
    /// Class name to route state.
    pub classes: NameMap<ClassState>,
    /// The active subscription's statistics by node name.
    pub nodes: NameMap<NodeStats>,
    /// Remote profile to the cache slot confirmed with the last publication.
    pub subscription_cache_slots: NameMap<String>,
    /// Profile to the identity of the source that produced its statistics.
    pub subscription_source_identities: NameMap<String>,
    /// Profile to a newly configured identity that no publication has
    /// confirmed yet.
    pub pending_subscription_sources: NameMap<String>,
    /// Site to node to the last verdict.
    pub site_verdicts: NameMap<NameMap<SiteVerdict>>,
    subscription_nodes: NameMap<NameMap<NodeStats>>,
}

#[verifier::ext_equal]
pub struct StateView {
    pub version: u32,
    pub updated_unix: i64,
    pub active: Option<Seq<char>>,
    pub classes: Map<Seq<char>, ClassStateView>,
    pub nodes: StatsMap,
    pub slots: TextMap,
    pub identities: TextMap,
    pub pending: TextMap,
    pub verdicts: Map<Seq<char>, Map<Seq<char>, SiteVerdictView>>,
    /// Statistics of the inactive profiles.
    pub inactive: Map<Seq<char>, StatsMap>,
}

impl View for StateFile {
    type V = StateView;

    closed spec fn view(&self) -> StateView {
        StateView {
            version: self.version,
            updated_unix: self.updated_unix,
            active: opt_text(self.active_subscription),
            classes: self.classes@,
            nodes: self.nodes@,
            slots: self.subscription_cache_slots@,
            identities: self.subscription_source_identities@,
            pending: self.pending_subscription_sources@,
            verdicts: self.site_verdicts@,
            inactive: self.subscription_nodes@,
        }
    }
}

impl StateView {
    /// There is one copy of the active statistics.
    pub open spec fn one_copy(self) -> bool {
        self.active is Some ==> !self.inactive.contains_key(self.active->0)
    }

    /// The statistics of a profile, active or not.
    pub open spec fn stats_of(self, name: Seq<char>) -> Option<StatsMap> {
        if self.active == Some(name) {
            Some(self.nodes)
        } else if self.inactive.contains_key(name) {
            Some(self.inactive[name])
        } else {
            None
        }
    }

    /// The source of a profile is confirmed, and no change is pending.
    pub open spec fn trusts(self, name: Seq<char>, identity: Seq<char>) -> bool {
        self.identities.contains_key(name) && self.identities[name] == identity
            && !self.pending.contains_key(name)
    }
}

pub open spec fn empty_state() -> StateView {
    StateView {
        version: STATE_VERSION,
        updated_unix: 0,
        active: None,
        classes: Map::empty(),
        nodes: Map::empty(),
        slots: Map::empty(),
        identities: Map::empty(),
        pending: Map::empty(),
        verdicts: Map::empty(),
        inactive: Map::empty(),
    }
}

impl Default for StateFile {
    fn default() -> (s: Self)
        ensures
            s@ == empty_state(),
    {
        StateFile {
            version: STATE_VERSION,
            updated_unix: 0,
            active_subscription: None,
            classes: NameMap::new(),
            nodes: NameMap::new(),
            subscription_cache_slots: NameMap::new(),
            subscription_source_identities: NameMap::new(),
            pending_subscription_sources: NameMap::new(),
            site_verdicts: NameMap::new(),
            subscription_nodes: NameMap::new(),
        }
    }
}

impl Model for StateFile {
    fn dup(&self) -> (r: Self) {
        StateFile {
            version: self.version,
            updated_unix: self.updated_unix,
            active_subscription: copy_opt(&self.active_subscription),
            classes: self.classes.dup(),
            nodes: self.nodes.dup(),
            subscription_cache_slots: self.subscription_cache_slots.dup(),
            subscription_source_identities: self.subscription_source_identities.dup(),
            pending_subscription_sources: self.pending_subscription_sources.dup(),
            site_verdicts: self.site_verdicts.dup(),
            subscription_nodes: self.subscription_nodes.dup(),
        }
    }
}

/// Forget everything about a profile.
pub open spec fn removed(s: StateView, name: Seq<char>) -> StateView {
    let was_active = s.active == Some(name);
    StateView {
        active: if was_active {
            None
        } else {
            s.active
        },
        nodes: if was_active {
            Map::empty()
        } else {
            s.nodes
        },
        slots: s.slots.remove(name),
        identities: s.identities.remove(name),
        pending: s.pending.remove(name),
        inactive: s.inactive.remove(name),
        ..s
    }
}

/// Keep a profile but drop everything derived from its previous source.
pub open spec fn invalidated(s: StateView, name: Seq<char>, identity: Seq<char>) -> StateView {
    let is_active = s.active == Some(name);
    StateView {
        nodes: if is_active {
            Map::empty()
        } else {
            s.nodes
        },
        slots: s.slots.remove(name),
        identities: s.identities.remove(name),
        pending: s.pending.insert(name, identity),
        inactive: if is_active {
            s.inactive
        } else {
            s.inactive.remove(name)
        },
        ..s
    }
}

/// Confirm the source of a profile.
pub open spec fn confirmed(s: StateView, name: Seq<char>, identity: Seq<char>) -> StateView {
    StateView {
        identities: s.identities.insert(name, identity),
        pending: s.pending.remove(name),
        ..s
    }
}

/// Select a profile: the outgoing statistics are put aside under their
/// profile, and the incoming ones taken back. A version-1 state binds its
/// statistics to the selected profile instead.
pub open spec fn activated(s: StateView, name: Seq<char>) -> StateView {
    if s.version == LEGACY_STATE_VERSION {
        StateView { version: STATE_VERSION, active: Some(name), ..s }
    } else if s.active == Some(name) {
        s
    } else {
        let aside = match s.active {
            Some(previous) => s.inactive.insert(previous, s.nodes),
            None => s.inactive,
        };
        StateView {
            active: Some(name),
            nodes: if aside.contains_key(name) {
                aside[name]
            } else {
                Map::empty()
            },
            inactive: aside.remove(name),
            ..s
        }
    }
}

impl StateFile {
    /// Read a profile without activating it.
    pub fn nodes_for_subscription(&self, name: &str) -> (r: Option<&NameMap<NodeStats>>)
        ensures
            match r {
                Some(m) => self@.stats_of(name@) == Some(m@),
                None => self@.stats_of(name@) is None,
            },
    {
        if let Some(active) = &self.active_subscription {
            if same(active.as_str(), name) {
                return Some(&self.nodes);
            }
        }
        self.subscription_nodes.get(name)
    }

    fn is_active(&self, name: &str) -> (b: bool)
        ensures
            b == (self@.active == Some(name@)),
    {
        match &self.active_subscription {
            Some(active) => same(active.as_str(), name),
            None => false,
        }
    }

    /// Remove every namespace that a profile owns.
    pub fn remove_subscription(&mut self, name: &str)
        ensures
            final(self)@ == removed(old(self)@, name@),
    {
        if self.is_active(name) {
            self.nodes = NameMap::new();
            self.active_subscription = None;
        }
        self.subscription_nodes.remove(name);
        self.subscription_cache_slots.remove(name);
        self.subscription_source_identities.remove(name);
        self.pending_subscription_sources.remove(name);
    }

    /// Preserve the profile name but invalidate everything derived from its
    /// previous source. The pending marker survives crashes.
    pub fn invalidate_subscription_source(&mut self, name: &str, identity: String)
        ensures
            final(self)@ == invalidated(old(self)@, name@, identity@),
    {
        if self.is_active(name) {
            self.nodes = NameMap::new();
        } else {
            self.subscription_nodes.remove(name);
        }
        self.subscription_cache_slots.remove(name);
        self.subscription_source_identities.remove(name);
        self.pending_subscription_sources.insert(name.to_owned(), identity);
    }

    pub fn trust_subscription_source(&mut self, name: &str, identity: String)
        ensures
            final(self)@ == confirmed(old(self)@, name@, identity@),
    {
        self.pending_subscription_sources.remove(name);
        self.subscription_source_identities.insert(name.to_owned(), identity);
    }

    pub fn source_is_trusted(&self, name: &str, identity: &str) -> (b: bool)
        ensures
            b == self@.trusts(name@, identity@),
    {
        match self.subscription_source_identities.get(name) {
            Some(stored) => same(stored.as_str(), identity)
                && !self.pending_subscription_sources.contains_key(name),
            None => false,
        }
    }

    /// Bind statistics of the flat version-1 format to a selected profile.
    /// Does nothing, and returns false, on version 2.
    pub fn migrate_for_subscription(&mut self, selected: &str) -> (b: bool)
        ensures
            b == (old(self)@.version == LEGACY_STATE_VERSION),
            b ==> final(self)@ == (StateView {
                version: STATE_VERSION,
                active: Some(selected@),
                ..old(self)@
            }),
            !b ==> final(self)@ == old(self)@,
    {
        if self.version != LEGACY_STATE_VERSION {
            return false;
        }
        self.version = STATE_VERSION;
        self.active_subscription = Some(selected.to_owned());
        true
    }

    /// Select a profile while preserving the current profile's statistics.
    /// Returns true when the active profile changed or a migration occurred.
    pub fn activate_subscription(&mut self, name: &str) -> (b: bool)
        ensures
            final(self)@ == activated(old(self)@, name@),
            b == (old(self)@.version == LEGACY_STATE_VERSION || old(self)@.active != Some(name@)),
    {
        if self.migrate_for_subscription(name) {
            return true;
        }
        if self.is_active(name) {
            return false;
        }
        let previous = self.active_subscription.take();
        self.active_subscription = Some(name.to_owned());
        if let Some(previous) = previous {
            let mut outgoing: NameMap<NodeStats> = NameMap::new();
            std::mem::swap(&mut outgoing, &mut self.nodes);
            self.subscription_nodes.insert(previous, outgoing);
        }
        let incoming = match self.subscription_nodes.get(name) {
            Some(m) => m.dup(),
            None => NameMap::new(),
        };
        self.nodes = incoming;
        self.subscription_nodes.remove(name);
        true
    }
}

// ---------------------------------------------------------------------------
// Catalog changes
// ---------------------------------------------------------------------------

/// Does any namespace besides the active statistics mention the profile?
pub open spec fn known(s: StateView, p: Seq<char>) -> bool {
    s.inactive.contains_key(p) || s.slots.contains_key(p) || s.identities.contains_key(p)
        || s.pending.contains_key(p)
}

/// Forget a set of profiles.
pub open spec fn without(s: StateView, gone: Set<Seq<char>>) -> StateView {
    let lost_active = s.active is Some && gone.contains(s.active->0);
    StateView {
        active: if lost_active {
            None
        } else {
            s.active
        },
        nodes: if lost_active {
            Map::empty()
        } else {
            s.nodes
        },
        slots: s.slots.remove_keys(gone),
        identities: s.identities.remove_keys(gone),
        pending: s.pending.remove_keys(gone),
        inactive: s.inactive.remove_keys(gone),
        ..s
    }
}

/// Forget every known profile that is not to be kept.
pub open spec fn pruned(s: StateView, keep: Set<Seq<char>>) -> StateView {
    without(s, Set::new(|p: Seq<char>| known(s, p) && !keep.contains(p)))
}

/// The source of a configured profile is not the one that the state knows.
pub open spec fn source_changed(
    s: StateView,
    previous: TextMap,
    next: TextMap,
    p: Seq<char>,
) -> bool {
    ||| !(previous.contains_key(p) && previous[p] == next[p])
    ||| s.identities.contains_key(p) && s.identities[p] != next[p]
    ||| s.pending.contains_key(p) && s.pending[p] != next[p]
}

/// Invalidate the changed sources among `done`, and confirm the freshly
/// checked one.
pub open spec fn updated(
    s: StateView,
    previous: TextMap,
    next: TextMap,
    fresh: Option<Seq<char>>,
    done: Set<Seq<char>>,
) -> StateView {
    let changed = |p: Seq<char>| done.contains(p) && source_changed(s, previous, next, p);
    let trusted = |p: Seq<char>| done.contains(p) && fresh == Some(p);
    StateView {
        nodes: if s.active is Some && changed(s.active->0) {
            Map::empty()
        } else {
            s.nodes
        },
        slots: s.slots.remove_keys(Set::new(changed)),
        identities: Map::new(
            |p: Seq<char>| (s.identities.contains_key(p) && !changed(p)) || trusted(p),
            |p: Seq<char>|
                if trusted(p) {
                    next[p]
                } else {
                    s.identities[p]
                },
        ),
        pending: Map::new(
            |p: Seq<char>| (s.pending.contains_key(p) || changed(p)) && !trusted(p),
            |p: Seq<char>|
                if changed(p) {
                    next[p]
                } else {
                    s.pending[p]
                },
        ),
        inactive: s.inactive.remove_keys(
            Set::new(|p: Seq<char>| changed(p) && s.active != Some(p)),
        ),
        ..s
    }
}

/// The state after a catalog has been published.
pub open spec fn catalog_applied(
    s: StateView,
    previous: TextMap,
    next: TextMap,
    fresh: Option<Seq<char>>,
) -> StateView {
    updated(pruned(s, next.dom()), previous, next, fresh, next.dom())
}

/// Confirm the sources among `done` that the state knows nothing about.
pub open spec fn adopted(s: StateView, current: TextMap, done: Set<Seq<char>>) -> StateView {
    StateView {
        identities: Map::new(
            |p: Seq<char>|
                s.identities.contains_key(p) || (done.contains(p) && !s.pending.contains_key(p)),
            |p: Seq<char>|
                if s.identities.contains_key(p) {
                    s.identities[p]
                } else {
                    current[p]
                },
        ),
        ..s
    }
}

/// The state after startup has held it against the configured sources.
pub open spec fn reconciled(s: StateView, current: TextMap) -> StateView {
    adopted(catalog_applied(s, current, current, None), current, current.dom())
}

proof fn lemma_remove_one(s: StateView, gone: Set<Seq<char>>, n: Seq<char>)
    ensures
        removed(without(s, gone), n) == without(s, gone.insert(n)),
{
    let a = removed(without(s, gone), n);
    let b = without(s, gone.insert(n));
    assert(a.slots =~= b.slots);
    assert(a.identities =~= b.identities);
    assert(a.pending =~= b.pending);
    assert(a.inactive =~= b.inactive);
}

proof fn lemma_update_one(
    s: StateView,
    previous: TextMap,
    next: TextMap,
    fresh: Option<Seq<char>>,
    done: Set<Seq<char>>,
    k: Seq<char>,
)
    requires
        !done.contains(k),
    ensures
        ({
            let cur = updated(s, previous, next, fresh, done);
            let mid = if source_changed(cur, previous, next, k) {
                invalidated(cur, k, next[k])
            } else {
                cur
            };
            let end = if fresh == Some(k) {
                confirmed(mid, k, next[k])
            } else {
                mid
            };
            end == updated(s, previous, next, fresh, done.insert(k))
        }),
{
    let cur = updated(s, previous, next, fresh, done);
    let mid = if source_changed(cur, previous, next, k) {
        invalidated(cur, k, next[k])
    } else {
        cur
    };
    let end = if fresh == Some(k) {
        confirmed(mid, k, next[k])
    } else {
        mid
    };
    let want = updated(s, previous, next, fresh, done.insert(k));
    assert(cur.identities.contains_key(k) == s.identities.contains_key(k));
    assert(cur.pending.contains_key(k) == s.pending.contains_key(k));
    assert(source_changed(cur, previous, next, k) == source_changed(s, previous, next, k));
    assert(end.slots =~= want.slots);
    assert(end.identities =~= want.identities);
    assert(end.pending =~= want.pending);
    assert(end.inactive =~= want.inactive);
    assert(end.nodes =~= want.nodes);
}

proof fn lemma_adopt_one(s: StateView, current: TextMap, done: Set<Seq<char>>, k: Seq<char>)
    requires
        !done.contains(k),
    ensures
        ({
            let cur = adopted(s, current, done);
            let end = if cur.pending.contains_key(k) || cur.identities.contains_key(k) {
                cur
            } else {
                confirmed(cur, k, current[k])
            };
            end == adopted(s, current, done.insert(k))
        }),
{
    let cur = adopted(s, current, done);
    let end = if cur.pending.contains_key(k) || cur.identities.contains_key(k) {
        cur
    } else {
        confirmed(cur, k, current[k])
    };
    let want = adopted(s, current, done.insert(k));
    assert(end.identities =~= want.identities);
    assert(end.pending =~= want.pending);
}

/// List the keys of `m` that are not kept.
fn list_unkept<V: Model>(m: &NameMap<V>, keep: &NameMap<String>, out: &mut Vec<String>)
    ensures
        crate::text::texts(final(out)@).to_set() == crate::text::texts(old(out)@).to_set().union(
            m@.dom().difference(keep@.dom()),
        ),
{
    let ghost head = crate::text::texts(out@).to_set();
    let ghost ks = ordered(m@.dom());
    let n: usize = m.len();
    let mut i: usize = 0;
    assert(head =~= head.union(ks.take(0).to_set().difference(keep@.dom())));
    while i < n
        invariant
            i <= n,
            n == ks.len(),
            ks == ordered(m@.dom()),
            m@.dom().finite(),
            crate::text::texts(out@).to_set() == head.union(
                ks.take(i as int).to_set().difference(keep@.dom()),
            ),
        decreases n - i,
    {
        let k = m.key_at(i);
        let ghost before = crate::text::texts(out@);
        proof {
            let t = ks.take(i as int);
            let t2 = ks.take(i + 1);
            assert(t2 =~= t.push(k@));
            lemma_push_set(t, k@);
        }
        if !keep.contains_key(k.as_str()) {
            out.push(k.clone());
            proof {
                assert(crate::text::texts(out@) =~= before.push(k@));
                lemma_push_set(before, k@);
            }
        }
        i = i + 1;
        assert(crate::text::texts(out@).to_set() =~= head.union(
            ks.take(i as int).to_set().difference(keep@.dom()),
        ));
    }
    proof {
        assert(ks.take(n as int) =~= ks);
        lemma_ordered(m@.dom());
    }
}

proof fn lemma_push_set(s: Seq<Seq<char>>, x: Seq<char>)
    ensures
        s.push(x).to_set() == s.to_set().insert(x),
{
    assert forall|y: Seq<char>| s.push(x).to_set().contains(y) == s.to_set().insert(x).contains(y) by {
        if s.contains(y) {
            assert(s.push(x)[s.index_of(y)] == y);
        }
        if y == x {
            assert(s.push(x)[s.len() as int] == y);
        }
        if s.push(x).contains(y) {
            let i = s.push(x).index_of(y);
            if i < s.len() {
                assert(s[i] == y);
            }
        }
    }
    assert(s.push(x).to_set() =~= s.to_set().insert(x));
}

impl StateFile {
    fn prune(&mut self, keep: &NameMap<String>)
        ensures
            final(self)@ == pruned(old(self)@, keep@.dom()),
    {
        let mut gone: Vec<String> = Vec::new();
        assert(crate::text::texts(gone@).to_set() =~= Set::<Seq<char>>::empty());
        list_unkept(&self.subscription_nodes, keep, &mut gone);
        list_unkept(&self.subscription_cache_slots, keep, &mut gone);
        list_unkept(&self.subscription_source_identities, keep, &mut gone);
        list_unkept(&self.pending_subscription_sources, keep, &mut gone);
        let ghost s = self@;
        let ghost all = crate::text::texts(gone@);
        let ghost want = Set::new(|p: Seq<char>| known(s, p) && !keep@.dom().contains(p));
        assert(all.to_set() =~= want);
        let mut i: usize = 0;
        proof {
            let none = all.take(0).to_set();
            assert(none =~= Set::<Seq<char>>::empty());
            let w = without(s, none);
            assert(w.slots =~= s.slots);
            assert(w.identities =~= s.identities);
            assert(w.pending =~= s.pending);
            assert(w.inactive =~= s.inactive);
        }
        while i < gone.len()
            invariant
                i <= gone@.len(),
                all == crate::text::texts(gone@),
                self@ == without(s, all.take(i as int).to_set()),
            decreases gone@.len() - i,
        {
            proof {
                assert(all[i as int] == gone@[i as int]@);
                assert(all.take(i + 1) =~= all.take(i as int).push(all[i as int]));
                lemma_push_set(all.take(i as int), all[i as int]);
                lemma_remove_one(s, all.take(i as int).to_set(), all[i as int]);
            }
            self.remove_subscription(gone[i].as_str());
            i = i + 1;
        }
        assert(all.take(gone@.len() as int) =~= all);
    }

    /// Reconcile persistent namespaces with a published catalog. Profiles
    /// that left are forgotten, changed sources become pending, and the
    /// freshly checked source is trusted.
    pub fn apply_subscription_catalog(
        &mut self,
        previous: &NameMap<String>,
        next: &NameMap<String>,
        freshly_trusted: Option<&str>,
    )
        ensures
            final(self)@ == catalog_applied(
                old(self)@,
                previous@,
                next@,
                opt_str(freshly_trusted),
            ),
    {
        let ghost s0 = self@;
        self.prune(next);
        let ghost s = self@;
        let ghost ks = ordered(next@.dom());
        let ghost fresh = opt_str(freshly_trusted);
        let n: usize = next.len();
        let mut i: usize = 0;
        proof {
            lemma_ordered(next@.dom());
            let none = ks.take(0).to_set();
            assert(none =~= Set::<Seq<char>>::empty());
            let u = updated(s, previous@, next@, fresh, none);
            assert(u.slots =~= s.slots);
            assert(u.identities =~= s.identities);
            assert(u.pending =~= s.pending);
            assert(u.inactive =~= s.inactive);
        }
        while i < n
            invariant
                i <= n,
                n == ks.len(),
                ks == ordered(next@.dom()),
                ks.no_duplicates(),
                fresh == opt_str(freshly_trusted),
                self@ == updated(s, previous@, next@, fresh, ks.take(i as int).to_set()),
            decreases n - i,
        {
            let name = next.key_at(i);
            let identity = next.value_at(i);
            proof {
                let t = ks.take(i as int);
                assert(ks.take(i + 1) =~= t.push(name@));
                lemma_push_set(t, name@);
                assert(!t.to_set().contains(name@)) by {
                    if t.contains(name@) {
                        assert(ks[t.index_of(name@)] == ks[i as int]);
                    }
                }
                lemma_update_one(s, previous@, next@, fresh, t.to_set(), name@);
            }
            let catalog_changed = match previous.get(name.as_str()) {
                Some(old_id) => !same(old_id.as_str(), identity.as_str()),
                None => true,
            };
            let persisted_mismatch = match self.subscription_source_identities.get(
                name.as_str(),
            ) {
                Some(stored) => !same(stored.as_str(), identity.as_str()),
                None => false,
            };
            let pending_mismatch = match self.pending_subscription_sources.get(name.as_str()) {
                Some(stored) => !same(stored.as_str(), identity.as_str()),
                None => false,
            };
            if catalog_changed || persisted_mismatch || pending_mismatch {
                self.invalidate_subscription_source(name.as_str(), identity.clone());
            }
            if let Some(f) = freshly_trusted {
                if same(f, name.as_str()) {
                    self.trust_subscription_source(name.as_str(), identity.clone());
                }
            }
            i = i + 1;
        }
        proof {
            assert(ks.take(n as int) =~= ks);
        }
    }

    /// Hold a loaded state against the configured sources. Sources that the
    /// state does not know are adopted; a recorded source that differs makes
    /// the profile pending; pending markers stay.
    pub fn reconcile_startup_sources(&mut self, current: &NameMap<String>)
        ensures
            final(self)@ == reconciled(old(self)@, current@),
    {
        self.apply_subscription_catalog(current, current, None);
        let ghost s = self@;
        let ghost ks = ordered(current@.dom());
        let n: usize = current.len();
        let mut i: usize = 0;
        proof {
            lemma_ordered(current@.dom());
            let none = ks.take(0).to_set();
            assert(none =~= Set::<Seq<char>>::empty());
            assert(adopted(s, current@, none).identities =~= s.identities);
        }
        while i < n
            invariant
                i <= n,
                n == ks.len(),
                ks == ordered(current@.dom()),
                ks.no_duplicates(),
                self@ == adopted(s, current@, ks.take(i as int).to_set()),
            decreases n - i,
        {
            let name = current.key_at(i);
            proof {
                let t = ks.take(i as int);
                assert(ks.take(i + 1) =~= t.push(name@));
                lemma_push_set(t, name@);
                assert(!t.to_set().contains(name@)) by {
                    if t.contains(name@) {
                        assert(ks[t.index_of(name@)] == ks[i as int]);
                    }
                }
                lemma_adopt_one(s, current@, t.to_set(), name@);
            }
            if !self.pending_subscription_sources.contains_key(name.as_str())
                && !self.subscription_source_identities.contains_key(name.as_str()) {
                self.trust_subscription_source(name.as_str(), current.value_at(i).clone());
            }
            i = i + 1;
        }
        proof {
            assert(ks.take(n as int) =~= ks);
        }
    }
}

// ---------------------------------------------------------------------------
// Laws of profile isolation and source trust
// ---------------------------------------------------------------------------

/// Activating a profile touches no other profile's history, and keeps one
/// copy of every history.
pub proof fn law_activation_isolates_histories(s: StateView, name: Seq<char>, other: Seq<char>)
    requires
        s.version == STATE_VERSION,
        s.one_copy(),
        other != name,
    ensures
        activated(s, name).stats_of(other) == s.stats_of(other),
        activated(s, name).one_copy(),
        activated(s, name).active == Some(name),
        activated(s, name).stats_of(name) == Some(
            match s.stats_of(name) {
                Some(m) => m,
                None => Map::empty(),
            },
        ),
{
}

/// Leaving a profile and coming back restores its statistics.
pub proof fn law_activation_round_trip(s: StateView, a: Seq<char>, b: Seq<char>)
    requires
        s.version == STATE_VERSION,
        s.one_copy(),
        s.active == Some(a),
        a != b,
    ensures
        activated(activated(s, b), a).nodes == s.nodes,
        activated(activated(s, b), a).active == s.active,
        activated(activated(s, b), a).stats_of(b) == Some(
            match s.stats_of(b) {
                Some(m) => m,
                None => Map::empty(),
            },
        ),
{
}

/// A changed source loses its statistics and its cache, and is not trusted
/// until a fresh check.
pub proof fn law_changed_source_is_quarantined(
    s: StateView,
    previous: TextMap,
    next: TextMap,
    fresh: Option<Seq<char>>,
    p: Seq<char>,
)
    requires
        s.one_copy(),
        next.contains_key(p),
        source_changed(s, previous, next, p),
        fresh != Some(p),
    ensures
        ({
            let t = catalog_applied(s, previous, next, fresh);
            &&& !t.slots.contains_key(p)
            &&& !t.identities.contains_key(p)
            &&& t.pending.contains_key(p) && t.pending[p] == next[p]
            &&& forall|id: Seq<char>| !t.trusts(p, id)
            &&& t.stats_of(p) is None || t.stats_of(p) == Some(Map::<Seq<char>, NodeStatsView>::empty())
        }),
{
    let r = pruned(s, next.dom());
    assert(source_changed(r, previous, next, p));
}

/// A freshly checked source is trusted, and a changed one comes without the
/// old statistics.
pub proof fn law_fresh_source_is_trusted(
    s: StateView,
    previous: TextMap,
    next: TextMap,
    p: Seq<char>,
)
    requires
        s.one_copy(),
        next.contains_key(p),
    ensures
        catalog_applied(s, previous, next, Some(p)).trusts(p, next[p]),
        source_changed(s, previous, next, p) ==> ({
            let t = catalog_applied(s, previous, next, Some(p));
            t.stats_of(p) is None || t.stats_of(p) == Some(Map::<Seq<char>, NodeStatsView>::empty())
        }),
{
    let r = pruned(s, next.dom());
    assert(source_changed(r, previous, next, p) == source_changed(s, previous, next, p));
}

/// A profile whose source did not change keeps everything.
pub proof fn law_unchanged_source_is_kept(
    s: StateView,
    previous: TextMap,
    next: TextMap,
    fresh: Option<Seq<char>>,
    p: Seq<char>,
)
    requires
        next.contains_key(p),
        !source_changed(s, previous, next, p),
    ensures
        ({
            let t = catalog_applied(s, previous, next, fresh);
            &&& s.slots.contains_key(p) ==> t.slots.contains_key(p) && t.slots[p] == s.slots[p]
            &&& s.active == Some(p) ==> t.active == Some(p) && t.nodes == s.nodes
            &&& s.active != Some(p) && s.inactive.contains_key(p) ==> t.stats_of(p) == s.stats_of(p)
            &&& s.trusts(p, next[p]) ==> t.trusts(p, next[p])
        }),
{
    let r = pruned(s, next.dom());
    assert(!source_changed(r, previous, next, p));
}

/// Nothing of a profile that left the catalog survives in the namespaces
/// that knew it.
pub proof fn law_removed_profile_is_forgotten(
    s: StateView,
    previous: TextMap,
    next: TextMap,
    fresh: Option<Seq<char>>,
    p: Seq<char>,
)
    requires
        !next.contains_key(p),
        fresh is Some ==> next.contains_key(fresh->0),
    ensures
        !known(catalog_applied(s, previous, next, fresh), p),
{
}

/// Startup never trusts a source that differs from the recorded one, and
/// never clears a pending marker.
pub proof fn law_startup_keeps_quarantine(s: StateView, current: TextMap, p: Seq<char>)
    requires
        current.contains_key(p),
        s.pending.contains_key(p) || (s.identities.contains_key(p) && s.identities[p]
            != current[p]),
    ensures
        reconciled(s, current).pending.contains_key(p),
        reconciled(s, current).pending[p] == current[p],
        forall|id: Seq<char>| !reconciled(s, current).trusts(p, id),
        s.identities.contains_key(p) && s.identities[p] != current[p] ==> !reconciled(
            s,
            current,
        ).slots.contains_key(p),
{
    let r = pruned(s, current.dom());
    assert(source_changed(r, current, current, p) == source_changed(s, current, current, p));
}

// ---------------------------------------------------------------------------
// Updates of single entries
// ---------------------------------------------------------------------------

impl StateFile {
    /// Routes by class.
    pub fn routes(&self) -> (r: &NameMap<ClassState>)
        ensures
            r@ == self@.classes,
    {
        &self.classes
    }

    /// Statistics of the active profile by node.
    pub fn stats(&self) -> (r: &NameMap<NodeStats>)
        ensures
            r@ == self@.nodes,
    {
        &self.nodes
    }

    pub fn active(&self) -> (r: Option<&str>)
        ensures
            opt_str(r) == self@.active,
    {
        crate::text::borrow_opt(&self.active_subscription)
    }

    /// Confirmed cache slots by profile.
    pub fn slots(&self) -> (r: &NameMap<String>)
        ensures
            r@ == self@.slots,
    {
        &self.subscription_cache_slots
    }

    /// Last verdicts by site and node.
    pub fn verdicts(&self) -> (r: &NameMap<NameMap<SiteVerdict>>)
        ensures
            r@ == self@.verdicts,
    {
        &self.site_verdicts
    }

    pub fn set_class(&mut self, class: &str, route: ClassState)
        ensures
            final(self)@ == (StateView {
                classes: old(self)@.classes.insert(class@, route@),
                ..old(self)@
            }),
    {
        self.classes.insert(class.to_string(), route);
    }

    pub fn set_stats(&mut self, node: &str, stats: NodeStats)
        ensures
            final(self)@ == (StateView {
                nodes: old(self)@.nodes.insert(node@, stats@),
                ..old(self)@
            }),
    {
        self.nodes.insert(node.to_string(), stats);
    }

    pub fn set_slot(&mut self, profile: &str, slot: &str)
        ensures
            final(self)@ == (StateView {
                slots: old(self)@.slots.insert(profile@, slot@),
                ..old(self)@
            }),
    {
        self.subscription_cache_slots.insert(profile.to_string(), slot.to_string());
    }

    pub fn set_updated(&mut self, now_unix: i64)
        ensures
            final(self)@ == (StateView { updated_unix: now_unix, ..old(self)@ }),
    {
        self.updated_unix = now_unix;
    }

    /// Record a verdict, and make room for the site where it is new.
    pub fn set_verdict(&mut self, site: &str, node: &str, verdict: SiteVerdict)
        ensures
            final(self)@ == (StateView {
                verdicts: verdict_recorded(old(self)@.verdicts, site@, node@, verdict@),
                ..old(self)@
            }),
    {
        let mut by_node = match self.site_verdicts.get(site) {
            Some(m) => m.dup(),
            None => NameMap::new(),
        };
        by_node.insert(node.to_string(), verdict);
        self.site_verdicts.insert(site.to_string(), by_node);
    }
}

pub type VerdictMap = Map<Seq<char>, Map<Seq<char>, SiteVerdictView>>;

/// The verdicts of a site with one more.
pub open spec fn verdict_recorded(
    all: VerdictMap,
    site: Seq<char>,
    node: Seq<char>,
    verdict: SiteVerdictView,
) -> VerdictMap {
    let by_node = if all.contains_key(site) {
        all[site]
    } else {
        Map::empty()
    };
    all.insert(site, by_node.insert(node, verdict))
}

// ---------------------------------------------------------------------------
// The documents on disk
// ---------------------------------------------------------------------------

/// A failure to load or save the state.
#[derive(Debug, PartialEq, Eq)]
pub enum StateFault<T> {
    /// The file system refused.
    Io { path: T, detail: T },
    /// The document is not the JSON that it has to be.
    Json { path: T, detail: T },
    UnsupportedVersion { path: T, version: u32 },
    NeedsMigration,
    UnboundNodes,
    MissingActiveSubscription { path: T, active: T },
    InvalidSubscriptionCacheSlot { path: T, profile: T, slot: T },
}

pub type StateError = StateFault<String>;

pub type StateFaultView = StateFault<Seq<char>>;

impl View for StateFault<String> {
    type V = StateFault<Seq<char>>;

    open spec fn view(&self) -> StateFault<Seq<char>> {
        match self {
            StateFault::Io { path, detail } => StateFault::Io { path: path@, detail: detail@ },
            StateFault::Json { path, detail } => StateFault::Json { path: path@, detail: detail@ },
            StateFault::UnsupportedVersion { path, version } => StateFault::UnsupportedVersion {
                path: path@,
                version: *version,
            },
            StateFault::NeedsMigration => StateFault::NeedsMigration,
            StateFault::UnboundNodes => StateFault::UnboundNodes,
            StateFault::MissingActiveSubscription { path, active } => {
                StateFault::MissingActiveSubscription { path: path@, active: active@ }
            },
            StateFault::InvalidSubscriptionCacheSlot { path, profile, slot } => {
                StateFault::InvalidSubscriptionCacheSlot {
                    path: path@,
                    profile: profile@,
                    slot: slot@,
                }
            },
        }
    }
}

pub open spec fn state_fault_text(f: StateFaultView) -> Seq<char> {
    match f {
        StateFault::Io { path, detail } => "failed to read state file "@ + path + ": "@ + detail,
        StateFault::Json { path, detail } => "failed to parse state file "@ + path
            + " (delete it and restart to rebuild): "@ + detail,
        StateFault::UnsupportedVersion { path, version } => "unsupported state version "@
            + decimal(version as nat) + " in "@ + path
            + " (this build supports versions 1 and 2)"@,
        StateFault::NeedsMigration => "version-1 state must be migrated for the selected subscription before saving"@,
        StateFault::UnboundNodes => "node statistics have no active subscription; activate a subscription before saving"@,
        StateFault::MissingActiveSubscription { path, active } => "state version 2 names active subscription "@
            + debug_quoted(active) + ", but its statistics entry is missing in "@ + path,
        StateFault::InvalidSubscriptionCacheSlot { path, profile, slot } => "state version 2 contains invalid subscription cache slot "@
            + debug_quoted(slot) + " for profile "@ + debug_quoted(profile) + " in "@ + path,
    }
}

impl StateFault<String> {
    /// The failure in words.
    pub fn message(&self) -> (r: String)
        ensures
            r@ == state_fault_text(self@),
    {
        let mut s = String::new();
        match self {
            StateFault::Io { path, detail } => {
                say(&mut s, "failed to read state file ");
                say(&mut s, path.as_str());
                say(&mut s, ": ");
                say(&mut s, detail.as_str());
            },
            StateFault::Json { path, detail } => {
                say(&mut s, "failed to parse state file ");
                say(&mut s, path.as_str());
                say(&mut s, " (delete it and restart to rebuild): ");
                say(&mut s, detail.as_str());
            },
            StateFault::UnsupportedVersion { path, version } => {
                say(&mut s, "unsupported state version ");
                let n = decimal_text(*version as u64);
                say(&mut s, n.as_str());
                say(&mut s, " in ");
                say(&mut s, path.as_str());
                say(&mut s, " (this build supports versions 1 and 2)");
            },
            StateFault::NeedsMigration => {
                say(
                    &mut s,
                    "version-1 state must be migrated for the selected subscription before saving",
                );
            },
            StateFault::UnboundNodes => {
                say(
                    &mut s,
                    "node statistics have no active subscription; activate a subscription before saving",
                );
            },
            StateFault::MissingActiveSubscription { path, active } => {
                say(&mut s, "state version 2 names active subscription ");
                say_quoted(&mut s, active.as_str());
                say(&mut s, ", but its statistics entry is missing in ");
                say(&mut s, path.as_str());
            },
            StateFault::InvalidSubscriptionCacheSlot { path, profile, slot } => {
                say(&mut s, "state version 2 contains invalid subscription cache slot ");
                say_quoted(&mut s, slot.as_str());
                say(&mut s, " for profile ");
                say_quoted(&mut s, profile.as_str());
                say(&mut s, " in ");
                say(&mut s, path.as_str());
            },
        }
        assert(s@ =~= state_fault_text(self@));
        s
    }
}

/// The flat document of version 1.
pub struct StateFileV1 {
    pub version: u32,
    pub updated_unix: i64,
    pub classes: NameMap<ClassState>,
    pub nodes: NameMap<NodeStats>,
}

/// The document of version 2. Its statistics are those of every profile, the
/// active one among them.
pub struct StateFileV2 {
    pub version: u32,
    pub updated_unix: i64,
    pub active_subscription: Option<String>,
    pub classes: NameMap<ClassState>,
    pub subscription_nodes: NameMap<NameMap<NodeStats>>,
    pub subscription_cache_slots: NameMap<String>,
    pub subscription_source_identities: NameMap<String>,
    pub pending_subscription_sources: NameMap<String>,
    pub site_verdicts: NameMap<NameMap<SiteVerdict>>,
}

#[verifier::ext_equal]
pub struct DocumentView {
    pub version: u32,
    pub updated_unix: i64,
    pub active: Option<Seq<char>>,
    pub classes: Map<Seq<char>, ClassStateView>,
    pub profiles: Map<Seq<char>, StatsMap>,
    pub slots: TextMap,
    pub identities: TextMap,
    pub pending: TextMap,
    pub verdicts: VerdictMap,
}

impl View for StateFileV2 {
    type V = DocumentView;

    open spec fn view(&self) -> DocumentView {
        DocumentView {
            version: self.version,
            updated_unix: self.updated_unix,
            active: opt_text(self.active_subscription),
            classes: self.classes@,
            profiles: self.subscription_nodes@,
            slots: self.subscription_cache_slots@,
            identities: self.subscription_source_identities@,
            pending: self.pending_subscription_sources@,
            verdicts: self.site_verdicts@,
        }
    }
}

/// What was found at the state path.
pub enum StateDocument {
    Missing,
    Unreadable(String),
    Malformed(String),
    Version1(StateFileV1),
    Version2(StateFileV2),
    /// A document with another version number.
    Other(u32),
}

/// Which document a version number announces.
#[derive(Debug, Clone, Copy, PartialEq, Eq, Structural)]
pub enum DocumentShape {
    Flat,
    Profiles,
    Unsupported,
}

pub open spec fn shape_of(version: u32) -> DocumentShape {
    if version == LEGACY_STATE_VERSION {
        DocumentShape::Flat
    } else if version == STATE_VERSION {
        DocumentShape::Profiles
    } else {
        DocumentShape::Unsupported
    }
}

pub fn document_shape(version: u32) -> (r: DocumentShape)
    ensures
        r == shape_of(version),
{
    if version == LEGACY_STATE_VERSION {
        DocumentShape::Flat
    } else if version == STATE_VERSION {
        DocumentShape::Profiles
    } else {
        DocumentShape::Unsupported
    }
}

pub open spec fn slot_name(s: Seq<char>) -> bool {
    s == CACHE_SLOT_A@ || s == CACHE_SLOT_B@
}

/// The state that a version-2 document holds.
pub open spec fn restored(path: Seq<char>, d: DocumentView) -> Result<StateView, StateFaultView> {
    let ks = ordered(d.slots.dom());
    let i = first_index(ks.len(), |i: int| !slot_name(d.slots[ks[i]])) as int;
    let base = StateView {
        version: d.version,
        updated_unix: d.updated_unix,
        active: d.active,
        classes: d.classes,
        nodes: Map::empty(),
        slots: d.slots,
        identities: d.identities,
        pending: d.pending,
        verdicts: d.verdicts,
        inactive: d.profiles,
    };
    if i < ks.len() {
        Err(
            StateFault::InvalidSubscriptionCacheSlot {
                path,
                profile: ks[i],
                slot: d.slots[ks[i]],
            },
        )
    } else {
        match d.active {
            None => Ok(base),
            Some(a) => if d.profiles.contains_key(a) {
                Ok(StateView { nodes: d.profiles[a], inactive: d.profiles.remove(a), ..base })
            } else {
                Err(StateFault::MissingActiveSubscription { path, active: a })
            },
        }
    }
}

/// The state that a version-1 document holds: its statistics belong to no
/// profile yet.
pub open spec fn flat_state(d: StateFileV1) -> StateView {
    StateView {
        version: d.version,
        updated_unix: d.updated_unix,
        classes: d.classes@,
        nodes: d.nodes@,
        ..empty_state()
    }
}

/// What loading gives for each document.
pub open spec fn loaded(path: Seq<char>, doc: StateDocument) -> Result<
    Option<StateView>,
    StateFaultView,
> {
    match doc {
        StateDocument::Missing => Ok(None),
        StateDocument::Unreadable(detail) => Err(StateFault::Io { path, detail: detail@ }),
        StateDocument::Malformed(detail) => Err(StateFault::Json { path, detail: detail@ }),
        StateDocument::Version1(d) => Ok(Some(flat_state(d))),
        StateDocument::Version2(d) => match restored(path, d@) {
            Ok(s) => Ok(Some(s)),
            Err(e) => Err(e),
        },
        StateDocument::Other(version) => Err(StateFault::UnsupportedVersion { path, version }),
    }
}

pub open spec fn loaded_view(r: Result<Option<StateFile>, StateError>) -> Result<
    Option<StateView>,
    StateFaultView,
> {
    match r {
        Ok(Some(s)) => Ok(Some(s@)),
        Ok(None) => Ok(None),
        Err(e) => Err(e@),
    }
}

/// Turn what was found at the state path into the state. A missing file is no
/// state; a broken one is an error, so that the caller decides what to do.
pub fn load(path: &str, doc: StateDocument) -> (r: Result<Option<StateFile>, StateError>)
    ensures
        loaded_view(r) == loaded(path@, doc),
{
    match doc {
        StateDocument::Missing => Ok(None),
        StateDocument::Unreadable(detail) => Err(
            StateFault::Io { path: path.to_string(), detail },
        ),
        StateDocument::Malformed(detail) => Err(
            StateFault::Json { path: path.to_string(), detail },
        ),
        StateDocument::Version1(d) => {
            let s = StateFile {
                version: d.version,
                updated_unix: d.updated_unix,
                active_subscription: None,
                classes: d.classes,
                nodes: d.nodes,
                subscription_cache_slots: NameMap::new(),
                subscription_source_identities: NameMap::new(),
                pending_subscription_sources: NameMap::new(),
                site_verdicts: NameMap::new(),
                subscription_nodes: NameMap::new(),
            };
            assert(s@ =~= flat_state(d));
            Ok(Some(s))
        },
        StateDocument::Version2(d) => {
            match restore(path, d) {
                Ok(s) => Ok(Some(s)),
                Err(e) => Err(e),
            }
        },
        StateDocument::Other(version) => Err(
            StateFault::UnsupportedVersion { path: path.to_string(), version },
        ),
    }
}

fn restore(path: &str, document: StateFileV2) -> (r: Result<StateFile, StateError>)
    ensures
        match r {
            Ok(s) => restored(path@, document@) == Ok::<StateView, StateFaultView>(s@),
            Err(e) => restored(path@, document@) == Err::<StateView, StateFaultView>(e@),
        },
{
    let ghost d = document@;
    let mut doc = document;
    let ghost ks = ordered(d.slots.dom());
    let ghost bad = |i: int| !slot_name(d.slots[ks[i]]);
    let n: usize = doc.subscription_cache_slots.len();
    let mut i: usize = 0;
    while i < n
        invariant
            i <= n,
            n == ks.len(),
            d == doc@,
            d == document@,
            ks == ordered(d.slots.dom()),
            bad == (|i: int| !slot_name(d.slots[ks[i]])),
            forall|j: int| 0 <= j < i ==> !#[trigger] bad(j),
        decreases n - i,
    {
        let slot = doc.subscription_cache_slots.value_at(i);
        if !same(slot.as_str(), CACHE_SLOT_A) && !same(slot.as_str(), CACHE_SLOT_B) {
            proof {
                assert(bad(i as int));
                lemma_first_is(ks.len(), bad, i as nat);
            }
            return Err(
                StateFault::InvalidSubscriptionCacheSlot {
                    path: path.to_string(),
                    profile: doc.subscription_cache_slots.key_at(i).clone(),
                    slot: slot.clone(),
                },
            );
        }
        assert(!bad(i as int));
        i = i + 1;
    }
    proof {
        lemma_first_is(ks.len(), bad, ks.len());
    }
    let nodes = match &doc.active_subscription {
        Some(active) => {
            match doc.subscription_nodes.get(active.as_str()) {
                Some(m) => m.dup(),
                None => {
                    return Err(
                        StateFault::MissingActiveSubscription {
                            path: path.to_string(),
                            active: active.clone(),
                        },
                    );
                },
            }
        },
        None => NameMap::new(),
    };
    if let Some(active) = &doc.active_subscription {
        doc.subscription_nodes.remove(active.as_str());
    }
    let s = StateFile {
        version: doc.version,
        updated_unix: doc.updated_unix,
        active_subscription: doc.active_subscription,
        classes: doc.classes,
        nodes,
        subscription_cache_slots: doc.subscription_cache_slots,
        subscription_source_identities: doc.subscription_source_identities,
        pending_subscription_sources: doc.pending_subscription_sources,
        site_verdicts: doc.site_verdicts,
        subscription_nodes: doc.subscription_nodes,
    };
    Ok(s)
}

/// The document that is written for a state.
pub open spec fn persisted(s: StateView) -> Result<DocumentView, StateFaultView> {
    if s.version != STATE_VERSION {
        Err(StateFault::NeedsMigration)
    } else if s.active is None && s.nodes != Map::<Seq<char>, NodeStatsView>::empty() {
        Err(StateFault::UnboundNodes)
    } else {
        Ok(
            DocumentView {
                version: STATE_VERSION,
                updated_unix: s.updated_unix,
                active: s.active,
                classes: s.classes,
                profiles: match s.active {
                    Some(a) => s.inactive.insert(a, s.nodes),
                    None => s.inactive,
                },
                slots: s.slots,
                identities: s.identities,
                pending: s.pending,
                verdicts: s.verdicts,
            },
        )
    }
}

impl StateFile {
    /// The profile map on disk, which holds the active statistics too.
    fn persisted_subscription_nodes(&self) -> (r: Result<
        NameMap<NameMap<NodeStats>>,
        StateError,
    >)
        ensures
            match r {
                Ok(m) => persisted(self@) is Ok && m@ == persisted(self@)->Ok_0.profiles,
                Err(e) => persisted(self@) == Err::<DocumentView, StateFaultView>(e@),
            },
    {
        if self.version != STATE_VERSION {
            return Err(StateFault::NeedsMigration);
        }
        let mut all = self.subscription_nodes.dup();
        match &self.active_subscription {
            Some(active) => {
                all.insert(active.clone(), self.nodes.dup());
            },
            None => {
                if !self.nodes.is_empty() {
                    return Err(StateFault::UnboundNodes);
                }
            },
        }
        Ok(all)
    }

    /// The version-2 document of this state.
    pub fn to_document(&self) -> (r: Result<StateFileV2, StateError>)
        ensures
            match r {
                Ok(d) => persisted(self@) == Ok::<DocumentView, StateFaultView>(d@),
                Err(e) => persisted(self@) == Err::<DocumentView, StateFaultView>(e@),
            },
    {
        let profiles = match self.persisted_subscription_nodes() {
            Ok(m) => m,
            Err(e) => return Err(e),
        };
        Ok(
            StateFileV2 {
                version: STATE_VERSION,
                updated_unix: self.updated_unix,
                active_subscription: copy_opt(&self.active_subscription),
                classes: self.classes.dup(),
                subscription_nodes: profiles,
                subscription_cache_slots: self.subscription_cache_slots.dup(),
                subscription_source_identities: self.subscription_source_identities.dup(),
                pending_subscription_sources: self.pending_subscription_sources.dup(),
                site_verdicts: self.site_verdicts.dup(),
            },
        )
    }
}

/// Loading what was saved gives the state back.
pub proof fn law_load_after_save(path: Seq<char>, s: StateView)
    requires
        s.one_copy(),
        persisted(s) is Ok,
        s.slots.dom().finite(),
        forall|p: Seq<char>| #[trigger] s.slots.contains_key(p) ==> slot_name(s.slots[p]),
    ensures
        restored(path, persisted(s)->Ok_0) == Ok::<StateView, StateFaultView>(s),
{
    let d = persisted(s)->Ok_0;
    let ks = ordered(d.slots.dom());
    let bad = |i: int| !slot_name(d.slots[ks[i]]);
    lemma_ordered(d.slots.dom());
    assert forall|j: int| 0 <= j < ks.len() implies !#[trigger] bad(j) by {
        assert(ks.to_set().contains(ks[j]));
        assert(s.slots.contains_key(ks[j]));
    }
    lemma_first_is(ks.len(), bad, ks.len());
    match s.active {
        Some(a) => {
            assert(d.profiles.remove(a) =~= s.inactive);
        },
        None => {},
    }
}

/// A state that was loaded can be saved, holds the active statistics once,
/// and gives the same document again.
pub proof fn law_save_after_load(path: Seq<char>, d: DocumentView)
    requires
        d.version == STATE_VERSION,
        restored(path, d) is Ok,
    ensures
        restored(path, d)->Ok_0.one_copy(),
        persisted(restored(path, d)->Ok_0) == Ok::<DocumentView, StateFaultView>(d),
{
    let s = restored(path, d)->Ok_0;
    match d.active {
        Some(a) => {
            assert(d.profiles.remove(a).insert(a, d.profiles[a]) =~= d.profiles);
        },
        None => {},
    }
}

/// A version-1 state cannot be saved before a profile is selected, and keeps
/// its statistics when one is.
pub proof fn law_migration_keeps_statistics(d: StateFileV1, name: Seq<char>)
    requires
        d.version == LEGACY_STATE_VERSION,
    ensures
        persisted(flat_state(d)) == Err::<DocumentView, StateFaultView>(StateFault::NeedsMigration),
        persisted(activated(flat_state(d), name)) is Ok,
        activated(flat_state(d), name).stats_of(name) == Some(d.nodes@),
{
}

// ---------------------------------------------------------------------------
// Atomic replacement
// ---------------------------------------------------------------------------

/// Outcome of an atomic replacement. After `CommittedNotDurable` the target
/// already names the new state; only its survival of a crash is uncertain.
#[derive(Debug, Clone, Copy, PartialEq, Eq, Structural)]
pub enum SaveOutcome {
    Durable,
    CommittedNotDurable,
}

/// The steps of an atomic replacement, in this order.
#[derive(Debug, Clone, Copy, PartialEq, Eq, Structural)]
pub enum SaveStep {
    CreateParent,
    OpenTemporary,
    /// Give the temporary file mode 0600.
    ProtectTemporary,
    WriteTemporary,
    SyncTemporary,
    Rename,
    SyncParent,
}

/// What follows a step.
#[derive(Debug, PartialEq, Eq)]
pub enum SaveProgress<E> {
    Go(SaveStep),
    Finished(SaveOutcome),
    Failed(E),
}

/// The directory that holds the state file.
pub open spec fn save_parent_of(path: Seq<char>) -> Seq<char> {
    match parent_of(path) {
        Some(p) => p,
        None => "."@,
    }
}

/// The temporary file beside the state file.
pub open spec fn save_temporary_of(path: Seq<char>) -> Seq<char> {
    with_extension_of(path, "json.tmp"@)
}

pub fn save_parent(path: &str) -> (r: String)
    ensures
        r@ == save_parent_of(path@),
{
    match parent(path) {
        Some(p) => p,
        None => ".".to_string(),
    }
}

pub fn save_temporary(path: &str) -> (r: String)
    ensures
        r@ == save_temporary_of(path@),
{
    with_extension(path, "json.tmp")
}

/// Up to the rename a failure leaves the old state in place and is an error;
/// after it the new state stands.
pub open spec fn save_progress(
    path: Seq<char>,
    step: SaveStep,
    failure: Option<Seq<char>>,
) -> SaveProgress<StateFaultView> {
    match failure {
        None => match step {
            SaveStep::CreateParent => SaveProgress::Go(SaveStep::OpenTemporary),
            SaveStep::OpenTemporary => SaveProgress::Go(SaveStep::ProtectTemporary),
            SaveStep::ProtectTemporary => SaveProgress::Go(SaveStep::WriteTemporary),
            SaveStep::WriteTemporary => SaveProgress::Go(SaveStep::SyncTemporary),
            SaveStep::SyncTemporary => SaveProgress::Go(SaveStep::Rename),
            SaveStep::Rename => SaveProgress::Go(SaveStep::SyncParent),
            SaveStep::SyncParent => SaveProgress::Finished(SaveOutcome::Durable),
        },
        Some(detail) => match step {
            SaveStep::CreateParent => SaveProgress::Failed(
                StateFault::Io { path: save_parent_of(path), detail },
            ),
            SaveStep::Rename => SaveProgress::Failed(StateFault::Io { path, detail }),
            SaveStep::SyncParent => SaveProgress::Finished(SaveOutcome::CommittedNotDurable),
            _ => SaveProgress::Failed(StateFault::Io { path: save_temporary_of(path), detail }),
        },
    }
}

pub open spec fn progress_view(p: SaveProgress<StateError>) -> SaveProgress<StateFaultView> {
    match p {
        SaveProgress::Go(s) => SaveProgress::Go(s),
        SaveProgress::Finished(o) => SaveProgress::Finished(o),
        SaveProgress::Failed(e) => SaveProgress::Failed(e@),
    }
}

/// Decide what follows a step of the replacement, given how it went.
pub fn save_next(path: &str, step: SaveStep, failure: Option<String>) -> (r: SaveProgress<
    StateError,
>)
    ensures
        progress_view(r) == save_progress(path@, step, opt_text(failure)),
{
    match failure {
        None => match step {
            SaveStep::CreateParent => SaveProgress::Go(SaveStep::OpenTemporary),
            SaveStep::OpenTemporary => SaveProgress::Go(SaveStep::ProtectTemporary),
            SaveStep::ProtectTemporary => SaveProgress::Go(SaveStep::WriteTemporary),
            SaveStep::WriteTemporary => SaveProgress::Go(SaveStep::SyncTemporary),
            SaveStep::SyncTemporary => SaveProgress::Go(SaveStep::Rename),
            SaveStep::Rename => SaveProgress::Go(SaveStep::SyncParent),
            SaveStep::SyncParent => SaveProgress::Finished(SaveOutcome::Durable),
        },
        Some(detail) => match step {
            SaveStep::CreateParent => SaveProgress::Failed(
                StateFault::Io { path: save_parent(path), detail },
            ),
            SaveStep::Rename => SaveProgress::Failed(
                StateFault::Io { path: path.to_string(), detail },
            ),
            SaveStep::SyncParent => SaveProgress::Finished(SaveOutcome::CommittedNotDurable),
            _ => SaveProgress::Failed(StateFault::Io { path: save_temporary(path), detail }),
        },
    }
}

/// Seconds since the epoch for a reading of the clock; a clock before the
/// epoch counts as the epoch.
pub fn now_unix(since_epoch_secs: Option<u64>) -> (r: i64)
    ensures
        r == match since_epoch_secs {
            Some(s) => s as i64,
            None => 0i64,
        },
{
    match since_epoch_secs {
        Some(s) => s as i64,
        None => 0,
    }
}

// ---------------------------------------------------------------------------
// What changes, and what stays
// ---------------------------------------------------------------------------

/// Everything that is recorded of a profile is the same in both states.
pub open spec fn same_profile(a: StateView, b: StateView, p: Seq<char>) -> bool {
    &&& a.stats_of(p) == b.stats_of(p)
    &&& a.slots.contains_key(p) == b.slots.contains_key(p)
    &&& a.slots.contains_key(p) ==> a.slots[p] == b.slots[p]
    &&& a.identities.contains_key(p) == b.identities.contains_key(p)
    &&& a.identities.contains_key(p) ==> a.identities[p] == b.identities[p]
    &&& a.pending.contains_key(p) == b.pending.contains_key(p)
    &&& a.pending.contains_key(p) ==> a.pending[p] == b.pending[p]
}

/// The parts of a state that belong to no profile.
pub open spec fn same_rest(a: StateView, b: StateView) -> bool {
    a.version == b.version && a.updated_unix == b.updated_unix && a.classes == b.classes
        && a.verdicts == b.verdicts
}

/// Removing a profile forgets all that is recorded of it, and nothing else.
pub proof fn law_removal_forgets_one_profile(s: StateView, p: Seq<char>, other: Seq<char>)
    requires
        other != p,
    ensures
        ({
            let t = removed(s, p);
            &&& t.stats_of(p) is None && !t.slots.contains_key(p) && !t.identities.contains_key(p)
                && !t.pending.contains_key(p)
            &&& t.active != Some(p)
            &&& s.active != Some(p) ==> t.active == s.active
            &&& same_profile(t, s, other)
            &&& same_rest(t, s)
        }),
{
}

/// A source that is no longer valid loses its history, its slot and its
/// trust, under any identity, until it is trusted anew; then it is trusted
/// under that identity alone, still without history or slot. Other profiles
/// are untouched throughout.
pub proof fn law_invalid_source_starts_over(
    s: StateView,
    p: Seq<char>,
    identity: Seq<char>,
    again: Seq<char>,
    other: Seq<char>,
    id: Seq<char>,
)
    requires
        other != p,
    ensures
        ({
            let t = invalidated(s, p, identity);
            let u = confirmed(t, p, again);
            &&& !t.trusts(p, id)
            &&& t.pending.contains_key(p) && t.pending[p] == identity
            &&& !t.slots.contains_key(p) && !u.slots.contains_key(p)
            &&& t.stats_of(p) is None || t.stats_of(p) == Some(
                Map::<Seq<char>, NodeStatsView>::empty(),
            )
            &&& u.stats_of(p) == t.stats_of(p)
            &&& u.trusts(p, id) <==> id == again
            &&& !u.pending.contains_key(p)
            &&& t.active == s.active && u.active == s.active
            &&& same_profile(t, s, other) && same_profile(u, s, other)
            &&& same_rest(t, s) && same_rest(u, s)
        }),
{
}

/// Trusting a source changes nothing but the trust.
pub proof fn law_trust_changes_nothing_else(
    s: StateView,
    p: Seq<char>,
    identity: Seq<char>,
    other: Seq<char>,
    id: Seq<char>,
)
    requires
        other != p,
    ensures
        confirmed(s, p, identity).trusts(p, id) <==> id == identity,
        confirmed(s, p, identity).stats_of(p) == s.stats_of(p),
        confirmed(s, p, identity).slots == s.slots,
        confirmed(s, p, identity).active == s.active,
        same_profile(confirmed(s, p, identity), s, other),
        same_rest(confirmed(s, p, identity), s),
{
}

/// A change of the catalog touches no profile that stays in it with the source
/// it had, and none of the routes.
pub proof fn law_catalog_change_spares_the_unchanged(
    s: StateView,
    previous: TextMap,
    next: TextMap,
    fresh: Option<Seq<char>>,
    p: Seq<char>,
)
    requires
        next.contains_key(p),
        previous.contains_key(p) && previous[p] == next[p],
        s.identities.contains_key(p) ==> s.identities[p] == next[p],
        s.pending.contains_key(p) ==> s.pending[p] == next[p],
        fresh != Some(p),
    ensures
        same_profile(catalog_applied(s, previous, next, fresh), s, p),
        same_rest(catalog_applied(s, previous, next, fresh), s),
        s.active == Some(p) ==> catalog_applied(s, previous, next, fresh).active == Some(p),
{
    let t = catalog_applied(s, previous, next, fresh);
    let gone = Set::new(|q: Seq<char>| known(s, q) && !next.dom().contains(q));
    assert(!gone.contains(p));
}

/// At startup a source that nothing is known of is taken on trust as it is
/// now; one that is known to be as it is now keeps its trust and its slot.
pub proof fn law_startup_adopts_what_is_unclaimed(s: StateView, current: TextMap, p: Seq<char>)
    requires
        current.contains_key(p),
        !s.pending.contains_key(p),
        s.identities.contains_key(p) ==> s.identities[p] == current[p],
    ensures
        reconciled(s, current).trusts(p, current[p]),
        reconciled(s, current).slots.contains_key(p) == s.slots.contains_key(p),
        s.slots.contains_key(p) ==> reconciled(s, current).slots[p] == s.slots[p],
        reconciled(s, current).stats_of(p) == s.stats_of(p),
        same_rest(reconciled(s, current), s),
{
    let t = catalog_applied(s, current, current, None);
    let gone = Set::new(|q: Seq<char>| known(s, q) && !current.dom().contains(q));
    assert(!gone.contains(p));
}

/// A verdict is recorded for one site and one node; every other stays.
pub proof fn law_verdicts_are_per_site_and_node(
    all: VerdictMap,
    site: Seq<char>,
    node: Seq<char>,
    verdict: SiteVerdictView,
    s: Seq<char>,
    n: Seq<char>,
)
    requires
        s != site || n != node,
    ensures
        ({
            let t = verdict_recorded(all, site, node, verdict);
            &&& t.contains_key(site) && t[site].contains_key(node) && t[site][node] == verdict
            &&& (t.contains_key(s) && t[s].contains_key(n)) == (all.contains_key(s)
                && all[s].contains_key(n))
            &&& all.contains_key(s) && all[s].contains_key(n) ==> t[s][n] == all[s][n]
        }),
{
}

/// Only a state of version 2 is written, and as version 2; only documents of
/// versions 1 and 2 are read, each in its shape. Statistics without an active
/// profile are not written.
pub proof fn law_document_versions(s: StateView, version: u32)
    ensures
        persisted(s) is Ok ==> s.version == 2 && (persisted(s)->Ok_0).version == 2,
        s.version != 2 ==> persisted(s) is Err,
        s.active is None && s.nodes.len() > 0 && s.nodes.dom().finite() ==> persisted(s) is Err,
        shape_of(version) is Flat <==> version == 1,
        shape_of(version) is Profiles <==> version == 2,
        empty_state().version == 2,
{
    if s.active is None && s.nodes.len() > 0 && s.nodes.dom().finite() {
        assert(s.nodes != Map::<Seq<char>, NodeStatsView>::empty()) by {
            if s.nodes == Map::<Seq<char>, NodeStatsView>::empty() {
                assert(s.nodes.dom() =~= Set::<Seq<char>>::empty());
            }
        }
    }
}

/// The steps of a save, by number.
pub open spec fn save_step(n: nat) -> SaveStep {
    if n == 0 {
        SaveStep::CreateParent
    } else if n == 1 {
        SaveStep::OpenTemporary
    } else if n == 2 {
        SaveStep::ProtectTemporary
    } else if n == 3 {
        SaveStep::WriteTemporary
    } else if n == 4 {
        SaveStep::SyncTemporary
    } else if n == 5 {
        SaveStep::Rename
    } else {
        SaveStep::SyncParent
    }
}

/// A state is saved in seven steps: the temporary file is made private before
/// a byte goes into it, and takes the place of the old state only once it is
/// complete and on disk. A failure before that is reported; one after it only
/// says that the state may not last.
pub proof fn law_save_replaces_last(path: Seq<char>, n: nat, detail: Seq<char>)
    requires
        n < 7,
    ensures
        n < 6 ==> save_progress(path, save_step(n), None) == SaveProgress::<StateFaultView>::Go(
            save_step(n + 1),
        ),
        n == 6 ==> save_progress(path, save_step(n), None) == SaveProgress::<
            StateFaultView,
        >::Finished(SaveOutcome::Durable),
        n == 6 ==> save_progress(path, save_step(n), Some(detail)) == SaveProgress::<
            StateFaultView,
        >::Finished(SaveOutcome::CommittedNotDurable),
        n < 6 ==> (save_progress(path, save_step(n), Some(detail)) matches SaveProgress::Failed(
            StateFault::Io { path: at, detail: why },
        ) && why == detail && (n == 5 ==> at == path)),
{
}

/// The temporary file of a state file lies beside it, and so is on the same
/// file system when it takes its place.
pub proof fn law_temporary_lies_beside_the_state(d: Seq<char>, stem: Seq<char>, ext: Seq<char>)
    requires
        crate::paths::clean_dir(d),
        stem.len() > 0,
        forall|i: int| 0 <= i < stem.len() ==> #[trigger] stem[i] != '/',
        ext.len() > 0,
        forall|i: int| 0 <= i < ext.len() ==> #[trigger] ext[i] != '/' && ext[i] != '.',
    ensures
        save_temporary_of(crate::paths::joined(d, stem.push('.') + ext)) == d + seq!['/']
            + stem.push('.') + "json.tmp"@,
        save_parent_of(crate::paths::joined(d, stem.push('.') + ext)) == d,
{
    crate::paths::law_extension_is_replaced(d, stem, ext, "json.tmp"@);
    let name = stem.push('.') + ext;
    assert(name.len() >= 3);
    assert forall|i: int| 0 <= i < name.len() implies #[trigger] name[i] != '/' by {
        if i < stem.len() {
            assert(name[i] == stem[i]);
        } else if i > stem.len() {
            assert(name[i] == ext[i - stem.len() - 1]);
        }
    }
    crate::paths::law_join_and_take_apart(d, name, name);
}

} // verus!
