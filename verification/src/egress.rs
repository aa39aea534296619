//! Observation of the preferred default routes, read only.
//!
//! The signature holds the lowest-metric default routes of each address
//! family, so that a worse backup route coming or going changes nothing.

use vstd::prelude::*;

use crate::names::{
    lemma_less_irreflexive, lemma_less_total, lemma_less_transitive, less, text_less, Model,
};
use crate::order::{
    in_order, lemma_insert_at, lemma_sort_contains, lemma_sort_sorted, sort_by, strict_weak_order,
};
use crate::seqs::{kept, lemma_kept};
use crate::text::{
    ascii_lowercase, lemma_position2_is, line_body, line_seq, lines, parse_number, parsed, same, split_whitespace, texts,
    to_ascii_lowercase, words,
};

verus! {

#[derive(Debug, PartialEq, Eq)]
pub struct DefaultRoute {
    pub interface: String,
    pub gateway: String,
    pub metric: u32,
}

#[verifier::ext_equal]
pub struct DefaultRouteView {
    pub interface: Seq<char>,
    pub gateway: Seq<char>,
    pub metric: u32,
}

impl View for DefaultRoute {
    type V = DefaultRouteView;

    open spec fn view(&self) -> DefaultRouteView {
        DefaultRouteView {
            interface: self.interface@,
            gateway: self.gateway@,
            metric: self.metric,
        }
    }
}

impl Model for DefaultRoute {
    fn dup(&self) -> (r: Self) {
        DefaultRoute {
            interface: self.interface.clone(),
            gateway: self.gateway.clone(),
            metric: self.metric,
        }
    }
}

#[derive(Debug, PartialEq, Eq)]
pub struct EgressSignature {
    pub ipv4: Vec<DefaultRoute>,
    pub ipv6: Vec<DefaultRoute>,
}

#[verifier::ext_equal]
pub struct SignatureView {
    pub ipv4: Seq<DefaultRouteView>,
    pub ipv6: Seq<DefaultRouteView>,
}

pub open spec fn route_views(v: Seq<DefaultRoute>) -> Seq<DefaultRouteView> {
    v.map_values(|r: DefaultRoute| r@)
}

impl View for EgressSignature {
    type V = SignatureView;

    open spec fn view(&self) -> SignatureView {
        SignatureView { ipv4: route_views(self.ipv4@), ipv6: route_views(self.ipv6@) }
    }
}

fn copy_routes(v: &Vec<DefaultRoute>) -> (r: Vec<DefaultRoute>)
    ensures
        route_views(r@) == route_views(v@),
{
    let mut r: Vec<DefaultRoute> = Vec::new();
    let mut i: usize = 0;
    let ghost all = route_views(v@);
    while i < v.len()
        invariant
            i <= v@.len(),
            all == route_views(v@),
            route_views(r@) == all.take(i as int),
        decreases v@.len() - i,
    {
        let x = v[i].dup();
        let ghost before = route_views(r@);
        let ghost xv = x@;
        r.push(x);
        assert(route_views(r@) =~= before.push(xv));
        assert(all.take(i + 1) =~= all.take(i as int).push(all[i as int]));
        i = i + 1;
    }
    assert(all.take(v@.len() as int) =~= all);
    r
}

impl Model for EgressSignature {
    fn dup(&self) -> (r: Self) {
        EgressSignature { ipv4: copy_routes(&self.ipv4), ipv6: copy_routes(&self.ipv6) }
    }
}

impl SignatureView {
    pub open spec fn has_default(self) -> bool {
        self.ipv4.len() > 0 || self.ipv6.len() > 0
    }
}

impl EgressSignature {
    pub fn has_default_route(&self) -> (b: bool)
        ensures
            b == self@.has_default(),
    {
        self.ipv4.len() > 0 || self.ipv6.len() > 0
    }
}

fn same_route(a: &DefaultRoute, b: &DefaultRoute) -> (r: bool)
    ensures
        r == (a@ == b@),
{
    same(a.interface.as_str(), b.interface.as_str()) && same(a.gateway.as_str(), b.gateway.as_str())
        && a.metric == b.metric
}

fn same_routes(a: &Vec<DefaultRoute>, b: &Vec<DefaultRoute>) -> (r: bool)
    ensures
        r == (route_views(a@) == route_views(b@)),
{
    if a.len() != b.len() {
        assert(route_views(a@).len() != route_views(b@).len());
        return false;
    }
    let mut i: usize = 0;
    while i < a.len()
        invariant
            i <= a@.len(),
            a@.len() == b@.len(),
            forall|j: int| 0 <= j < i ==> (#[trigger] a@[j])@ == b@[j]@,
        decreases a@.len() - i,
    {
        if !same_route(&a[i], &b[i]) {
            assert(route_views(a@)[i as int] != route_views(b@)[i as int]);
            return false;
        }
        i = i + 1;
    }
    assert(route_views(a@) =~= route_views(b@));
    true
}

pub fn same_signature(a: &EgressSignature, b: &EgressSignature) -> (r: bool)
    ensures
        r == (a@ == b@),
{
    same_routes(&a.ipv4, &b.ipv4) && same_routes(&a.ipv6, &b.ipv6)
}

// ---------------------------------------------------------------------------
// Kernel tables
// ---------------------------------------------------------------------------

pub open spec fn route_is_up(flags: nat) -> bool {
    (flags as u32) & 1 != 0
}

/// A default route in a line of the IPv4 table.
pub open spec fn ipv4_route(line: Seq<char>) -> Option<DefaultRouteView> {
    let f = words(line);
    if f.len() < 8 || f[1] != "00000000"@ || f[7] != "00000000"@ {
        None
    } else {
        match parsed(f[3], 16, u32::MAX as nat) {
            None => None,
            Some(flags) => if !route_is_up(flags) {
                None
            } else {
                match parsed(f[6], 10, u32::MAX as nat) {
                    None => None,
                    Some(metric) => Some(
                        DefaultRouteView {
                            interface: f[0],
                            gateway: ascii_lowercase(f[2]),
                            metric: metric as u32,
                        },
                    ),
                }
            },
        }
    }
}

/// A default route in a line of the IPv6 table.
pub open spec fn ipv6_route(line: Seq<char>) -> Option<DefaultRouteView> {
    let f = words(line);
    if f.len() < 10 || f[0] != "00000000000000000000000000000000"@ || f[1] != "00"@ || f[2]
        != "00000000000000000000000000000000"@ || f[3] != "00"@ {
        None
    } else {
        match parsed(f[8], 16, u32::MAX as nat) {
            None => None,
            Some(flags) => if !route_is_up(flags) {
                None
            } else {
                match parsed(f[5], 16, u32::MAX as nat) {
                    None => None,
                    Some(metric) => Some(
                        DefaultRouteView {
                            interface: f[9],
                            gateway: ascii_lowercase(f[4]),
                            metric: metric as u32,
                        },
                    ),
                }
            },
        }
    }
}

fn read_ipv4_route(line: &str) -> (r: Option<DefaultRoute>)
    ensures
        crate::manifest::opt_view(r) == ipv4_route(line@),
{
    let f = split_whitespace(line);
    let ghost fs = texts(f@);
    assert(fs == words(line@));
    if f.len() < 8 {
        return None;
    }
    assert(forall|i: int| 0 <= i < f@.len() ==> #[trigger] fs[i] == f@[i]@);
    if !same(f[1].as_str(), "00000000") || !same(f[7].as_str(), "00000000") {
        return None;
    }
    let flags: u64 = match parse_number(f[3].as_str(), 16, 0xffff_ffff) {
        Some(n) => n,
        None => return None,
    };
    if (flags as u32) & 1 == 0 {
        return None;
    }
    let metric: u64 = match parse_number(f[6].as_str(), 10, 0xffff_ffff) {
        Some(n) => n,
        None => return None,
    };
    Some(
        DefaultRoute {
            interface: f[0].clone(),
            gateway: to_ascii_lowercase(f[2].as_str()),
            metric: metric as u32,
        },
    )
}

fn read_ipv6_route(line: &str) -> (r: Option<DefaultRoute>)
    ensures
        crate::manifest::opt_view(r) == ipv6_route(line@),
{
    let f = split_whitespace(line);
    let ghost fs = texts(f@);
    assert(fs == words(line@));
    if f.len() < 10 {
        return None;
    }
    assert(forall|i: int| 0 <= i < f@.len() ==> #[trigger] fs[i] == f@[i]@);
    if !same(f[0].as_str(), "00000000000000000000000000000000") || !same(f[1].as_str(), "00")
        || !same(f[2].as_str(), "00000000000000000000000000000000") || !same(f[3].as_str(), "00") {
        return None;
    }
    let flags: u64 = match parse_number(f[8].as_str(), 16, 0xffff_ffff) {
        Some(n) => n,
        None => return None,
    };
    if (flags as u32) & 1 == 0 {
        return None;
    }
    let metric: u64 = match parse_number(f[5].as_str(), 16, 0xffff_ffff) {
        Some(n) => n,
        None => return None,
    };
    Some(
        DefaultRoute {
            interface: f[9].clone(),
            gateway: to_ascii_lowercase(f[4].as_str()),
            metric: metric as u32,
        },
    )
}

/// The default routes of a table's lines, in order.
pub open spec fn table_routes(
    ls: Seq<Seq<char>>,
    read: spec_fn(Seq<char>) -> Option<DefaultRouteView>,
) -> Seq<DefaultRouteView>
    decreases ls.len(),
{
    if ls.len() == 0 {
        Seq::empty()
    } else {
        let before = table_routes(ls.drop_last(), read);
        match read(ls.last()) {
            Some(r) => before.push(r),
            None => before,
        }
    }
}

/// The IPv4 table has a header line; a text without any line has no routes.
pub open spec fn ipv4_defaults(text: Seq<char>) -> Seq<DefaultRouteView> {
    let ls = line_seq(text);
    table_routes(
        if ls.len() > 0 {
            ls.skip(1)
        } else {
            ls
        },
        |l: Seq<char>| ipv4_route(l),
    )
}

pub open spec fn ipv6_defaults(text: Seq<char>) -> Seq<DefaultRouteView> {
    table_routes(line_seq(text), |l: Seq<char>| ipv6_route(l))
}

pub fn parse_ipv4_defaults(text: &str) -> (r: Vec<DefaultRoute>)
    ensures
        route_views(r@) == ipv4_defaults(text@),
{
    let ls = lines(text);
    let ghost all = texts(ls@);
    let ghost body = if all.len() > 0 {
        all.skip(1)
    } else {
        all
    };
    let ghost read = |l: Seq<char>| ipv4_route(l);
    let mut r: Vec<DefaultRoute> = Vec::new();
    assert(route_views(r@) =~= Seq::<DefaultRouteView>::empty());
    assert(body.take(0) =~= Seq::<Seq<char>>::empty());
    let mut i: usize = 1;
    while i < ls.len()
        invariant
            1 <= i,
            i <= ls@.len() || i == 1,
            all == texts(ls@),
            body == if all.len() > 0 {
                all.skip(1)
            } else {
                all
            },
            read == (|l: Seq<char>| ipv4_route(l)),
            route_views(r@) == table_routes(body.take(i - 1), read),
        decreases ls@.len() - i,
    {
        proof {
            let t = body.take(i as int);
            assert(t.drop_last() =~= body.take(i - 1));
            assert(t.last() == ls@[i as int]@);
        }
        let ghost before = route_views(r@);
        if let Some(route) = read_ipv4_route(ls[i].as_str()) {
            let ghost rv = route@;
            r.push(route);
            assert(route_views(r@) =~= before.push(rv));
        }
        i = i + 1;
    }
    assert(body.take(i - 1) =~= body);
    r
}

pub fn parse_ipv6_defaults(text: &str) -> (r: Vec<DefaultRoute>)
    ensures
        route_views(r@) == ipv6_defaults(text@),
{
    let ls = lines(text);
    let ghost all = texts(ls@);
    let ghost read = |l: Seq<char>| ipv6_route(l);
    let mut r: Vec<DefaultRoute> = Vec::new();
    assert(route_views(r@) =~= Seq::<DefaultRouteView>::empty());
    assert(all.take(0) =~= Seq::<Seq<char>>::empty());
    let mut i: usize = 0;
    while i < ls.len()
        invariant
            i <= ls@.len(),
            all == texts(ls@),
            read == (|l: Seq<char>| ipv6_route(l)),
            route_views(r@) == table_routes(all.take(i as int), read),
        decreases ls@.len() - i,
    {
        proof {
            let t = all.take(i + 1);
            assert(t.drop_last() =~= all.take(i as int));
            assert(t.last() == ls@[i as int]@);
        }
        let ghost before = route_views(r@);
        if let Some(route) = read_ipv6_route(ls[i].as_str()) {
            let ghost rv = route@;
            r.push(route);
            assert(route_views(r@) =~= before.push(rv));
        }
        i = i + 1;
    }
    assert(all.take(i as int) =~= all);
    r
}

// ---------------------------------------------------------------------------
// Preference
// ---------------------------------------------------------------------------

/// The lowest metric of a list that is not empty.
pub open spec fn lowest(routes: Seq<DefaultRouteView>) -> u32
    decreases routes.len(),
{
    if routes.len() <= 1 {
        routes[0].metric
    } else {
        let m = lowest(routes.drop_last());
        if routes.last().metric < m {
            routes.last().metric
        } else {
            m
        }
    }
}

/// By interface, then by gateway, then by metric.
pub open spec fn route_less(a: DefaultRouteView, b: DefaultRouteView) -> bool {
    if a.interface != b.interface {
        text_less(a.interface, b.interface)
    } else if a.gateway != b.gateway {
        text_less(a.gateway, b.gateway)
    } else {
        a.metric < b.metric
    }
}

pub open spec fn route_order() -> spec_fn(DefaultRouteView, DefaultRouteView) -> bool {
    |a: DefaultRouteView, b: DefaultRouteView| route_less(b, a)
}

/// Drop every element that equals the one before it.
pub open spec fn deduped(s: Seq<DefaultRouteView>) -> Seq<DefaultRouteView>
    decreases s.len(),
{
    if s.len() <= 1 {
        s
    } else {
        let before = deduped(s.drop_last());
        if s[s.len() - 2] == s.last() {
            before
        } else {
            before.push(s.last())
        }
    }
}

/// The routes with the lowest metric, sorted, each once.
pub open spec fn preferred_of(routes: Seq<DefaultRouteView>) -> Seq<DefaultRouteView> {
    if routes.len() == 0 {
        routes
    } else {
        let m = lowest(routes);
        deduped(sort_by(kept(routes, |r: DefaultRouteView| r.metric == m), route_order()))
    }
}

fn is_less(a: &DefaultRoute, b: &DefaultRoute) -> (r: bool)
    ensures
        r == route_less(a@, b@),
{
    if !same(a.interface.as_str(), b.interface.as_str()) {
        less(a.interface.as_str(), b.interface.as_str())
    } else if !same(a.gateway.as_str(), b.gateway.as_str()) {
        less(a.gateway.as_str(), b.gateway.as_str())
    } else {
        a.metric < b.metric
    }
}

fn sort_routes(routes: &Vec<DefaultRoute>, m: u32) -> (r: Vec<DefaultRoute>)
    ensures
        route_views(r@) == sort_by(
            kept(route_views(routes@), |x: DefaultRouteView| x.metric == m),
            route_order(),
        ),
{
    let ghost all = route_views(routes@);
    let ghost p = |x: DefaultRouteView| x.metric == m;
    let ghost after = route_order();
    let mut r: Vec<DefaultRoute> = Vec::new();
    let mut i: usize = 0;
    assert(all.take(0) =~= Seq::<DefaultRouteView>::empty());
    assert(route_views(r@) =~= Seq::<DefaultRouteView>::empty());
    while i < routes.len()
        invariant
            i <= routes@.len(),
            all == route_views(routes@),
            p == (|x: DefaultRouteView| x.metric == m),
            after == route_order(),
            route_views(r@) == sort_by(kept(all.take(i as int), p), after),
        decreases routes@.len() - i,
    {
        proof {
            let t = all.take(i + 1);
            assert(t.drop_last() =~= all.take(i as int));
            assert(t.last() == routes@[i as int]@);
        }
        if routes[i].metric == m {
            let x = routes[i].dup();
            let ghost sorted = route_views(r@);
            let mut q: usize = r.len();
            let mut more = true;
            while q > 0 && more
                invariant
                    q <= r@.len(),
                    sorted == route_views(r@),
                    after == route_order(),
                    forall|k: int| q <= k < sorted.len() ==> after(#[trigger] sorted[k], x@),
                    !more ==> q > 0 && !after(sorted[q - 1], x@),
                decreases
                        q + if more {
                            1int
                        } else {
                            0int
                        },
            {
                assert(sorted[q - 1] == r@[q - 1]@);
                if is_less(&x, &r[q - 1]) {
                    q = q - 1;
                } else {
                    more = false;
                }
            }
            proof {
                lemma_insert_at(sorted, x@, after, q as int);
                let k0 = kept(all.take(i as int), p);
                let k1 = kept(all.take(i + 1), p);
                assert(k1 == k0.push(x@));
                assert(k1.drop_last() =~= k0);
            }
            let ghost xv = x@;
            r.insert(q, x);
            assert(route_views(r@) =~= sorted.insert(q as int, xv));
        }
        i = i + 1;
    }
    assert(all.take(routes@.len() as int) =~= all);
    r
}

pub fn preferred(routes: Vec<DefaultRoute>) -> (r: Vec<DefaultRoute>)
    ensures
        route_views(r@) == preferred_of(route_views(routes@)),
{
    if routes.len() == 0 {
        return routes;
    }
    let ghost all = route_views(routes@);
    let mut m: u32 = routes[0].metric;
    let mut i: usize = 1;
    assert(all.take(1)[0] == all[0]);
    while i < routes.len()
        invariant
            1 <= i <= routes@.len(),
            all == route_views(routes@),
            m == lowest(all.take(i as int)),
        decreases routes@.len() - i,
    {
        proof {
            let t = all.take(i + 1);
            assert(t.drop_last() =~= all.take(i as int));
            assert(t.last() == routes@[i as int]@);
        }
        if routes[i].metric < m {
            m = routes[i].metric;
        }
        i = i + 1;
    }
    assert(all.take(routes@.len() as int) =~= all);
    let sorted = sort_routes(&routes, m);
    let ghost s = route_views(sorted@);
    let mut r: Vec<DefaultRoute> = Vec::new();
    let mut j: usize = 0;
    assert(s.take(0) =~= Seq::<DefaultRouteView>::empty());
    assert(route_views(r@) =~= Seq::<DefaultRouteView>::empty());
    while j < sorted.len()
        invariant
            j <= sorted@.len(),
            s == route_views(sorted@),
            route_views(r@) == deduped(s.take(j as int)),
        decreases sorted@.len() - j,
    {
        let ghost t = s.take(j + 1);
        assert(t.drop_last() =~= s.take(j as int));
        assert(t.last() == sorted@[j as int]@);
        let ghost before = route_views(r@);
        if j == 0 || !same_route(&sorted[j - 1], &sorted[j]) {
            let x = sorted[j].dup();
            let ghost xv = x@;
            r.push(x);
            assert(route_views(r@) =~= before.push(xv));
            if j == 0 {
                assert(before.push(xv) =~= t);
            } else {
                assert(t[t.len() - 2] == sorted@[j - 1]@);
            }
        } else {
            assert(t[t.len() - 2] == sorted@[j - 1]@);
        }
        j = j + 1;
    }
    assert(s.take(sorted@.len() as int) =~= s);
    r
}

/// The signature of the two kernel tables.
pub open spec fn signature_of(ipv4: Seq<char>, ipv6: Seq<char>) -> SignatureView {
    SignatureView {
        ipv4: preferred_of(ipv4_defaults(ipv4)),
        ipv6: preferred_of(ipv6_defaults(ipv6)),
    }
}

pub fn parse_signature(ipv4: &str, ipv6: &str) -> (r: EgressSignature)
    ensures
        r@ == signature_of(ipv4@, ipv6@),
{
    EgressSignature {
        ipv4: preferred(parse_ipv4_defaults(ipv4)),
        ipv6: preferred(parse_ipv6_defaults(ipv6)),
    }
}

proof fn lemma_lowest(routes: Seq<DefaultRouteView>)
    requires
        routes.len() > 0,
    ensures
        forall|i: int| 0 <= i < routes.len() ==> lowest(routes) <= (#[trigger] routes[i]).metric,
        exists|i: int| 0 <= i < routes.len() && (#[trigger] routes[i]).metric == lowest(routes),
    decreases routes.len(),
{
    if routes.len() > 1 {
        let d = routes.drop_last();
        lemma_lowest(d);
        let k = choose|i: int| 0 <= i < d.len() && (#[trigger] d[i]).metric == lowest(d);
        assert(routes[k] == d[k]);
        assert forall|i: int| 0 <= i < routes.len() implies lowest(routes) <= (
        #[trigger] routes[i]).metric by {
            if i < d.len() {
                assert(routes[i] == d[i]);
            }
        }
        if routes.last().metric < lowest(d) {
            assert(routes[routes.len() - 1].metric == lowest(routes));
        } else {
            assert(routes[k].metric == lowest(routes));
        }
    } else {
        assert(routes[0].metric == lowest(routes));
    }
}

proof fn lemma_route_order()
    ensures
        strict_weak_order(route_order()),
        forall|a: DefaultRouteView, b: DefaultRouteView| #[trigger]
            route_less(a, b) || route_less(b, a) || a == b,
        forall|a: DefaultRouteView| !#[trigger] route_less(a, a),
        forall|a: DefaultRouteView, b: DefaultRouteView, c: DefaultRouteView| #[trigger]
            route_less(a, b) && #[trigger] route_less(b, c) ==> route_less(a, c),
{
    assert forall|a: DefaultRouteView, b: DefaultRouteView| #[trigger]
        route_less(a, b) || route_less(b, a) || a == b by {
        lemma_less_total(a.interface, b.interface);
        lemma_less_total(a.gateway, b.gateway);
    }
    assert forall|a: DefaultRouteView, b: DefaultRouteView, c: DefaultRouteView| #[trigger]
        route_less(a, b) && #[trigger] route_less(b, c) implies route_less(a, c) by {
        if a.interface != b.interface && b.interface != c.interface {
            lemma_less_transitive(a.interface, b.interface, c.interface);
            if a.interface == c.interface {
                lemma_less_irreflexive(a.interface);
            }
        } else if a.interface == b.interface && b.interface == c.interface && a.gateway
            != b.gateway && b.gateway != c.gateway {
            lemma_less_transitive(a.gateway, b.gateway, c.gateway);
            if a.gateway == c.gateway {
                lemma_less_irreflexive(a.gateway);
            }
        }
    }
    let after = route_order();
    assert forall|a: DefaultRouteView, b: DefaultRouteView, c: DefaultRouteView|
        !#[trigger] after(a, b) && !#[trigger] after(b, c) implies !after(a, c) by {
        if route_less(c, a) {
            if route_less(b, a) {
            } else if a == b {
            } else {
                assert(route_less(a, b));
                assert(route_less(c, b));
            }
        }
    }
    assert forall|a: DefaultRouteView, b: DefaultRouteView, c: DefaultRouteView| #[trigger]
        after(a, b) && #[trigger] after(b, c) implies after(a, c) by {
        assert(route_less(c, b) && route_less(b, a));
    }
}

/// Every route stands before those that it is less than, and none twice.
spec fn rising(s: Seq<DefaultRouteView>) -> bool {
    forall|i: int, j: int| 0 <= i < j < s.len() ==> route_less(#[trigger] s[i], #[trigger] s[j])
}

proof fn lemma_deduped(s: Seq<DefaultRouteView>)
    requires
        in_order(s, route_order()),
    ensures
        rising(deduped(s)),
        forall|x: DefaultRouteView| #[trigger] deduped(s).contains(x) == s.contains(x),
        s.len() > 0 ==> deduped(s).len() > 0 && deduped(s).last() == s.last(),
    decreases s.len(),
{
    lemma_route_order();
    if s.len() > 1 {
        let d = s.drop_last();
        let after = route_order();
        assert forall|i: int, j: int| 0 <= i < j < d.len() implies !after(
            #[trigger] d[i],
            #[trigger] d[j],
        ) by {
            assert(!after(s[i], s[j]));
        }
        lemma_deduped(d);
        let r = deduped(s);
        let q = deduped(d);
        let n = s.len() as int;
        assert(q.last() == s[n - 2]);
        if s[n - 2] != s[n - 1] {
            assert(!after(s[n - 2], s[n - 1]));
            assert(route_less(s[n - 2], s[n - 1]));
            assert forall|i: int, j: int| 0 <= i < j < r.len() implies route_less(
                #[trigger] r[i],
                #[trigger] r[j],
            ) by {
                if j < q.len() {
                    assert(r[i] == q[i] && r[j] == q[j]);
                } else if i < q.len() - 1 {
                    assert(route_less(q[i], q[q.len() - 1]));
                }
            }
        }
        assert forall|x: DefaultRouteView| #[trigger] r.contains(x) == s.contains(x) by {
            assert(q.contains(x) == d.contains(x));
            if s.contains(x) {
                let i = s.index_of(x);
                if i < n - 1 {
                    assert(d[i] == x);
                    let k = q.index_of(x);
                    assert(r[k] == x);
                } else {
                    assert(r[r.len() - 1] == x);
                }
            }
            if r.contains(x) {
                let k = r.index_of(x);
                if k < q.len() {
                    assert(q[k] == x);
                    let i = d.index_of(x);
                    assert(s[i] == x);
                } else {
                    assert(s[n - 1] == x);
                }
            }
        }
    }
}

proof fn lemma_rising_unique(a: Seq<DefaultRouteView>, b: Seq<DefaultRouteView>)
    requires
        rising(a),
        rising(b),
        forall|x: DefaultRouteView| #[trigger] a.contains(x) == b.contains(x),
    ensures
        a == b,
    decreases a.len(),
{
    lemma_route_order();
    if a.len() == 0 {
        if b.len() > 0 {
            assert(b.contains(b[0]));
            assert(a.contains(b[0]));
        }
        assert(a =~= b);
    } else {
        assert(a.contains(a[0]));
        assert(b.contains(a[0]));
        let x = a.last();
        let y = b.last();
        assert(a.contains(x) && b.contains(y));
        assert(b.contains(x) && a.contains(y));
        let i = b.index_of(x);
        let j = a.index_of(y);
        if x != y {
            assert(route_less(b[i], b[b.len() - 1]));
            assert(route_less(a[j], a[a.len() - 1]));
        }
        let c = a.drop_last();
        let d = b.drop_last();
        assert forall|k: DefaultRouteView| #[trigger] c.contains(k) == d.contains(k) by {
            assert(a.contains(k) == b.contains(k));
            if c.contains(k) {
                let m = c.index_of(k);
                assert(a[m] == k);
                assert(route_less(a[m], a[a.len() - 1]));
                let q = b.index_of(k);
                assert(q < b.len() - 1);
                assert(d[q] == k);
            }
            if d.contains(k) {
                let m = d.index_of(k);
                assert(b[m] == k);
                assert(route_less(b[m], b[b.len() - 1]));
                let q = a.index_of(k);
                assert(q < a.len() - 1);
                assert(c[q] == k);
            }
        }
        lemma_rising_unique(c, d);
        assert(a =~= c.push(x));
        assert(b =~= d.push(y));
    }
}

/// A route of the list that no other route of it beats.
pub open spec fn is_best(routes: Seq<DefaultRouteView>, r: DefaultRouteView) -> bool {
    routes.contains(r) && forall|i: int|
        0 <= i < routes.len() ==> r.metric <= (#[trigger] routes[i]).metric
}

proof fn lemma_preferred(routes: Seq<DefaultRouteView>)
    ensures
        rising(preferred_of(routes)),
        forall|r: DefaultRouteView| #[trigger] preferred_of(routes).contains(r) == is_best(routes, r),
{
    if routes.len() > 0 {
        let m = lowest(routes);
        let p = |r: DefaultRouteView| r.metric == m;
        let k = kept(routes, p);
        lemma_lowest(routes);
        lemma_route_order();
        lemma_sort_sorted(k, route_order());
        lemma_deduped(sort_by(k, route_order()));
        lemma_kept(routes, p);
        assert forall|r: DefaultRouteView| #[trigger] preferred_of(routes).contains(r) == is_best(
            routes,
            r,
        ) by {
            lemma_sort_contains(k, route_order(), r);
            if k.contains(r) {
                let i = k.index_of(r);
                assert(p(k[i]) && routes.contains(k[i]));
            }
            if is_best(routes, r) {
                let i = choose|i: int| 0 <= i < routes.len() && (#[trigger] routes[i]).metric == m;
                assert(r.metric <= routes[i].metric);
                let j = routes.index_of(r);
                assert(m <= routes[j].metric);
                assert(p(r));
            }
        }
    }
}

/// The preferred routes depend on the best routes alone: not on the others,
/// nor on the order of the list, nor on how often a route stands in it.
pub proof fn law_only_best_routes_count(a: Seq<DefaultRouteView>, b: Seq<DefaultRouteView>)
    requires
        forall|r: DefaultRouteView| #[trigger] is_best(a, r) == is_best(b, r),
    ensures
        preferred_of(a) == preferred_of(b),
{
    lemma_preferred(a);
    lemma_preferred(b);
    assert forall|r: DefaultRouteView| #[trigger] preferred_of(a).contains(r) == preferred_of(
        b,
    ).contains(r) by {
        assert(is_best(a, r) == is_best(b, r));
    }
    lemma_rising_unique(preferred_of(a), preferred_of(b));
}

/// Rows one below the other, each ended by a line feed.
pub open spec fn table_text(rows: Seq<Seq<char>>) -> Seq<char>
    decreases rows.len(),
{
    if rows.len() == 0 {
        Seq::empty()
    } else {
        rows[0].push('\n') + table_text(rows.skip(1))
    }
}

/// None of the rows is more than one line.
pub open spec fn single_lines(rows: Seq<Seq<char>>) -> bool {
    forall|i: int| 0 <= i < rows.len() ==> !(#[trigger] rows[i]).contains('\n')
}

/// What a reader of lines makes of a row.
pub open spec fn row_line(row: Seq<char>) -> Seq<char> {
    line_body(row.push('\n'), row.len() as int)
}

proof fn lemma_table_lines(rows: Seq<Seq<char>>)
    requires
        single_lines(rows),
    ensures
        line_seq(table_text(rows)) == rows.map_values(|r: Seq<char>| row_line(r)),
    decreases rows.len(),
{
    let want = rows.map_values(|r: Seq<char>| row_line(r));
    if rows.len() > 0 {
        let row = rows[0];
        let rest = rows.skip(1);
        assert forall|i: int| 0 <= i < rest.len() implies !(#[trigger] rest[i]).contains('\n') by {
            assert(rest[i] == rows[i + 1]);
        }
        lemma_table_lines(rest);
        let t = table_text(rows);
        let n = row.len() as int;
        assert forall|j: int| 0 <= j < n implies #[trigger] t[j] != '\n' by {
            assert(t[j] == row[j]);
            assert(row.contains(row[j]));
        }
        assert(t[n] == '\n');
        lemma_position2_is(t, '\n', '\n', n);
        assert(t.skip(n + 1) =~= table_text(rest));
        assert(t.take(n) =~= row.push('\n').take(n));
        if n > 0 {
            assert(t.take(n - 1) =~= row.push('\n').take(n - 1));
            assert(t[n - 1] == row.push('\n')[n - 1]);
        }
        assert(line_body(t, n) == row_line(row));
        assert(want =~= seq![row_line(row)] + rest.map_values(|r: Seq<char>| row_line(r)));
    } else {
        assert(line_seq(table_text(rows)) =~= want);
    }
}

proof fn lemma_table_routes(
    ls: Seq<Seq<char>>,
    read: spec_fn(Seq<char>) -> Option<DefaultRouteView>,
    r: DefaultRouteView,
)
    ensures
        table_routes(ls, read).contains(r) <==> exists|i: int|
            0 <= i < ls.len() && read(#[trigger] ls[i]) == Some(r),
    decreases ls.len(),
{
    if ls.len() > 0 {
        let d = ls.drop_last();
        lemma_table_routes(d, read, r);
        let before = table_routes(d, read);
        let now = table_routes(ls, read);
        if now.contains(r) {
            let k = now.index_of(r);
            if k < before.len() {
                assert(before[k] == r);
                let i = choose|i: int| 0 <= i < d.len() && read(#[trigger] d[i]) == Some(r);
                assert(ls[i] == d[i]);
            } else {
                assert(read(ls[ls.len() - 1]) == Some(r));
            }
        }
        if exists|i: int| 0 <= i < ls.len() && read(#[trigger] ls[i]) == Some(r) {
            let i = choose|i: int| 0 <= i < ls.len() && read(#[trigger] ls[i]) == Some(r);
            if i < d.len() {
                assert(d[i] == ls[i]);
                let k = before.index_of(r);
                assert(now[k] == r);
            } else {
                assert(now[now.len() - 1] == r);
            }
        }
    }
}

/// Some row of the IPv4 table is this default route.
pub open spec fn ipv4_table_has(rows: Seq<Seq<char>>, r: DefaultRouteView) -> bool {
    exists|i: int| 0 <= i < rows.len() && ipv4_route(row_line(#[trigger] rows[i])) == Some(r)
}

/// Some row of the IPv6 table is this default route.
pub open spec fn ipv6_table_has(rows: Seq<Seq<char>>, r: DefaultRouteView) -> bool {
    exists|i: int| 0 <= i < rows.len() && ipv6_route(row_line(#[trigger] rows[i])) == Some(r)
}

proof fn lemma_ipv4_table(header: Seq<char>, rows: Seq<Seq<char>>, r: DefaultRouteView)
    requires
        single_lines(seq![header] + rows),
    ensures
        ipv4_defaults(table_text(seq![header] + rows)).contains(r) == ipv4_table_has(rows, r),
{
    let all = seq![header] + rows;
    lemma_table_lines(all);
    let ls = all.map_values(|r: Seq<char>| row_line(r));
    let body = rows.map_values(|r: Seq<char>| row_line(r));
    assert(ls.skip(1) =~= body);
    let read = |l: Seq<char>| ipv4_route(l);
    lemma_table_routes(body, read, r);
    if ipv4_table_has(rows, r) {
        let i = choose|i: int|
            0 <= i < rows.len() && ipv4_route(row_line(#[trigger] rows[i])) == Some(r);
        assert(read(body[i]) == Some(r));
    }
    if ipv4_defaults(table_text(all)).contains(r) {
        let i = choose|i: int| 0 <= i < body.len() && read(#[trigger] body[i]) == Some(r);
        assert(body[i] == row_line(rows[i]));
    }
}

proof fn lemma_ipv6_table(rows: Seq<Seq<char>>, r: DefaultRouteView)
    requires
        single_lines(rows),
    ensures
        ipv6_defaults(table_text(rows)).contains(r) == ipv6_table_has(rows, r),
{
    lemma_table_lines(rows);
    let body = rows.map_values(|r: Seq<char>| row_line(r));
    let read = |l: Seq<char>| ipv6_route(l);
    lemma_table_routes(body, read, r);
    if ipv6_table_has(rows, r) {
        let i = choose|i: int|
            0 <= i < rows.len() && ipv6_route(row_line(#[trigger] rows[i])) == Some(r);
        assert(read(body[i]) == Some(r));
    }
    if ipv6_defaults(table_text(rows)).contains(r) {
        let i = choose|i: int| 0 <= i < body.len() && read(#[trigger] body[i]) == Some(r);
        assert(body[i] == row_line(rows[i]));
    }
}

proof fn lemma_same_best(
    a: Seq<DefaultRouteView>,
    b: Seq<DefaultRouteView>,
)
    requires
        forall|r: DefaultRouteView| #[trigger] a.contains(r) ==> b.contains(r),
        forall|r: DefaultRouteView| #[trigger]
            b.contains(r) ==> a.contains(r) || exists|k: int|
                0 <= k < a.len() && (#[trigger] a[k]).metric < r.metric,
    ensures
        preferred_of(a) == preferred_of(b),
{
    assert forall|r: DefaultRouteView| #[trigger] is_best(a, r) == is_best(b, r) by {
        if is_best(a, r) {
            assert forall|i: int| 0 <= i < b.len() implies r.metric <= (#[trigger] b[i]).metric by {
                assert(b.contains(b[i]));
                if a.contains(b[i]) {
                    let k = a.index_of(b[i]);
                    assert(r.metric <= a[k].metric);
                } else {
                    let k = choose|k: int| 0 <= k < a.len() && (#[trigger] a[k]).metric < b[i].metric;
                    assert(r.metric <= a[k].metric);
                }
            }
        }
        if is_best(b, r) {
            if !a.contains(r) {
                let k = choose|k: int| 0 <= k < a.len() && (#[trigger] a[k]).metric < r.metric;
                assert(a.contains(a[k]));
                let j = b.index_of(a[k]);
                assert(r.metric <= b[j].metric);
            }
            assert forall|i: int| 0 <= i < a.len() implies r.metric <= (#[trigger] a[i]).metric by {
                assert(a.contains(a[i]));
                let j = b.index_of(a[i]);
                assert(r.metric <= b[j].metric);
            }
        }
    }
    law_only_best_routes_count(a, b);
}

/// A row that is no default route, or one with a worse metric than another
/// row of its table, leaves the signature as it is, in either table.
pub proof fn law_backup_route_is_ignored(
    header: Seq<char>,
    ipv4: Seq<Seq<char>>,
    ipv6: Seq<Seq<char>>,
    extra: Seq<char>,
)
    requires
        single_lines(seq![header] + ipv4),
        single_lines(ipv6),
        !extra.contains('\n'),
    ensures
        (forall|x: DefaultRouteView| #[trigger]
            ipv4_table_has(seq![extra], x) ==> exists|y: DefaultRouteView| #[trigger]
                ipv4_table_has(ipv4, y) && y.metric < x.metric) ==> signature_of(
            table_text(seq![header] + ipv4) + extra.push('\n'),
            table_text(ipv6),
        ) == signature_of(table_text(seq![header] + ipv4), table_text(ipv6)),
        (forall|x: DefaultRouteView| #[trigger]
            ipv6_table_has(seq![extra], x) ==> exists|y: DefaultRouteView| #[trigger]
                ipv6_table_has(ipv6, y) && y.metric < x.metric) ==> signature_of(
            table_text(seq![header] + ipv4),
            table_text(ipv6) + extra.push('\n'),
        ) == signature_of(table_text(seq![header] + ipv4), table_text(ipv6)),
{
    let four = table_text(seq![header] + ipv4);
    let six = table_text(ipv6);
    if forall|x: DefaultRouteView| #[trigger]
        ipv4_table_has(seq![extra], x) ==> exists|y: DefaultRouteView| #[trigger]
            ipv4_table_has(ipv4, y) && y.metric < x.metric {
        let more = ipv4.push(extra);
        lemma_table_grows(seq![header] + ipv4, extra);
        assert((seq![header] + ipv4).push(extra) =~= seq![header] + more);
        let a = ipv4_defaults(four);
        let b = ipv4_defaults(four + extra.push('\n'));
        assert forall|r: DefaultRouteView| #[trigger] a.contains(r) implies b.contains(r) by {
            lemma_ipv4_table(header, ipv4, r);
            lemma_ipv4_table(header, more, r);
            let i = choose|i: int|
                0 <= i < ipv4.len() && ipv4_route(row_line(#[trigger] ipv4[i])) == Some(r);
            assert(more[i] == ipv4[i]);
        }
        assert forall|r: DefaultRouteView| #[trigger] b.contains(r) implies a.contains(r) || exists|
            k: int,
        |
            0 <= k < a.len() && (#[trigger] a[k]).metric < r.metric by {
            lemma_ipv4_table(header, ipv4, r);
            lemma_ipv4_table(header, more, r);
            let i = choose|i: int|
                0 <= i < more.len() && ipv4_route(row_line(#[trigger] more[i])) == Some(r);
            if i < ipv4.len() {
                assert(ipv4[i] == more[i]);
            } else {
                assert(seq![extra][0] == more[i]);
                assert(ipv4_table_has(seq![extra], r));
                let y = choose|y: DefaultRouteView| #[trigger]
                    ipv4_table_has(ipv4, y) && y.metric < r.metric;
                lemma_ipv4_table(header, ipv4, y);
                let k = a.index_of(y);
                assert(a[k].metric < r.metric);
            }
        }
        lemma_same_best(a, b);
    }
    if forall|x: DefaultRouteView| #[trigger]
        ipv6_table_has(seq![extra], x) ==> exists|y: DefaultRouteView| #[trigger]
            ipv6_table_has(ipv6, y) && y.metric < x.metric {
        let more = ipv6.push(extra);
        lemma_table_grows(ipv6, extra);
        let a = ipv6_defaults(six);
        let b = ipv6_defaults(six + extra.push('\n'));
        assert forall|r: DefaultRouteView| #[trigger] a.contains(r) implies b.contains(r) by {
            lemma_ipv6_table(ipv6, r);
            lemma_ipv6_table(more, r);
            let i = choose|i: int|
                0 <= i < ipv6.len() && ipv6_route(row_line(#[trigger] ipv6[i])) == Some(r);
            assert(more[i] == ipv6[i]);
        }
        assert forall|r: DefaultRouteView| #[trigger] b.contains(r) implies a.contains(r) || exists|
            k: int,
        |
            0 <= k < a.len() && (#[trigger] a[k]).metric < r.metric by {
            lemma_ipv6_table(ipv6, r);
            lemma_ipv6_table(more, r);
            let i = choose|i: int|
                0 <= i < more.len() && ipv6_route(row_line(#[trigger] more[i])) == Some(r);
            if i < ipv6.len() {
                assert(ipv6[i] == more[i]);
            } else {
                assert(seq![extra][0] == more[i]);
                assert(ipv6_table_has(seq![extra], r));
                let y = choose|y: DefaultRouteView| #[trigger]
                    ipv6_table_has(ipv6, y) && y.metric < r.metric;
                lemma_ipv6_table(ipv6, y);
                let k = a.index_of(y);
                assert(a[k].metric < r.metric);
            }
        }
        lemma_same_best(a, b);
    }
}

proof fn lemma_table_grows(rows: Seq<Seq<char>>, extra: Seq<char>)
    requires
        single_lines(rows),
        !extra.contains('\n'),
    ensures
        table_text(rows.push(extra)) == table_text(rows) + extra.push('\n'),
        single_lines(rows.push(extra)),
    decreases rows.len(),
{
    let more = rows.push(extra);
    assert forall|i: int| 0 <= i < more.len() implies !(#[trigger] more[i]).contains('\n') by {
        if i < rows.len() {
            assert(more[i] == rows[i]);
        }
    }
    if rows.len() > 0 {
        let rest = rows.skip(1);
        assert forall|i: int| 0 <= i < rest.len() implies !(#[trigger] rest[i]).contains('\n') by {
            assert(rest[i] == rows[i + 1]);
        }
        lemma_table_grows(rest, extra);
        assert(more.skip(1) =~= rest.push(extra));
        assert(table_text(more) =~= table_text(rows) + extra.push('\n'));
    } else {
        assert(more.skip(1) =~= Seq::<Seq<char>>::empty());
        assert(table_text(more.skip(1)) =~= Seq::<char>::empty());
        assert(table_text(more) =~= table_text(rows) + extra.push('\n'));
    }
}

/// Tables with the same rows have the same signature, in whatever order the
/// rows stand below the header and however often each is repeated.
pub proof fn law_row_order_is_ignored(
    header: Seq<char>,
    a4: Seq<Seq<char>>,
    b4: Seq<Seq<char>>,
    a6: Seq<Seq<char>>,
    b6: Seq<Seq<char>>,
)
    requires
        single_lines(seq![header] + a4),
        single_lines(seq![header] + b4),
        single_lines(a6),
        single_lines(b6),
        forall|row: Seq<char>| #[trigger] a4.contains(row) == b4.contains(row),
        forall|row: Seq<char>| #[trigger] a6.contains(row) == b6.contains(row),
    ensures
        signature_of(table_text(seq![header] + a4), table_text(a6)) == signature_of(
            table_text(seq![header] + b4),
            table_text(b6),
        ),
{
    let fa = ipv4_defaults(table_text(seq![header] + a4));
    let fb = ipv4_defaults(table_text(seq![header] + b4));
    assert forall|r: DefaultRouteView| #[trigger] fa.contains(r) == fb.contains(r) by {
        lemma_ipv4_table(header, a4, r);
        lemma_ipv4_table(header, b4, r);
        if ipv4_table_has(a4, r) {
            let i = choose|i: int|
                0 <= i < a4.len() && ipv4_route(row_line(#[trigger] a4[i])) == Some(r);
            assert(a4.contains(a4[i]));
            let j = b4.index_of(a4[i]);
            assert(b4[j] == a4[i]);
        }
        if ipv4_table_has(b4, r) {
            let i = choose|i: int|
                0 <= i < b4.len() && ipv4_route(row_line(#[trigger] b4[i])) == Some(r);
            assert(b4.contains(b4[i]));
            assert(a4.contains(b4[i]));
            let j = a4.index_of(b4[i]);
            assert(a4[j] == b4[i]);
        }
    }
    let sa = ipv6_defaults(table_text(a6));
    let sb = ipv6_defaults(table_text(b6));
    assert forall|r: DefaultRouteView| #[trigger] sa.contains(r) == sb.contains(r) by {
        lemma_ipv6_table(a6, r);
        lemma_ipv6_table(b6, r);
        if ipv6_table_has(a6, r) {
            let i = choose|i: int|
                0 <= i < a6.len() && ipv6_route(row_line(#[trigger] a6[i])) == Some(r);
            assert(a6.contains(a6[i]));
            let j = b6.index_of(a6[i]);
            assert(b6[j] == a6[i]);
        }
        if ipv6_table_has(b6, r) {
            let i = choose|i: int|
                0 <= i < b6.len() && ipv6_route(row_line(#[trigger] b6[i])) == Some(r);
            assert(b6.contains(b6[i]));
            assert(a6.contains(b6[i]));
            let j = a6.index_of(b6[i]);
            assert(a6[j] == b6[i]);
        }
    }
    lemma_same_best(fa, fb);
    lemma_same_best(sa, sb);
}

// ---------------------------------------------------------------------------
// Debouncing
// ---------------------------------------------------------------------------

/// Debounces transients and limits how often paths are rebuilt. Times are
/// milliseconds on a monotonic clock.
pub struct StableEgressObserver {
    stable_for: u64,
    cooldown: u64,
    baseline: Option<EgressSignature>,
    candidate: Option<(EgressSignature, u64)>,
    last_transition: Option<u64>,
}

#[verifier::ext_equal]
pub struct ObserverView {
    pub stable_for: u64,
    pub cooldown: u64,
    pub baseline: Option<SignatureView>,
    /// A signature that differs from the baseline, and since when.
    pub candidate: Option<(SignatureView, u64)>,
    pub last_transition: Option<u64>,
}

impl View for StableEgressObserver {
    type V = ObserverView;

    closed spec fn view(&self) -> ObserverView {
        ObserverView {
            stable_for: self.stable_for,
            cooldown: self.cooldown,
            baseline: crate::manifest::opt_view(self.baseline),
            candidate: match self.candidate {
                Some((s, t)) => Some((s@, t)),
                None => None,
            },
            last_transition: self.last_transition,
        }
    }
}

/// Time since an earlier moment; a later moment counts as now.
pub open spec fn elapsed(now: u64, then: u64) -> nat {
    if now >= then {
        (now - then) as nat
    } else {
        0
    }
}

pub open spec fn cooling(v: ObserverView, now: u64) -> bool {
    v.last_transition is Some && elapsed(now, v.last_transition->0) < v.cooldown
}

/// The observer after one more observation, and the transition that it
/// delivers. During the cool-down every change is folded into the baseline.
pub open spec fn observed(v: ObserverView, sig: SignatureView, now: u64) -> (
    ObserverView,
    Option<SignatureView>,
) {
    if v.baseline is None {
        (ObserverView { baseline: Some(sig), ..v }, None)
    } else if v.baseline == Some(sig) {
        (ObserverView { candidate: None, ..v }, None)
    } else if cooling(v, now) {
        (ObserverView { baseline: Some(sig), candidate: None, ..v }, None)
    } else if v.candidate is None || (v.candidate->0).0 != sig {
        (ObserverView { candidate: Some((sig, now)), ..v }, None)
    } else if elapsed(now, (v.candidate->0).1) < v.stable_for {
        (v, None)
    } else if sig.has_default() {
        (
            ObserverView {
                baseline: Some(sig),
                candidate: None,
                last_transition: Some(now),
                ..v
            },
            Some(sig),
        )
    } else {
        (ObserverView { baseline: Some(sig), candidate: None, ..v }, None)
    }
}

fn since(now: u64, then: u64) -> (r: u64)
    ensures
        r == elapsed(now, then),
{
    if now >= then {
        now - then
    } else {
        0
    }
}

impl StableEgressObserver {
    pub fn new(stable_for: u64, cooldown: u64) -> (r: Self)
        ensures
            r@ == (ObserverView {
                stable_for,
                cooldown,
                baseline: None,
                candidate: None,
                last_transition: None,
            }),
    {
        StableEgressObserver {
            stable_for,
            cooldown,
            baseline: None,
            candidate: None,
            last_transition: None,
        }
    }

    pub fn observe(&mut self, signature: EgressSignature, now: u64) -> (r: Option<EgressSignature>)
        ensures
            final(self)@ == observed(old(self)@, signature@, now).0,
            crate::manifest::opt_view(r) == observed(old(self)@, signature@, now).1,
    {
        let known = match &self.baseline {
            None => None,
            Some(b) => Some(same_signature(b, &signature)),
        };
        match known {
            None => {
                self.baseline = Some(signature);
                return None;
            },
            Some(unchanged) => {
                if unchanged {
                    self.candidate = None;
                    return None;
                }
            },
        }
        let cooling_down = match self.last_transition {
            Some(last) => since(now, last) < self.cooldown,
            None => false,
        };
        if cooling_down {
            self.baseline = Some(signature);
            self.candidate = None;
            return None;
        }
        let first_seen: u64 = match &self.candidate {
            Some((candidate, t)) => {
                if same_signature(candidate, &signature) {
                    *t
                } else {
                    self.candidate = Some((signature, now));
                    return None;
                }
            },
            None => {
                self.candidate = Some((signature, now));
                return None;
            },
        };
        if since(now, first_seen) < self.stable_for {
            return None;
        }
        self.candidate = None;
        self.baseline = Some(signature.dup());
        if signature.has_default_route() {
            self.last_transition = Some(now);
            Some(signature)
        } else {
            None
        }
    }
}

/// The observer after a series of observations.
pub open spec fn watched(v: ObserverView, seen: Seq<(SignatureView, u64)>) -> ObserverView
    decreases seen.len(),
{
    if seen.len() == 0 {
        v
    } else {
        let before = watched(v, seen.drop_last());
        observed(before, seen.last().0, seen.last().1).0
    }
}

/// The candidate has stood unchanged in every observation since its time.
pub open spec fn steady_since(seen: Seq<(SignatureView, u64)>, c: (SignatureView, u64)) -> bool {
    exists|k: int|
        0 <= k < seen.len() && #[trigger] seen[k] == c && forall|i: int|
            k <= i < seen.len() ==> (#[trigger] seen[i]).0 == c.0
}

/// A route-manager transient never rebuilds a path: what is delivered has
/// stood unchanged for the whole window, differs from the baseline, holds a
/// default route, and comes no sooner than the cool-down after the last one.
pub proof fn law_only_stable_transitions_are_delivered(
    v: ObserverView,
    seen: Seq<(SignatureView, u64)>,
    sig: SignatureView,
    now: u64,
)
    requires
        v.candidate is None,
        observed(watched(v, seen), sig, now).1 is Some,
    ensures
        observed(watched(v, seen), sig, now).1 == Some(sig),
        sig.has_default(),
        watched(v, seen).baseline != Some(sig),
        watched(v, seen).last_transition is Some ==> elapsed(
            now,
            watched(v, seen).last_transition->0,
        ) >= watched(v, seen).cooldown,
        exists|t: u64| #[trigger]
            steady_since(seen, (sig, t)) && elapsed(now, t) >= watched(v, seen).stable_for,
{
    lemma_candidate_is_steady(v, seen);
    let w = watched(v, seen);
    let t = (w.candidate->0).1;
    assert(steady_since(seen, (sig, t)));
}

proof fn lemma_candidate_is_steady(v: ObserverView, seen: Seq<(SignatureView, u64)>)
    requires
        v.candidate is None,
    ensures
        watched(v, seen).candidate is Some ==> steady_since(seen, watched(v, seen).candidate->0),
    decreases seen.len(),
{
    if seen.len() > 0 {
        let d = seen.drop_last();
        lemma_candidate_is_steady(v, d);
        let before = watched(v, d);
        let after = watched(v, seen);
        if after.candidate is Some {
            let c = after.candidate->0;
            if before.candidate == Some(c) && seen.last().0 == c.0 {
                let k = choose|k: int|
                    0 <= k < d.len() && #[trigger] d[k] == c && forall|i: int|
                        k <= i < d.len() ==> (#[trigger] d[i]).0 == c.0;
                assert(seen[k] == c);
                assert forall|i: int| k <= i < seen.len() implies (#[trigger] seen[i]).0 == c.0 by {
                    if i < d.len() {
                        assert(seen[i] == d[i]);
                    }
                }
            } else if before.baseline is None {
                assert(before.candidate is None || before.candidate == Some(c));
                lemma_no_candidate_without_baseline(v, d);
            } else {
                assert(seen[seen.len() - 1] == c);
            }
        }
    }
}

proof fn lemma_no_candidate_without_baseline(v: ObserverView, seen: Seq<(SignatureView, u64)>)
    requires
        v.candidate is None,
    ensures
        watched(v, seen).baseline is None ==> watched(v, seen).candidate is None,
    decreases seen.len(),
{
    if seen.len() > 0 {
        lemma_no_candidate_without_baseline(v, seen.drop_last());
    }
}

/// A row of the IPv4 table is a default route exactly where destination and
/// mask are zero, the route is up and its numbers can be read; the route is
/// then through its first column, by its third in lower case, at the decimal
/// metric of its seventh.
pub proof fn law_ipv4_row(line: Seq<char>)
    ensures
        ({
            let f = words(line);
            &&& ipv4_route(line) is Some <==> {
                &&& f.len() >= 8
                &&& f[1] == "00000000"@ && f[7] == "00000000"@
                &&& parsed(f[3], 16, u32::MAX as nat) matches Some(flags) && flags % 2 == 1
                &&& parsed(f[6], 10, u32::MAX as nat) is Some
            }
            &&& ipv4_route(line) matches Some(r) ==> r.interface == f[0] && r.gateway
                == ascii_lowercase(f[2]) && Some(r.metric as nat) == parsed(
                f[6],
                10,
                u32::MAX as nat,
            )
        }),
{
    let f = words(line);
    if f.len() >= 8 && parsed(f[3], 16, u32::MAX as nat) is Some {
        lemma_up(parsed(f[3], 16, u32::MAX as nat)->0);
    }
}

/// The same of the IPv6 table: destination and source are zero with no prefix,
/// the interface is in the last column, the gateway in the fifth, the metric,
/// in hexadecimal, in the sixth and the flags in the ninth.
pub proof fn law_ipv6_row(line: Seq<char>)
    ensures
        ({
            let f = words(line);
            let zero = "00000000000000000000000000000000"@;
            &&& ipv6_route(line) is Some <==> {
                &&& f.len() >= 10
                &&& f[0] == zero && f[1] == "00"@ && f[2] == zero && f[3] == "00"@
                &&& parsed(f[8], 16, u32::MAX as nat) matches Some(flags) && flags % 2 == 1
                &&& parsed(f[5], 16, u32::MAX as nat) is Some
            }
            &&& ipv6_route(line) matches Some(r) ==> r.interface == f[9] && r.gateway
                == ascii_lowercase(f[4]) && Some(r.metric as nat) == parsed(
                f[5],
                16,
                u32::MAX as nat,
            )
        }),
{
    let f = words(line);
    if f.len() >= 10 && parsed(f[8], 16, u32::MAX as nat) is Some {
        lemma_up(parsed(f[8], 16, u32::MAX as nat)->0);
    }
}

proof fn lemma_up(flags: nat)
    requires
        flags <= u32::MAX,
    ensures
        route_is_up(flags) <==> flags % 2 == 1,
{
    let x = flags as u32;
    assert(x & 1 == x % 2) by (bit_vector);
}

/// The signature holds, of each table, exactly the routes with the lowest
/// metric; it has a default route exactly where some table has a route.
pub proof fn law_signature_is_of_the_best_routes(
    ipv4: Seq<char>,
    ipv6: Seq<char>,
    r: DefaultRouteView,
)
    ensures
        signature_of(ipv4, ipv6).ipv4.contains(r) <==> is_best(ipv4_defaults(ipv4), r),
        signature_of(ipv4, ipv6).ipv6.contains(r) <==> is_best(ipv6_defaults(ipv6), r),
        ipv4_defaults(ipv4).contains(r) || ipv6_defaults(ipv6).contains(r) ==> signature_of(
            ipv4,
            ipv6,
        ).has_default(),
        signature_of(ipv4, ipv6).has_default() ==> ipv4_defaults(ipv4).len() > 0 || ipv6_defaults(
            ipv6,
        ).len() > 0,
{
    lemma_preferred(ipv4_defaults(ipv4));
    lemma_preferred(ipv6_defaults(ipv6));
    lemma_some_best(ipv4_defaults(ipv4));
    lemma_some_best(ipv6_defaults(ipv6));
    let s = signature_of(ipv4, ipv6);
    if s.ipv4.len() > 0 {
        assert(s.ipv4.contains(s.ipv4[0]));
    }
    if s.ipv6.len() > 0 {
        assert(s.ipv6.contains(s.ipv6[0]));
    }
}

proof fn lemma_some_best(routes: Seq<DefaultRouteView>)
    ensures
        routes.len() > 0 ==> preferred_of(routes).len() > 0,
{
    if routes.len() > 0 {
        lemma_preferred(routes);
        lemma_lowest(routes);
        let m = lowest(routes);
        let i = choose|i: int| 0 <= i < routes.len() && (#[trigger] routes[i]).metric == m;
        assert(is_best(routes, routes[i]));
        assert(preferred_of(routes).contains(routes[i]));
    }
}

/// The routes of a table are those that its rows read as.
pub proof fn law_table_routes(
    ls: Seq<Seq<char>>,
    read: spec_fn(Seq<char>) -> Option<DefaultRouteView>,
    r: DefaultRouteView,
)
    ensures
        table_routes(ls, read).contains(r) <==> exists|i: int|
            0 <= i < ls.len() && read(#[trigger] ls[i]) == Some(r),
    decreases ls.len(),
{
    if ls.len() > 0 {
        let d = ls.drop_last();
        law_table_routes(d, read, r);
        let before = table_routes(d, read);
        let all = table_routes(ls, read);
        if all.contains(r) {
            let k = all.index_of(r);
            if k < before.len() {
                assert(before[k] == r);
                assert(before.contains(r));
                let i = choose|i: int| 0 <= i < d.len() && read(#[trigger] d[i]) == Some(r);
                assert(ls[i] == d[i]);
            } else {
                assert(read(ls[ls.len() - 1]) == Some(r));
            }
        }
        if exists|i: int| 0 <= i < ls.len() && read(#[trigger] ls[i]) == Some(r) {
            let i = choose|i: int| 0 <= i < ls.len() && read(#[trigger] ls[i]) == Some(r);
            if i < d.len() {
                assert(d[i] == ls[i]);
                let k = before.index_of(r);
                assert(all[k] == r);
            } else {
                assert(all[all.len() - 1] == r);
            }
        }
    }
}

/// A new way out that has a default route and stays is delivered once it has
/// been seen for long enough, and then is what later ones are compared with;
/// the clock of the cooldown starts with it.
pub proof fn law_stable_transition_is_delivered(
    v: ObserverView,
    sig: SignatureView,
    first: u64,
    now: u64,
)
    requires
        v.baseline is Some,
        v.baseline != Some(sig),
        v.candidate is None || (v.candidate->0).0 != sig,
        v.last_transition is Some ==> v.last_transition->0 + v.cooldown <= first,
        first + v.stable_for <= now,
        sig.has_default(),
    ensures
        observed(v, sig, first).1 is None,
        observed(observed(v, sig, first).0, sig, now).1 == Some(sig),
        observed(observed(v, sig, first).0, sig, now).0.baseline == Some(sig),
        observed(observed(v, sig, first).0, sig, now).0.last_transition == Some(now),
        observed(observed(v, sig, first).0, sig, now).0.candidate is None,
{
}

/// What is not delivered: the first way out that is seen, which later ones are
/// compared with; the one in use, which also ends the wait for another; any
/// during the cooldown, which is taken over in silence; and the loss of the
/// default route, which is taken over in silence once it stays.
pub proof fn law_silent_observations(v: ObserverView, sig: SignatureView, now: u64)
    ensures
        v.baseline is None ==> observed(v, sig, now).1 is None && observed(v, sig, now).0.baseline
            == Some(sig),
        v.baseline == Some(sig) ==> observed(v, sig, now).1 is None && observed(
            v,
            sig,
            now,
        ).0.candidate is None && observed(v, sig, now).0.baseline == Some(sig),
        v.baseline is Some && v.last_transition is Some && v.cooldown > 0 && now
            < v.last_transition->0 + v.cooldown ==> observed(v, sig, now).1 is None && observed(v, sig, now).0.baseline == Some(sig)
            && observed(v, sig, now).0.last_transition == v.last_transition,
        !sig.has_default() ==> observed(v, sig, now).1 is None && observed(
            v,
            sig,
            now,
        ).0.last_transition == v.last_transition,
        observed(v, sig, now).0.stable_for == v.stable_for,
        observed(v, sig, now).0.cooldown == v.cooldown,
{
}

} // verus!
