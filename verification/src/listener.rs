//! The mixed-protocol listener: the current route of a class, what to do with
//! a connection, and traffic counters.

use vstd::prelude::*;

use crate::control::NodeTraffic;
use crate::digest::say;
use crate::names::{Model, NameMap};
use crate::peek::{classified, classify, InboundProto, PeekError};
use crate::text::{chars_of, decimal, decimal_text, opt_text, same};

verus! {

/// The current route of a class. The upstreams are the local ports of the
/// adapter; without them no path is established yet.
#[derive(Debug, PartialEq, Eq)]
pub struct ClassRoute {
    pub socks_upstream: Option<u16>,
    pub http_upstream: Option<u16>,
    pub node_name: String,
    pub generation: u64,
    /// The profile that owns the bytes of connections on this route.
    pub traffic_subscription: String,
}

#[verifier::ext_equal]
pub struct RouteView {
    pub socks_upstream: Option<u16>,
    pub http_upstream: Option<u16>,
    pub node_name: Seq<char>,
    pub generation: u64,
    pub traffic_subscription: Seq<char>,
}

impl View for ClassRoute {
    type V = RouteView;

    open spec fn view(&self) -> RouteView {
        RouteView {
            socks_upstream: self.socks_upstream,
            http_upstream: self.http_upstream,
            node_name: self.node_name@,
            generation: self.generation,
            traffic_subscription: self.traffic_subscription@,
        }
    }
}

impl Default for ClassRoute {
    fn default() -> (r: Self)
        ensures
            r@ == (RouteView {
                socks_upstream: None,
                http_upstream: None,
                node_name: Seq::empty(),
                generation: 0,
                traffic_subscription: Seq::empty(),
            }),
    {
        let r = ClassRoute {
            socks_upstream: None,
            http_upstream: None,
            node_name: String::new(),
            generation: 0,
            traffic_subscription: String::new(),
        };
        assert(r@.node_name =~= Seq::<char>::empty());
        assert(r@.traffic_subscription =~= Seq::<char>::empty());
        r
    }
}

/// A route after a path was published on it.
pub open spec fn published(
    r: RouteView,
    socks: u16,
    http: u16,
    node: Seq<char>,
    generation: u64,
    subscription: Seq<char>,
) -> RouteView {
    RouteView {
        socks_upstream: Some(socks),
        http_upstream: Some(http),
        node_name: node,
        generation,
        traffic_subscription: subscription,
    }
}

impl ClassRoute {
    /// Flip the route in one go: connections see the old path or the new one.
    pub fn publish(
        &mut self,
        socks: u16,
        http: u16,
        node: &str,
        generation: u64,
        subscription: &str,
    )
        ensures
            final(self)@ == published(
                old(self)@,
                socks,
                http,
                node@,
                generation,
                subscription@,
            ),
    {
        self.socks_upstream = Some(socks);
        self.http_upstream = Some(http);
        self.node_name = node.to_string();
        self.generation = generation;
        self.traffic_subscription = subscription.to_string();
    }
}

// ---------------------------------------------------------------------------
// One connection
// ---------------------------------------------------------------------------

/// The first byte of a connection.
#[derive(Debug, Clone, Copy, PartialEq, Eq, Structural)]
pub enum FirstByte {
    Byte(u8),
    Closed,
    TimedOut,
}

/// What happens to a connection.
#[derive(Debug, PartialEq, Eq)]
pub enum ConnectionPlan<T = String> {
    /// Pipe to the local port; the bytes belong to this node and profile.
    Pipe { port: u16, node: T, subscription: T },
    /// Answer with a readable refusal.
    BadGateway,
    /// Close; SOCKS5 has no error frame for this.
    Drop,
}

pub open spec fn upstream_of(r: RouteView, proto: InboundProto) -> Option<u16> {
    match proto {
        InboundProto::Socks5 => r.socks_upstream,
        InboundProto::Http => r.http_upstream,
    }
}

pub open spec fn planned(first: FirstByte, r: RouteView) -> Result<
    ConnectionPlan<Seq<char>>,
    PeekError,
> {
    match first {
        FirstByte::TimedOut => Err(PeekError::Timeout),
        FirstByte::Closed => Err(PeekError::Eof),
        FirstByte::Byte(b) => match classified(b) {
            Err(e) => Err(e),
            Ok(proto) => match upstream_of(r, proto) {
                Some(port) => Ok(
                    ConnectionPlan::Pipe {
                        port,
                        node: r.node_name,
                        subscription: r.traffic_subscription,
                    },
                ),
                None => if proto == InboundProto::Http {
                    Ok(ConnectionPlan::BadGateway)
                } else {
                    Ok(ConnectionPlan::Drop)
                },
            },
        },
    }
}

pub open spec fn plan_view(p: Result<ConnectionPlan, PeekError>) -> Result<
    ConnectionPlan<Seq<char>>,
    PeekError,
> {
    match p {
        Ok(ConnectionPlan::Pipe { port, node, subscription }) => Ok(
            ConnectionPlan::Pipe { port, node: node@, subscription: subscription@ },
        ),
        Ok(ConnectionPlan::BadGateway) => Ok(ConnectionPlan::BadGateway),
        Ok(ConnectionPlan::Drop) => Ok(ConnectionPlan::Drop),
        Err(e) => Err(e),
    }
}

/// Upstream and attribution are taken from one reading of the route, so a
/// switch in between cannot mix them.
pub fn plan_connection(first: FirstByte, route: &ClassRoute) -> (r: Result<
    ConnectionPlan,
    PeekError,
>)
    ensures
        plan_view(r) == planned(first, route@),
{
    let byte: u8 = match first {
        FirstByte::TimedOut => return Err(PeekError::Timeout),
        FirstByte::Closed => return Err(PeekError::Eof),
        FirstByte::Byte(b) => b,
    };
    let proto = match classify(byte) {
        Ok(p) => p,
        Err(e) => return Err(e),
    };
    let upstream = match proto {
        InboundProto::Socks5 => route.socks_upstream,
        InboundProto::Http => route.http_upstream,
    };
    match upstream {
        Some(port) => Ok(
            ConnectionPlan::Pipe {
                port,
                node: route.node_name.clone(),
                subscription: route.traffic_subscription.clone(),
            },
        ),
        None => if proto == InboundProto::Http {
            Ok(ConnectionPlan::BadGateway)
        } else {
            Ok(ConnectionPlan::Drop)
        },
    }
}

pub open spec fn bad_gateway_body() -> Seq<char> {
    "CAUSEWAY: no active upstream node yet (failover in progress)\n"@
}

pub open spec fn bad_gateway_text() -> Seq<char> {
    "HTTP/1.1 502 Bad Gateway\r\nContent-Type: text/plain\r\nContent-Length: "@ + decimal(
        bad_gateway_body().len(),
    ) + "\r\nConnection: close\r\n\r\n"@ + bad_gateway_body()
}

/// The answer to an HTTP client while no path is established.
pub fn bad_gateway() -> (r: String)
    ensures
        r@ == bad_gateway_text(),
{
    let body = "CAUSEWAY: no active upstream node yet (failover in progress)\n";
    let n: usize = chars_of(body).len();
    let mut s =
        "HTTP/1.1 502 Bad Gateway\r\nContent-Type: text/plain\r\nContent-Length: ".to_string();
    let d = decimal_text(n as u64);
    say(&mut s, d.as_str());
    say(&mut s, "\r\nConnection: close\r\n\r\n");
    say(&mut s, body);
    s
}

// ---------------------------------------------------------------------------
// Traffic
// ---------------------------------------------------------------------------

/// Cumulative bytes per node, for one profile at a time.
pub struct TrafficCounters {
    subscription: Option<String>,
    nodes: NameMap<NodeTraffic>,
}

#[verifier::ext_equal]
pub struct TrafficView {
    pub subscription: Option<Seq<char>>,
    pub nodes: Map<Seq<char>, NodeTraffic>,
}

impl View for TrafficCounters {
    type V = TrafficView;

    closed spec fn view(&self) -> TrafficView {
        TrafficView { subscription: opt_text(self.subscription), nodes: self.nodes@ }
    }
}

pub open spec fn saturated(a: u64, b: u64) -> u64 {
    if a + b > u64::MAX {
        u64::MAX
    } else {
        (a + b) as u64
    }
}

pub open spec fn counted(n: NodeTraffic, up: u64, down: u64) -> NodeTraffic {
    NodeTraffic { up: saturated(n.up, up), down: saturated(n.down, down) }
}

/// Bytes count only for the profile that is selected.
pub open spec fn traffic_added(
    t: TrafficView,
    subscription: Seq<char>,
    node: Seq<char>,
    up: u64,
    down: u64,
) -> TrafficView {
    if t.subscription != Some(subscription) {
        t
    } else {
        let so_far = if t.nodes.contains_key(node) {
            t.nodes[node]
        } else {
            NodeTraffic { up: 0, down: 0 }
        };
        TrafficView { nodes: t.nodes.insert(node, counted(so_far, up, down)), ..t }
    }
}

/// Another profile starts from nothing.
pub open spec fn traffic_selected(t: TrafficView, subscription: Seq<char>) -> TrafficView {
    if t.subscription == Some(subscription) {
        t
    } else {
        TrafficView { subscription: Some(subscription), nodes: Map::empty() }
    }
}

impl Default for TrafficCounters {
    fn default() -> (r: Self)
        ensures
            r@ == (TrafficView { subscription: None, nodes: Map::empty() }),
    {
        TrafficCounters { subscription: None, nodes: NameMap::new() }
    }
}

fn plus(a: u64, b: u64) -> (r: u64)
    ensures
        r == saturated(a, b),
{
    if a > u64::MAX - b {
        u64::MAX
    } else {
        a + b
    }
}

impl TrafficCounters {
    fn is_selected(&self, subscription: &str) -> (b: bool)
        ensures
            b == (self@.subscription == Some(subscription@)),
    {
        match &self.subscription {
            Some(s) => same(s.as_str(), subscription),
            None => false,
        }
    }

    pub fn add(&mut self, subscription: &str, node: &str, up: u64, down: u64)
        ensures
            final(self)@ == traffic_added(old(self)@, subscription@, node@, up, down),
    {
        if !self.is_selected(subscription) {
            return;
        }
        let so_far = match self.nodes.get(node) {
            Some(n) => *n,
            None => NodeTraffic { up: 0, down: 0 },
        };
        let entry = NodeTraffic { up: plus(so_far.up, up), down: plus(so_far.down, down) };
        self.nodes.insert(node.to_string(), entry);
    }

    pub fn snapshot(&self) -> (r: NameMap<NodeTraffic>)
        ensures
            r@ == self@.nodes,
    {
        self.nodes.dup()
    }

    /// Different profiles may reuse a node name for different endpoints, so
    /// the counters start anew with every change of profile.
    pub fn select_subscription(&mut self, subscription: &str)
        ensures
            final(self)@ == traffic_selected(old(self)@, subscription@),
    {
        if !self.is_selected(subscription) {
            self.nodes = NameMap::new();
            self.subscription = Some(subscription.to_string());
        }
    }
}

/// Bytes of a connection that outlives its profile never reach the counters
/// of the next one.
pub proof fn law_retired_profile_counts_nothing(
    t: TrafficView,
    retired: Seq<char>,
    current: Seq<char>,
    node: Seq<char>,
    up: u64,
    down: u64,
)
    requires
        retired != current,
    ensures
        traffic_added(traffic_selected(t, current), retired, node, up, down) == traffic_selected(
            t,
            current,
        ),
{
}

/// After a path was published on a route, a connection that begins with the
/// SOCKS5 byte goes to the SOCKS port of that path and one that begins with an
/// ASCII letter to its HTTP port, both booked on that node and profile; any
/// other first byte is refused.
pub proof fn law_connections_reach_the_published_ports(
    r: RouteView,
    socks: u16,
    http: u16,
    node: Seq<char>,
    generation: u64,
    subscription: Seq<char>,
    b: u8,
)
    ensures
        ({
            let route = published(r, socks, http, node, generation, subscription);
            let plan = planned(FirstByte::Byte(b), route);
            &&& b == 5 ==> plan == Ok::<ConnectionPlan<Seq<char>>, PeekError>(
                ConnectionPlan::Pipe { port: socks, node, subscription },
            )
            &&& (65 <= b <= 90 || 97 <= b <= 122) ==> plan == Ok::<
                ConnectionPlan<Seq<char>>,
                PeekError,
            >(ConnectionPlan::Pipe { port: http, node, subscription })
            &&& !(b == 5 || 65 <= b <= 90 || 97 <= b <= 122) ==> plan == Err::<
                ConnectionPlan<Seq<char>>,
                PeekError,
            >(PeekError::Unknown(b))
            &&& route.generation == generation
        }),
{
}

/// Without an upstream an HTTP client gets an answer and a SOCKS5 client is
/// dropped. A client that sends nothing is refused, whatever the route.
pub proof fn law_connections_without_a_path(r: RouteView, b: u8)
    ensures
        r.socks_upstream is None && b == 5 ==> planned(FirstByte::Byte(b), r) == Ok::<
            ConnectionPlan<Seq<char>>,
            PeekError,
        >(ConnectionPlan::Drop),
        r.http_upstream is None && (65 <= b <= 90 || 97 <= b <= 122) ==> planned(
            FirstByte::Byte(b),
            r,
        ) == Ok::<ConnectionPlan<Seq<char>>, PeekError>(ConnectionPlan::BadGateway),
        planned(FirstByte::Closed, r) == Err::<ConnectionPlan<Seq<char>>, PeekError>(
            PeekError::Eof,
        ),
        planned(FirstByte::TimedOut, r) == Err::<ConnectionPlan<Seq<char>>, PeekError>(
            PeekError::Timeout,
        ),
{
}

/// Bytes of the selected profile add up on their node, up to the largest
/// number, and on no other; a change of profile forgets all counts, and
/// selecting the profile that is selected already forgets none.
pub proof fn law_traffic_adds_up(
    t: TrafficView,
    subscription: Seq<char>,
    node: Seq<char>,
    other: Seq<char>,
    up: u64,
    down: u64,
)
    requires
        t.subscription == Some(subscription),
        other != node,
    ensures
        ({
            let a = traffic_added(t, subscription, node, up, down);
            let had = t.nodes.contains_key(node);
            let u = if had {
                t.nodes[node].up as int
            } else {
                0
            };
            let d = if had {
                t.nodes[node].down as int
            } else {
                0
            };
            &&& a.nodes.contains_key(node)
            &&& u + up <= u64::MAX ==> a.nodes[node].up == u + up
            &&& u + up > u64::MAX ==> a.nodes[node].up == u64::MAX
            &&& d + down <= u64::MAX ==> a.nodes[node].down == d + down
            &&& d + down > u64::MAX ==> a.nodes[node].down == u64::MAX
            &&& a.nodes.contains_key(other) == t.nodes.contains_key(other)
            &&& t.nodes.contains_key(other) ==> a.nodes[other] == t.nodes[other]
            &&& a.subscription == t.subscription
        }),
        traffic_selected(t, subscription) == t,
        other != subscription ==> traffic_selected(t, other).nodes.dom() == Set::<
            Seq<char>,
        >::empty() && traffic_selected(t, other).subscription == Some(other),
{
    assert(traffic_selected(t, other).nodes.dom() =~= Set::<Seq<char>>::empty() || other
        == subscription);
}

} // verus!
