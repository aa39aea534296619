//! Adapters: how a node is made reachable on two local ports. A Shadowsocks
//! node is served by an `sslocal` process, an AnyTLS node by a `sing-box`
//! process; both get a generated configuration and the same readiness test.

use std::sync::Arc;

use vstd::prelude::*;

use crate::digest::say;
use crate::json::{
    json_array, json_bool, json_object, json_port, json_pretty, json_text, json_tree, json_trees,
    new_members, no_members, put, write_pretty, JsonTree,
};
use crate::node::{plugin_opts, AnytlsNode, AnytlsNodeView, Node, NodeView, SsNode, SsNodeView};
use crate::text::{
    decimal, decimal_text, hex_digits, hex_text, line_seq, lines, listed, opt_text, same,
    split_whitespace, texts, words,
};
use crate::workspace::{AdapterWorkspace, WorkspaceView};

verus! {

// ---------------------------------------------------------------------------
// Local endpoints
// ---------------------------------------------------------------------------

/// An IPv4 address and a port.
#[derive(Debug, Clone, Copy, PartialEq, Eq, Structural)]
pub struct Endpoint {
    pub a: u8,
    pub b: u8,
    pub c: u8,
    pub d: u8,
    pub port: u16,
}

/// The address in dotted form.
pub open spec fn dotted(e: Endpoint) -> Seq<char> {
    decimal(e.a as nat) + "."@ + decimal(e.b as nat) + "."@ + decimal(e.c as nat) + "."@ + decimal(
        e.d as nat,
    )
}

pub open spec fn loopback_at(port: u16) -> Endpoint {
    Endpoint { a: 127, b: 0, c: 0, d: 1, port }
}

impl Endpoint {
    /// A port of 127.0.0.1.
    pub fn loopback(port: u16) -> (r: Self)
        ensures
            r == loopback_at(port),
    {
        Endpoint { a: 127, b: 0, c: 0, d: 1, port }
    }

    pub fn ip_text(&self) -> (r: String)
        ensures
            r@ == dotted(*self),
    {
        let mut s = decimal_text(self.a as u64);
        say(&mut s, ".");
        let b = decimal_text(self.b as u64);
        say(&mut s, b.as_str());
        say(&mut s, ".");
        let c = decimal_text(self.c as u64);
        say(&mut s, c.as_str());
        say(&mut s, ".");
        let d = decimal_text(self.d as u64);
        say(&mut s, d.as_str());
        s
    }
}

/// Two local ports, the second of another number than the first.
#[derive(Debug, PartialEq, Eq)]
pub struct LoopbackPortPair {
    socks_addr: Endpoint,
    http_addr: Endpoint,
}

pub struct PairView {
    pub socks_addr: Endpoint,
    pub http_addr: Endpoint,
}

impl View for LoopbackPortPair {
    type V = PairView;

    closed spec fn view(&self) -> PairView {
        PairView { socks_addr: self.socks_addr, http_addr: self.http_addr }
    }
}

impl LoopbackPortPair {
    #[verifier::type_invariant]
    spec fn distinct(self) -> bool {
        self.socks_addr != self.http_addr
    }

    pub fn socks_addr(&self) -> (r: Endpoint)
        ensures
            r == self@.socks_addr,
    {
        self.socks_addr
    }

    pub fn http_addr(&self) -> (r: Endpoint)
        ensures
            r == self@.http_addr,
    {
        self.http_addr
    }

    /// Give the ports to an adapter. They are never the same.
    pub fn release(self) -> (r: (Endpoint, Endpoint))
        ensures
            r == (self@.socks_addr, self@.http_addr),
            r.0 != r.1,
    {
        proof {
            use_type_invariant(&self);
        }
        (self.socks_addr, self.http_addr)
    }
}

/// Attempts at two distinct ports.
pub const RESERVE_ATTEMPTS: u32 = 8;

/// How asking for two ports went.
#[derive(Debug, PartialEq, Eq)]
pub enum PortOffer<T = String> {
    /// A socket could not be bound; asking again may help.
    Unbound(T),
    /// A bound socket would not tell its address.
    Unnamed(T),
    Bound(Endpoint, Endpoint),
}

pub open spec fn offer_view(o: PortOffer) -> PortOffer<Seq<char>> {
    match o {
        PortOffer::Unbound(e) => PortOffer::Unbound(e@),
        PortOffer::Unnamed(e) => PortOffer::Unnamed(e@),
        PortOffer::Bound(s, h) => PortOffer::Bound(s, h),
    }
}

/// What follows an offer.
#[derive(Debug, PartialEq, Eq)]
pub enum PortStep {
    Reserved(LoopbackPortPair),
    Again,
    Failed(String),
}

pub enum PortStepView {
    Reserved(PairView),
    Again,
    Failed(Seq<char>),
}

impl View for PortStep {
    type V = PortStepView;

    open spec fn view(&self) -> PortStepView {
        match self {
            PortStep::Reserved(p) => PortStepView::Reserved(p@),
            PortStep::Again => PortStepView::Again,
            PortStep::Failed(e) => PortStepView::Failed(e@),
        }
    }
}

/// The search for two distinct ports: how often it has asked, and the last
/// reason that a socket could not be bound.
#[derive(Debug, PartialEq, Eq)]
pub struct PortSearch {
    pub asked: u32,
    pub last_error: Option<String>,
}

pub struct PortSearchView {
    pub asked: u32,
    pub last_error: Option<Seq<char>>,
}

impl View for PortSearch {
    type V = PortSearchView;

    open spec fn view(&self) -> PortSearchView {
        PortSearchView { asked: self.asked, last_error: opt_text(self.last_error) }
    }
}

pub open spec fn after_offer(s: PortSearchView, o: PortOffer<Seq<char>>) -> PortSearchView {
    PortSearchView {
        asked: (s.asked + 1) as u32,
        last_error: match o {
            PortOffer::Unbound(e) => Some(e),
            _ => s.last_error,
        },
    }
}

pub open spec fn offered(s: PortSearchView, o: PortOffer<Seq<char>>) -> PortStepView {
    let next = after_offer(s, o);
    match o {
        PortOffer::Bound(socks, http) if socks != http => PortStepView::Reserved(
            PairView { socks_addr: socks, http_addr: http },
        ),
        PortOffer::Unnamed(e) => PortStepView::Failed(e),
        _ => if next.asked < RESERVE_ATTEMPTS {
            PortStepView::Again
        } else {
            PortStepView::Failed(
                "reserve two distinct loopback adapter ports: "@ + match next.last_error {
                    Some(e) => e,
                    None => "no distinct ports"@,
                },
            )
        },
    }
}

impl PortSearch {
    pub fn new() -> (r: Self)
        ensures
            r@ == (PortSearchView { asked: 0, last_error: None }),
    {
        PortSearch { asked: 0, last_error: None }
    }

    /// Take an offer.
    pub fn offer(&mut self, offer: PortOffer) -> (r: PortStep)
        requires
            old(self)@.asked < RESERVE_ATTEMPTS,
        ensures
            final(self)@ == after_offer(old(self)@, offer_view(offer)),
            r@ == offered(old(self)@, offer_view(offer)),
    {
        self.asked = self.asked + 1;
        match offer {
            PortOffer::Unnamed(e) => return PortStep::Failed(e),
            PortOffer::Bound(socks, http) => {
                if socks != http {
                    return PortStep::Reserved(
                        LoopbackPortPair { socks_addr: socks, http_addr: http },
                    );
                }
            },
            PortOffer::Unbound(e) => {
                self.last_error = Some(e);
            },
        }
        if self.asked < RESERVE_ATTEMPTS {
            PortStep::Again
        } else {
            let mut s = "reserve two distinct loopback adapter ports: ".to_string();
            match &self.last_error {
                Some(e) => say(&mut s, e.as_str()),
                None => say(&mut s, "no distinct ports"),
            }
            PortStep::Failed(s)
        }
    }
}

/// What an adapter is started with: a node, and the ports reserved for it.
#[derive(Debug, PartialEq, Eq)]
pub struct StartSpec {
    pub node: Node,
    ports: LoopbackPortPair,
}

pub struct StartView {
    pub node: NodeView,
    pub ports: PairView,
}

impl View for StartSpec {
    type V = StartView;

    closed spec fn view(&self) -> StartView {
        StartView { node: self.node@, ports: self.ports@ }
    }
}

impl StartSpec {
    pub fn reserve(node: Node, ports: LoopbackPortPair) -> (r: Self)
        ensures
            r@ == (StartView { node: node@, ports: ports@ }),
    {
        StartSpec { node, ports }
    }

    pub fn socks_addr(&self) -> (r: Endpoint)
        ensures
            r == self@.ports.socks_addr,
    {
        self.ports.socks_addr
    }

    pub fn http_addr(&self) -> (r: Endpoint)
        ensures
            r == self@.ports.http_addr,
    {
        self.ports.http_addr
    }

    pub fn into_parts(self) -> (r: (Node, LoopbackPortPair))
        ensures
            self@ == (StartView { node: r.0@, ports: r.1@ }),
    {
        (self.node, self.ports)
    }
}

// ---------------------------------------------------------------------------
// Adapter configurations
// ---------------------------------------------------------------------------

/// One local of an `sslocal` configuration.
pub open spec fn local_members(
    node: SsNodeView,
    at: Endpoint,
    protocol: Seq<char>,
    obfs_bin: Seq<char>,
) -> Map<Seq<char>, JsonTree> {
    let base = no_members().insert("local_address"@, JsonTree::Text(dotted(at))).insert(
        "local_port"@,
        JsonTree::Number(decimal(at.port as nat)),
    ).insert("protocol"@, JsonTree::Text(protocol)).insert(
        "server"@,
        JsonTree::Text(node.server),
    ).insert("server_port"@, JsonTree::Number(decimal(node.port as nat))).insert(
        "password"@,
        JsonTree::Text(node.password),
    ).insert("method"@, JsonTree::Text(node.cipher)).insert("mode"@, JsonTree::Text("tcp_only"@));
    match node.plugin {
        None => base,
        Some(obfs) => base.insert("plugin"@, JsonTree::Text(obfs_bin)).insert(
            "plugin_opts"@,
            JsonTree::Text(plugin_opts(obfs)),
        ),
    }
}

/// The configuration of an `sslocal` process: one process with two locals,
/// both for the same node.
pub open spec fn sslocal_tree(
    node: SsNodeView,
    socks: Endpoint,
    http: Endpoint,
    obfs_bin: Seq<char>,
) -> JsonTree {
    JsonTree::Object(
        no_members().insert(
            "locals"@,
            JsonTree::Array(
                seq![
                    JsonTree::Object(local_members(node, socks, "socks"@, obfs_bin)),
                    JsonTree::Object(local_members(node, http, "http"@, obfs_bin)),
                ],
            ),
        ),
    )
}

fn sslocal_local(node: &SsNode, at: Endpoint, protocol: &str, obfs_bin: &str) -> (r:
    serde_json::Value)
    ensures
        json_tree(r) == JsonTree::Object(local_members(node@, at, protocol@, obfs_bin@)),
{
    let mut m = new_members();
    let ip = at.ip_text();
    put(&mut m, "local_address", json_text(ip.as_str()));
    put(&mut m, "local_port", json_port(at.port));
    put(&mut m, "protocol", json_text(protocol));
    put(&mut m, "server", json_text(node.server.as_str()));
    put(&mut m, "server_port", json_port(node.port));
    put(&mut m, "password", json_text(node.password.as_str()));
    put(&mut m, "method", json_text(node.cipher.as_str()));
    put(&mut m, "mode", json_text("tcp_only"));
    if let Some(obfs) = &node.plugin {
        put(&mut m, "plugin", json_text(obfs_bin));
        let opts = obfs.to_plugin_opts();
        put(&mut m, "plugin_opts", json_text(opts.as_str()));
    }
    json_object(m)
}

/// Build the configuration of an `sslocal` process.
pub fn build_sslocal_config(
    node: &SsNode,
    socks_addr: Endpoint,
    http_addr: Endpoint,
    obfs_bin: &str,
) -> (r: serde_json::Value)
    ensures
        json_tree(r) == sslocal_tree(node@, socks_addr, http_addr, obfs_bin@),
{
    let mut locals: Vec<serde_json::Value> = Vec::new();
    locals.push(sslocal_local(node, socks_addr, "socks", obfs_bin));
    locals.push(sslocal_local(node, http_addr, "http", obfs_bin));
    let ghost made = json_trees(locals@);
    let mut m = new_members();
    put(&mut m, "locals", json_array(locals));
    proof {
        let wanted = seq![
            JsonTree::Object(local_members(node@, socks_addr, "socks"@, obfs_bin@)),
            JsonTree::Object(local_members(node@, http_addr, "http"@, obfs_bin@)),
        ];
        assert(made =~= wanted);
    }
    json_object(m)
}

/// A node with an obfuscation plugin gets it on both locals, a node without
/// one on neither.
pub proof fn law_plugin_on_both_locals(
    node: SsNodeView,
    at: Endpoint,
    protocol: Seq<char>,
    obfs_bin: Seq<char>,
)
    ensures
        match node.plugin {
            Some(obfs) => {
                let m = local_members(node, at, protocol, obfs_bin);
                &&& m.contains_key("plugin"@)
                &&& m["plugin"@] == JsonTree::Text(obfs_bin)
                &&& m.contains_key("plugin_opts"@)
                &&& m["plugin_opts"@] == JsonTree::Text(plugin_opts(obfs))
            },
            None => {
                let m = local_members(node, at, protocol, obfs_bin);
                !m.contains_key("plugin"@) && !m.contains_key("plugin_opts"@)
            },
        },
{
    reveal_strlit("plugin");
    reveal_strlit("plugin_opts");
    reveal_strlit("local_address");
    reveal_strlit("local_port");
    reveal_strlit("protocol");
    reveal_strlit("server");
    reveal_strlit("server_port");
    reveal_strlit("password");
    reveal_strlit("method");
    reveal_strlit("mode");
    assert("plugin"@.len() == 6 && "plugin_opts"@.len() == 11);
    assert("server"@[0] != "plugin"@[0]);
    assert("server_port"@[0] != "plugin_opts"@[0]);
    assert("local_address"@[0] != "plugin"@[0]);
    assert("method"@[0] != "plugin"@[0]);
    assert("mode"@[0] != "plugin"@[0]);
    assert("protocol"@[1] != "plugin"@[1]);
    assert("password"@[1] != "plugin"@[1]);
}

/// One inbound of a `sing-box` configuration.
pub open spec fn inbound_members(at: Endpoint, protocol: Seq<char>) -> Map<Seq<char>, JsonTree> {
    no_members().insert("type"@, JsonTree::Text(protocol)).insert(
        "tag"@,
        JsonTree::Text(protocol + "-in"@),
    ).insert("listen"@, JsonTree::Text(dotted(at))).insert(
        "listen_port"@,
        JsonTree::Number(decimal(at.port as nat)),
    )
}

pub open spec fn text_array(items: Seq<Seq<char>>) -> JsonTree {
    JsonTree::Array(items.map_values(|t: Seq<char>| JsonTree::Text(t)))
}

pub open spec fn alpn_of(node: AnytlsNodeView) -> Seq<Seq<char>> {
    match node.alpn {
        Some(list) => list,
        None => seq!["h2"@, "http/1.1"@],
    }
}

pub open spec fn fingerprint_of(node: AnytlsNodeView) -> Seq<char> {
    match node.client_fingerprint {
        Some(f) => f,
        None => "chrome"@,
    }
}

pub open spec fn tls_members(node: AnytlsNodeView) -> Map<Seq<char>, JsonTree> {
    let base = no_members().insert("enabled"@, JsonTree::Bool(true)).insert(
        "alpn"@,
        text_array(alpn_of(node)),
    ).insert(
        "utls"@,
        JsonTree::Object(
            no_members().insert("enabled"@, JsonTree::Bool(true)).insert(
                "fingerprint"@,
                JsonTree::Text(fingerprint_of(node)),
            ),
        ),
    );
    let named = match node.sni {
        Some(sni) => base.insert("server_name"@, JsonTree::Text(sni)),
        None => base,
    };
    if node.skip_cert_verify {
        named.insert("insecure"@, JsonTree::Bool(true))
    } else {
        named
    }
}

pub open spec fn outbound_members(node: AnytlsNodeView) -> Map<Seq<char>, JsonTree> {
    no_members().insert("type"@, JsonTree::Text("anytls"@)).insert(
        "tag"@,
        JsonTree::Text("out"@),
    ).insert("server"@, JsonTree::Text(node.server)).insert(
        "server_port"@,
        JsonTree::Number(decimal(node.port as nat)),
    ).insert("password"@, JsonTree::Text(node.password)).insert(
        "tls"@,
        JsonTree::Object(tls_members(node)),
    )
}

/// The members of a `sing-box` configuration: two inbounds, one outbound, and
/// a route that sends everything to it.
pub open spec fn singbox_members(node: AnytlsNodeView, socks: Endpoint, http: Endpoint) -> Map<
    Seq<char>,
    JsonTree,
> {
    no_members().insert(
        "log"@,
        JsonTree::Object(no_members().insert("level"@, JsonTree::Text("warn"@))),
    ).insert(
        "inbounds"@,
        JsonTree::Array(
            seq![
                JsonTree::Object(inbound_members(socks, "socks"@)),
                JsonTree::Object(inbound_members(http, "http"@)),
            ],
        ),
    ).insert(
        "outbounds"@,
        JsonTree::Array(seq![JsonTree::Object(outbound_members(node))]),
    ).insert(
        "route"@,
        JsonTree::Object(
            no_members().insert("auto_detect_interface"@, JsonTree::Bool(false)).insert(
                "final"@,
                JsonTree::Text("out"@),
            ),
        ),
    )
}

fn inbound(at: Endpoint, protocol: &str) -> (r: serde_json::Value)
    ensures
        json_tree(r) == JsonTree::Object(inbound_members(at, protocol@)),
{
    let mut m = new_members();
    put(&mut m, "type", json_text(protocol));
    let mut tag = protocol.to_string();
    say(&mut tag, "-in");
    put(&mut m, "tag", json_text(tag.as_str()));
    let ip = at.ip_text();
    put(&mut m, "listen", json_text(ip.as_str()));
    put(&mut m, "listen_port", json_port(at.port));
    json_object(m)
}

fn text_list(items: &Vec<String>) -> (r: serde_json::Value)
    ensures
        json_tree(r) == text_array(texts(items@)),
{
    let mut out: Vec<serde_json::Value> = Vec::new();
    let mut i: usize = 0;
    while i < items.len()
        invariant
            i <= items@.len(),
            out@.len() == i,
            forall|j: int|
                0 <= j < i ==> json_tree(#[trigger] out@[j]) == JsonTree::Text(items@[j]@),
        decreases items@.len() - i,
    {
        out.push(json_text(items[i].as_str()));
        i = i + 1;
    }
    proof {
        let wanted = texts(items@).map_values(|t: Seq<char>| JsonTree::Text(t));
        assert(json_trees(out@) =~= wanted);
    }
    json_array(out)
}

fn tls_part(node: &AnytlsNode) -> (r: serde_json::Value)
    ensures
        json_tree(r) == JsonTree::Object(tls_members(node@)),
{
    let mut m = new_members();
    put(&mut m, "enabled", json_bool(true));
    match &node.alpn {
        Some(list) => {
            put(&mut m, "alpn", text_list(list));
        },
        None => {
            let mut list: Vec<String> = Vec::new();
            list.push("h2".to_string());
            list.push("http/1.1".to_string());
            assert(texts(list@) =~= seq!["h2"@, "http/1.1"@]);
            put(&mut m, "alpn", text_list(&list));
        },
    }
    let mut utls = new_members();
    put(&mut utls, "enabled", json_bool(true));
    match &node.client_fingerprint {
        Some(f) => put(&mut utls, "fingerprint", json_text(f.as_str())),
        None => put(&mut utls, "fingerprint", json_text("chrome")),
    }
    put(&mut m, "utls", json_object(utls));
    if let Some(sni) = &node.sni {
        put(&mut m, "server_name", json_text(sni.as_str()));
    }
    if node.skip_cert_verify {
        put(&mut m, "insecure", json_bool(true));
    }
    json_object(m)
}

/// Build the configuration of a `sing-box` process.
pub fn build_singbox_config(node: &AnytlsNode, socks_addr: Endpoint, http_addr: Endpoint) -> (r:
    serde_json::Value)
    ensures
        json_tree(r) == JsonTree::Object(singbox_members(node@, socks_addr, http_addr)),
{
    let mut log = new_members();
    put(&mut log, "level", json_text("warn"));
    let mut inbounds: Vec<serde_json::Value> = Vec::new();
    inbounds.push(inbound(socks_addr, "socks"));
    inbounds.push(inbound(http_addr, "http"));
    let mut out = new_members();
    put(&mut out, "type", json_text("anytls"));
    put(&mut out, "tag", json_text("out"));
    put(&mut out, "server", json_text(node.server.as_str()));
    put(&mut out, "server_port", json_port(node.port));
    put(&mut out, "password", json_text(node.password.as_str()));
    put(&mut out, "tls", tls_part(node));
    let mut outbounds: Vec<serde_json::Value> = Vec::new();
    outbounds.push(json_object(out));
    let mut route = new_members();
    put(&mut route, "auto_detect_interface", json_bool(false));
    put(&mut route, "final", json_text("out"));
    proof {
        assert(json_trees(inbounds@) =~= seq![
            JsonTree::Object(inbound_members(socks_addr, "socks"@)),
            JsonTree::Object(inbound_members(http_addr, "http"@)),
        ]);
        assert(json_trees(outbounds@) =~= seq![JsonTree::Object(outbound_members(node@))]);
    }
    let mut m = new_members();
    put(&mut m, "log", json_object(log));
    put(&mut m, "inbounds", json_array(inbounds));
    put(&mut m, "outbounds", json_array(outbounds));
    put(&mut m, "route", json_object(route));
    json_object(m)
}

/// Whatever a node says, the `sing-box` configuration has these four members
/// alone: it listens as a SOCKS and an HTTP proxy, has one AnyTLS outbound,
/// and neither resolves names nor touches the routes of the host.
pub proof fn law_singbox_never_captures_the_host(
    node: AnytlsNodeView,
    socks: Endpoint,
    http: Endpoint,
)
    ensures
        singbox_members(node, socks, http).dom() == set![
            "log"@,
            "inbounds"@,
            "outbounds"@,
            "route"@,
        ],
        singbox_members(node, socks, http)["inbounds"@] == JsonTree::Array(
            seq![
                JsonTree::Object(inbound_members(socks, "socks"@)),
                JsonTree::Object(inbound_members(http, "http"@)),
            ],
        ),
        inbound_members(socks, "socks"@)["type"@] == JsonTree::Text("socks"@),
        inbound_members(http, "http"@)["type"@] == JsonTree::Text("http"@),
        singbox_members(node, socks, http)["outbounds"@] == JsonTree::Array(
            seq![JsonTree::Object(outbound_members(node))],
        ),
        singbox_members(node, socks, http)["route"@] == JsonTree::Object(
            no_members().insert("auto_detect_interface"@, JsonTree::Bool(false)).insert(
                "final"@,
                JsonTree::Text("out"@),
            ),
        ),
{
    reveal_strlit("log");
    reveal_strlit("inbounds");
    reveal_strlit("outbounds");
    reveal_strlit("route");
    reveal_strlit("type");
    reveal_strlit("tag");
    reveal_strlit("listen");
    reveal_strlit("listen_port");
    assert("type"@[0] == 't' && "listen"@[0] == 'l' && "listen_port"@[0] == 'l');
    assert("type"@.len() == 4 && "tag"@.len() == 3);
    assert("inbounds"@.len() == 8 && "outbounds"@.len() == 9 && "route"@.len() == 5);
    assert(singbox_members(node, socks, http).dom() =~= set![
        "log"@,
        "inbounds"@,
        "outbounds"@,
        "route"@,
    ]);
}

// ---------------------------------------------------------------------------
// Planes
// ---------------------------------------------------------------------------

/// How long an adapter may take to accept connections, in milliseconds.
pub const READY_TIMEOUT_MS: u64 = 10_000;

/// How long a readiness test waits before the next one, in milliseconds.
pub const READY_POLL_MS: u64 = 100;

/// How long a killed adapter may take to exit, in milliseconds.
pub const CHILD_KILL_TIMEOUT_MS: u64 = 3_000;

/// The program that serves a node.
#[derive(Debug, Clone, Copy, PartialEq, Eq, Structural)]
pub enum Adapter {
    Sslocal,
    Singbox,
}

impl Adapter {
    pub open spec fn label(self) -> Seq<char> {
        match self {
            Adapter::Sslocal => "sslocal"@,
            Adapter::Singbox => "sing-box"@,
        }
    }

    /// The name of the program.
    pub fn name(&self) -> (r: &'static str)
        ensures
            r@ == self.label(),
    {
        match self {
            Adapter::Sslocal => "sslocal",
            Adapter::Singbox => "sing-box",
        }
    }

    /// The front of the names of its configuration files.
    pub fn config_prefix(&self) -> (r: &'static str)
        ensures
            r@ == (match *self {
                Adapter::Sslocal => "sslocal"@,
                Adapter::Singbox => "singbox"@,
            }),
    {
        match self {
            Adapter::Sslocal => "sslocal",
            Adapter::Singbox => "singbox",
        }
    }
}

/// The adapter of a node.
pub open spec fn adapter_of(node: NodeView) -> Adapter {
    match node {
        NodeView::Ss(_) => Adapter::Sslocal,
        NodeView::Anytls(_) => Adapter::Singbox,
    }
}

/// The variables that could send an adapter's own traffic through a proxy,
/// back to this daemon. Every adapter is started without them.
pub fn proxy_env_vars() -> (r: Vec<String>)
    ensures
        texts(r@) == seq![
            "HTTP_PROXY"@,
            "HTTPS_PROXY"@,
            "ALL_PROXY"@,
            "NO_PROXY"@,
            "http_proxy"@,
            "https_proxy"@,
            "all_proxy"@,
            "no_proxy"@,
        ],
{
    let mut r: Vec<String> = Vec::new();
    r.push("HTTP_PROXY".to_string());
    r.push("HTTPS_PROXY".to_string());
    r.push("ALL_PROXY".to_string());
    r.push("NO_PROXY".to_string());
    r.push("http_proxy".to_string());
    r.push("https_proxy".to_string());
    r.push("all_proxy".to_string());
    r.push("no_proxy".to_string());
    assert(texts(r@) =~= seq![
        "HTTP_PROXY"@,
        "HTTPS_PROXY"@,
        "ALL_PROXY"@,
        "NO_PROXY"@,
        "http_proxy"@,
        "https_proxy"@,
        "all_proxy"@,
        "no_proxy"@,
    ]);
    r
}

/// Why an adapter is not started.
#[derive(Debug, PartialEq, Eq)]
pub enum StartFault<T = String> {
    /// The plane does not serve nodes of this kind.
    WrongNode { adapter: Adapter, kind: T },
    NoBinary { adapter: Adapter, bin: T },
    NoPlugin { node: T, bin: T },
    /// The configuration could not be written.
    Encode,
}

pub open spec fn start_fault_view(f: StartFault) -> StartFault<Seq<char>> {
    match f {
        StartFault::WrongNode { adapter, kind } => StartFault::WrongNode { adapter, kind: kind@ },
        StartFault::NoBinary { adapter, bin } => StartFault::NoBinary { adapter, bin: bin@ },
        StartFault::NoPlugin { node, bin } => StartFault::NoPlugin { node: node@, bin: bin@ },
        StartFault::Encode => StartFault::Encode,
    }
}

pub open spec fn start_fault_text(f: StartFault<Seq<char>>) -> Seq<char> {
    match f {
        StartFault::WrongNode { adapter, kind } => adapter.label() + " plane only serves "@ + (
        match adapter {
            Adapter::Sslocal => "ss"@,
            Adapter::Singbox => "anytls"@,
        }) + " nodes (got "@ + kind + ")"@,
        StartFault::NoBinary { adapter, bin } => adapter.label() + " does not exist: "@ + bin + (
        match adapter {
            Adapter::Sslocal => " (run scripts/install-dataplane.sh first)"@,
            Adapter::Singbox => " (set singbox_bin in the config)"@,
        }),
        StartFault::NoPlugin { node, bin } => "node "@ + node
            + " requires the simple-obfs plugin, but the binary does not exist: "@ + bin
            + " (run scripts/install-plugin.sh first)"@,
        StartFault::Encode => "encode adapter config"@,
    }
}

impl StartFault {
    pub fn message(&self) -> (r: String)
        ensures
            r@ == start_fault_text(start_fault_view(*self)),
    {
        match self {
            StartFault::WrongNode { adapter, kind } => {
                let mut s = adapter.name().to_string();
                say(&mut s, " plane only serves ");
                match adapter {
                    Adapter::Sslocal => say(&mut s, "ss"),
                    Adapter::Singbox => say(&mut s, "anytls"),
                }
                say(&mut s, " nodes (got ");
                say(&mut s, kind.as_str());
                say(&mut s, ")");
                s
            },
            StartFault::NoBinary { adapter, bin } => {
                let mut s = adapter.name().to_string();
                say(&mut s, " does not exist: ");
                say(&mut s, bin.as_str());
                match adapter {
                    Adapter::Sslocal => say(&mut s, " (run scripts/install-dataplane.sh first)"),
                    Adapter::Singbox => say(&mut s, " (set singbox_bin in the config)"),
                }
                s
            },
            StartFault::NoPlugin { node, bin } => {
                let mut s = "node ".to_string();
                say(&mut s, node.as_str());
                say(
                    &mut s,
                    " requires the simple-obfs plugin, but the binary does not exist: ",
                );
                say(&mut s, bin.as_str());
                say(&mut s, " (run scripts/install-plugin.sh first)");
                s
            },
            StartFault::Encode => "encode adapter config".to_string(),
        }
    }
}

/// How to start an adapter: the program, its arguments up to the path of the
/// configuration file, and what the file holds.
#[derive(Debug, PartialEq, Eq)]
pub struct StartPlan {
    pub adapter: Adapter,
    pub bin: String,
    pub arguments: Vec<String>,
    pub config: Vec<u8>,
}

pub struct StartPlanView {
    pub adapter: Adapter,
    pub bin: Seq<char>,
    pub arguments: Seq<Seq<char>>,
    pub config: Seq<u8>,
}

impl View for StartPlan {
    type V = StartPlanView;

    open spec fn view(&self) -> StartPlanView {
        StartPlanView {
            adapter: self.adapter,
            bin: self.bin@,
            arguments: texts(self.arguments@),
            config: self.config@,
        }
    }
}

pub open spec fn start_view(r: Result<StartPlan, StartFault>) -> Result<
    StartPlanView,
    StartFault<Seq<char>>,
> {
    match r {
        Ok(p) => Ok(p@),
        Err(f) => Err(start_fault_view(f)),
    }
}

/// The adapter for Shadowsocks nodes.
pub struct SslocalPlane {
    bin: String,
    workspace: Arc<AdapterWorkspace>,
    /// Needed only by nodes with plugin parameters.
    obfs_plugin_bin: String,
    ready_timeout_ms: u64,
}

pub struct SslocalView {
    pub bin: Seq<char>,
    pub workspace: WorkspaceView,
    pub obfs_plugin_bin: Seq<char>,
    pub ready_timeout_ms: u64,
}

impl View for SslocalPlane {
    type V = SslocalView;

    closed spec fn view(&self) -> SslocalView {
        SslocalView {
            bin: self.bin@,
            workspace: self.workspace@,
            obfs_plugin_bin: self.obfs_plugin_bin@,
            ready_timeout_ms: self.ready_timeout_ms,
        }
    }
}

/// The configuration of an `sslocal` process as its file holds it.
pub open spec fn sslocal_start(p: SslocalView, s: StartView, bin_exists: bool, obfs_exists: bool) -> Result<
    StartPlanView,
    StartFault<Seq<char>>,
> {
    match s.node {
        NodeView::Anytls(_) => Err(
            StartFault::WrongNode { adapter: Adapter::Sslocal, kind: s.node.kind() },
        ),
        NodeView::Ss(node) => if !bin_exists {
            Err(StartFault::NoBinary { adapter: Adapter::Sslocal, bin: p.bin })
        } else if node.plugin is Some && !obfs_exists {
            Err(StartFault::NoPlugin { node: node.name, bin: p.obfs_plugin_bin })
        } else {
            match json_pretty(
                sslocal_tree(node, s.ports.socks_addr, s.ports.http_addr, p.obfs_plugin_bin),
            ) {
                Some(config) => Ok(
                    StartPlanView {
                        adapter: Adapter::Sslocal,
                        bin: p.bin,
                        arguments: seq!["-c"@],
                        config,
                    },
                ),
                None => Err(StartFault::Encode),
            }
        },
    }
}

impl SslocalPlane {
    pub fn new(bin: String, workspace: Arc<AdapterWorkspace>, obfs_plugin_bin: String) -> (r: Self)
        ensures
            r@ == (SslocalView {
                bin: bin@,
                workspace: workspace@,
                obfs_plugin_bin: obfs_plugin_bin@,
                ready_timeout_ms: READY_TIMEOUT_MS,
            }),
    {
        SslocalPlane { bin, workspace, obfs_plugin_bin, ready_timeout_ms: READY_TIMEOUT_MS }
    }

    pub fn obfs_plugin_bin(&self) -> (r: &str)
        ensures
            r@ == self@.obfs_plugin_bin,
    {
        self.obfs_plugin_bin.as_str()
    }

    pub fn bin(&self) -> (r: &str)
        ensures
            r@ == self@.bin,
    {
        self.bin.as_str()
    }

    /// How to start an `sslocal` process, given which programs are there.
    pub fn start(&self, spec: &StartSpec, bin_exists: bool, obfs_exists: bool) -> (r: Result<
        StartPlan,
        StartFault,
    >)
        ensures
            start_view(r) == sslocal_start(self@, spec@, bin_exists, obfs_exists),
    {
        let node = match &spec.node {
            Node::Ss(node) => node,
            Node::Anytls(_) => return Err(
                StartFault::WrongNode {
                    adapter: Adapter::Sslocal,
                    kind: spec.node.kind().to_string(),
                },
            ),
        };
        if !bin_exists {
            return Err(
                StartFault::NoBinary { adapter: Adapter::Sslocal, bin: self.bin.clone() },
            );
        }
        if node.plugin.is_some() && !obfs_exists {
            return Err(
                StartFault::NoPlugin { node: node.name.clone(), bin: self.obfs_plugin_bin.clone() },
            );
        }
        let config = build_sslocal_config(
            node,
            spec.socks_addr(),
            spec.http_addr(),
            self.obfs_plugin_bin.as_str(),
        );
        match write_pretty(&config) {
            Ok(bytes) => {
                let mut arguments: Vec<String> = Vec::new();
                arguments.push("-c".to_string());
                assert(texts(arguments@) =~= seq!["-c"@]);
                Ok(
                    StartPlan {
                        adapter: Adapter::Sslocal,
                        bin: self.bin.clone(),
                        arguments,
                        config: bytes,
                    },
                )
            },
            Err(_) => Err(StartFault::Encode),
        }
    }
}

/// The adapter for AnyTLS nodes.
pub struct SingboxPlane {
    bin: String,
    workspace: Arc<AdapterWorkspace>,
    ready_timeout_ms: u64,
}

pub struct SingboxView {
    pub bin: Seq<char>,
    pub workspace: WorkspaceView,
    pub ready_timeout_ms: u64,
}

impl View for SingboxPlane {
    type V = SingboxView;

    closed spec fn view(&self) -> SingboxView {
        SingboxView {
            bin: self.bin@,
            workspace: self.workspace@,
            ready_timeout_ms: self.ready_timeout_ms,
        }
    }
}

pub open spec fn singbox_start(p: SingboxView, s: StartView, bin_exists: bool) -> Result<
    StartPlanView,
    StartFault<Seq<char>>,
> {
    match s.node {
        NodeView::Ss(_) => Err(
            StartFault::WrongNode { adapter: Adapter::Singbox, kind: s.node.kind() },
        ),
        NodeView::Anytls(node) => if !bin_exists {
            Err(StartFault::NoBinary { adapter: Adapter::Singbox, bin: p.bin })
        } else {
            match json_pretty(
                JsonTree::Object(singbox_members(node, s.ports.socks_addr, s.ports.http_addr)),
            ) {
                Some(config) => Ok(
                    StartPlanView {
                        adapter: Adapter::Singbox,
                        bin: p.bin,
                        arguments: seq!["run"@, "-c"@],
                        config,
                    },
                ),
                None => Err(StartFault::Encode),
            }
        },
    }
}

impl SingboxPlane {
    pub fn new(bin: String, workspace: Arc<AdapterWorkspace>) -> (r: Self)
        ensures
            r@ == (SingboxView {
                bin: bin@,
                workspace: workspace@,
                ready_timeout_ms: READY_TIMEOUT_MS,
            }),
    {
        SingboxPlane { bin, workspace, ready_timeout_ms: READY_TIMEOUT_MS }
    }

    pub fn bin(&self) -> (r: &str)
        ensures
            r@ == self@.bin,
    {
        self.bin.as_str()
    }

    /// How to start a `sing-box` process, given whether the program is there.
    pub fn start(&self, spec: &StartSpec, bin_exists: bool) -> (r: Result<StartPlan, StartFault>)
        ensures
            start_view(r) == singbox_start(self@, spec@, bin_exists),
    {
        let node = match &spec.node {
            Node::Anytls(node) => node,
            Node::Ss(_) => return Err(
                StartFault::WrongNode {
                    adapter: Adapter::Singbox,
                    kind: spec.node.kind().to_string(),
                },
            ),
        };
        if !bin_exists {
            return Err(
                StartFault::NoBinary { adapter: Adapter::Singbox, bin: self.bin.clone() },
            );
        }
        let config = build_singbox_config(node, spec.socks_addr(), spec.http_addr());
        match write_pretty(&config) {
            Ok(bytes) => {
                let mut arguments: Vec<String> = Vec::new();
                arguments.push("run".to_string());
                arguments.push("-c".to_string());
                assert(texts(arguments@) =~= seq!["run"@, "-c"@]);
                Ok(
                    StartPlan {
                        adapter: Adapter::Singbox,
                        bin: self.bin.clone(),
                        arguments,
                        config: bytes,
                    },
                )
            },
            Err(_) => Err(StartFault::Encode),
        }
    }
}

/// Both adapters, so that callers need not know a node's protocol.
pub struct DispatchPlane {
    ss: SslocalPlane,
    singbox: SingboxPlane,
    workspace: Arc<AdapterWorkspace>,
}

pub struct DispatchView {
    pub ss: SslocalView,
    pub singbox: SingboxView,
    pub workspace: WorkspaceView,
}

impl View for DispatchPlane {
    type V = DispatchView;

    closed spec fn view(&self) -> DispatchView {
        DispatchView { ss: self.ss@, singbox: self.singbox@, workspace: self.workspace@ }
    }
}

/// Which of the programs exist.
#[derive(Debug, Clone, Copy, PartialEq, Eq, Structural)]
pub struct Programs {
    pub sslocal: bool,
    pub obfs_plugin: bool,
    pub singbox: bool,
}

pub open spec fn dispatched(p: DispatchView, s: StartView, there: Programs) -> Result<
    StartPlanView,
    StartFault<Seq<char>>,
> {
    match s.node {
        NodeView::Ss(_) => sslocal_start(p.ss, s, there.sslocal, there.obfs_plugin),
        NodeView::Anytls(_) => singbox_start(p.singbox, s, there.singbox),
    }
}

impl DispatchPlane {
    pub fn new(ss: SslocalPlane, singbox: SingboxPlane, workspace: Arc<AdapterWorkspace>) -> (r:
        Self)
        ensures
            r@ == (DispatchView { ss: ss@, singbox: singbox@, workspace: workspace@ }),
    {
        DispatchPlane { ss, singbox, workspace }
    }

    pub fn workspace(&self) -> (r: &AdapterWorkspace)
        ensures
            r@ == self@.workspace,
    {
        &self.workspace
    }

    pub fn ss(&self) -> (r: &SslocalPlane)
        ensures
            r@ == self@.ss,
    {
        &self.ss
    }

    pub fn singbox(&self) -> (r: &SingboxPlane)
        ensures
            r@ == self@.singbox,
    {
        &self.singbox
    }

    /// How to start the adapter that serves the node.
    pub fn start(&self, spec: &StartSpec, there: Programs) -> (r: Result<StartPlan, StartFault>)
        ensures
            start_view(r) == dispatched(self@, spec@, there),
    {
        match &spec.node {
            Node::Ss(_) => self.ss.start(spec, there.sslocal, there.obfs_plugin),
            Node::Anytls(_) => self.singbox.start(spec, there.singbox),
        }
    }
}

/// A start request always reaches the adapter of the node's own protocol.
pub proof fn law_dispatch_follows_the_protocol(p: DispatchView, s: StartView, there: Programs)
    ensures
        match dispatched(p, s, there) {
            Ok(plan) => plan.adapter == adapter_of(s.node),
            Err(f) => !(f is WrongNode),
        },
{
}

// ---------------------------------------------------------------------------
// Readiness
// ---------------------------------------------------------------------------

/// Whether a started adapter still runs.
#[derive(Debug, PartialEq, Eq)]
pub enum ChildState<T = String> {
    Running,
    /// It exited; its status as text.
    Exited(T),
    Unknown(T),
}

pub open spec fn child_view(c: ChildState) -> ChildState<Seq<char>> {
    match c {
        ChildState::Running => ChildState::Running,
        ChildState::Exited(s) => ChildState::Exited(s@),
        ChildState::Unknown(e) => ChildState::Unknown(e@),
    }
}

/// What one readiness test leads to.
#[derive(Debug, PartialEq, Eq)]
pub enum ReadyStep<T = String> {
    Ready,
    Wait,
    /// Stop the adapter and report this.
    Failed(T),
}

pub open spec fn ready_view(c: ReadyStep) -> ReadyStep<Seq<char>> {
    match c {
        ReadyStep::Ready => ReadyStep::Ready,
        ReadyStep::Wait => ReadyStep::Wait,
        ReadyStep::Failed(e) => ReadyStep::Failed(e@),
    }
}

pub open spec fn exit_hint(adapter: Adapter) -> Seq<char> {
    match adapter {
        Adapter::Sslocal => " (check whether the cipher/password is supported)"@,
        Adapter::Singbox => " (check the node fields)"@,
    }
}

/// A test that found both ports served by the adapter ends the wait. One that
/// failed, an adapter that exited, and the deadline end it with an error.
pub open spec fn readiness_of(
    adapter: Adapter,
    node: Seq<char>,
    ready: Result<bool, Seq<char>>,
    child: ChildState<Seq<char>>,
    timed_out: bool,
) -> ReadyStep<Seq<char>> {
    match ready {
        Ok(true) => ReadyStep::Ready,
        Err(e) => ReadyStep::Failed(
            "verify "@ + adapter.label() + " listener ownership: "@ + e,
        ),
        Ok(false) => match child {
            ChildState::Exited(status) => ReadyStep::Failed(
                adapter.label() + " exited immediately after start ("@ + status + "), node "@
                    + node + exit_hint(adapter),
            ),
            ChildState::Unknown(e) => ReadyStep::Failed(
                "query "@ + adapter.label() + " during readiness: "@ + e,
            ),
            ChildState::Running => if timed_out {
                ReadyStep::Failed(adapter.label() + " port readiness timed out (10s)"@)
            } else {
                ReadyStep::Wait
            },
        },
    }
}

pub fn readiness(
    adapter: Adapter,
    node: &str,
    ready: Result<bool, String>,
    child: ChildState,
    timed_out: bool,
) -> (r: ReadyStep)
    ensures
        ready_view(r) == readiness_of(
            adapter,
            node@,
            (match ready {
                Ok(b) => Ok(b),
                Err(e) => Err(e@),
            }),
            child_view(child),
            timed_out,
        ),
{
    match ready {
        Ok(true) => ReadyStep::Ready,
        Err(e) => {
            let mut s = "verify ".to_string();
            say(&mut s, adapter.name());
            say(&mut s, " listener ownership: ");
            say(&mut s, e.as_str());
            ReadyStep::Failed(s)
        },
        Ok(false) => match child {
            ChildState::Exited(status) => {
                let mut s = adapter.name().to_string();
                say(&mut s, " exited immediately after start (");
                say(&mut s, status.as_str());
                say(&mut s, "), node ");
                say(&mut s, node);
                match adapter {
                    Adapter::Sslocal => say(
                        &mut s,
                        " (check whether the cipher/password is supported)",
                    ),
                    Adapter::Singbox => say(&mut s, " (check the node fields)"),
                }
                ReadyStep::Failed(s)
            },
            ChildState::Unknown(e) => {
                let mut s = "query ".to_string();
                say(&mut s, adapter.name());
                say(&mut s, " during readiness: ");
                say(&mut s, e.as_str());
                ReadyStep::Failed(s)
            },
            ChildState::Running => if timed_out {
                let mut s = adapter.name().to_string();
                say(&mut s, " port readiness timed out (10s)");
                ReadyStep::Failed(s)
            } else {
                ReadyStep::Wait
            },
        },
    }
}

// ---------------------------------------------------------------------------
// Ownership of the listening ports
// ---------------------------------------------------------------------------

/// An address as `/proc/net/tcp` prints it: the address word and the port,
/// both in upper-case hexadecimal digits.
pub open spec fn kernel_address(word: u32, port: u16) -> Seq<char> {
    hex_digits(word as nat, 8, true) + ":"@ + hex_digits(port as nat, 4, true)
}

/// The two addresses an adapter must listen on. `word` is the IPv4 address as
/// the machine reads its four bytes.
pub fn wanted_listeners(word: u32, socks_port: u16, http_port: u16) -> (r: Vec<String>)
    ensures
        texts(r@) == seq![kernel_address(word, socks_port), kernel_address(word, http_port)],
{
    let mut a = hex_text(word as u64, 8, true);
    say(&mut a, ":");
    let p = hex_text(socks_port as u64, 4, true);
    say(&mut a, p.as_str());
    let mut b = hex_text(word as u64, 8, true);
    say(&mut b, ":");
    let q = hex_text(http_port as u64, 4, true);
    say(&mut b, q.as_str());
    let mut r: Vec<String> = Vec::new();
    r.push(a);
    r.push(b);
    assert(texts(r@) =~= seq![kernel_address(word, socks_port), kernel_address(word, http_port)]);
    r
}

/// A line of `/proc/net/tcp` that shows a socket listening on one of the
/// wanted addresses, with this inode.
pub open spec fn listens(line: Seq<char>, wanted: Set<Seq<char>>, inode: Seq<char>) -> bool {
    let fields = words(line);
    fields.len() > 9 && fields[3] == "0A"@ && wanted.contains(fields[1]) && fields[9] == inode
}

/// The inodes of the sockets that listen on the wanted addresses. The first
/// line of the table is its heading.
pub open spec fn listening(table: Seq<Seq<char>>, wanted: Set<Seq<char>>) -> Set<Seq<char>> {
    Set::new(
        |inode: Seq<char>|
            exists|k: int| 1 <= k < table.len() && listens(#[trigger] table[k], wanted, inode),
    )
}

/// The descriptor link of a socket.
pub open spec fn socket_link(inode: Seq<char>) -> Seq<char> {
    "socket:["@ + inode + "]"@
}

/// Every wanted address is listened on, and all those sockets are among the
/// process's descriptors.
pub open spec fn owns(table: Seq<Seq<char>>, wanted: Set<Seq<char>>, links: Seq<Seq<char>>) -> bool {
    &&& listening(table, wanted).len() == wanted.len()
    &&& forall|inode: Seq<char>| #[trigger]
        listening(table, wanted).contains(inode) ==> links.contains(socket_link(inode))
}

fn push_new(v: &mut Vec<String>, s: &str)
    requires
        texts(old(v)@).no_duplicates(),
    ensures
        texts(final(v)@).no_duplicates(),
        texts(final(v)@).to_set() == texts(old(v)@).to_set().insert(s@),
{
    let ghost before = texts(v@);
    if listed(v, s) {
        assert(before.to_set().insert(s@) =~= before.to_set());
    } else {
        v.push(s.to_string());
        let ghost after = texts(v@);
        proof {
            assert(after =~= before.push(s@));
            assert forall|x: Seq<char>| after.to_set().contains(x) == before.to_set().insert(
                s@,
            ).contains(x) by {
                if after.contains(x) {
                    let i = after.index_of(x);
                    if i < before.len() {
                        assert(before[i] == x);
                    }
                }
                if before.contains(x) {
                    let i = before.index_of(x);
                    assert(after[i] == x);
                }
                assert(after[before.len() as int] == s@);
            }
            assert(after.to_set() =~= before.to_set().insert(s@));
        }
    }
}

/// The distinct inodes that the table shows listening on the wanted
/// addresses.
fn listening_inodes(table: &Vec<String>, wanted: &Vec<String>) -> (r: Vec<String>)
    ensures
        texts(r@).no_duplicates(),
        texts(r@).to_set() == listening(texts(table@), texts(wanted@).to_set()),
{
    let ghost t = texts(table@);
    let ghost w = texts(wanted@).to_set();
    let mut out: Vec<String> = Vec::new();
    let n: usize = table.len();
    let mut k: usize = if n > 0 {
        1
    } else {
        0
    };
    proof {
        assert(texts(out@) =~= Seq::empty());
        assert(listening(t.take(k as int), w) =~= Set::empty());
        assert(texts(out@).to_set() =~= listening(t.take(k as int), w));
    }
    while k < n
        invariant
            k <= n,
            n > 0 ==> k >= 1,
            n == table@.len(),
            t == texts(table@),
            w == texts(wanted@).to_set(),
            texts(out@).no_duplicates(),
            texts(out@).to_set() == listening(t.take(k as int), w),
        decreases n - k,
    {
        let fields = split_whitespace(table[k].as_str());
        let ghost fs = words(t[k as int]);
        let ghost before = listening(t.take(k as int), w);
        let ghost after = listening(t.take(k + 1), w);
        proof {
            assert(t[k as int] == table@[k as int]@);
            assert(texts(fields@) == fs);
            assert forall|x: Seq<char>| after.contains(x) == (before.contains(x) || listens(
                t[k as int],
                w,
                x,
            )) by {
                let a = t.take(k + 1);
                let b = t.take(k as int);
                if after.contains(x) {
                    let j = choose|j: int| 1 <= j < a.len() && listens(#[trigger] a[j], w, x);
                    if j < k {
                        assert(b[j] == a[j]);
                    }
                }
                if before.contains(x) {
                    let j = choose|j: int| 1 <= j < b.len() && listens(#[trigger] b[j], w, x);
                    assert(a[j] == b[j]);
                }
                if listens(t[k as int], w, x) {
                    assert(a[k as int] == t[k as int]);
                }
            }
        }
        let mut shown = false;
        if fields.len() > 9 {
            assert(fs[3] == fields@[3]@ && fs[1] == fields@[1]@ && fs[9] == fields@[9]@);
            if same(fields[3].as_str(), "0A") && listed(wanted, fields[1].as_str()) {
                shown = true;
                push_new(&mut out, fields[9].as_str());
                assert(after =~= before.insert(fs[9]));
            }
        }
        if !shown {
            assert(after =~= before);
        }
        k = k + 1;
    }
    assert(t.take(n as int) =~= t);
    out
}

/// Do both listening sockets belong to the process whose descriptor links
/// these are?
pub fn child_owns_listeners(tcp: &str, wanted: &Vec<String>, links: &Vec<String>) -> (r: bool)
    ensures
        r == owns(line_seq(tcp@), texts(wanted@).to_set(), texts(links@)),
{
    let table = lines(tcp);
    let inodes = listening_inodes(&table, wanted);
    let ghost ls = listening(line_seq(tcp@), texts(wanted@).to_set());
    let mut distinct: Vec<String> = Vec::new();
    let mut i: usize = 0;
    let ghost w = texts(wanted@);
    proof {
        assert(texts(distinct@) =~= Seq::empty());
        assert(texts(distinct@).to_set() =~= w.take(0).to_set());
    }
    while i < wanted.len()
        invariant
            i <= wanted@.len(),
            w == texts(wanted@),
            texts(distinct@).no_duplicates(),
            texts(distinct@).to_set() == w.take(i as int).to_set(),
        decreases wanted@.len() - i,
    {
        push_new(&mut distinct, wanted[i].as_str());
        proof {
            let a = w.take(i + 1);
            let b = w.take(i as int);
            assert(a =~= b.push(w[i as int]));
            assert forall|x: Seq<char>| a.to_set().contains(x) == b.to_set().insert(
                w[i as int],
            ).contains(x) by {
                if a.contains(x) {
                    let j = a.index_of(x);
                    if j < i {
                        assert(b[j] == x);
                    }
                }
                if b.contains(x) {
                    let j = b.index_of(x);
                    assert(a[j] == x);
                }
                assert(a[i as int] == w[i as int]);
            }
            assert(a.to_set() =~= b.to_set().insert(w[i as int]));
        }
        i = i + 1;
    }
    proof {
        assert(w.take(w.len() as int) =~= w);
        texts(inodes@).unique_seq_to_set();
        texts(distinct@).unique_seq_to_set();
        assert(texts(inodes@).len() == inodes@.len());
        assert(texts(distinct@).len() == distinct@.len());
    }
    if inodes.len() != distinct.len() {
        return false;
    }
    let mut k: usize = 0;
    while k < inodes.len()
        invariant
            k <= inodes@.len(),
            texts(inodes@).to_set() == ls,
            ls == listening(line_seq(tcp@), texts(wanted@).to_set()),
            forall|j: int|
                0 <= j < k ==> texts(links@).contains(socket_link(#[trigger] texts(inodes@)[j])),
        decreases inodes@.len() - k,
    {
        let mut link = "socket:[".to_string();
        say(&mut link, inodes[k].as_str());
        say(&mut link, "]");
        assert(link@ == socket_link(texts(inodes@)[k as int]));
        if !listed(links, link.as_str()) {
            assert(texts(inodes@).contains(texts(inodes@)[k as int]));
            assert(ls.contains(texts(inodes@)[k as int]));
            return false;
        }
        k = k + 1;
    }
    assert forall|inode: Seq<char>| #[trigger] ls.contains(inode) implies texts(links@).contains(
        socket_link(inode),
    ) by {
        let j = texts(inodes@).index_of(inode);
        assert(texts(inodes@)[j] == inode);
    }
    true
}

// ---------------------------------------------------------------------------
// Running adapters
// ---------------------------------------------------------------------------

/// `Some(42)` or `None`.
pub open spec fn pid_words(pid: Option<u32>) -> Seq<char> {
    match pid {
        Some(n) => "Some("@ + decimal(n as nat) + ")"@,
        None => "None"@,
    }
}

pub open spec fn description(
    adapter: Adapter,
    node: Seq<char>,
    socks_port: u16,
    http_port: u16,
    pid: Option<u32>,
) -> Seq<char> {
    adapter.label() + "["@ + node + "] socks="@ + decimal(socks_port as nat) + " http="@ + decimal(
        http_port as nat,
    ) + " pid="@ + pid_words(pid)
}

/// One line that tells a running adapter apart.
pub fn describe(adapter: Adapter, node: &str, socks_port: u16, http_port: u16, pid: Option<u32>) -> (r:
    String)
    ensures
        r@ == description(adapter, node@, socks_port, http_port, pid),
{
    let mut s = adapter.name().to_string();
    say(&mut s, "[");
    say(&mut s, node);
    say(&mut s, "] socks=");
    let a = decimal_text(socks_port as u64);
    say(&mut s, a.as_str());
    say(&mut s, " http=");
    let b = decimal_text(http_port as u64);
    say(&mut s, b.as_str());
    say(&mut s, " pid=");
    match pid {
        Some(n) => {
            let ghost before = s@;
            say(&mut s, "Some(");
            let p = decimal_text(n as u64);
            say(&mut s, p.as_str());
            say(&mut s, ")");
            assert(s@ =~= before + pid_words(pid));
        },
        None => say(&mut s, "None"),
    }
    s
}

/// What to do about an adapter that is to stop.
#[derive(Debug, PartialEq, Eq)]
pub enum StopStep<T = String> {
    /// It has exited on its own.
    Stopped,
    /// Kill it and wait.
    Kill,
    Failed(T),
}

pub open spec fn stop_view(c: StopStep) -> StopStep<Seq<char>> {
    match c {
        StopStep::Stopped => StopStep::Stopped,
        StopStep::Kill => StopStep::Kill,
        StopStep::Failed(e) => StopStep::Failed(e@),
    }
}

/// Begin to stop an adapter. One that has exited counts as stopped.
pub fn begin_stop(adapter: Adapter, child: ChildState) -> (r: StopStep)
    ensures
        stop_view(r) == (match child_view(child) {
            ChildState::Exited(_) => StopStep::Stopped,
            ChildState::Running => StopStep::Kill,
            ChildState::Unknown(e) => StopStep::Failed(
                "query "@ + adapter.label() + " status: "@ + e,
            ),
        }),
{
    match child {
        ChildState::Exited(_) => StopStep::Stopped,
        ChildState::Running => StopStep::Kill,
        ChildState::Unknown(e) => {
            let mut s = "query ".to_string();
            say(&mut s, adapter.name());
            say(&mut s, " status: ");
            say(&mut s, e.as_str());
            StopStep::Failed(s)
        },
    }
}

/// How killing an adapter went.
#[derive(Debug, PartialEq, Eq)]
pub enum KillOutcome<T = String> {
    NotKilled(T),
    NotAwaited(T),
    StillRunning,
    Exited,
}

pub open spec fn kill_view(c: KillOutcome) -> KillOutcome<Seq<char>> {
    match c {
        KillOutcome::NotKilled(e) => KillOutcome::NotKilled(e@),
        KillOutcome::NotAwaited(e) => KillOutcome::NotAwaited(e@),
        KillOutcome::StillRunning => KillOutcome::StillRunning,
        KillOutcome::Exited => KillOutcome::Exited,
    }
}

/// What to report of a killed adapter: nothing if it is gone.
pub open spec fn kill_report(adapter: Adapter, outcome: KillOutcome<Seq<char>>) -> Option<
    Seq<char>,
> {
    match outcome {
        KillOutcome::NotKilled(e) => Some("kill owned "@ + adapter.label() + " process: "@ + e),
        KillOutcome::NotAwaited(e) => Some("wait for killed "@ + adapter.label() + ": "@ + e),
        KillOutcome::StillRunning => Some(
            "owned "@ + adapter.label() + " process did not exit within 3s after KILL"@,
        ),
        KillOutcome::Exited => None,
    }
}

pub fn finish_stop(adapter: Adapter, outcome: KillOutcome) -> (r: Option<String>)
    ensures
        opt_text(r) == kill_report(adapter, kill_view(outcome)),
{
    match outcome {
        KillOutcome::NotKilled(e) => {
            let mut s = "kill owned ".to_string();
            say(&mut s, adapter.name());
            say(&mut s, " process: ");
            say(&mut s, e.as_str());
            Some(s)
        },
        KillOutcome::NotAwaited(e) => {
            let mut s = "wait for killed ".to_string();
            say(&mut s, adapter.name());
            say(&mut s, ": ");
            say(&mut s, e.as_str());
            Some(s)
        },
        KillOutcome::StillRunning => {
            let mut s = "owned ".to_string();
            say(&mut s, adapter.name());
            say(&mut s, " process did not exit within 3s after KILL");
            Some(s)
        },
        KillOutcome::Exited => None,
    }
}

// ---------------------------------------------------------------------------
// What a configuration says
// ---------------------------------------------------------------------------

/// The value under a key of an object.
pub open spec fn member(t: JsonTree, key: Seq<char>) -> Option<JsonTree> {
    match t {
        JsonTree::Object(m) => if m.contains_key(key) {
            Some(m[key])
        } else {
            None
        },
        _ => None,
    }
}

/// The items of the array under a key of an object.
pub open spec fn items(t: JsonTree, key: Seq<char>) -> Seq<JsonTree> {
    match member(t, key) {
        Some(JsonTree::Array(s)) => s,
        _ => Seq::empty(),
    }
}

/// A number by its decimal digits.
pub open spec fn number(n: nat) -> Option<JsonTree> {
    Some(JsonTree::Number(decimal(n)))
}

/// A text.
pub open spec fn text(s: Seq<char>) -> Option<JsonTree> {
    Some(JsonTree::Text(s))
}

proof fn lemma_key_texts()
    ensures
        "type"@ == seq!['t', 'y', 'p', 'e'],
        "tag"@ == seq!['t', 'a', 'g'],
        "tls"@ == seq!['t', 'l', 's'],
        "server"@.len() == 6 && "server"@[0] == 's',
        "server_port"@.len() == 11 && "server_port"@[0] == 's',
        "server_name"@.len() == 11 && "server_name"@[7] == 'n' && "server_name"@[0] == 's',
        "password"@.len() == 8 && "password"@[0] == 'p' && "password"@[1] == 'a',
        "protocol"@.len() == 8 && "protocol"@[0] == 'p' && "protocol"@[1] == 'r',
        "plugin"@.len() == 6 && "plugin"@[0] == 'p',
        "plugin_opts"@.len() == 11 && "plugin_opts"@[0] == 'p',
        "method"@.len() == 6 && "method"@[0] == 'm',
        "mode"@.len() == 4 && "mode"@[0] == 'm',
        "local_address"@.len() == 13,
        "local_port"@.len() == 10,
        "listen"@.len() == 6 && "listen"@[0] == 'l',
        "listen_port"@.len() == 11 && "listen_port"@[0] == 'l',
        "log"@.len() == 3,
        "inbounds"@.len() == 8,
        "outbounds"@.len() == 9,
        "route"@.len() == 5,
        "enabled"@.len() == 7,
        "alpn"@.len() == 4 && "alpn"@[0] == 'a',
        "utls"@.len() == 4 && "utls"@[0] == 'u',
        "fingerprint"@.len() == 11,
        "insecure"@.len() == 8,
        "auto_detect_interface"@.len() == 21,
        "final"@.len() == 5,
{
    reveal_strlit("type");
    reveal_strlit("tag");
    reveal_strlit("tls");
    reveal_strlit("server");
    reveal_strlit("server_port");
    reveal_strlit("server_name");
    reveal_strlit("password");
    reveal_strlit("protocol");
    reveal_strlit("plugin");
    reveal_strlit("plugin_opts");
    reveal_strlit("method");
    reveal_strlit("mode");
    reveal_strlit("local_address");
    reveal_strlit("local_port");
    reveal_strlit("listen");
    reveal_strlit("listen_port");
    reveal_strlit("log");
    reveal_strlit("inbounds");
    reveal_strlit("outbounds");
    reveal_strlit("route");
    reveal_strlit("enabled");
    reveal_strlit("alpn");
    reveal_strlit("utls");
    reveal_strlit("fingerprint");
    reveal_strlit("insecure");
    reveal_strlit("auto_detect_interface");
    reveal_strlit("final");
    assert("type"@ =~= seq!['t', 'y', 'p', 'e']);
    assert("tag"@ =~= seq!['t', 'a', 'g']);
    assert("tls"@ =~= seq!['t', 'l', 's']);
}

/// An outbound that reaches an AnyTLS node: at its address and port, with its
/// password, over TLS under its server name and fingerprint; certificates go
/// unchecked only where the node says so.
pub open spec fn reaches_anytls(out: JsonTree, node: AnytlsNodeView) -> bool {
    &&& member(out, "type"@) == text("anytls"@)
    &&& member(out, "server"@) == text(node.server)
    &&& member(out, "server_port"@) == number(node.port as nat)
    &&& member(out, "password"@) == text(node.password)
    &&& member(out, "tls"@) matches Some(tls) && {
        &&& member(tls, "enabled"@) == Some(JsonTree::Bool(true))
        &&& node.sni is Some ==> member(tls, "server_name"@) == text(node.sni->0)
        &&& node.sni is None ==> member(tls, "server_name"@) is None
        &&& node.skip_cert_verify ==> member(tls, "insecure"@) == Some(JsonTree::Bool(true))
        &&& !node.skip_cert_verify ==> member(tls, "insecure"@) is None
        &&& node.alpn is Some ==> items(tls, "alpn"@).len() == (node.alpn->0).len() && forall|i: int|
            0 <= i < (node.alpn->0).len() ==> #[trigger] items(tls, "alpn"@)[i] == JsonTree::Text(
                (node.alpn->0)[i],
            )
        &&& node.alpn is None ==> items(tls, "alpn"@) == seq![
            JsonTree::Text("h2"@),
            JsonTree::Text("http/1.1"@),
        ]
        &&& member(tls, "utls"@) matches Some(utls) && {
            &&& member(utls, "enabled"@) == Some(JsonTree::Bool(true))
            &&& member(utls, "fingerprint"@) == text(
                match node.client_fingerprint {
                    Some(f) => f,
                    None => "chrome"@,
                },
            )
        }
    }
}

/// A listener of the given protocol at the given address and port.
pub open spec fn listens_at(inbound: JsonTree, protocol: Seq<char>, at: Endpoint) -> bool {
    &&& member(inbound, "type"@) == text(protocol)
    &&& member(inbound, "listen"@) == text(dotted(at))
    &&& member(inbound, "listen_port"@) == number(at.port as nat)
}

/// The configuration of an AnyTLS node has a SOCKS and an HTTP listener at the
/// two ports, one outbound that reaches the node, and sends everything there.
pub proof fn law_singbox_reaches_its_node(node: AnytlsNodeView, socks: Endpoint, http: Endpoint)
    ensures
        ({
            let t = JsonTree::Object(singbox_members(node, socks, http));
            let ins = items(t, "inbounds"@);
            let outs = items(t, "outbounds"@);
            &&& ins.len() == 2
            &&& listens_at(ins[0], "socks"@, socks)
            &&& listens_at(ins[1], "http"@, http)
            &&& outs.len() == 1
            &&& reaches_anytls(outs[0], node)
            &&& member(t, "route"@) matches Some(route) && member(route, "final"@) is Some
                && member(route, "final"@) == member(outs[0], "tag"@) && member(
                route,
                "auto_detect_interface"@,
            ) == Some(JsonTree::Bool(false))
        }),
{
    lemma_key_texts();
    lemma_outbound(node);
    lemma_inbound(socks, "socks"@);
    lemma_inbound(http, "http"@);
    let t = JsonTree::Object(singbox_members(node, socks, http));
    assert(items(t, "outbounds"@) == seq![JsonTree::Object(outbound_members(node))]);
    assert(items(t, "inbounds"@)[0] == JsonTree::Object(inbound_members(socks, "socks"@)));
    assert(items(t, "inbounds"@)[1] == JsonTree::Object(inbound_members(http, "http"@)));
}

proof fn lemma_inbound(at: Endpoint, protocol: Seq<char>)
    ensures
        listens_at(JsonTree::Object(inbound_members(at, protocol)), protocol, at),
{
    lemma_key_texts();
}

proof fn lemma_outbound(node: AnytlsNodeView)
    ensures
        reaches_anytls(JsonTree::Object(outbound_members(node)), node),
        member(JsonTree::Object(outbound_members(node)), "tag"@) == text("out"@),
{
    lemma_key_texts();
    let tls = JsonTree::Object(tls_members(node));
    assert("type"@ != "tag"@ && "tag"@ != "tls"@ && "type"@ != "tls"@) by {
        assert("tag"@[1] == 'a' && "tls"@[1] == 'l');
    }
    assert(member(JsonTree::Object(outbound_members(node)), "tls"@) == Some(tls));
    assert(items(tls, "alpn"@) == alpn_of(node).map_values(|t: Seq<char>| JsonTree::Text(t)));
    if node.alpn is None {
        assert(items(tls, "alpn"@) =~= seq![JsonTree::Text("h2"@), JsonTree::Text("http/1.1"@)]);
    }
}

/// Nodes on different ports get configurations that differ in the port of
/// their outbound; so do nodes with different servers or passwords.
pub proof fn law_singbox_configurations_tell_nodes_apart(
    a: AnytlsNodeView,
    b: AnytlsNodeView,
    socks: Endpoint,
    http: Endpoint,
)
    ensures
        ({
            let x = items(JsonTree::Object(singbox_members(a, socks, http)), "outbounds"@)[0];
            let y = items(JsonTree::Object(singbox_members(b, socks, http)), "outbounds"@)[0];
            &&& a.port != b.port <==> member(x, "server_port"@) != member(y, "server_port"@)
            &&& a.server != b.server <==> member(x, "server"@) != member(y, "server"@)
            &&& a.password != b.password <==> member(x, "password"@) != member(y, "password"@)
        }),
{
    law_singbox_reaches_its_node(a, socks, http);
    law_singbox_reaches_its_node(b, socks, http);
    crate::text::law_decimal_tells_numbers_apart(a.port as nat, b.port as nat);
}

/// A local of a Shadowsocks node: it listens with the given protocol at the
/// given address and port, and reaches the node at its address and port, with
/// its password and cipher, through its plugin where it has one.
pub open spec fn reaches_ss(
    local: JsonTree,
    node: SsNodeView,
    protocol: Seq<char>,
    at: Endpoint,
    obfs_bin: Seq<char>,
) -> bool {
    &&& member(local, "local_address"@) == text(dotted(at))
    &&& member(local, "local_port"@) == number(at.port as nat)
    &&& member(local, "protocol"@) == text(protocol)
    &&& member(local, "server"@) == text(node.server)
    &&& member(local, "server_port"@) == number(node.port as nat)
    &&& member(local, "password"@) == text(node.password)
    &&& member(local, "method"@) == text(node.cipher)
    &&& member(local, "mode"@) == text("tcp_only"@)
    &&& node.plugin is None ==> member(local, "plugin"@) is None && member(
        local,
        "plugin_opts"@,
    ) is None
    &&& node.plugin matches Some(o) ==> member(local, "plugin"@) == text(obfs_bin) && member(
        local,
        "plugin_opts"@,
    ) == text(
        match o.host {
            Some(host) => "obfs="@ + o.mode + ";obfs-host="@ + host,
            None => "obfs="@ + o.mode,
        },
    )
}

/// The configuration of a Shadowsocks node has two locals, SOCKS at the first
/// port and HTTP at the second, and both reach the node.
pub proof fn law_sslocal_reaches_its_node(
    node: SsNodeView,
    socks: Endpoint,
    http: Endpoint,
    obfs_bin: Seq<char>,
)
    ensures
        ({
            let locals = items(sslocal_tree(node, socks, http, obfs_bin), "locals"@);
            &&& locals.len() == 2
            &&& reaches_ss(locals[0], node, "socks"@, socks, obfs_bin)
            &&& reaches_ss(locals[1], node, "http"@, http, obfs_bin)
        }),
{
    lemma_local(node, socks, "socks"@, obfs_bin);
    lemma_local(node, http, "http"@, obfs_bin);
    let locals = items(sslocal_tree(node, socks, http, obfs_bin), "locals"@);
    assert(locals[0] == JsonTree::Object(local_members(node, socks, "socks"@, obfs_bin)));
    assert(locals[1] == JsonTree::Object(local_members(node, http, "http"@, obfs_bin)));
}

proof fn lemma_local(node: SsNodeView, at: Endpoint, protocol: Seq<char>, obfs_bin: Seq<char>)
    ensures
        reaches_ss(
            JsonTree::Object(local_members(node, at, protocol, obfs_bin)),
            node,
            protocol,
            at,
            obfs_bin,
        ),
{
    lemma_key_texts();
}

/// Nodes on different ports get configurations that differ in the port of
/// each local; so do nodes with different servers, ciphers or passwords.
pub proof fn law_sslocal_configurations_tell_nodes_apart(
    a: SsNodeView,
    b: SsNodeView,
    socks: Endpoint,
    http: Endpoint,
    obfs_bin: Seq<char>,
    i: int,
)
    requires
        0 <= i < 2,
    ensures
        ({
            let x = items(sslocal_tree(a, socks, http, obfs_bin), "locals"@)[i];
            let y = items(sslocal_tree(b, socks, http, obfs_bin), "locals"@)[i];
            &&& a.port != b.port <==> member(x, "server_port"@) != member(y, "server_port"@)
            &&& a.server != b.server <==> member(x, "server"@) != member(y, "server"@)
            &&& a.password != b.password <==> member(x, "password"@) != member(y, "password"@)
            &&& a.cipher != b.cipher <==> member(x, "method"@) != member(y, "method"@)
        }),
{
    law_sslocal_reaches_its_node(a, socks, http, obfs_bin);
    law_sslocal_reaches_its_node(b, socks, http, obfs_bin);
    crate::text::law_decimal_tells_numbers_apart(a.port as nat, b.port as nat);
}

/// A start writes a configuration that serves the node of the start at the two
/// ports of the start, and runs the program of the plane that serves it.
pub proof fn law_start_serves_the_node_at_its_ports(
    p: DispatchView,
    s: StartView,
    there: Programs,
    plan: StartPlanView,
)
    requires
        dispatched(p, s, there) == Ok::<StartPlanView, StartFault<Seq<char>>>(plan),
    ensures
        s.node matches NodeView::Ss(node) ==> {
            &&& there.sslocal && plan.bin == p.ss.bin && plan.arguments == seq!["-c"@]
            &&& node.plugin is Some ==> there.obfs_plugin
            &&& exists|t: JsonTree| #[trigger] json_pretty(t) == Some(plan.config) && reaches_ss(
                items(t, "locals"@)[0],
                node,
                "socks"@,
                s.ports.socks_addr,
                p.ss.obfs_plugin_bin,
            ) && reaches_ss(
                items(t, "locals"@)[1],
                node,
                "http"@,
                s.ports.http_addr,
                p.ss.obfs_plugin_bin,
            )
        },
        s.node matches NodeView::Anytls(node) ==> {
            &&& there.singbox && plan.bin == p.singbox.bin && plan.arguments == seq!["run"@, "-c"@]
            &&& exists|t: JsonTree| #[trigger] json_pretty(t) == Some(plan.config)
                && reaches_anytls(items(t, "outbounds"@)[0], node) && listens_at(
                items(t, "inbounds"@)[0],
                "socks"@,
                s.ports.socks_addr,
            ) && listens_at(items(t, "inbounds"@)[1], "http"@, s.ports.http_addr)
        },
{
    match s.node {
        NodeView::Ss(node) => {
            law_sslocal_reaches_its_node(
                node,
                s.ports.socks_addr,
                s.ports.http_addr,
                p.ss.obfs_plugin_bin,
            );
            let t = sslocal_tree(
                node,
                s.ports.socks_addr,
                s.ports.http_addr,
                p.ss.obfs_plugin_bin,
            );
            assert(json_pretty(t) == Some(plan.config));
        },
        NodeView::Anytls(node) => {
            law_singbox_reaches_its_node(node, s.ports.socks_addr, s.ports.http_addr);
            let t = JsonTree::Object(
                singbox_members(node, s.ports.socks_addr, s.ports.http_addr),
            );
            assert(json_pretty(t) == Some(plan.config));
        },
    }
}

/// Where a start is refused, the reason is what is missing: the program of the
/// node, or the plugin that the node needs.
pub proof fn law_start_names_what_is_missing(p: DispatchView, s: StartView, there: Programs)
    ensures
        dispatched(p, s, there) matches Err(StartFault::NoBinary { adapter, bin }) ==> match s.node {
            NodeView::Ss(_) => !there.sslocal && bin == p.ss.bin && adapter == Adapter::Sslocal,
            NodeView::Anytls(_) => !there.singbox && bin == p.singbox.bin && adapter
                == Adapter::Singbox,
        },
        dispatched(p, s, there) matches Err(StartFault::NoPlugin { node, bin }) ==> s.node matches
            NodeView::Ss(n) && n.plugin is Some && !there.obfs_plugin && node == n.name && bin
            == p.ss.obfs_plugin_bin,
        s.node is Ss && !there.sslocal ==> dispatched(p, s, there) is Err,
        s.node is Anytls && !there.singbox ==> dispatched(p, s, there) is Err,
        s.node matches NodeView::Ss(n) ==> n.plugin is Some && !there.obfs_plugin ==> dispatched(
            p,
            s,
            there,
        ) is Err,
{
}

/// A loopback address is the one that loopback addresses are written as, with
/// the port that was asked for.
pub proof fn law_loopback_is_written_out(port: u16)
    ensures
        dotted(loopback_at(port)) == "127.0.0.1"@,
        loopback_at(port).port == port,
{
    reveal_strlit("127.0.0.1");
    reveal_strlit(".");
    reveal_with_fuel(decimal, 4);
    assert(decimal(127) =~= seq!['1', '2', '7']);
    assert(dotted(loopback_at(port)) =~= "127.0.0.1"@);
}

/// The search after a row of offers that neither gave a pair nor failed.
pub open spec fn after_offers(s: PortSearchView, os: Seq<PortOffer<Seq<char>>>) -> PortSearchView
    decreases os.len(),
{
    if os.len() == 0 {
        s
    } else {
        after_offer(after_offers(s, os.drop_last()), os.last())
    }
}

/// A search for ports hands out two different endpoints, those of the offer,
/// and gives up with the eighth offer that was not good enough.
pub proof fn law_port_search(os: Seq<PortOffer<Seq<char>>>, o: PortOffer<Seq<char>>)
    requires
        os.len() < 8,
    ensures
        ({
            let s = after_offers(PortSearchView { asked: 0, last_error: None }, os);
            let step = offered(s, o);
            &&& step matches PortStepView::Reserved(p) ==> p.socks_addr != p.http_addr && o
                == PortOffer::<Seq<char>>::Bound(p.socks_addr, p.http_addr)
            &&& o matches PortOffer::Bound(x, y) ==> (step is Reserved <==> x != y)
            &&& step is Again ==> os.len() < 7
            &&& os.len() == 7 ==> !(step is Again)
            &&& os.len() < 7 ==> (step is Failed <==> o is Unnamed)
        }),
{
    lemma_offers_counted(PortSearchView { asked: 0, last_error: None }, os);
}

proof fn lemma_offers_counted(s: PortSearchView, os: Seq<PortOffer<Seq<char>>>)
    requires
        s.asked + os.len() <= u32::MAX,
    ensures
        after_offers(s, os).asked == s.asked + os.len(),
    decreases os.len(),
{
    if os.len() > 0 {
        lemma_offers_counted(s, os.drop_last());
    }
}

/// An adapter is ready exactly when its listeners are its own; while it runs
/// and time is left it is waited for, and otherwise it failed.
pub proof fn law_readiness(
    adapter: Adapter,
    node: Seq<char>,
    ready: Result<bool, Seq<char>>,
    child: ChildState<Seq<char>>,
    timed_out: bool,
)
    ensures
        readiness_of(adapter, node, ready, child, timed_out) is Ready <==> ready == Ok::<
            bool,
            Seq<char>,
        >(true),
        readiness_of(adapter, node, ready, child, timed_out) is Wait <==> ready == Ok::<
            bool,
            Seq<char>,
        >(false) && child is Running && !timed_out,
{
}

/// A child owns its listeners only where the table has one listening socket of
/// the child for each of the wanted addresses.
pub proof fn law_owned_listeners_are_the_childs(
    table: Seq<Seq<char>>,
    wanted: Set<Seq<char>>,
    links: Seq<Seq<char>>,
    k: int,
)
    requires
        owns(table, wanted, links),
        1 <= k < table.len(),
        words(table[k]).len() > 9,
        words(table[k])[3] == "0A"@,
        wanted.contains(words(table[k])[1]),
    ensures
        links.contains("socket:["@ + words(table[k])[9] + "]"@),
{
    assert(listens(table[k], wanted, words(table[k])[9]));
    assert(listening(table, wanted).contains(words(table[k])[9]));
}

/// The two addresses looked for in the table of the kernel differ where the
/// ports do, and say which port they are of.
pub proof fn law_listeners_are_told_apart(word: u32, a: u16, b: u16)
    ensures
        kernel_address(word, a) == kernel_address(word, b) <==> a == b,
        kernel_address(word, a).len() == 13,
        kernel_address(word, a)[8] == ':',
{
    reveal_with_fuel(crate::text::hex_room, 9);
    reveal_strlit(":");
    crate::text::law_hex_tells_numbers_apart(word as nat, word as nat, 8, true);
    crate::text::law_hex_tells_numbers_apart(a as nat, b as nat, 4, true);
    crate::text::law_hex_tells_numbers_apart(b as nat, a as nat, 4, true);
    let x = kernel_address(word, a);
    let y = kernel_address(word, b);
    assert(x.skip(9) =~= hex_digits(a as nat, 4, true));
    assert(y.skip(9) =~= hex_digits(b as nat, 4, true));
}

/// A child with one listening socket for each of its two addresses owns its
/// listeners exactly where both sockets are among its links.
pub proof fn law_child_owns_both_listeners(
    table: Seq<Seq<char>>,
    wanted: Set<Seq<char>>,
    links: Seq<Seq<char>>,
    a: Seq<char>,
    b: Seq<char>,
    x: Seq<char>,
    y: Seq<char>,
    i: int,
    j: int,
)
    requires
        wanted == set![a, b],
        a != b,
        x != y,
        1 <= i < table.len() && 1 <= j < table.len(),
        words(table[i]).len() > 9 && words(table[i])[3] == "0A"@ && words(table[i])[1] == a
            && words(table[i])[9] == x,
        words(table[j]).len() > 9 && words(table[j])[3] == "0A"@ && words(table[j])[1] == b
            && words(table[j])[9] == y,
        forall|k: int|
            1 <= k < table.len() && k != i && k != j ==> !wanted.contains(
                words(#[trigger] table[k])[1],
            ),
    ensures
        owns(table, wanted, links) <==> links.contains("socket:["@ + x + "]"@) && links.contains(
            "socket:["@ + y + "]"@,
        ),
{
    let inodes = listening(table, wanted);
    assert(wanted.contains(a) && wanted.contains(b));
    assert(listens(table[i], wanted, x));
    assert(listens(table[j], wanted, y));
    assert forall|n: Seq<char>| #[trigger] inodes.contains(n) <==> n == x || n == y by {
        if inodes.contains(n) {
            let k = choose|k: int|
                1 <= k < table.len() && listens(#[trigger] table[k], wanted, n);
            assert(k == i || k == j);
        }
    }
    assert(inodes =~= set![x, y]);
    assert(inodes.len() == 2);
    assert(wanted.len() == 2);
    assert(inodes.contains(x) && inodes.contains(y));
    if links.contains("socket:["@ + x + "]"@) && links.contains("socket:["@ + y + "]"@) {
        assert forall|n: Seq<char>| #[trigger] inodes.contains(n) implies links.contains(
            socket_link(n),
        ) by {}
    }
    if owns(table, wanted, links) {
        assert(links.contains(socket_link(x)));
        assert(links.contains(socket_link(y)));
    }
}

} // verus!
