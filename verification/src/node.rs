//! Upstream nodes: what a subscription supplies and a data plane serves.

use vstd::prelude::*;

use crate::names::Model;
use crate::text::{copy_opt, copy_texts, opt_text, opt_texts, same};

verus! {

/// simple-obfs (SIP003 plugin) parameters, from the `plugin-opts` map.
#[derive(Debug, PartialEq, Eq)]
pub struct ObfsOpts {
    /// Transport obfuscation mode (http / tls).
    pub mode: String,
    /// Obfuscated host, optional in http mode.
    pub host: Option<String>,
}

#[verifier::ext_equal]
pub struct ObfsOptsView {
    pub mode: Seq<char>,
    pub host: Option<Seq<char>>,
}

impl View for ObfsOpts {
    type V = ObfsOptsView;

    open spec fn view(&self) -> ObfsOptsView {
        ObfsOptsView { mode: self.mode@, host: opt_text(self.host) }
    }
}

/// `obfs=<mode>`, then `;obfs-host=<host>` if there is a host.
pub open spec fn plugin_opts(o: ObfsOptsView) -> Seq<char> {
    match o.host {
        Some(host) => "obfs="@ + o.mode + ";obfs-host="@ + host,
        None => "obfs="@ + o.mode,
    }
}

impl ObfsOpts {
    /// The plugin option string that sslocal expects.
    pub fn to_plugin_opts(&self) -> (r: String)
        ensures
            r@ == plugin_opts(self@),
    {
        let mut r = "obfs=".to_owned();
        r.append(self.mode.as_str());
        if let Some(host) = &self.host {
            r.append(";obfs-host=");
            r.append(host.as_str());
        }
        r
    }
}

/// A Shadowsocks node (a `type: ss` entry).
#[derive(Debug, PartialEq, Eq)]
pub struct SsNode {
    pub name: String,
    pub server: String,
    pub port: u16,
    pub cipher: String,
    pub password: String,
    /// Plugin parameters; `None` is plain Shadowsocks.
    pub plugin: Option<ObfsOpts>,
}

#[verifier::ext_equal]
pub struct SsNodeView {
    pub name: Seq<char>,
    pub server: Seq<char>,
    pub port: u16,
    pub cipher: Seq<char>,
    pub password: Seq<char>,
    pub plugin: Option<ObfsOptsView>,
}

impl View for SsNode {
    type V = SsNodeView;

    open spec fn view(&self) -> SsNodeView {
        SsNodeView {
            name: self.name@,
            server: self.server@,
            port: self.port,
            cipher: self.cipher@,
            password: self.password@,
            plugin: match self.plugin {
                Some(p) => Some(p@),
                None => None,
            },
        }
    }
}

/// An AnyTLS node (a `type: anytls` entry).
#[derive(Debug, PartialEq, Eq)]
pub struct AnytlsNode {
    pub name: String,
    pub server: String,
    pub port: u16,
    pub password: String,
    /// TLS server name; `None` omits the field in the adapter config.
    pub sni: Option<String>,
    /// TLS protocol list; `None` takes the adapter default.
    pub alpn: Option<Vec<String>>,
    /// Client hello fingerprint; `None` takes the adapter default.
    pub client_fingerprint: Option<String>,
    /// Skip upstream certificate verification.
    pub skip_cert_verify: bool,
}

#[verifier::ext_equal]
pub struct AnytlsNodeView {
    pub name: Seq<char>,
    pub server: Seq<char>,
    pub port: u16,
    pub password: Seq<char>,
    pub sni: Option<Seq<char>>,
    pub alpn: Option<Seq<Seq<char>>>,
    pub client_fingerprint: Option<Seq<char>>,
    pub skip_cert_verify: bool,
}

impl View for AnytlsNode {
    type V = AnytlsNodeView;

    open spec fn view(&self) -> AnytlsNodeView {
        AnytlsNodeView {
            name: self.name@,
            server: self.server@,
            port: self.port,
            password: self.password@,
            sni: opt_text(self.sni),
            alpn: opt_texts(self.alpn),
            client_fingerprint: opt_text(self.client_fingerprint),
            skip_cert_verify: self.skip_cert_verify,
        }
    }
}

/// A parsed node of any supported protocol. The data plane dispatches on the
/// variant.
#[derive(Debug, PartialEq, Eq)]
pub enum Node {
    Ss(SsNode),
    Anytls(AnytlsNode),
}

pub enum NodeView {
    Ss(SsNodeView),
    Anytls(AnytlsNodeView),
}

impl View for Node {
    type V = NodeView;

    open spec fn view(&self) -> NodeView {
        match self {
            Node::Ss(n) => NodeView::Ss(n@),
            Node::Anytls(n) => NodeView::Anytls(n@),
        }
    }
}

impl NodeView {
    pub open spec fn name(self) -> Seq<char> {
        match self {
            NodeView::Ss(n) => n.name,
            NodeView::Anytls(n) => n.name,
        }
    }

    pub open spec fn server(self) -> Seq<char> {
        match self {
            NodeView::Ss(n) => n.server,
            NodeView::Anytls(n) => n.server,
        }
    }

    pub open spec fn port(self) -> u16 {
        match self {
            NodeView::Ss(n) => n.port,
            NodeView::Anytls(n) => n.port,
        }
    }

    pub open spec fn kind(self) -> Seq<char> {
        match self {
            NodeView::Ss(_) => "ss"@,
            NodeView::Anytls(_) => "anytls"@,
        }
    }
}

impl Node {
    pub fn name(&self) -> (r: &str)
        ensures
            r@ == self@.name(),
    {
        match self {
            Node::Ss(n) => n.name.as_str(),
            Node::Anytls(n) => n.name.as_str(),
        }
    }

    pub fn server(&self) -> (r: &str)
        ensures
            r@ == self@.server(),
    {
        match self {
            Node::Ss(n) => n.server.as_str(),
            Node::Anytls(n) => n.server.as_str(),
        }
    }

    pub fn port(&self) -> (r: u16)
        ensures
            r == self@.port(),
    {
        match self {
            Node::Ss(n) => n.port,
            Node::Anytls(n) => n.port,
        }
    }

    /// Protocol key, for logs and error messages.
    pub fn kind(&self) -> (r: &'static str)
        ensures
            r@ == self@.kind(),
    {
        match self {
            Node::Ss(_) => "ss",
            Node::Anytls(_) => "anytls",
        }
    }
}

impl Model for Node {
    fn dup(&self) -> (r: Self) {
        match self {
            Node::Ss(n) => Node::Ss(
                SsNode {
                    name: n.name.clone(),
                    server: n.server.clone(),
                    port: n.port,
                    cipher: n.cipher.clone(),
                    password: n.password.clone(),
                    plugin: match &n.plugin {
                        Some(p) => Some(
                            ObfsOpts { mode: p.mode.clone(), host: copy_opt(&p.host) },
                        ),
                        None => None,
                    },
                },
            ),
            Node::Anytls(n) => Node::Anytls(
                AnytlsNode {
                    name: n.name.clone(),
                    server: n.server.clone(),
                    port: n.port,
                    password: n.password.clone(),
                    sni: copy_opt(&n.sni),
                    alpn: match &n.alpn {
                        Some(v) => Some(copy_texts(v)),
                        None => None,
                    },
                    client_fingerprint: copy_opt(&n.client_fingerprint),
                    skip_cert_verify: n.skip_cert_verify,
                },
            ),
        }
    }
}

/// The views of a list of nodes.
pub open spec fn pool(v: Seq<Node>) -> Seq<NodeView> {
    v.map_values(|n: Node| n@)
}

/// Copy a list of nodes.
pub fn copy_nodes(v: &Vec<Node>) -> (r: Vec<Node>)
    ensures
        pool(r@) == pool(v@),
{
    let mut r: Vec<Node> = Vec::new();
    let mut i: usize = 0;
    while i < v.len()
        invariant
            i <= v@.len(),
            r@.len() == i,
            forall|j: int| 0 <= j < i ==> (#[trigger] r@[j])@ == v@[j]@,
        decreases v@.len() - i,
    {
        r.push(v[i].dup());
        i = i + 1;
    }
    assert(pool(r@) =~= pool(v@));
    r
}

/// Does any node carry this name?
pub open spec fn named(nodes: Seq<NodeView>, name: Seq<char>) -> bool {
    exists|i: int| 0 <= i < nodes.len() && (#[trigger] nodes[i]).name() == name
}

/// The first position that carries the name, or the length.
pub open spec fn name_index(nodes: Seq<NodeView>, name: Seq<char>) -> nat
    decreases nodes.len(),
{
    if nodes.len() == 0 || nodes[0].name() == name {
        0
    } else {
        1 + name_index(nodes.skip(1), name)
    }
}

pub proof fn lemma_name_index_is(nodes: Seq<NodeView>, name: Seq<char>, i: int)
    requires
        0 <= i <= nodes.len(),
        i < nodes.len() ==> nodes[i].name() == name,
        forall|j: int| 0 <= j < i ==> (#[trigger] nodes[j]).name() != name,
    ensures
        name_index(nodes, name) == i,
        named(nodes, name) == (i < nodes.len()),
    decreases nodes.len(),
{
    if i < nodes.len() {
        assert(nodes[i].name() == name);
    }
    if i > 0 {
        assert(nodes[0].name() != name);
        let rest = nodes.skip(1);
        assert forall|j: int| 0 <= j < i - 1 implies (#[trigger] rest[j]).name() != name by {
            assert(rest[j] == nodes[j + 1]);
        }
        if i < nodes.len() {
            assert(rest[i - 1] == nodes[i]);
        }
        lemma_name_index_is(rest, name, i - 1);
    }
}

/// The first node with the name.
pub fn find_node(nodes: &Vec<Node>, name: &str) -> (r: Option<usize>)
    ensures
        match r {
            Some(i) => i < nodes@.len() && i == name_index(pool(nodes@), name@) && named(
                pool(nodes@),
                name@,
            ),
            None => !named(pool(nodes@), name@),
        },
{
    let mut i: usize = 0;
    while i < nodes.len()
        invariant
            i <= nodes@.len(),
            forall|j: int| 0 <= j < i ==> (#[trigger] pool(nodes@)[j]).name() != name@,
        decreases nodes@.len() - i,
    {
        assert(pool(nodes@)[i as int] == nodes@[i as int]@);
        if same(nodes[i].name(), name) {
            proof {
                lemma_name_index_is(pool(nodes@), name@, i as int);
            }
            return Some(i);
        }
        i = i + 1;
    }
    proof {
        lemma_name_index_is(pool(nodes@), name@, i as int);
    }
    None
}

/// Append a node unless its name is taken.
pub open spec fn add_new(acc: Seq<NodeView>, n: NodeView) -> Seq<NodeView> {
    if named(acc, n.name()) {
        acc
    } else {
        acc.push(n)
    }
}

/// Append nodes in order, each unless its name is taken.
pub open spec fn merged(acc: Seq<NodeView>, nodes: Seq<NodeView>) -> Seq<NodeView>
    decreases nodes.len(),
{
    if nodes.len() == 0 {
        acc
    } else {
        add_new(merged(acc, nodes.drop_last()), nodes.last())
    }
}

/// No two nodes share a name.
pub open spec fn distinct_names(nodes: Seq<NodeView>) -> bool {
    forall|i: int, j: int|
        0 <= i < j < nodes.len() ==> (#[trigger] nodes[i]).name() != (#[trigger] nodes[j]).name()
}

/// Merging keeps names unique, keeps what was there, and takes the first
/// node of every new name.
pub proof fn law_merge_keeps_first(acc: Seq<NodeView>, nodes: Seq<NodeView>)
    requires
        distinct_names(acc),
    ensures
        distinct_names(merged(acc, nodes)),
        acc.len() <= merged(acc, nodes).len(),
        merged(acc, nodes).take(acc.len() as int) == acc,
        forall|i: int|
            #![trigger merged(acc, nodes)[i]]
            acc.len() <= i < merged(acc, nodes).len() ==> ({
                let n = merged(acc, nodes)[i];
                named(nodes, n.name()) && nodes[name_index(nodes, n.name()) as int] == n
            }),
        forall|name: Seq<char>|
            #![trigger named(merged(acc, nodes), name)]
            named(merged(acc, nodes), name) == (named(acc, name) || named(nodes, name)),
    decreases nodes.len(),
{
    let m = merged(acc, nodes);
    if nodes.len() == 0 {
        assert(m.take(acc.len() as int) =~= acc);
    } else {
        let d = nodes.drop_last();
        let l = nodes.last();
        law_merge_keeps_first(acc, d);
        let p = merged(acc, d);
        assert forall|i: int| #![trigger m[i]] acc.len() <= i < m.len() implies ({
            let n = m[i];
            named(nodes, n.name()) && nodes[name_index(nodes, n.name()) as int] == n
        }) by {
            let n = m[i];
            if i < p.len() {
                assert(n == p[i]);
                let k = name_index(d, n.name());
                lemma_name_index(d, n.name());
                assert forall|j: int| 0 <= j < k implies (#[trigger] nodes[j]).name() != n.name() by {
                    assert(nodes[j] == d[j]);
                }
                assert(nodes[k as int] == d[k as int]);
                lemma_name_index_is(nodes, n.name(), k as int);
            } else {
                assert(n == l);
                assert forall|j: int| 0 <= j < nodes.len() - 1 implies (#[trigger] nodes[j]).name() != l.name() by {
                    assert(nodes[j] == d[j]);
                    if d[j].name() == l.name() {
                        assert(named(d, l.name()));
                        assert(named(p, l.name()));
                    }
                }
                lemma_name_index_is(nodes, l.name(), nodes.len() - 1);
            }
        }
        assert forall|name: Seq<char>| #![trigger named(m, name)]
            named(m, name) == (named(acc, name) || named(nodes, name)) by {
            assert(named(p, name) == (named(acc, name) || named(d, name)));
            if named(d, name) {
                let j = choose|j: int| 0 <= j < d.len() && (#[trigger] d[j]).name() == name;
                assert(nodes[j].name() == name);
            }
            if named(nodes, name) {
                let j = choose|j: int| 0 <= j < nodes.len() && (#[trigger] nodes[j]).name() == name;
                if j < d.len() {
                    assert(d[j].name() == name);
                } else {
                    assert(l.name() == name);
                    if named(p, l.name()) {
                        assert(m == p);
                    } else {
                        assert(m[m.len() - 1].name() == name);
                    }
                }
            }
            if named(p, name) {
                let j = choose|j: int| 0 <= j < p.len() && (#[trigger] p[j]).name() == name;
                assert(m[j].name() == name);
            }
            if named(m, name) {
                let j = choose|j: int| 0 <= j < m.len() && (#[trigger] m[j]).name() == name;
                if j < p.len() {
                    assert(p[j].name() == name);
                } else {
                    assert(nodes[nodes.len() - 1].name() == name);
                }
            }
        }
        assert(m.take(acc.len() as int) =~= p.take(acc.len() as int));
    }
}

pub proof fn lemma_name_index(nodes: Seq<NodeView>, name: Seq<char>)
    ensures
        name_index(nodes, name) <= nodes.len(),
        named(nodes, name) == (name_index(nodes, name) < nodes.len()),
        name_index(nodes, name) < nodes.len() ==> nodes[name_index(nodes, name) as int].name()
            == name,
        forall|j: int| 0 <= j < name_index(nodes, name) ==> (#[trigger] nodes[j]).name() != name,
    decreases nodes.len(),
{
    if nodes.len() == 0 {
    } else if nodes[0].name() == name {
    } else {
        let rest = nodes.skip(1);
        lemma_name_index(rest, name);
        assert forall|j: int| 0 <= j < name_index(nodes, name) implies (#[trigger] nodes[j]).name() != name by {
            if j > 0 {
                assert(rest[j - 1] == nodes[j]);
            }
        }
        if name_index(rest, name) < rest.len() {
            assert(rest[name_index(rest, name) as int] == nodes[name_index(nodes, name) as int]);
        }
        if named(nodes, name) {
            let j = choose|j: int| 0 <= j < nodes.len() && (#[trigger] nodes[j]).name() == name;
            assert(rest[j - 1] == nodes[j]);
        }
    }
}

/// Append `nodes` to `acc`, skipping names that are taken.
pub fn merge_nodes(acc: &mut Vec<Node>, nodes: Vec<Node>)
    ensures
        pool(final(acc)@) == merged(pool(old(acc)@), pool(nodes@)),
{
    let mut i: usize = 0;
    assert(pool(nodes@).take(0) =~= Seq::<NodeView>::empty());
    while i < nodes.len()
        invariant
            i <= nodes@.len(),
            pool(acc@) == merged(pool(old(acc)@), pool(nodes@).take(i as int)),
        decreases nodes@.len() - i,
    {
        let ghost t = pool(nodes@).take(i + 1);
        assert(t.drop_last() =~= pool(nodes@).take(i as int));
        assert(t.last() == nodes@[i as int]@);
        let ghost before = pool(acc@);
        if find_node(acc, nodes[i].name()).is_none() {
            acc.push(nodes[i].dup());
            assert(pool(acc@) =~= before.push(nodes@[i as int]@));
        }
        i = i + 1;
    }
    assert(pool(nodes@).take(nodes@.len() as int) =~= pool(nodes@));
}

/// Nodes with distinct names merge into nothing else.
pub proof fn lemma_merge_distinct(nodes: Seq<NodeView>)
    requires
        distinct_names(nodes),
    ensures
        merged(Seq::empty(), nodes) == nodes,
    decreases nodes.len(),
{
    if nodes.len() > 0 {
        let d = nodes.drop_last();
        assert forall|i: int, j: int| 0 <= i < j < d.len() implies (#[trigger] d[i]).name() != (
        #[trigger] d[j]).name() by {
            assert(d[i] == nodes[i] && d[j] == nodes[j]);
        }
        lemma_merge_distinct(d);
        if named(d, nodes.last().name()) {
            let k = choose|k: int| 0 <= k < d.len() && (#[trigger] d[k]).name() == nodes.last().name();
            assert(nodes[k] == d[k]);
            assert(nodes[k].name() != nodes[nodes.len() - 1].name());
        }
        assert(d.push(nodes.last()) =~= nodes);
    } else {
        assert(nodes =~= Seq::<NodeView>::empty());
    }
}

pub proof fn lemma_merged_from(acc: Seq<NodeView>, nodes: Seq<NodeView>, n: NodeView)
    requires
        merged(acc, nodes).contains(n),
    ensures
        acc.contains(n) || nodes.contains(n),
    decreases nodes.len(),
{
    if nodes.len() > 0 {
        let d = nodes.drop_last();
        let m = merged(acc, d);
        let i = merged(acc, nodes).index_of(n);
        if i < m.len() {
            assert(m[i] == n);
            assert(m.contains(n));
            lemma_merged_from(acc, d, n);
            if d.contains(n) {
                let k = d.index_of(n);
                assert(nodes[k] == n);
            }
        } else {
            assert(nodes[nodes.len() - 1] == n);
        }
    }
}

} // verus!
