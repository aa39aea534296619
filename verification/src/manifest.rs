//! Parsing of Clash-compatible YAML subscription manifests.
//!
//! Entries with `type: ss` or `type: anytls` in the `proxies:` list are
//! extracted; other protocols are dropped by design. A malformed entry is
//! skipped without affecting the others.

use vstd::prelude::*;

use crate::node::{
    add_new, distinct_names, find_node, named, pool, AnytlsNode, AnytlsNodeView, Node, NodeView,
    ObfsOpts, ObfsOptsView, SsNode, SsNodeView,
};
use crate::text::{
    copy_opt, copy_texts, opt_text, opt_texts, parse_number, parsed, same, texts, trim, trimmed,
};
use crate::yaml::{
    open_untagged, open_value, parse_value, reads_sections, tree_pairs, trees, untag, yaml_document,
    yaml_sections, yaml_tree, YamlNode, YamlTree,
};

verus! {

/// Why a manifest could not be read.
#[derive(Debug, Clone, Copy, PartialEq, Eq, Structural)]
pub enum ManifestError {
    /// The text is not YAML.
    Syntax,
    /// The document is no mapping, or `proxies` is no list.
    Shape,
}

/// A scalar that may have been written as text or as a number.
#[derive(Debug)]
pub enum RawScalar {
    Text(String),
    Number(String, Option<u64>),
    /// Any other value.
    Other,
}

pub enum RawScalarView {
    Text(Seq<char>),
    Number(Seq<char>, Option<u64>),
    Other,
}

impl View for RawScalar {
    type V = RawScalarView;

    open spec fn view(&self) -> RawScalarView {
        match self {
            RawScalar::Text(s) => RawScalarView::Text(s@),
            RawScalar::Number(s, n) => RawScalarView::Number(s@, *n),
            RawScalar::Other => RawScalarView::Other,
        }
    }
}

#[derive(Debug)]
pub struct RawPluginOpts {
    pub mode: Option<String>,
    pub host: Option<String>,
}

#[verifier::ext_equal]
pub struct RawPluginOptsView {
    pub mode: Option<Seq<char>>,
    pub host: Option<Seq<char>>,
}

impl View for RawPluginOpts {
    type V = RawPluginOptsView;

    open spec fn view(&self) -> RawPluginOptsView {
        RawPluginOptsView { mode: opt_text(self.mode), host: opt_text(self.host) }
    }
}

/// One `proxies:` entry whose known fields have the right types.
#[derive(Debug)]
pub struct RawProxy {
    pub kind: String,
    pub name: Option<String>,
    pub server: Option<String>,
    /// A number or a quoted number.
    pub port: Option<RawScalar>,
    pub cipher: Option<String>,
    /// A purely numeric password may have been read as a number.
    pub password: Option<RawScalar>,
    pub plugin: Option<String>,
    pub plugin_opts: Option<RawPluginOpts>,
    pub sni: Option<String>,
    pub alpn: Option<Vec<String>>,
    pub client_fingerprint: Option<String>,
    pub skip_cert_verify: Option<bool>,
}

#[verifier::ext_equal]
pub struct RawProxyView {
    pub kind: Seq<char>,
    pub name: Option<Seq<char>>,
    pub server: Option<Seq<char>>,
    pub port: Option<RawScalarView>,
    pub cipher: Option<Seq<char>>,
    pub password: Option<RawScalarView>,
    pub plugin: Option<Seq<char>>,
    pub plugin_opts: Option<RawPluginOptsView>,
    pub sni: Option<Seq<char>>,
    pub alpn: Option<Seq<Seq<char>>>,
    pub client_fingerprint: Option<Seq<char>>,
    pub skip_cert_verify: Option<bool>,
}

pub open spec fn opt_view<T: View>(o: Option<T>) -> Option<T::V> {
    match o {
        Some(x) => Some(x@),
        None => None,
    }
}

impl View for RawProxy {
    type V = RawProxyView;

    open spec fn view(&self) -> RawProxyView {
        RawProxyView {
            kind: self.kind@,
            name: opt_text(self.name),
            server: opt_text(self.server),
            port: opt_view(self.port),
            cipher: opt_text(self.cipher),
            password: opt_view(self.password),
            plugin: opt_text(self.plugin),
            plugin_opts: opt_view(self.plugin_opts),
            sni: opt_text(self.sni),
            alpn: opt_texts(self.alpn),
            client_fingerprint: opt_text(self.client_fingerprint),
            skip_cert_verify: self.skip_cert_verify,
        }
    }
}

// ---------------------------------------------------------------------------
// From entries to nodes
// ---------------------------------------------------------------------------

/// A scalar as text.
pub open spec fn scalar_text(s: Option<RawScalarView>) -> Option<Seq<char>> {
    match s {
        Some(RawScalarView::Text(t)) => Some(t),
        Some(RawScalarView::Number(t, _)) => Some(t),
        _ => None,
    }
}

/// A scalar as a port number.
pub open spec fn scalar_port(s: Option<RawScalarView>) -> Option<nat> {
    match s {
        Some(RawScalarView::Number(_, Some(n))) => if n <= 65535 {
            Some(n as nat)
        } else {
            None
        },
        Some(RawScalarView::Text(t)) => parsed(trimmed(t), 10, 65535),
        _ => None,
    }
}

pub(crate) fn yaml_value_to_string(s: &Option<RawScalar>) -> (r: Option<String>)
    ensures
        opt_text(r) == scalar_text(opt_view(*s)),
{
    match s {
        Some(RawScalar::Text(t)) => Some(t.clone()),
        Some(RawScalar::Number(t, _)) => Some(t.clone()),
        _ => None,
    }
}

pub(crate) fn yaml_value_to_port(s: &Option<RawScalar>) -> (r: Option<u16>)
    ensures
        match r {
            Some(p) => scalar_port(opt_view(*s)) == Some(p as nat),
            None => scalar_port(opt_view(*s)) is None,
        },
{
    match s {
        Some(RawScalar::Number(_, Some(n))) => if *n <= 65535 {
            Some(*n as u16)
        } else {
            None
        },
        Some(RawScalar::Text(t)) => {
            let body = trim(t.as_str());
            match parse_number(body.as_str(), 10, 65535) {
                Some(n) => Some(n as u16),
                None => None,
            }
        },
        _ => None,
    }
}

/// The plugin of a Shadowsocks entry: none, or simple-obfs with a mode. The
/// outer `None` means that the entry cannot be used.
pub open spec fn entry_plugin(p: RawProxyView) -> Option<Option<ObfsOptsView>> {
    match p.plugin {
        None => Some(None),
        Some(kind) => if kind != "obfs"@ {
            None
        } else {
            match p.plugin_opts {
                Some(RawPluginOptsView { mode: Some(mode), host }) => Some(
                    Some(ObfsOptsView { mode, host }),
                ),
                _ => None,
            }
        },
    }
}

/// The node of a `type: ss` entry: every field present and well typed, and
/// no plugin but simple-obfs.
pub open spec fn ss_of(p: RawProxyView) -> Option<SsNodeView> {
    match (p.name, p.server, scalar_port(p.port), p.cipher, scalar_text(p.password), entry_plugin(p)) {
        (Some(name), Some(server), Some(port), Some(cipher), Some(password), Some(plugin)) => Some(
            SsNodeView { name, server, port: port as u16, cipher, password, plugin },
        ),
        _ => None,
    }
}

/// The node of a `type: anytls` entry.
pub open spec fn anytls_of(p: RawProxyView) -> Option<AnytlsNodeView> {
    match (p.name, p.server, scalar_port(p.port), scalar_text(p.password)) {
        (Some(name), Some(server), Some(port), Some(password)) => Some(
            AnytlsNodeView {
                name,
                server,
                port: port as u16,
                password,
                sni: p.sni,
                alpn: p.alpn,
                client_fingerprint: p.client_fingerprint,
                skip_cert_verify: p.skip_cert_verify == Some(true),
            },
        ),
        _ => None,
    }
}

/// The node of an entry, or `None` where the entry is skipped.
pub open spec fn node_of(p: RawProxyView) -> Option<NodeView> {
    if p.kind == "ss"@ {
        match ss_of(p) {
            Some(n) => Some(NodeView::Ss(n)),
            None => None,
        }
    } else if p.kind == "anytls"@ {
        match anytls_of(p) {
            Some(n) => Some(NodeView::Anytls(n)),
            None => None,
        }
    } else {
        None
    }
}

/// Convert a `type: ss` entry. An unknown plugin drops the node: a plain
/// connection would change the transport shape.
pub fn ss_node(p: &RawProxy) -> (r: Option<SsNode>)
    ensures
        opt_view(r) == ss_of(p@),
{
    let port: u16 = match yaml_value_to_port(&p.port) {
        Some(port) => port,
        None => return None,
    };
    let password = match yaml_value_to_string(&p.password) {
        Some(password) => password,
        None => return None,
    };
    match (&p.name, &p.server, &p.cipher) {
        (Some(name), Some(server), Some(cipher)) => {
            let plugin = match &p.plugin {
                None => None,
                Some(kind) => {
                    if !same(kind.as_str(), "obfs") {
                        return None;
                    }
                    match &p.plugin_opts {
                        Some(opts) => match &opts.mode {
                            Some(mode) => Some(
                                ObfsOpts { mode: mode.clone(), host: copy_opt(&opts.host) },
                            ),
                            None => return None,
                        },
                        None => return None,
                    }
                },
            };
            Some(
                SsNode {
                    name: name.clone(),
                    server: server.clone(),
                    port,
                    cipher: cipher.clone(),
                    password,
                    plugin,
                },
            )
        },
        _ => None,
    }
}

/// Convert a `type: anytls` entry.
pub fn anytls_node(p: &RawProxy) -> (r: Option<AnytlsNode>)
    ensures
        opt_view(r) == anytls_of(p@),
{
    let port: u16 = match yaml_value_to_port(&p.port) {
        Some(port) => port,
        None => return None,
    };
    let password = match yaml_value_to_string(&p.password) {
        Some(password) => password,
        None => return None,
    };
    match (&p.name, &p.server) {
        (Some(name), Some(server)) => Some(
            AnytlsNode {
                name: name.clone(),
                server: server.clone(),
                port,
                password,
                sni: copy_opt(&p.sni),
                alpn: match &p.alpn {
                    Some(v) => Some(copy_texts(v)),
                    None => None,
                },
                client_fingerprint: copy_opt(&p.client_fingerprint),
                skip_cert_verify: match p.skip_cert_verify {
                    Some(b) => b,
                    None => false,
                },
            },
        ),
        _ => None,
    }
}

fn convert(p: &RawProxy) -> (r: Option<Node>)
    ensures
        opt_view(r) == node_of(p@),
{
    if same(p.kind.as_str(), "ss") {
        match ss_node(p) {
            Some(n) => Some(Node::Ss(n)),
            None => None,
        }
    } else if same(p.kind.as_str(), "anytls") {
        match anytls_node(p) {
            Some(n) => Some(Node::Anytls(n)),
            None => None,
        }
    } else {
        None
    }
}

/// The views of a list of entries; `None` stands for an unparseable entry.
pub open spec fn entries(v: Seq<Option<RawProxy>>) -> Seq<Option<RawProxyView>> {
    v.map_values(|p: Option<RawProxy>| opt_view(p))
}

/// The nodes of a list of entries in order: unusable entries are skipped, and
/// of several nodes with one name the first stays.
pub open spec fn entry_nodes(v: Seq<Option<RawProxyView>>) -> Seq<NodeView>
    decreases v.len(),
{
    if v.len() == 0 {
        Seq::empty()
    } else {
        let rest = entry_nodes(v.drop_last());
        match v.last() {
            Some(p) => match node_of(p) {
                Some(n) => add_new(rest, n),
                None => rest,
            },
            None => rest,
        }
    }
}

/// Convert parsed entries into nodes.
pub fn nodes_from_entries(v: &Vec<Option<RawProxy>>) -> (r: Vec<Node>)
    ensures
        pool(r@) == entry_nodes(entries(v@)),
{
    let mut nodes: Vec<Node> = Vec::new();
    let mut i: usize = 0;
    assert(entries(v@).take(0) =~= Seq::<Option<RawProxyView>>::empty());
    assert(pool(nodes@) =~= Seq::<NodeView>::empty());
    while i < v.len()
        invariant
            i <= v@.len(),
            pool(nodes@) == entry_nodes(entries(v@).take(i as int)),
        decreases v@.len() - i,
    {
        let ghost t = entries(v@).take(i + 1);
        assert(t.drop_last() =~= entries(v@).take(i as int));
        assert(t.last() == opt_view(v@[i as int]));
        let ghost before = pool(nodes@);
        if let Some(p) = &v[i] {
            if let Some(n) = convert(p) {
                if find_node(&nodes, n.name()).is_none() {
                    let ghost nv = n@;
                    nodes.push(n);
                    assert(pool(nodes@) =~= before.push(nv));
                }
            }
        }
        i = i + 1;
    }
    assert(entries(v@).take(v@.len() as int) =~= entries(v@));
    nodes
}

// ---------------------------------------------------------------------------
// From YAML to entries
// ---------------------------------------------------------------------------

/// The value of the last entry under a text key.
pub open spec fn field(m: Seq<(YamlTree, YamlTree)>, key: Seq<char>) -> Option<YamlTree>
    decreases m.len(),
{
    if m.len() == 0 {
        None
    } else if untag(m.last().0) == YamlTree::Text(key) {
        Some(m.last().1)
    } else {
        field(m.drop_last(), key)
    }
}

/// Every key is text.
pub open spec fn text_keys(m: Seq<(YamlTree, YamlTree)>) -> bool {
    forall|i: int| 0 <= i < m.len() ==> untag((#[trigger] m[i]).0) is Text
}

/// An optional text field: `Some(None)` where it is absent or null, `None`
/// where it holds something else.
pub open spec fn text_field(t: Option<YamlTree>) -> Option<Option<Seq<char>>> {
    match t {
        None => Some(None),
        Some(YamlTree::Null) => Some(None),
        Some(x) => match untag(x) {
            YamlTree::Text(s) => Some(Some(s)),
            _ => None,
        },
    }
}

pub open spec fn bool_field(t: Option<YamlTree>) -> Option<Option<bool>> {
    match t {
        None => Some(None),
        Some(YamlTree::Null) => Some(None),
        Some(x) => match untag(x) {
            YamlTree::Bool(b) => Some(Some(b)),
            _ => None,
        },
    }
}

/// A scalar field takes any value and remembers text and numbers.
pub open spec fn scalar_field(t: Option<YamlTree>) -> Option<RawScalarView> {
    match t {
        None => None,
        Some(YamlTree::Null) => None,
        Some(YamlTree::Text(s)) => Some(RawScalarView::Text(s)),
        Some(YamlTree::Number(s, n)) => Some(RawScalarView::Number(s, n)),
        Some(_) => Some(RawScalarView::Other),
    }
}

/// All elements are text.
pub open spec fn all_text(s: Seq<YamlTree>) -> bool {
    forall|i: int| 0 <= i < s.len() ==> untag(#[trigger] s[i]) is Text
}

pub open spec fn element_texts(s: Seq<YamlTree>) -> Seq<Seq<char>> {
    s.map_values(|t: YamlTree| untag(t)->Text_0)
}

pub open spec fn text_list_field(t: Option<YamlTree>) -> Option<Option<Seq<Seq<char>>>> {
    match t {
        None => Some(None),
        Some(YamlTree::Null) => Some(None),
        Some(x) => match untag(x) {
            YamlTree::Null => Some(Some(Seq::empty())),
            YamlTree::Sequence(s) => if all_text(s) {
                Some(Some(element_texts(s)))
            } else {
                None
            },
            _ => None,
        },
    }
}

/// The entries of a mapping; null counts as an empty mapping.
pub open spec fn mapping_of(t: YamlTree) -> Option<Seq<(YamlTree, YamlTree)>> {
    match untag(t) {
        YamlTree::Mapping(m) => Some(m),
        YamlTree::Null => Some(Seq::empty()),
        _ => None,
    }
}

pub open spec fn opts_of(t: YamlTree) -> Option<RawPluginOptsView> {
    match mapping_of(t) {
        None => None,
        Some(m) => match (text_field(field(m, "mode"@)), text_field(field(m, "host"@))) {
            (Some(mode), Some(host)) => if text_keys(m) {
                Some(RawPluginOptsView { mode, host })
            } else {
                None
            },
            _ => None,
        },
    }
}

pub open spec fn opts_field(t: Option<YamlTree>) -> Option<Option<RawPluginOptsView>> {
    match t {
        None => Some(None),
        Some(YamlTree::Null) => Some(None),
        Some(x) => match opts_of(x) {
            Some(o) => Some(Some(o)),
            None => None,
        },
    }
}

/// The typed fields of a proxy entry, or `None` where a known field has a
/// wrong type, `type` is missing, or a key is not text.
pub open spec fn proxy_of(t: YamlTree) -> Option<RawProxyView> {
    match mapping_of(t) {
        None => None,
        Some(m) => proxy_fields(m),
    }
}

pub open spec fn proxy_fields(m: Seq<(YamlTree, YamlTree)>) -> Option<RawProxyView> {
    let kind = match field(m, "type"@) {
        Some(x) => match untag(x) {
            YamlTree::Text(s) => Some(s),
            _ => None,
        },
        None => None,
    };
    let name = text_field(field(m, "name"@));
    let server = text_field(field(m, "server"@));
    let cipher = text_field(field(m, "cipher"@));
    let plugin = text_field(field(m, "plugin"@));
    let opts = opts_field(field(m, "plugin-opts"@));
    let sni = text_field(field(m, "sni"@));
    let alpn = text_list_field(field(m, "alpn"@));
    let print = text_field(field(m, "client-fingerprint"@));
    let skip = bool_field(field(m, "skip-cert-verify"@));
    if text_keys(m) && kind is Some && name is Some && server is Some && cipher is Some && plugin
        is Some && opts is Some && sni is Some && alpn is Some && print is Some && skip is Some {
        Some(
            RawProxyView {
                kind: kind->0,
                name: name->0,
                server: server->0,
                port: scalar_field(field(m, "port"@)),
                cipher: cipher->0,
                password: scalar_field(field(m, "password"@)),
                plugin: plugin->0,
                plugin_opts: opts->0,
                sni: sni->0,
                alpn: alpn->0,
                client_fingerprint: print->0,
                skip_cert_verify: skip->0,
            },
        )
    } else {
        None
    }
}

/// The `proxies:` list of a document; absent or null is an empty list.
pub open spec fn proxies_of(t: YamlTree) -> Option<Seq<YamlTree>> {
    match mapping_of(t) {
        None => None,
        Some(m) => match field(m, "proxies"@) {
            None => Some(Seq::empty()),
            Some(x) => match untag(x) {
                YamlTree::Null => Some(Seq::empty()),
                YamlTree::Sequence(s) => Some(s),
                _ => None,
            },
        },
    }
}

/// The nodes of a document.
pub open spec fn tree_nodes(t: YamlTree) -> Result<Seq<NodeView>, ManifestError> {
    match proxies_of(t) {
        None => Err(ManifestError::Shape),
        Some(s) => Ok(entry_nodes(s.map_values(|x: YamlTree| proxy_of(x)))),
    }
}

/// The nodes of a manifest text: one document, and that a mapping with scalar
/// keys or empty.
pub open spec fn text_nodes(text: Seq<char>) -> Result<Seq<NodeView>, ManifestError> {
    match yaml_document(text) {
        None => Err(ManifestError::Syntax),
        Some(t) => if yaml_sections(text) {
            tree_nodes(t)
        } else {
            Err(ManifestError::Shape)
        },
    }
}

type Pairs = Vec<(serde_yaml::Value, serde_yaml::Value)>;

/// Find the last entry under a text key.
fn find_field(m: &Pairs, key: &str) -> (r: Option<usize>)
    ensures
        match r {
            Some(i) => i < m@.len() && field(tree_pairs(m@), key@) == Some(yaml_tree(m@[i as int].1)),
            None => field(tree_pairs(m@), key@) is None,
        },
{
    let mut i: usize = m.len();
    let ghost all = tree_pairs(m@);
    assert(all.take(m@.len() as int) =~= all);
    while i > 0
        invariant
            i <= m@.len(),
            all == tree_pairs(m@),
            field(all.take(i as int), key@) == field(all, key@),
        decreases i,
    {
        let ghost t = all.take(i as int);
        assert(t.last() == (yaml_tree(m@[i - 1].0), yaml_tree(m@[i - 1].1)));
        assert(t.drop_last() =~= all.take(i - 1));
        i = i - 1;
        if let YamlNode::Text(s) = open_untagged(&m[i].0) {
            if same(s.as_str(), key) {
                assert(untag(t.last().0) == YamlTree::Text(key@));
                return Some(i);
            }
            assert(untag(t.last().0) != YamlTree::Text(key@));
        }
    }
    assert(all.take(0) =~= Seq::<(YamlTree, YamlTree)>::empty());
    None
}

fn keys_are_text(m: &Pairs) -> (r: bool)
    ensures
        r == text_keys(tree_pairs(m@)),
{
    let mut i: usize = 0;
    let ghost all = tree_pairs(m@);
    while i < m.len()
        invariant
            i <= m@.len(),
            all == tree_pairs(m@),
            forall|j: int| 0 <= j < i ==> untag((#[trigger] all[j]).0) is Text,
        decreases m@.len() - i,
    {
        assert(all[i as int].0 == yaml_tree(m@[i as int].0));
        match open_untagged(&m[i].0) {
            YamlNode::Text(_) => {},
            _ => {
                assert(!(untag(all[i as int].0) is Text));
                return false;
            },
        }
        i = i + 1;
    }
    true
}

fn get_text(m: &Pairs, key: &str) -> (r: Option<Option<String>>)
    ensures
        match r {
            Some(o) => text_field(field(tree_pairs(m@), key@)) == Some(opt_text(o)),
            None => text_field(field(tree_pairs(m@), key@)) is None,
        },
{
    match find_field(m, key) {
        None => Some(None),
        Some(i) => match open_value(&m[i].1) {
            YamlNode::Null => Some(None),
            YamlNode::Text(s) => Some(Some(s)),
            YamlNode::Tagged(inner) => match open_value(&inner) {
                YamlNode::Text(s) => Some(Some(s)),
                _ => None,
            },
            _ => None,
        },
    }
}

fn get_bool(m: &Pairs, key: &str) -> (r: Option<Option<bool>>)
    ensures
        r == bool_field(field(tree_pairs(m@), key@)),
{
    match find_field(m, key) {
        None => Some(None),
        Some(i) => match open_value(&m[i].1) {
            YamlNode::Null => Some(None),
            YamlNode::Bool(b) => Some(Some(b)),
            YamlNode::Tagged(inner) => match open_value(&inner) {
                YamlNode::Bool(b) => Some(Some(b)),
                _ => None,
            },
            _ => None,
        },
    }
}

fn get_scalar(m: &Pairs, key: &str) -> (r: Option<RawScalar>)
    ensures
        opt_view(r) == scalar_field(field(tree_pairs(m@), key@)),
{
    match find_field(m, key) {
        None => None,
        Some(i) => match open_value(&m[i].1) {
            YamlNode::Null => None,
            YamlNode::Text(s) => Some(RawScalar::Text(s)),
            YamlNode::Number(s, n) => Some(RawScalar::Number(s, n)),
            _ => Some(RawScalar::Other),
        },
    }
}

fn all_texts(items: &Vec<serde_yaml::Value>) -> (r: Option<Vec<String>>)
    ensures
        match r {
            Some(v) => all_text(trees(items@)) && texts(v@) == element_texts(trees(items@)),
            None => !all_text(trees(items@)),
        },
{
    let mut out: Vec<String> = Vec::new();
    let mut i: usize = 0;
    let ghost all = trees(items@);
    while i < items.len()
        invariant
            i <= items@.len(),
            all == trees(items@),
            out@.len() == i,
            forall|j: int| 0 <= j < i ==> untag(#[trigger] all[j]) is Text && untag(all[j])->Text_0 == out@[j]@,
        decreases items@.len() - i,
    {
        assert(all[i as int] == yaml_tree(items@[i as int]));
        match open_untagged(&items[i]) {
            YamlNode::Text(s) => {
                out.push(s);
            },
            _ => {
                assert(!(untag(all[i as int]) is Text));
                return None;
            },
        }
        i = i + 1;
    }
    assert(texts(out@) =~= element_texts(all));
    Some(out)
}

fn get_text_list(m: &Pairs, key: &str) -> (r: Option<Option<Vec<String>>>)
    ensures
        match r {
            Some(o) => text_list_field(field(tree_pairs(m@), key@)) == Some(opt_texts(o)),
            None => text_list_field(field(tree_pairs(m@), key@)) is None,
        },
{
    match find_field(m, key) {
        None => Some(None),
        Some(i) => match open_value(&m[i].1) {
            YamlNode::Null => Some(None),
            YamlNode::Sequence(items) => match all_texts(&items) {
                Some(v) => Some(Some(v)),
                None => None,
            },
            YamlNode::Tagged(inner) => match open_value(&inner) {
                YamlNode::Null => {
                    let v: Vec<String> = Vec::new();
                    assert(texts(v@) =~= Seq::<Seq<char>>::empty());
                    Some(Some(v))
                },
                YamlNode::Sequence(items) => match all_texts(&items) {
                    Some(v) => Some(Some(v)),
                    None => None,
                },
                _ => None,
            },
            _ => None,
        },
    }
}

fn get_mapping(v: &serde_yaml::Value) -> (r: Option<Pairs>)
    ensures
        match r {
            Some(m) => mapping_of(yaml_tree(*v)) == Some(tree_pairs(m@)),
            None => mapping_of(yaml_tree(*v)) is None,
        },
{
    match open_untagged(v) {
        YamlNode::Mapping(m) => Some(m),
        YamlNode::Null => {
            let m: Pairs = Vec::new();
            assert(tree_pairs(m@) =~= Seq::<(YamlTree, YamlTree)>::empty());
            Some(m)
        },
        _ => None,
    }
}

fn get_opts(m: &Pairs, key: &str) -> (r: Option<Option<RawPluginOpts>>)
    ensures
        match r {
            Some(o) => opts_field(field(tree_pairs(m@), key@)) == Some(opt_view(o)),
            None => opts_field(field(tree_pairs(m@), key@)) is None,
        },
{
    let i: usize = match find_field(m, key) {
        None => return Some(None),
        Some(i) => i,
    };
    if let YamlNode::Null = open_value(&m[i].1) {
        return Some(None);
    }
    let inner = match get_mapping(&m[i].1) {
        Some(inner) => inner,
        None => return None,
    };
    if !keys_are_text(&inner) {
        return None;
    }
    match (get_text(&inner, "mode"), get_text(&inner, "host")) {
        (Some(mode), Some(host)) => Some(Some(RawPluginOpts { mode, host })),
        _ => None,
    }
}

/// Read the typed fields of one proxy entry.
pub fn proxy_from_value(v: &serde_yaml::Value) -> (r: Option<RawProxy>)
    ensures
        opt_view(r) == proxy_of(yaml_tree(*v)),
{
    let m = match get_mapping(v) {
        Some(m) => m,
        None => return None,
    };
    if !keys_are_text(&m) {
        return None;
    }
    let kind = match find_field(&m, "type") {
        Some(i) => match open_untagged(&m[i].1) {
            YamlNode::Text(s) => s,
            _ => return None,
        },
        None => return None,
    };
    let name = match get_text(&m, "name") {
        Some(o) => o,
        None => return None,
    };
    let server = match get_text(&m, "server") {
        Some(o) => o,
        None => return None,
    };
    let cipher = match get_text(&m, "cipher") {
        Some(o) => o,
        None => return None,
    };
    let plugin = match get_text(&m, "plugin") {
        Some(o) => o,
        None => return None,
    };
    let plugin_opts = match get_opts(&m, "plugin-opts") {
        Some(o) => o,
        None => return None,
    };
    let sni = match get_text(&m, "sni") {
        Some(o) => o,
        None => return None,
    };
    let alpn = match get_text_list(&m, "alpn") {
        Some(o) => o,
        None => return None,
    };
    let client_fingerprint = match get_text(&m, "client-fingerprint") {
        Some(o) => o,
        None => return None,
    };
    let skip_cert_verify = match get_bool(&m, "skip-cert-verify") {
        Some(o) => o,
        None => return None,
    };
    Some(
        RawProxy {
            kind,
            name,
            server,
            port: get_scalar(&m, "port"),
            cipher,
            password: get_scalar(&m, "password"),
            plugin,
            plugin_opts,
            sni,
            alpn,
            client_fingerprint,
            skip_cert_verify,
        },
    )
}

/// The nodes of a parsed document.
pub fn nodes_from_value(v: &serde_yaml::Value) -> (r: Result<Vec<Node>, ManifestError>)
    ensures
        match r {
            Ok(nodes) => tree_nodes(yaml_tree(*v)) == Ok::<Seq<NodeView>, ManifestError>(
                pool(nodes@),
            ),
            Err(e) => tree_nodes(yaml_tree(*v)) == Err::<Seq<NodeView>, ManifestError>(e),
        },
{
    let m = match get_mapping(v) {
        Some(m) => m,
        None => return Err(ManifestError::Shape),
    };
    let items: Vec<serde_yaml::Value> = match find_field(&m, "proxies") {
        None => Vec::new(),
        Some(i) => match open_untagged(&m[i].1) {
            YamlNode::Null => Vec::new(),
            YamlNode::Sequence(items) => items,
            _ => return Err(ManifestError::Shape),
        },
    };
    let ghost seq = proxies_of(yaml_tree(*v))->0;
    assert(trees(items@) =~= seq);
    let mut raw: Vec<Option<RawProxy>> = Vec::new();
    let mut i: usize = 0;
    while i < items.len()
        invariant
            i <= items@.len(),
            raw@.len() == i,
            forall|j: int| 0 <= j < i ==> opt_view(#[trigger] raw@[j]) == proxy_of(yaml_tree(items@[j])),
        decreases items@.len() - i,
    {
        raw.push(proxy_from_value(&items[i]));
        i = i + 1;
    }
    proof {
        let want = seq.map_values(|x: YamlTree| proxy_of(x));
        assert forall|j: int| 0 <= j < want.len() implies entries(raw@)[j] == want[j] by {
            assert(seq[j] == yaml_tree(items@[j]));
            assert(opt_view(raw@[j]) == proxy_of(yaml_tree(items@[j])));
        }
        assert(entries(raw@) =~= want);
    }
    Ok(nodes_from_entries(&raw))
}

/// Parse all supported nodes out of YAML text.
///
/// - Entries of unsupported types are skipped by design.
/// - Supported entries with missing or ill-typed fields are skipped.
/// - Of several entries with one name the first stays.
///
/// The text has to be a mapping with scalar keys, or empty. It is read as one
/// `serde_yaml::Value` and then searched for its entries. So a key that a
/// mapping repeats is a syntax error wherever it stands, also beside the
/// entries, and a list of entries that is written out as null counts as one
/// that is left empty: the value does not tell them apart.
pub fn parse_str(text: &str) -> (r: Result<Vec<Node>, ManifestError>)
    ensures
        match r {
            Ok(nodes) => text_nodes(text@) == Ok::<Seq<NodeView>, ManifestError>(pool(nodes@)),
            Err(e) => text_nodes(text@) == Err::<Seq<NodeView>, ManifestError>(e),
        },
{
    match parse_value(text) {
        Ok(v) => if reads_sections(text) {
            nodes_from_value(&v)
        } else {
            Err(ManifestError::Shape)
        },
        Err(_) => Err(ManifestError::Syntax),
    }
}

/// The nodes of a manifest have distinct names.
pub proof fn law_entry_names_are_distinct(v: Seq<Option<RawProxyView>>)
    ensures
        distinct_names(entry_nodes(v)),
    decreases v.len(),
{
    if v.len() > 0 {
        law_entry_names_are_distinct(v.drop_last());
        let rest = entry_nodes(v.drop_last());
        if v.last() is Some && node_of(v.last()->0) is Some {
            let n = node_of(v.last()->0)->0;
            let all = add_new(rest, n);
            assert forall|i: int, j: int| 0 <= i < j < all.len() implies (#[trigger] all[i]).name()
                != (#[trigger] all[j]).name() by {
                if all.len() > rest.len() {
                    assert(all[i] == rest[i]);
                    if j == rest.len() {
                        assert(!named(rest, n.name()));
                    } else {
                        assert(all[j] == rest[j]);
                    }
                }
            }
        }
    }
}

/// An entry without a usable node changes nothing for the others.
pub proof fn law_unusable_entry_is_ignored(v: Seq<Option<RawProxyView>>, i: int)
    requires
        0 <= i < v.len(),
        v[i] is None || node_of(v[i]->0) is None,
    ensures
        entry_nodes(v) == entry_nodes(v.remove(i)),
    decreases v.len(),
{
    if i == v.len() - 1 {
        assert(v.remove(i) =~= v.drop_last());
    } else {
        law_unusable_entry_is_ignored(v.drop_last(), i);
        assert(v.remove(i).drop_last() =~= v.drop_last().remove(i));
        assert(v.remove(i).last() == v.last());
    }
}

// ---------------------------------------------------------------------------
// What an entry becomes
// ---------------------------------------------------------------------------

/// A port is a number up to 65535, written as a number or as a text.
pub proof fn law_ports_are_numbers(n: nat, digits: Seq<char>, whole: u64)
    ensures
        scalar_port(Some(RawScalarView::Text(crate::text::decimal(n)))) == if n <= 65535 {
            Some(n)
        } else {
            None
        },
        scalar_port(Some(RawScalarView::Number(digits, Some(whole)))) == if whole <= 65535 {
            Some(whole as nat)
        } else {
            None
        },
        scalar_port(Some(RawScalarView::Number(digits, None))) is None,
        scalar_port(None) is None && scalar_port(Some(RawScalarView::Other)) is None,
{
    crate::text::lemma_decimal_parses(n, 65535);
    crate::text::lemma_decimal_is_trimmed(n);
}

/// An entry of type `ss` becomes a node exactly where name, server, port,
/// cipher and password are there and its plugin, if any, is `obfs` with a
/// mode; the node has just these values. One of type `anytls` needs no cipher;
/// its certificate goes unchecked only where the entry says so. Other types
/// become nothing.
pub proof fn law_entry_becomes_its_node(p: RawProxyView)
    ensures
        p.kind != "ss"@ && p.kind != "anytls"@ ==> node_of(p) is None,
        p.kind == "ss"@ ==> (node_of(p) is Some <==> {
            &&& p.name is Some && p.server is Some && p.cipher is Some
            &&& scalar_port(p.port) is Some && scalar_text(p.password) is Some
            &&& p.plugin is Some ==> p.plugin->0 == "obfs"@ && p.plugin_opts is Some && (
            p.plugin_opts->0).mode is Some
        }),
        p.kind == "ss"@ ==> (node_of(p) matches Some(n) ==> (n matches NodeView::Ss(s) && {
            &&& Some(s.name) == p.name && Some(s.server) == p.server && Some(s.cipher) == p.cipher
            &&& Some(s.port as nat) == scalar_port(p.port)
            &&& Some(s.password) == scalar_text(p.password)
            &&& s.plugin is Some <==> p.plugin is Some
            &&& s.plugin matches Some(o) ==> Some(o.mode) == (p.plugin_opts->0).mode && o.host == (
            p.plugin_opts->0).host
        })),
        p.kind == "anytls"@ ==> (node_of(p) is Some <==> p.name is Some && p.server is Some
            && scalar_port(p.port) is Some && scalar_text(p.password) is Some),
        p.kind == "anytls"@ ==> (node_of(p) matches Some(n) ==> (n matches NodeView::Anytls(s) && {
            &&& Some(s.name) == p.name && Some(s.server) == p.server
            &&& Some(s.port as nat) == scalar_port(p.port)
            &&& Some(s.password) == scalar_text(p.password)
            &&& s.sni == p.sni && s.alpn == p.alpn && s.client_fingerprint == p.client_fingerprint
            &&& s.skip_cert_verify <==> p.skip_cert_verify == Some(true)
        })),
{
    reveal_strlit("ss");
    reveal_strlit("anytls");
    assert("ss"@.len() == 2 && "anytls"@.len() == 6);
    lemma_port_fits(p.port);
}

proof fn lemma_port_fits(s: Option<RawScalarView>)
    ensures
        scalar_port(s) matches Some(n) ==> n <= 65535,
{
}

/// The values of an entry are those under their keys.
pub proof fn law_entry_is_read_by_its_keys(m: Seq<(YamlTree, YamlTree)>)
    ensures
        proxy_fields(m) matches Some(p) ==> {
            &&& field(m, "type"@) is Some && untag(field(m, "type"@)->0) == YamlTree::Text(p.kind)
            &&& text_field(field(m, "name"@)) == Some(p.name)
            &&& text_field(field(m, "server"@)) == Some(p.server)
            &&& scalar_field(field(m, "port"@)) == p.port
            &&& text_field(field(m, "cipher"@)) == Some(p.cipher)
            &&& scalar_field(field(m, "password"@)) == p.password
            &&& text_field(field(m, "plugin"@)) == Some(p.plugin)
            &&& opts_field(field(m, "plugin-opts"@)) == Some(p.plugin_opts)
            &&& text_field(field(m, "sni"@)) == Some(p.sni)
            &&& text_list_field(field(m, "alpn"@)) == Some(p.alpn)
            &&& text_field(field(m, "client-fingerprint"@)) == Some(p.client_fingerprint)
            &&& bool_field(field(m, "skip-cert-verify"@)) == Some(p.skip_cert_verify)
        },
{
}

/// A plain text, number or truth value under a key is read as what it is; a
/// key that is not there, or holds nothing, reads as nothing.
pub proof fn law_plain_values_are_read(
    m: Seq<(YamlTree, YamlTree)>,
    key: Seq<char>,
    other: Seq<char>,
    value: YamlTree,
    s: Seq<char>,
    b: bool,
)
    requires
        key != other,
    ensures
        field(m.push((YamlTree::Text(key), value)), key) == Some(value),
        field(m.push((YamlTree::Text(key), value)), other) == field(m, other),
        text_field(Some(YamlTree::Text(s))) == Some(Some(s)),
        bool_field(Some(YamlTree::Bool(b))) == Some(Some(b)),
        text_field(None) == Some(None::<Seq<char>>) && text_field(Some(YamlTree::Null)) == Some(
            None::<Seq<char>>,
        ),
        bool_field(None) == Some(None::<bool>) && bool_field(Some(YamlTree::Null)) == Some(
            None::<bool>,
        ),
        scalar_field(Some(YamlTree::Text(s))) == Some(RawScalarView::Text(s)),
        scalar_text(Some(RawScalarView::Text(s))) == Some(s),
        scalar_field(None) is None && scalar_field(Some(YamlTree::Null)) is None,
{
    let with = m.push((YamlTree::Text(key), value));
    assert(with.last() == (YamlTree::Text(key), value));
    assert(with.drop_last() =~= m);
}

/// The nodes of a manifest are those that its entries become, the first of
/// each name.
pub proof fn law_first_entry_of_a_name_counts(v: Seq<Option<RawProxyView>>, name: Seq<char>)
    ensures
        named(entry_nodes(v), name) <==> exists|i: int| 0 <= i < v.len() && #[trigger] makes(v[i], name),
        forall|n: NodeView| #[trigger] entry_nodes(v).contains(n) ==> exists|i: int|
            0 <= i < v.len() && #[trigger] makes(v[i], n.name()) && node_of(v[i]->0) == Some(n)
                && forall|j: int| 0 <= j < i ==> !#[trigger] makes(v[j], n.name()),
    decreases v.len(),
{
    if v.len() > 0 {
        let d = v.drop_last();
        let last = v[v.len() - 1];
        law_first_entry_of_a_name_counts(d, name);
        let rest = entry_nodes(d);
        let all = entry_nodes(v);
        if named(all, name) {
            let k = choose|k: int| 0 <= k < all.len() && (#[trigger] all[k]).name() == name;
            if k < rest.len() {
                assert(rest[k] == all[k]);
                assert(named(rest, name));
                let i = choose|i: int| 0 <= i < d.len() && #[trigger] makes(d[i], name);
                assert(v[i] == d[i]);
                assert(makes(v[i], name));
            } else {
                assert(makes(v[v.len() - 1], name));
            }
        }
        if exists|i: int| 0 <= i < v.len() && #[trigger] makes(v[i], name) {
            let i = choose|i: int| 0 <= i < v.len() && #[trigger] makes(v[i], name);
            if i < d.len() {
                assert(makes(d[i], name));
                let k = choose|k: int| 0 <= k < rest.len() && (#[trigger] rest[k]).name() == name;
                assert(all[k] == rest[k]);
            } else if !named(rest, name) {
                assert(all[rest.len() as int].name() == name);
            } else {
                let k = choose|k: int| 0 <= k < rest.len() && (#[trigger] rest[k]).name() == name;
                assert(all[k] == rest[k]);
            }
        }
        assert forall|n: NodeView| #[trigger] all.contains(n) implies exists|i: int|
            0 <= i < v.len() && #[trigger] makes(v[i], n.name()) && node_of(v[i]->0) == Some(n)
                && forall|j: int| 0 <= j < i ==> !#[trigger] makes(v[j], n.name()) by {
            law_first_entry_of_a_name_counts(d, n.name());
            if rest.contains(n) {
                let i = choose|i: int|
                    0 <= i < d.len() && #[trigger] makes(d[i], n.name()) && node_of(d[i]->0)
                        == Some(n) && forall|j: int| 0 <= j < i ==> !#[trigger] makes(d[j], n.name());
                assert(v[i] == d[i]);
                assert(makes(v[i], n.name()));
                assert forall|j: int| 0 <= j < i implies !#[trigger] makes(v[j], n.name()) by {
                    assert(v[j] == d[j]);
                    assert(!makes(d[j], n.name()));
                }
            } else {
                let k = all.index_of(n);
                if k < rest.len() {
                    assert(rest[k] == n);
                    assert(rest.contains(n));
                }
                let i = v.len() - 1;
                assert(makes(v[i], n.name()));
                assert(node_of(v[i]->0) == Some(n));
                assert(!named(rest, n.name()));
                assert forall|j: int| 0 <= j < i implies !#[trigger] makes(v[j], n.name()) by {
                    assert(v[j] == d[j]);
                    assert(!makes(d[j], n.name()));
                }
            }
        }
    }
}

/// An entry becomes a node of this name.
pub open spec fn makes(e: Option<RawProxyView>, name: Seq<char>) -> bool {
    e is Some && node_of(e->0) is Some && (node_of(e->0)->0).name() == name
}

} // verus!
