//! YAML documents, read by `serde_yaml` and looked at one level at a time.

use vstd::prelude::*;

verus! {

#[verifier::external_type_specification]
#[verifier::external_body]
pub struct ExYamlValue(serde_yaml::Value);

#[verifier::external_type_specification]
#[verifier::external_body]
pub struct ExYamlError(serde_yaml::Error);

/// A YAML document as a tree.
pub enum YamlTree {
    Null,
    Bool(bool),
    /// A number: how it prints, and its value if it is an unsigned integer
    /// of 64 bits.
    Number(Seq<char>, Option<u64>),
    Text(Seq<char>),
    Sequence(Seq<YamlTree>),
    Mapping(Seq<(YamlTree, YamlTree)>),
    /// A value behind a `!tag`.
    Tagged(Box<YamlTree>),
}

/// One level of a YAML value.
pub enum YamlNode {
    Null,
    Bool(bool),
    Number(String, Option<u64>),
    Text(String),
    Sequence(Vec<serde_yaml::Value>),
    Mapping(Vec<(serde_yaml::Value, serde_yaml::Value)>),
    Tagged(serde_yaml::Value),
}

/// The tree that a `serde_yaml::Value` holds.
pub uninterp spec fn yaml_tree(v: serde_yaml::Value) -> YamlTree;

/// The tree that `serde_yaml::from_str` reads from a text, or `None` where it
/// reports an error.
pub uninterp spec fn yaml_document(text: Seq<char>) -> Option<YamlTree>;

/// Does `serde_yaml::from_str` read the text as a mapping from texts to values
/// that nobody looks at?
pub uninterp spec fn yaml_sections(text: Seq<char>) -> bool;

pub open spec fn trees(v: Seq<serde_yaml::Value>) -> Seq<YamlTree> {
    v.map_values(|x: serde_yaml::Value| yaml_tree(x))
}

pub open spec fn tree_pairs(v: Seq<(serde_yaml::Value, serde_yaml::Value)>) -> Seq<
    (YamlTree, YamlTree),
> {
    v.map_values(
        |e: (serde_yaml::Value, serde_yaml::Value)| (yaml_tree(e.0), yaml_tree(e.1)),
    )
}

/// The tree of an opened level.
pub open spec fn node_tree(n: YamlNode) -> YamlTree {
    match n {
        YamlNode::Null => YamlTree::Null,
        YamlNode::Bool(b) => YamlTree::Bool(b),
        YamlNode::Number(text, unsigned) => YamlTree::Number(text@, unsigned),
        YamlNode::Text(s) => YamlTree::Text(s@),
        YamlNode::Sequence(items) => YamlTree::Sequence(trees(items@)),
        YamlNode::Mapping(items) => YamlTree::Mapping(tree_pairs(items@)),
        YamlNode::Tagged(inner) => YamlTree::Tagged(Box::new(yaml_tree(inner))),
    }
}

/// `serde_yaml::from_str` into a `serde_yaml::Value`. The result depends on
/// the text alone; which texts it accepts is left to the crate.
#[verifier::external_body]
pub(crate) fn parse_value(text: &str) -> (r: Result<serde_yaml::Value, serde_yaml::Error>)
    ensures
        match r {
            Ok(v) => yaml_document(text@) == Some(yaml_tree(v)),
            Err(_) => yaml_document(text@) is None,
        },
{
    serde_yaml::from_str::<serde_yaml::Value>(text)
}

/// `serde_yaml::from_str` into a map from texts to `serde::de::IgnoredAny`: it
/// succeeds on a mapping with scalar keys and on an empty document, whatever
/// the values are. Whether it does depends on the text alone; which texts
/// these are is left to the crate.
#[verifier::external_body]
pub(crate) fn reads_sections(text: &str) -> (r: bool)
    ensures
        r == yaml_sections(text@),
{
    serde_yaml::from_str::<std::collections::BTreeMap<String, serde::de::IgnoredAny>>(text).is_ok()
}

/// The variant of a `serde_yaml::Value` and what it holds: for a number, its
/// `Display` form and `Number::as_u64`; for a mapping, its entries in order.
#[verifier::external_body]
pub(crate) fn open_value(v: &serde_yaml::Value) -> (n: YamlNode)
    ensures
        node_tree(n) == yaml_tree(*v),
{
    match v {
        serde_yaml::Value::Null => YamlNode::Null,
        serde_yaml::Value::Bool(b) => YamlNode::Bool(*b),
        serde_yaml::Value::Number(n) => YamlNode::Number(n.to_string(), n.as_u64()),
        serde_yaml::Value::String(s) => YamlNode::Text(s.clone()),
        serde_yaml::Value::Sequence(items) => YamlNode::Sequence(items.clone()),
        serde_yaml::Value::Mapping(m) => YamlNode::Mapping(m.clone().into_iter().collect()),
        serde_yaml::Value::Tagged(t) => YamlNode::Tagged(t.value.clone()),
    }
}

/// The tree behind a tag, or the tree itself.
pub open spec fn untag(t: YamlTree) -> YamlTree {
    match t {
        YamlTree::Tagged(inner) => *inner,
        _ => t,
    }
}

/// Open a value, looking through a tag.
pub(crate) fn open_untagged(v: &serde_yaml::Value) -> (n: YamlNode)
    ensures
        node_tree(n) == untag(yaml_tree(*v)),
{
    match open_value(v) {
        YamlNode::Tagged(inner) => open_value(&inner),
        other => other,
    }
}

} // verus!
