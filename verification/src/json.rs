//! JSON values, made and written by `serde_json`.

use vstd::prelude::*;

use crate::text::decimal;

verus! {

#[verifier::external_type_specification]
#[verifier::external_body]
pub struct ExJsonValue(serde_json::Value);

#[verifier::external_type_specification]
#[verifier::external_body]
pub struct ExJsonError(serde_json::Error);

#[verifier::external_type_specification]
#[verifier::external_body]
#[verifier::reject_recursive_types(K)]
#[verifier::reject_recursive_types(V)]
pub struct ExJsonMap<K, V>(serde_json::Map<K, V>);

/// A JSON value as a tree.
pub enum JsonTree {
    Null,
    Bool(bool),
    /// A number, by the way it prints.
    Number(Seq<char>),
    Text(Seq<char>),
    Array(Seq<JsonTree>),
    Object(Map<Seq<char>, JsonTree>),
}

/// The tree that a `serde_json::Value` holds.
pub uninterp spec fn json_tree(v: serde_json::Value) -> JsonTree;

/// The members that a `serde_json::Map` holds.
pub uninterp spec fn json_members(m: serde_json::Map<String, serde_json::Value>) -> Map<
    Seq<char>,
    JsonTree,
>;

/// What `serde_json::to_vec_pretty` writes for a tree, or `None` where it
/// reports an error.
pub uninterp spec fn json_pretty(t: JsonTree) -> Option<Seq<u8>>;

pub open spec fn no_members() -> Map<Seq<char>, JsonTree> {
    Map::empty()
}

pub open spec fn json_trees(v: Seq<serde_json::Value>) -> Seq<JsonTree> {
    v.map_values(|x: serde_json::Value| json_tree(x))
}

/// `serde_json::Value::Bool`.
#[verifier::external_body]
pub(crate) fn json_bool(b: bool) -> (v: serde_json::Value)
    ensures
        json_tree(v) == JsonTree::Bool(b),
{
    serde_json::Value::Bool(b)
}

/// `serde_json::Value::from` on a port number: a number that prints as its
/// decimal digits.
#[verifier::external_body]
pub(crate) fn json_port(n: u16) -> (v: serde_json::Value)
    ensures
        json_tree(v) == JsonTree::Number(decimal(n as nat)),
{
    serde_json::Value::from(n)
}

/// `serde_json::Value::String`.
#[verifier::external_body]
pub(crate) fn json_text(s: &str) -> (v: serde_json::Value)
    ensures
        json_tree(v) == JsonTree::Text(s@),
{
    serde_json::Value::String(s.to_string())
}

/// `serde_json::Value::Array`: the items in their order.
#[verifier::external_body]
pub(crate) fn json_array(items: Vec<serde_json::Value>) -> (v: serde_json::Value)
    ensures
        json_tree(v) == JsonTree::Array(json_trees(items@)),
{
    serde_json::Value::Array(items)
}

/// `serde_json::Map::new`: no members.
#[verifier::external_body]
pub(crate) fn new_members() -> (m: serde_json::Map<String, serde_json::Value>)
    ensures
        json_members(m) == no_members(),
{
    serde_json::Map::new()
}

/// `serde_json::Map::insert`: the member is added, in place of one with the
/// same name.
#[verifier::external_body]
pub(crate) fn put(
    m: &mut serde_json::Map<String, serde_json::Value>,
    name: &str,
    value: serde_json::Value,
)
    ensures
        json_members(*final(m)) == json_members(*old(m)).insert(name@, json_tree(value)),
{
    m.insert(name.to_string(), value);
}

/// `serde_json::Value::Object`.
#[verifier::external_body]
pub(crate) fn json_object(m: serde_json::Map<String, serde_json::Value>) -> (v: serde_json::Value)
    ensures
        json_tree(v) == JsonTree::Object(json_members(m)),
{
    serde_json::Value::Object(m)
}

/// `serde_json::to_vec_pretty` on a `serde_json::Value`. The bytes depend on
/// the value's tree alone: members are written in the order of their names.
#[verifier::external_body]
pub(crate) fn write_pretty(v: &serde_json::Value) -> (r: Result<Vec<u8>, serde_json::Error>)
    ensures
        match r {
            Ok(bytes) => json_pretty(json_tree(*v)) == Some(bytes@),
            Err(_) => json_pretty(json_tree(*v)) is None,
        },
{
    serde_json::to_vec_pretty(v)
}

} // verus!
