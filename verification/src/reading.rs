//! Reading a text as JSON or as YAML. Both are the work of outside crates;
//! what they hand back is taken on trust and given a name, and the parser
//! states what it makes of it.

use vstd::prelude::*;
use crate::model::{OpenApiError, OpenApiErrorView, OpenApiSpec, OpenApiSpecView};
use crate::node::{Node, NodeView};
use crate::shape::document_of;
use crate::views::result_view;

verus! {

/// `serde_json::Value`: a JSON value of any kind.
#[verifier::external_type_specification]
#[verifier::external_body]
pub struct ExValue(serde_json::Value);

/// The tree that a `serde_json::Value` holds.
pub uninterp spec fn value_tree(value: serde_json::Value) -> NodeView;

/// What `serde_json::from_str` makes of a text that is read as a
/// `serde_json::Value`: the tree of the value, or the message of the error.
pub uninterp spec fn json_reading(text: Seq<char>) -> Result<NodeView, Seq<char>>;

/// What `serde_yaml::from_str` makes of a text that is read as a
/// `serde_json::Value`: the tree of the value, or the message of the error.
pub uninterp spec fn yaml_reading(text: Seq<char>) -> Result<NodeView, Seq<char>>;

/// `serde_json::from_str`, reading a `serde_json::Value`. The result depends
/// on the text alone; the contract gives it its name and claims no more. An
/// error is handed back as the message that it displays.
#[verifier::external_body]
fn read_json(text: &str) -> (r: Result<serde_json::Value, String>)
    ensures
        match r {
            Ok(value) => json_reading(text@) == Ok::<NodeView, Seq<char>>(value_tree(value)),
            Err(message) => json_reading(text@) == Err::<NodeView, Seq<char>>(message@),
        },
{
    serde_json::from_str::<serde_json::Value>(text).map_err(|e| e.to_string())
}

/// `serde_yaml::from_str`, reading a `serde_json::Value`. The result depends
/// on the text alone; the contract gives it its name and claims no more. An
/// error is handed back as the message that it displays.
#[verifier::external_body]
fn read_yaml(text: &str) -> (r: Result<serde_json::Value, String>)
    ensures
        match r {
            Ok(value) => yaml_reading(text@) == Ok::<NodeView, Seq<char>>(value_tree(value)),
            Err(message) => yaml_reading(text@) == Err::<NodeView, Seq<char>>(message@),
        },
{
    serde_yaml::from_str::<serde_json::Value>(text).map_err(|e| e.to_string())
}

/// Takes a `serde_json::Value` apart, variant by variant, into the library's
/// own tree. A number is kept as the text that `serde_json::Number` displays;
/// the members of an object come in the order in which its map hands them
/// out. The contract says that the tree is the one that the value holds.
#[verifier::external_body]
fn node_of_value(value: &serde_json::Value) -> (node: Node)
    ensures
        node@ == value_tree(*value),
{
    match value {
        serde_json::Value::Null => Node::Null,
        serde_json::Value::Bool(b) => Node::Bool(*b),
        serde_json::Value::Number(n) => Node::Number(n.to_string()),
        serde_json::Value::String(s) => Node::Text(s.clone()),
        serde_json::Value::Array(items) => Node::Sequence(items.iter().map(node_of_value).collect()),
        serde_json::Value::Object(members) => Node::Mapping(
            members.iter().map(|(name, held)| (name.clone(), node_of_value(held))).collect(),
        ),
    }
}

/// The description that a reading stands for: that of the tree, or the
/// complaint that carries the message of the reader.
pub open spec fn document_of_reading(reading: Result<NodeView, Seq<char>>) -> Result<
    OpenApiSpecView,
    OpenApiErrorView,
> {
    match reading {
        Ok(tree) => document_of(tree),
        Err(message) => Err(OpenApiErrorView::ParseError(message)),
    }
}

impl OpenApiSpec {
    /// The description that a JSON text holds.
    pub fn from_json(content: &str) -> (r: Result<OpenApiSpec, OpenApiError>)
        ensures
            result_view(r) == document_of_reading(json_reading(content@)),
            r matches Ok(spec) ==> spec@.well_formed(),
    {
        match read_json(content) {
            Ok(value) => {
                let node = node_of_value(&value);
                OpenApiSpec::from_node(&node)
            },
            Err(message) => Err(OpenApiError::ParseError(message)),
        }
    }

    /// The description that a YAML text holds.
    pub fn from_yaml(content: &str) -> (r: Result<OpenApiSpec, OpenApiError>)
        ensures
            result_view(r) == document_of_reading(yaml_reading(content@)),
            r matches Ok(spec) ==> spec@.well_formed(),
    {
        match read_yaml(content) {
            Ok(value) => {
                let node = node_of_value(&value);
                OpenApiSpec::from_node(&node)
            },
            Err(message) => Err(OpenApiError::ParseError(message)),
        }
    }
}

} // verus!
