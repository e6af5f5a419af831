use crate::document::{has_distinct_keys, views, Node, NodeView};
use linked_hash_map::LinkedHashMap;
use vstd::prelude::*;
use yaml_rust::{EmitError, ScanError, Yaml, YamlEmitter, YamlLoader};

verus! {

/// `yaml_rust::Yaml`, the document tree of `yaml_rust`. It is handed on
/// without a look inside.
#[verifier::external_type_specification]
#[verifier::external_body]
pub struct ExYaml(Yaml);

/// `yaml_rust::EmitError`, the error of `yaml_rust`'s emitter. It is handed
/// on without a look inside.
#[verifier::external_type_specification]
#[verifier::external_body]
pub struct ExEmitError(EmitError);

/// `yaml_rust::ScanError`, the error of `yaml_rust`'s parser. It is handed
/// on without a look inside.
#[verifier::external_type_specification]
#[verifier::external_body]
pub struct ExScanError(ScanError);

/// The documents that `yaml_rust::YamlLoader::load_from_str` reads out of a
/// text, in their order, or `None` where it reports the text as malformed.
pub uninterp spec fn loaded(text: Seq<char>) -> Option<Seq<NodeView>>;

/// The text that `yaml_rust::YamlEmitter::dump` writes for a document, or
/// `None` where it gives up.
pub uninterp spec fn emitted(node: NodeView) -> Option<Seq<char>>;

/// Brings a tree of `yaml_rust` over into a node, variant by variant. The
/// pairs of a `linked_hash_map::LinkedHashMap` are taken in the order in
/// which the map hands them out, which is the order in which they went in.
///
/// Nothing is proved of this function.
#[verifier::external_body]
fn from_yaml(yaml: &Yaml) -> Node {
    match yaml {
        Yaml::Real(text) => Node::Real(text.clone()),
        Yaml::Integer(n) => Node::Integer(*n),
        Yaml::String(text) => Node::String(text.clone()),
        Yaml::Boolean(b) => Node::Boolean(*b),
        Yaml::Array(items) => Node::Sequence(items.iter().map(from_yaml).collect()),
        Yaml::Hash(pairs) => Node::Mapping(
            pairs.iter().map(|pair| (from_yaml(pair.0), from_yaml(pair.1))).collect(),
        ),
        Yaml::Alias(n) => Node::Alias(*n),
        Yaml::Null => Node::Null,
        Yaml::BadValue => Node::BadValue,
    }
}

/// Parses a text with `yaml_rust::YamlLoader::load_from_str`.
///
/// Nothing is proved of this function. It is taken on trust that the call
/// returns, and that the documents it reads, or that it reports the text as
/// malformed, depend on the text alone. The error is the parser's own.
#[verifier::external_body]
pub(crate) fn load(text: &str) -> (outcome: Result<Vec<Node>, ScanError>)
    ensures
        match outcome {
            Ok(documents) => loaded(text@) == Some(views(documents@)),
            Err(_) => loaded(text@) is None,
        },
{
    YamlLoader::load_from_str(text).map(|documents| documents.iter().map(from_yaml).collect())
}

/// Brings a node over into `yaml_rust`'s own tree, variant by variant.
///
/// Nothing is proved of this function. A mapping becomes a
/// `linked_hash_map::LinkedHashMap`, filled pair by pair in order. The
/// node holds no key twice, so every pair goes in and stays at its place.
#[verifier::external_body]
fn to_yaml(node: &Node) -> Yaml
    requires
        has_distinct_keys(node@),
{
    match node {
        Node::Real(text) => Yaml::Real(text.clone()),
        Node::Integer(n) => Yaml::Integer(*n),
        Node::String(text) => Yaml::String(text.clone()),
        Node::Boolean(b) => Yaml::Boolean(*b),
        Node::Sequence(items) => Yaml::Array(items.iter().map(to_yaml).collect()),
        Node::Mapping(pairs) => Yaml::Hash(
            pairs.iter().map(|pair| (to_yaml(&pair.0), to_yaml(&pair.1))).collect::<
                LinkedHashMap<_, _>,
            >(),
        ),
        Node::Alias(n) => Yaml::Alias(*n),
        Node::Null => Yaml::Null,
        Node::BadValue => Yaml::BadValue,
    }
}

/// Writes a document with `yaml_rust::YamlEmitter::dump`.
///
/// Nothing is proved of this function. It is taken on trust that the call
/// returns, and that what it writes, or that it fails, depends on the node
/// alone. The node holds no key twice, so the tree that is written holds
/// every pair of it.
#[verifier::external_body]
pub(crate) fn emit(node: &Node) -> (outcome: Result<String, EmitError>)
    requires
        has_distinct_keys(node@),
    ensures
        match outcome {
            Ok(text) => emitted(node@) == Some(text@),
            Err(_) => emitted(node@) is None,
        },
{
    let mut text = String::new();
    let outcome = YamlEmitter::new(&mut text).dump(&to_yaml(node));
    outcome.map(|_| text)
}

} // verus!
