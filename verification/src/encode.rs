use crate::document::{Node, NodeView};
use crate::format::{emit, emitted};
use crate::merge::{merge_keys, merged};
use crate::value::{Value, ValueView};
use vstd::prelude::*;
use yaml_rust::EmitError;

verus! {

/// The document node that stands for a dynamic value.
///
/// A number becomes a real scalar and a text a text scalar. A container
/// becomes a mapping as soon as a lookup under the value of any one of its
/// slots finds something, and a sequence otherwise: the mapping has one pair
/// for every slot, with the null scalar where the lookup finds nothing. Every
/// other value becomes the null scalar.
pub open spec fn encoded(value: ValueView) -> NodeView
    decreases value,
{
    match value {
        ValueView::Number(text) => NodeView::Real(text),
        ValueView::String(text) => NodeView::String(text),
        ValueView::List(list) => if list.is_associative() {
            NodeView::Mapping(
                Seq::new(
                    list.len(),
                    |i: int|
                        if 0 <= i < list.len() {
                            (
                                encoded(list.slots[i]),
                                match list.lookup(list.slots[i]) {
                                    Some(found) => {
                                        proof {
                                            list.lemma_lookup_decreases(list.slots[i]);
                                        }
                                        encoded(found)
                                    },
                                    None => NodeView::Null,
                                },
                            )
                        } else {
                            (NodeView::Null, NodeView::Null)
                        },
                ),
            )
        } else {
            NodeView::Sequence(
                Seq::new(
                    list.len(),
                    |i: int|
                        if 0 <= i < list.len() {
                            encoded(list.slots[i])
                        } else {
                            NodeView::Null
                        },
                ),
            )
        },
        ValueView::Boolean(_) | ValueView::Null => NodeView::Null,
    }
}

/// Turns a dynamic value into the document node that stands for it.
///
/// A container carries no mark that says whether it is a list or a map, so
/// every slot is looked at: the value in it is looked up as a key, and the
/// first lookup that finds something settles that the container is a map.
pub fn value_to_yaml(value: &Value) -> (node: Node)
    ensures
        node@ == encoded(value@),
    decreases value@,
{
    match value {
        Value::Number(number) => Node::Real(number.as_str().to_owned()),
        Value::String(text) => Node::String(text.clone()),
        Value::List(list) => {
            let len = list.len();
            let mut items: Vec<Node> = Vec::new();
            let mut pairs: Vec<(Node, Node)> = Vec::new();
            let mut is_assoc = false;
            let mut position: usize = 0;
            while position < len
                invariant
                    value@ == ValueView::List(list@),
                    position <= len == list@.len(),
                    is_assoc <==> exists|j: int|
                        0 <= j < position && (#[trigger] list@.lookup(list@.slots[j])) is Some,
                    pairs@.len() == position,
                    forall|j: int|
                        0 <= j < position ==> (#[trigger] pairs@[j]).0@ == encoded(list@.slots[j]),
                    forall|j: int|
                        0 <= j < position ==> (#[trigger] pairs@[j]).1@ == (match list@.lookup(
                            list@.slots[j],
                        ) {
                            Some(found) => encoded(found),
                            None => NodeView::Null,
                        }),
                    !is_assoc ==> items@.len() == position,
                    !is_assoc ==> forall|j: int|
                        0 <= j < position ==> (#[trigger] items@[j])@ == encoded(list@.slots[j]),
                decreases len - position,
            {
                position += 1;
                if let Some(key) = list.get(position) {
                    assert(decreases_to!(value@ => value@->List_0));
                    let found = list.lookup(key);
                    is_assoc = is_assoc || found.is_some();
                    if !is_assoc {
                        items.push(value_to_yaml(key));
                    }
                    let looked_up = match found {
                        Some(found) => {
                            proof {
                                list@.lemma_lookup_decreases(key@);
                            }
                            value_to_yaml(found)
                        },
                        None => Node::Null,
                    };
                    pairs.push((value_to_yaml(key), looked_up));
                }
            }
            if is_assoc {
                let node = Node::Mapping(pairs);
                assert(node@->Mapping_0 =~= encoded(value@)->Mapping_0);
                node
            } else {
                let node = Node::Sequence(items);
                assert(node@->Sequence_0 =~= encoded(value@)->Sequence_0);
                node
            }
        },
        _ => Node::Null,
    }
}

/// Why a value could not be written as text.
#[derive(Debug, PartialEq, Eq, Structural)]
pub enum EncodeError {
    /// The document that stands for the value could not be written. What
    /// went wrong underneath is not kept.
    EmissionFailed,
}

impl EncodeError {
    /// What to tell the caller.
    pub fn message(&self) -> (text: &'static str)
        ensures
            text@ == "conversion to textual form failed"@,
    {
        "conversion to textual form failed"
    }
}

/// What writing a document came to: the text, or the one error that stands
/// for every failure to write.
pub fn emission_result(outcome: Result<String, EmitError>) -> (result: Result<
    String,
    EncodeError,
>)
    ensures
        match outcome {
            Ok(text) => result == Ok::<String, EncodeError>(text),
            Err(_) => result == Err::<String, EncodeError>(EncodeError::EmissionFailed),
        },
{
    match outcome {
        Ok(text) => Ok(text),
        Err(_) => Err(EncodeError::EmissionFailed),
    }
}

/// Writes a dynamic value as text: the value is turned into a document
/// node, every mapping in the node is brought down to one pair for each key,
/// and the node is written.
pub fn encode_yaml(value: &Value) -> (result: Result<String, EncodeError>)
    ensures
        match emitted(merged(encoded(value@))) {
            Some(text) => result matches Ok(written) && written@ == text,
            None => result == Err::<String, EncodeError>(EncodeError::EmissionFailed),
        },
{
    let node = merge_keys(&value_to_yaml(value));
    emission_result(emit(&node))
}

} // verus!
