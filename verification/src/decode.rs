use crate::document::{views, Node, NodeView};
use crate::format::{load, loaded};
use crate::number::{decimal_text, number_text, Number};
use crate::value::{List, ListView, Value, ValueView};
use vstd::prelude::*;
use yaml_rust::ScanError;

verus! {

/// The dynamic value that stands for a document node.
///
/// A real scalar becomes the number that its text denotes, or zero where
/// the text denotes none. An integer and an alias become the number that is
/// written like them. A sequence becomes a container with one slot for each
/// item and nothing registered. A mapping becomes a container with one slot
/// for each key, in which each value is registered under its key. What is
/// left becomes the null value.
pub open spec fn decoded(node: NodeView) -> ValueView
    decreases node,
{
    match node {
        NodeView::Real(text) => ValueView::Number(number_text(text)),
        NodeView::Integer(n) => ValueView::Number(decimal_text(n as int)),
        NodeView::String(text) => ValueView::String(text),
        NodeView::Boolean(b) => ValueView::Boolean(b),
        NodeView::Sequence(items) => ValueView::List(
            ListView {
                slots: Seq::new(
                    items.len(),
                    |i: int|
                        if 0 <= i < items.len() {
                            decoded(items[i])
                        } else {
                            ValueView::Null
                        },
                ),
                entries: Seq::empty(),
            },
        ),
        NodeView::Mapping(pairs) => ValueView::List(
            ListView {
                slots: Seq::new(
                    pairs.len(),
                    |i: int|
                        if 0 <= i < pairs.len() {
                            decoded(pairs[i].0)
                        } else {
                            ValueView::Null
                        },
                ),
                entries: Seq::new(
                    pairs.len(),
                    |i: int|
                        if 0 <= i < pairs.len() {
                            (decoded(pairs[i].0), decoded(pairs[i].1))
                        } else {
                            (ValueView::Null, ValueView::Null)
                        },
                ),
            },
        ),
        NodeView::Alias(n) => ValueView::Number(decimal_text(n as int)),
        NodeView::Null | NodeView::BadValue => ValueView::Null,
    }
}

/// Turns a document node into the dynamic value that stands for it.
///
/// A mapping keeps its keys in their order as the slots of the container,
/// and each value can be looked up under its key.
#[verifier::loop_isolation(false)]
pub fn yaml_to_value(node: &Node) -> (value: Value)
    ensures
        value@ == decoded(node@),
    decreases node,
{
    match node {
        Node::Real(text) => Value::Number(Number::from_text(text.as_str())),
        Node::Integer(n) => Value::Number(Number::from_integer(*n)),
        Node::String(text) => Value::String(text.clone()),
        Node::Boolean(b) => Value::Boolean(*b),
        Node::Sequence(items) => {
            let mut list = List::new();
            let mut i: usize = 0;
            while i < items.len()
                invariant
                    i <= items@.len(),
                    list@.entries == Seq::<(ValueView, ValueView)>::empty(),
                    list@.slots.len() == i,
                    forall|j: int|
                        0 <= j < i ==> (#[trigger] list@.slots[j]) == decoded(items@[j]@),
                decreases items@.len() - i,
            {
                list.append(yaml_to_value(&items[i]));
                i += 1;
            }
            assert(list@.slots =~= decoded(node@)->List_0.slots);
            Value::List(list)
        },
        Node::Mapping(pairs) => {
            let mut list = List::new();
            let mut i: usize = 0;
            while i < pairs.len()
                invariant
                    i <= pairs@.len(),
                    list@.slots.len() == i,
                    list@.entries.len() == i,
                    forall|j: int|
                        0 <= j < i ==> (#[trigger] list@.slots[j]) == decoded(pairs@[j].0@),
                    forall|j: int|
                        0 <= j < i ==> (#[trigger] list@.entries[j]) == (
                            decoded(pairs@[j].0@),
                            decoded(pairs@[j].1@),
                        ),
                decreases pairs@.len() - i,
            {
                let key = yaml_to_value(&pairs[i].0);
                let value = yaml_to_value(&pairs[i].1);
                list.append(key.clone());
                list.set(key, value);
                i += 1;
            }
            assert(list@.slots =~= decoded(node@)->List_0.slots);
            assert(list@.entries =~= decoded(node@)->List_0.entries);
            Value::List(list)
        },
        Node::Alias(n) => Value::Number(Number::from_index(*n)),
        _ => Value::Null,
    }
}

/// Why a text could not be decoded.
#[derive(Debug)]
pub enum DecodeError {
    /// The text is malformed. The parser's own error is kept as it came.
    Parse(ScanError),
}

/// The document that is decoded when a text holds `documents`: the first
/// one. A text that holds no document at all stands for the null scalar.
pub open spec fn chosen_document(documents: Seq<NodeView>) -> NodeView {
    if documents.len() == 0 {
        NodeView::Null
    } else {
        documents[0]
    }
}

/// What decoding comes to once the text has been parsed: the value that
/// stands for the first document, or for the null scalar where there is no
/// document, or the parser's error.
pub fn decode_documents(outcome: Result<Vec<Node>, ScanError>) -> (result: Result<
    Value,
    DecodeError,
>)
    ensures
        match outcome {
            Ok(documents) => result matches Ok(value) && value@ == decoded(
                chosen_document(views(documents@)),
            ),
            Err(error) => result matches Err(DecodeError::Parse(kept)) && kept == error,
        },
{
    match outcome {
        Ok(documents) => {
            if documents.len() == 0 {
                Ok(Value::Null)
            } else {
                Ok(yaml_to_value(&documents[0]))
            }
        },
        Err(error) => Err(DecodeError::Parse(error)),
    }
}

/// Reads a dynamic value out of a text: the text is parsed, and the first
/// document in it is turned into a value. Where the text is malformed, the
/// parser's error is handed back and no value.
pub fn decode_yaml(text: &str) -> (result: Result<Value, DecodeError>)
    ensures
        match loaded(text@) {
            Some(documents) => result matches Ok(value) && value@ == decoded(
                chosen_document(documents),
            ),
            None => result is Err,
        },
{
    decode_documents(load(text))
}

} // verus!
