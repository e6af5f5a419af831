use crate::decimal::is_decimal;
use crate::decode::decoded;
use crate::document::{distinct_keys, NodeView};
use crate::encode::encoded;
use crate::number::{decimal_text, lemma_decimal_text, zero_text};
use crate::value::{registered, ListView, ValueView};
use vstd::prelude::*;

verus! {

/// A value that is no container and that comes back unchanged when it is
/// encoded and decoded again: a text, the null value, or a number. A truth
/// value is none, since it is encoded as the null scalar.
pub open spec fn is_plain_leaf(value: ValueView) -> bool {
    match value {
        ValueView::Number(text) => is_decimal(text),
        ValueView::String(_) => true,
        ValueView::Null => true,
        _ => false,
    }
}

/// A value in which nothing is registered anywhere: a plain leaf, or a
/// container without registrations whose slots hold such values.
pub open spec fn is_positional(value: ValueView) -> bool
    decreases value,
{
    match value {
        ValueView::List(list) => list.entries.len() == 0 && forall|i: int|
            0 <= i < list.slots.len() ==> is_positional(#[trigger] list.slots[i]),
        _ => is_plain_leaf(value),
    }
}

/// A node that comes back unchanged when it is decoded and encoded again.
pub open spec fn is_stable(node: NodeView) -> bool {
    encoded(decoded(node)) == node
}

/// A container in which a lookup under the value of some slot finds
/// something is encoded as a mapping, whichever slot that is. The mapping
/// has one pair for every slot of the container, also for the slots under
/// whose value nothing is found: there the pair holds the null scalar.
pub proof fn lemma_one_lookup_makes_a_mapping(list: ListView, at: int)
    requires
        0 <= at < list.len(),
        list.lookup(list.slots[at]) is Some,
    ensures
        encoded(ValueView::List(list)) matches NodeView::Mapping(pairs) && pairs.len()
            == list.len() && forall|i: int|
            0 <= i < list.len() ==> (#[trigger] pairs[i]) == (
                encoded(list.slots[i]),
                match list.lookup(list.slots[i]) {
                    Some(found) => encoded(found),
                    None => NodeView::Null,
                },
            ),
{
}

/// A container in which no lookup finds anything is encoded as a sequence
/// with one item for every slot.
pub proof fn lemma_no_lookup_makes_a_sequence(list: ListView)
    requires
        forall|i: int| 0 <= i < list.len() ==> (#[trigger] list.lookup(list.slots[i])) is None,
    ensures
        encoded(ValueView::List(list)) matches NodeView::Sequence(items) && items.len()
            == list.len() && forall|i: int|
            0 <= i < list.len() ==> (#[trigger] items[i]) == encoded(list.slots[i]),
{
}

/// A container without slots is encoded as the empty sequence, whatever is
/// registered in it.
pub proof fn lemma_empty_container(list: ListView)
    requires
        list.len() == 0,
    ensures
        encoded(ValueView::List(list)) == NodeView::Sequence(Seq::empty()),
{
    assert(encoded(ValueView::List(list))->Sequence_0 =~= Seq::empty());
}

/// A plain leaf comes back unchanged when it is encoded and decoded again.
pub proof fn lemma_leaf_round_trip(value: ValueView)
    requires
        is_plain_leaf(value),
    ensures
        decoded(encoded(value)) == value,
{
}

/// A truth value does not come back: it is encoded as the null scalar, and
/// that is decoded as the null value.
pub proof fn lemma_boolean_becomes_null(b: bool)
    ensures
        encoded(ValueView::Boolean(b)) == NodeView::Null,
        decoded(encoded(ValueView::Boolean(b))) == ValueView::Null,
{
}

/// A value in which nothing is registered anywhere comes back unchanged
/// when it is encoded and decoded again.
pub proof fn lemma_positional_round_trip(value: ValueView)
    requires
        is_positional(value),
    ensures
        decoded(encoded(value)) == value,
    decreases value,
{
    if let ValueView::List(list) = value {
        assert(!list.is_associative());
        let node = encoded(value);
        let back = decoded(node)->List_0;
        assert forall|i: int| 0 <= i < list.slots.len() implies #[trigger] back.slots[i]
            == list.slots[i] by {
            lemma_positional_round_trip(list.slots[i]);
        }
        assert(back.slots =~= list.slots);
        assert(back.entries =~= list.entries);
    }
}

/// A container that was filled by position alone, with plain leaves, comes
/// back when it is encoded and decoded again: as a container with the same
/// length and the same values in the same order, and with nothing
/// registered.
pub proof fn lemma_sequence_round_trip(list: ListView)
    requires
        list.entries.len() == 0,
        forall|i: int| 0 <= i < list.len() ==> is_plain_leaf(#[trigger] list.slots[i]),
    ensures
        decoded(encoded(ValueView::List(list))) == ValueView::List(list),
{
    assert forall|i: int| 0 <= i < list.slots.len() implies is_positional(
        #[trigger] list.slots[i],
    ) by {
        assert(is_plain_leaf(list.slots[i]));
    }
    lemma_positional_round_trip(ValueView::List(list));
}

/// Among registrations with distinct keys, a lookup under the key of one of
/// them finds the value of that one.
pub proof fn lemma_registered_among_distinct(entries: Seq<(ValueView, ValueView)>, at: int)
    requires
        distinct_keys(entries),
        0 <= at < entries.len(),
    ensures
        registered(entries, entries[at].0) == Some(entries[at].1),
    decreases entries.len(),
{
    let last = entries.len() - 1;
    if at != last {
        assert(entries[last].0 != entries[at].0);
        let rest = entries.drop_last();
        assert(distinct_keys(rest)) by {
            assert forall|i: int, j: int|
                0 <= i < rest.len() && 0 <= j < rest.len() && i != j implies (#[trigger] rest[i]).0
                != (#[trigger] rest[j]).0 by {
                assert(rest[i] == entries[i] && rest[j] == entries[j]);
            }
        }
        lemma_registered_among_distinct(rest, at);
    }
}

/// A mapping that is not empty, and whose keys are decoded to values that
/// differ from one another, comes back as a mapping when it is decoded and
/// encoded again: pair by pair in the same order, each key and each value
/// being what it becomes itself when it is decoded and encoded again.
pub proof fn lemma_mapping_round_trip(pairs: Seq<(NodeView, NodeView)>)
    requires
        pairs.len() > 0,
        forall|i: int, j: int|
            0 <= i < pairs.len() && 0 <= j < pairs.len() && i != j ==> decoded(
                (#[trigger] pairs[i]).0,
            ) != decoded((#[trigger] pairs[j]).0),
    ensures
        encoded(decoded(NodeView::Mapping(pairs))) matches NodeView::Mapping(back) && back.len()
            == pairs.len() && forall|i: int|
            0 <= i < pairs.len() ==> (#[trigger] back[i]) == (
                encoded(decoded(pairs[i].0)),
                encoded(decoded(pairs[i].1)),
            ),
{
    let list = decoded(NodeView::Mapping(pairs))->List_0;
    assert(distinct_keys(list.entries)) by {
        assert forall|i: int, j: int|
            0 <= i < list.entries.len() && 0 <= j < list.entries.len() && i != j implies (
        #[trigger] list.entries[i]).0 != (#[trigger] list.entries[j]).0 by {
            assert(list.entries[i].0 == decoded(pairs[i].0));
            assert(list.entries[j].0 == decoded(pairs[j].0));
        }
    }
    assert forall|i: int| 0 <= i < pairs.len() implies #[trigger] list.lookup(list.slots[i])
        == Some(decoded(pairs[i].1)) by {
        lemma_registered_among_distinct(list.entries, i);
    }
    assert(list.lookup(list.slots[0]) is Some);
    assert(list.is_associative());
}

/// A mapping that is not empty, whose keys differ from one another, and
/// whose keys and values are stable, comes back unchanged when it is
/// decoded and encoded again: the same pairs in the same order.
pub proof fn lemma_mapping_reconstructed(pairs: Seq<(NodeView, NodeView)>)
    requires
        pairs.len() > 0,
        distinct_keys(pairs),
        forall|i: int|
            0 <= i < pairs.len() ==> is_stable((#[trigger] pairs[i]).0) && is_stable(pairs[i].1),
    ensures
        encoded(decoded(NodeView::Mapping(pairs))) == NodeView::Mapping(pairs),
{
    assert forall|i: int, j: int|
        0 <= i < pairs.len() && 0 <= j < pairs.len() && i != j implies decoded(
        (#[trigger] pairs[i]).0,
    ) != decoded((#[trigger] pairs[j]).0) by {
        if decoded(pairs[i].0) == decoded(pairs[j].0) {
            assert(encoded(decoded(pairs[i].0)) == encoded(decoded(pairs[j].0)));
        }
    }
    lemma_mapping_round_trip(pairs);
    assert(encoded(decoded(NodeView::Mapping(pairs)))->Mapping_0 =~= pairs);
}

/// Which nodes are stable: a text, the null scalar, a real whose text is
/// written as a decimal number, and a sequence of stable nodes. An integer,
/// an alias and a truth value are not, nor is the empty mapping.
pub proof fn lemma_stable_nodes(node: NodeView)
    ensures
        node is String ==> is_stable(node),
        node is Null ==> is_stable(node),
        node matches NodeView::Real(text) ==> (is_stable(node) <==> is_decimal(text)),
        node matches NodeView::Sequence(items) && (forall|i: int|
            0 <= i < items.len() ==> is_stable(#[trigger] items[i])) ==> is_stable(node),
        node is Integer ==> !is_stable(node),
        node is Alias ==> !is_stable(node),
        node is Boolean ==> !is_stable(node),
        node is BadValue ==> !is_stable(node),
        node matches NodeView::Mapping(pairs) && pairs.len() == 0 ==> !is_stable(node),
{
    match node {
        NodeView::Real(text) => {
            if !is_decimal(text) {
                lemma_decimal_text(0);
                assert(decimal_text(0) =~= zero_text());
            }
        },
        NodeView::Sequence(items) => {
            if forall|i: int| 0 <= i < items.len() ==> is_stable(#[trigger] items[i]) {
                let list = decoded(node)->List_0;
                assert(!list.is_associative());
                assert(encoded(decoded(node))->Sequence_0 =~= items);
            }
        },
        NodeView::Mapping(pairs) => {
            if pairs.len() == 0 {
                let list = decoded(node)->List_0;
                assert(!list.is_associative());
            }
        },
        _ => {},
    }
}

} // verus!
