use crate::document::{distinct_keys, has_distinct_keys, pair_views, Node, NodeView};
use vstd::prelude::*;

verus! {

/// The place of the pair with the key `key` that stands last among `pairs`,
/// if there is such a pair.
pub open spec fn key_position(pairs: Seq<(NodeView, NodeView)>, key: NodeView) -> Option<int>
    decreases pairs.len(),
{
    if pairs.len() == 0 {
        None
    } else if pairs.last().0 == key {
        Some(pairs.len() - 1)
    } else {
        key_position(pairs.drop_last(), key)
    }
}

/// The pairs after `value` has been put under `key`: where the key stands
/// among them already, its pair leaves its place, and in either case the
/// new pair goes to the end.
pub open spec fn put(pairs: Seq<(NodeView, NodeView)>, key: NodeView, value: NodeView) -> Seq<
    (NodeView, NodeView),
> {
    match key_position(pairs, key) {
        Some(at) => pairs.remove(at).push((key, value)),
        None => pairs.push((key, value)),
    }
}

/// The node with every mapping in it brought down to one pair for each key.
/// The pairs of a mapping are put one after another, in their order, each
/// key and each value being merged itself first: a key that comes again
/// takes the later value and the later place.
pub open spec fn merged(node: NodeView) -> NodeView
    decreases node, 0nat,
{
    match node {
        NodeView::Sequence(items) => NodeView::Sequence(
            Seq::new(
                items.len(),
                |i: int|
                    if 0 <= i < items.len() {
                        merged(items[i])
                    } else {
                        NodeView::Null
                    },
            ),
        ),
        NodeView::Mapping(pairs) => NodeView::Mapping(merged_pairs(pairs, pairs.len())),
        _ => node,
    }
}

/// What the first `n` of the pairs come to when they are merged and put one
/// after another.
pub open spec fn merged_pairs(pairs: Seq<(NodeView, NodeView)>, n: nat) -> Seq<
    (NodeView, NodeView),
>
    decreases pairs, n,
{
    if n == 0 || n > pairs.len() {
        Seq::empty()
    } else {
        put(
            merged_pairs(pairs, (n - 1) as nat),
            merged(pairs[n - 1].0),
            merged(pairs[n - 1].1),
        )
    }
}

/// Where a key stands among the pairs, it stands at the place that
/// `key_position` gives; where `key_position` gives none, no pair has the
/// key.
pub proof fn lemma_key_position(pairs: Seq<(NodeView, NodeView)>, key: NodeView)
    ensures
        match key_position(pairs, key) {
            Some(at) => 0 <= at < pairs.len() && pairs[at].0 == key,
            None => forall|i: int| 0 <= i < pairs.len() ==> (#[trigger] pairs[i]).0 != key,
        },
    decreases pairs.len(),
{
    if pairs.len() > 0 && pairs.last().0 != key {
        let rest = pairs.drop_last();
        lemma_key_position(rest, key);
        if key_position(rest, key) is None {
            assert forall|i: int| 0 <= i < pairs.len() implies (#[trigger] pairs[i]).0 != key by {
                if i < rest.len() {
                    assert(rest[i] == pairs[i]);
                }
            }
        } else {
            assert(rest[key_position(rest, key)->Some_0] == pairs[key_position(rest, key)->Some_0]);
        }
    }
}

/// Putting a pair among pairs with distinct keys leaves the keys distinct,
/// and every pair that is there afterwards is the new one or was there
/// before.
pub proof fn lemma_put(pairs: Seq<(NodeView, NodeView)>, key: NodeView, value: NodeView)
    requires
        distinct_keys(pairs),
    ensures
        distinct_keys(put(pairs, key, value)),
        forall|i: int|
            0 <= i < put(pairs, key, value).len() ==> (#[trigger] put(pairs, key, value)[i]) == (
                key,
                value,
            ) || pairs.contains(put(pairs, key, value)[i]),
{
    lemma_key_position(pairs, key);
    let after = put(pairs, key, value);
    match key_position(pairs, key) {
        Some(at) => {
            let kept = pairs.remove(at);
            assert forall|i: int| 0 <= i < kept.len() implies (#[trigger] kept[i]).0 != key
                && pairs.contains(kept[i]) by {
                if i < at {
                    assert(kept[i] == pairs[i]);
                } else {
                    assert(kept[i] == pairs[i + 1]);
                }
            }
            assert forall|i: int, j: int|
                0 <= i < kept.len() && 0 <= j < kept.len() && i != j implies (#[trigger] kept[i]).0
                != (#[trigger] kept[j]).0 by {
                let a = if i < at { i } else { i + 1 };
                let b = if j < at { j } else { j + 1 };
                assert(kept[i] == pairs[a] && kept[j] == pairs[b]);
            }
            assert forall|i: int, j: int|
                0 <= i < after.len() && 0 <= j < after.len() && i != j implies (
            #[trigger] after[i]).0 != (#[trigger] after[j]).0 by {
                if i < kept.len() {
                    assert(after[i] == kept[i]);
                }
                if j < kept.len() {
                    assert(after[j] == kept[j]);
                }
            }
            assert forall|i: int| 0 <= i < after.len() implies (#[trigger] after[i]) == (
                key,
                value,
            ) || pairs.contains(after[i]) by {
                if i < kept.len() {
                    assert(after[i] == kept[i]);
                }
            }
        },
        None => {
            assert forall|i: int| 0 <= i < after.len() implies (#[trigger] after[i]) == (
                key,
                value,
            ) || pairs.contains(after[i]) by {
                if i < pairs.len() {
                    assert(after[i] == pairs[i]);
                }
            }
        },
    }
}

/// A merged node holds no key twice in any of its mappings.
pub proof fn lemma_merged_has_distinct_keys(node: NodeView)
    ensures
        has_distinct_keys(merged(node)),
    decreases node, 0nat,
{
    match node {
        NodeView::Sequence(items) => {
            let after = merged(node)->Sequence_0;
            assert forall|i: int| 0 <= i < after.len() implies has_distinct_keys(
                #[trigger] after[i],
            ) by {
                lemma_merged_has_distinct_keys(items[i]);
            }
        },
        NodeView::Mapping(pairs) => {
            lemma_merged_pairs(pairs, pairs.len());
        },
        _ => {},
    }
}

/// Merged pairs hold no key twice, nor does any key or value among them.
pub proof fn lemma_merged_pairs(pairs: Seq<(NodeView, NodeView)>, n: nat)
    ensures
        distinct_keys(merged_pairs(pairs, n)),
        forall|i: int|
            0 <= i < merged_pairs(pairs, n).len() ==> has_distinct_keys(
                (#[trigger] merged_pairs(pairs, n)[i]).0,
            ) && has_distinct_keys(merged_pairs(pairs, n)[i].1),
    decreases pairs, n,
{
    if !(n == 0 || n > pairs.len()) {
        let before = merged_pairs(pairs, (n - 1) as nat);
        let key = merged(pairs[n - 1].0);
        let value = merged(pairs[n - 1].1);
        lemma_merged_pairs(pairs, (n - 1) as nat);
        lemma_merged_has_distinct_keys(pairs[n - 1].0);
        lemma_merged_has_distinct_keys(pairs[n - 1].1);
        lemma_put(before, key, value);
        let after = put(before, key, value);
        assert forall|i: int| 0 <= i < after.len() implies has_distinct_keys(
            (#[trigger] after[i]).0,
        ) && has_distinct_keys(after[i].1) by {
            if after[i] != (key, value) {
                let j = choose|j: int| 0 <= j < before.len() && before[j] == after[i];
                assert(has_distinct_keys(before[j].0));
            }
        }
    }
}

/// Merging changes nothing in a node that holds no key twice: every pair
/// of every mapping stays, at its place.
pub proof fn lemma_merged_unchanged(node: NodeView)
    requires
        has_distinct_keys(node),
    ensures
        merged(node) == node,
    decreases node, 0nat,
{
    match node {
        NodeView::Sequence(items) => {
            let after = merged(node)->Sequence_0;
            assert forall|i: int| 0 <= i < items.len() implies #[trigger] after[i] == items[i] by {
                lemma_merged_unchanged(items[i]);
            }
            assert(after =~= items);
        },
        NodeView::Mapping(pairs) => {
            lemma_merged_pairs_unchanged(pairs, pairs.len());
            assert(pairs.take(pairs.len() as int) =~= pairs);
        },
        _ => {},
    }
}

/// Merging the first `n` of pairs that hold no key twice gives those pairs.
pub proof fn lemma_merged_pairs_unchanged(pairs: Seq<(NodeView, NodeView)>, n: nat)
    requires
        n <= pairs.len(),
        has_distinct_keys(NodeView::Mapping(pairs)),
    ensures
        merged_pairs(pairs, n) == pairs.take(n as int),
    decreases pairs, n,
{
    if n == 0 {
        assert(merged_pairs(pairs, n) =~= pairs.take(0));
    } else {
        let before = pairs.take(n - 1);
        lemma_merged_pairs_unchanged(pairs, (n - 1) as nat);
        lemma_merged_unchanged(pairs[n - 1].0);
        lemma_merged_unchanged(pairs[n - 1].1);
        lemma_key_position(before, pairs[n - 1].0);
        if let Some(at) = key_position(before, pairs[n - 1].0) {
            assert(before[at] == pairs[at]);
        }
        assert(before.push(pairs[n - 1]) =~= pairs.take(n as int));
    }
}

/// Puts `value` under `key` among the pairs.
fn put_pair(pairs: &mut Vec<(Node, Node)>, key: Node, value: Node)
    ensures
        pair_views(final(pairs)@) == put(pair_views(old(pairs)@), key@, value@),
{
    let ghost before = pair_views(pairs@);
    let mut k: usize = pairs.len();
    assert(before.take(k as int) =~= before);
    while k > 0
        invariant
            k <= pairs@.len(),
            pairs@ == old(pairs)@,
            before == pair_views(pairs@),
            key_position(before, key@) == key_position(before.take(k as int), key@),
        decreases k,
    {
        k -= 1;
        assert(before.take(k + 1).last() == before[k as int]);
        assert(before.take(k + 1).drop_last() =~= before.take(k as int));
        if pairs[k].0.same(&key) {
            let _ = pairs.remove(k);
            pairs.push((key, value));
            assert(pair_views(pairs@) =~= before.remove(k as int).push((key@, value@)));
            return ;
        }
    }
    pairs.push((key, value));
    assert(pair_views(pairs@) =~= before.push((key@, value@)));
}

/// Brings every mapping in a node down to one pair for each key, as a map
/// that keeps the order of its entries does when it is filled pair by pair:
/// a key that comes again takes the later value and the later place.
#[verifier::loop_isolation(false)]
pub fn merge_keys(node: &Node) -> (result: Node)
    ensures
        result@ == merged(node@),
        has_distinct_keys(result@),
    decreases node,
{
    proof {
        lemma_merged_has_distinct_keys(node@);
    }
    match node {
        Node::Real(text) => Node::Real(text.clone()),
        Node::Integer(n) => Node::Integer(*n),
        Node::String(text) => Node::String(text.clone()),
        Node::Boolean(b) => Node::Boolean(*b),
        Node::Sequence(items) => {
            let mut out: Vec<Node> = Vec::new();
            let mut i: usize = 0;
            while i < items.len()
                invariant
                    i <= items@.len(),
                    out@.len() == i,
                    forall|j: int| 0 <= j < i ==> (#[trigger] out@[j])@ == merged(items@[j]@),
                decreases items@.len() - i,
            {
                out.push(merge_keys(&items[i]));
                i += 1;
            }
            let result = Node::Sequence(out);
            assert(result@->Sequence_0 =~= merged(node@)->Sequence_0);
            result
        },
        Node::Mapping(pairs) => {
            let mut out: Vec<(Node, Node)> = Vec::new();
            let mut i: usize = 0;
            assert(pair_views(out@) =~= merged_pairs(node@->Mapping_0, 0));
            while i < pairs.len()
                invariant
                    i <= pairs@.len(),
                    pair_views(out@) == merged_pairs(node@->Mapping_0, i as nat),
                decreases pairs@.len() - i,
            {
                let key = merge_keys(&pairs[i].0);
                let value = merge_keys(&pairs[i].1);
                put_pair(&mut out, key, value);
                i += 1;
            }
            let result = Node::Mapping(out);
            assert(result@->Mapping_0 =~= pair_views(out@));
            result
        },
        Node::Alias(n) => Node::Alias(*n),
        Node::Null => Node::Null,
        Node::BadValue => Node::BadValue,
    }
}

} // verus!
