use vstd::prelude::*;

verus! {

/// One node of a parsed document tree.
#[derive(Debug)]
pub enum Node {
    /// A decimal number, kept as the text that stood in the document.
    Real(String),
    /// A 64-bit signed integer.
    Integer(i64),
    /// A text scalar.
    String(String),
    /// A truth value.
    Boolean(bool),
    /// An ordered list of nodes.
    Sequence(Vec<Node>),
    /// Key and value pairs in document order; a key may occur more than once.
    Mapping(Vec<(Node, Node)>),
    /// A reference to an anchor, by the anchor's number; it is never followed.
    Alias(usize),
    /// The null scalar.
    Null,
    /// A node that the parser could not make sense of.
    BadValue,
}

/// The mathematical value of a [`Node`]. A real and a text scalar are given
/// by their characters.
pub enum NodeView {
    Real(Seq<char>),
    Integer(i64),
    String(Seq<char>),
    Boolean(bool),
    Sequence(Seq<NodeView>),
    Mapping(Seq<(NodeView, NodeView)>),
    Alias(usize),
    Null,
    BadValue,
}

impl Node {
    /// The mathematical value of the node.
    pub open spec fn model(self) -> NodeView
        decreases self,
    {
        match self {
            Node::Real(text) => NodeView::Real(text@),
            Node::Integer(n) => NodeView::Integer(n),
            Node::String(text) => NodeView::String(text@),
            Node::Boolean(b) => NodeView::Boolean(b),
            Node::Sequence(items) => NodeView::Sequence(
                Seq::new(
                    items@.len(),
                    |i: int|
                        if 0 <= i < items@.len() {
                            items@[i].model()
                        } else {
                            NodeView::Null
                        },
                ),
            ),
            Node::Mapping(pairs) => NodeView::Mapping(
                Seq::new(
                    pairs@.len(),
                    |i: int|
                        if 0 <= i < pairs@.len() {
                            (pairs@[i].0.model(), pairs@[i].1.model())
                        } else {
                            (NodeView::Null, NodeView::Null)
                        },
                ),
            ),
            Node::Alias(n) => NodeView::Alias(n),
            Node::Null => NodeView::Null,
            Node::BadValue => NodeView::BadValue,
        }
    }
}

impl View for Node {
    type V = NodeView;

    open spec fn view(&self) -> NodeView {
        self.model()
    }
}

impl Node {
    /// Whether two nodes are the same: of one kind, and equal in what they
    /// hold, item by item and pair by pair.
    pub fn same(&self, other: &Node) -> (r: bool)
        ensures
            r == (self@ == other@),
        decreases self,
    {
        match (self, other) {
            (Node::Real(a), Node::Real(b)) => *a == *b,
            (Node::Integer(a), Node::Integer(b)) => *a == *b,
            (Node::String(a), Node::String(b)) => *a == *b,
            (Node::Boolean(a), Node::Boolean(b)) => *a == *b,
            (Node::Sequence(a), Node::Sequence(b)) => {
                if a.len() != b.len() {
                    assert(self@->Sequence_0.len() != other@->Sequence_0.len());
                    return false;
                }
                let mut i: usize = 0;
                while i < a.len()
                    invariant
                        i <= a@.len() == b@.len(),
                        self == Node::Sequence(*a),
                        other == Node::Sequence(*b),
                        forall|j: int| 0 <= j < i ==> (#[trigger] a@[j])@ == b@[j]@,
                    decreases a@.len() - i,
                {
                    if !a[i].same(&b[i]) {
                        assert(self@->Sequence_0[i as int] != other@->Sequence_0[i as int]);
                        return false;
                    }
                    i += 1;
                }
                assert(self@->Sequence_0 =~= other@->Sequence_0);
                true
            },
            (Node::Mapping(a), Node::Mapping(b)) => {
                if a.len() != b.len() {
                    assert(self@->Mapping_0.len() != other@->Mapping_0.len());
                    return false;
                }
                let mut i: usize = 0;
                while i < a.len()
                    invariant
                        i <= a@.len() == b@.len(),
                        self == Node::Mapping(*a),
                        other == Node::Mapping(*b),
                        forall|j: int|
                            0 <= j < i ==> (#[trigger] a@[j]).0@ == b@[j].0@ && a@[j].1@
                                == b@[j].1@,
                    decreases a@.len() - i,
                {
                    let same_key = a[i].0.same(&b[i].0);
                    let same_value = a[i].1.same(&b[i].1);
                    if !same_key || !same_value {
                        assert(self@->Mapping_0[i as int] != other@->Mapping_0[i as int]);
                        return false;
                    }
                    i += 1;
                }
                assert(self@->Mapping_0 =~= other@->Mapping_0);
                true
            },
            (Node::Alias(a), Node::Alias(b)) => *a == *b,
            (Node::Null, Node::Null) => true,
            (Node::BadValue, Node::BadValue) => true,
            _ => false,
        }
    }
}

/// The keys of the pairs differ from one another.
pub open spec fn distinct_keys<K, V>(pairs: Seq<(K, V)>) -> bool {
    forall|i: int, j: int|
        0 <= i < pairs.len() && 0 <= j < pairs.len() && i != j ==> (#[trigger] pairs[i]).0 != (
        #[trigger] pairs[j]).0
}

/// No mapping anywhere in the node holds a key twice.
pub open spec fn has_distinct_keys(node: NodeView) -> bool
    decreases node,
{
    match node {
        NodeView::Sequence(items) => forall|i: int|
            0 <= i < items.len() ==> has_distinct_keys(#[trigger] items[i]),
        NodeView::Mapping(pairs) => distinct_keys(pairs) && forall|i: int|
            0 <= i < pairs.len() ==> has_distinct_keys((#[trigger] pairs[i]).0)
                && has_distinct_keys(pairs[i].1),
        _ => true,
    }
}

/// The mathematical values of some nodes, one by one.
pub open spec fn views(nodes: Seq<Node>) -> Seq<NodeView> {
    Seq::new(nodes.len(), |i: int| nodes[i]@)
}

/// The mathematical values of some pairs of nodes, one by one.
pub open spec fn pair_views(pairs: Seq<(Node, Node)>) -> Seq<(NodeView, NodeView)> {
    Seq::new(pairs.len(), |i: int| (pairs[i].0@, pairs[i].1@))
}

impl PartialEq for Node {
    fn eq(&self, other: &Node) -> (r: bool) {
        self.same(other)
    }
}

impl vstd::std_specs::cmp::PartialEqSpecImpl for Node {
    open spec fn obeys_eq_spec() -> bool {
        true
    }

    open spec fn eq_spec(&self, other: &Node) -> bool {
        self@ == other@
    }
}

} // verus!
