//! The tree that a JSON or YAML text holds, before any meaning is given to it.

use vstd::prelude::*;

verus! {

/// A value of a JSON or YAML text.
#[derive(Debug, PartialEq, Eq)]
pub enum Node {
    /// No value.
    Null,
    /// A truth value.
    Bool(bool),
    /// A number, kept as its decimal text.
    Number(String),
    /// A text.
    Text(String),
    /// A list of values.
    Sequence(Vec<Node>),
    /// Named values, in the order in which they stand.
    Mapping(Vec<(String, Node)>),
}

/// A `Node` as a mathematical value.
pub enum NodeView {
    Null,
    Bool(bool),
    Number(Seq<char>),
    Text(Seq<char>),
    Sequence(Seq<NodeView>),
    Mapping(Seq<(Seq<char>, NodeView)>),
}

impl Node {
    /// The mathematical value of the node.
    pub open spec fn tree(self) -> NodeView
        decreases self,
    {
        match self {
            Node::Null => NodeView::Null,
            Node::Bool(b) => NodeView::Bool(b),
            Node::Number(n) => NodeView::Number(n@),
            Node::Text(t) => NodeView::Text(t@),
            Node::Sequence(items) => NodeView::Sequence(
                Seq::new(
                    items.len() as nat,
                    |i: int|
                        if 0 <= i < items.len() {
                            items[i].tree()
                        } else {
                            NodeView::Null
                        },
                ),
            ),
            Node::Mapping(entries) => NodeView::Mapping(
                Seq::new(
                    entries.len() as nat,
                    |i: int|
                        if 0 <= i < entries.len() {
                            (entries[i].0@, entries[i].1.tree())
                        } else {
                            (Seq::empty(), NodeView::Null)
                        },
                ),
            ),
        }
    }
}

impl DeepView for Node {
    type V = NodeView;

    open spec fn deep_view(&self) -> NodeView {
        self.tree()
    }
}

impl View for Node {
    type V = NodeView;

    open spec fn view(&self) -> NodeView {
        self.tree()
    }
}

/// The view of a list node is the list of its items' views.
pub proof fn lemma_sequence_view(items: Vec<Node>)
    ensures
        Node::Sequence(items)@ == NodeView::Sequence(items.deep_view()),
{
    assert(Node::Sequence(items)@->Sequence_0 =~= items.deep_view());
}

/// The view of a mapping node is the list of its entries' views.
pub proof fn lemma_mapping_view(entries: Vec<(String, Node)>)
    ensures
        Node::Mapping(entries)@ == NodeView::Mapping(entries.deep_view()),
{
    assert(Node::Mapping(entries)@->Mapping_0 =~= entries.deep_view());
}

impl Node {
    /// A copy of the node.
    pub fn duplicate(&self) -> (copy: Node)
        ensures
            copy@ == self@,
        decreases self,
    {
        match self {
            Node::Null => Node::Null,
            Node::Bool(b) => Node::Bool(*b),
            Node::Number(n) => Node::Number(n.clone()),
            Node::Text(t) => Node::Text(t.clone()),
            Node::Sequence(items) => {
                let mut copies: Vec<Node> = Vec::new();
                let mut i: usize = 0;
                while i < items.len()
                    invariant
                        i <= items.len(),
                        self is Sequence,
                        self->Sequence_0 == *items,
                        copies.len() == i,
                        forall|k: int| 0 <= k < i ==> (#[trigger] copies[k])@ == items[k]@,
                    decreases items.len() - i,
                {
                    copies.push(items[i].duplicate());
                    i += 1;
                }
                proof {
                    lemma_sequence_view(copies);
                    lemma_sequence_view(*items);
                    assert(copies.deep_view() =~= items.deep_view());
                }
                Node::Sequence(copies)
            },
            Node::Mapping(members) => {
                let mut copies: Vec<(String, Node)> = Vec::new();
                let mut i: usize = 0;
                while i < members.len()
                    invariant
                        i <= members.len(),
                        self is Mapping,
                        self->Mapping_0 == *members,
                        copies.len() == i,
                        forall|k: int|
                            0 <= k < i ==> (#[trigger] copies[k]).0@ == members[k].0@
                                && copies[k].1@ == members[k].1@,
                    decreases members.len() - i,
                {
                    copies.push((members[i].0.clone(), members[i].1.duplicate()));
                    i += 1;
                }
                proof {
                    lemma_mapping_view(copies);
                    lemma_mapping_view(*members);
                    assert(copies.deep_view() =~= members.deep_view());
                }
                Node::Mapping(copies)
            },
        }
    }
}

impl Clone for Node {
    fn clone(&self) -> (copy: Node)
        ensures
            copy@ == self@,
    {
        self.duplicate()
    }
}

} // verus!
