//! The syntax tree of a snippet, as plain data.

use vstd::prelude::*;

verus! {

/// One node of a snippet's syntax tree.
pub struct SyntaxNode {
    /// The name of the grammar rule that produced the node.
    pub kind: String,
    /// Whether the node stands for a named rule of the grammar, and not for
    /// a piece of punctuation or a keyword.
    pub named: bool,
    /// The field name under which the parent exposes this node, if any.
    pub field: Option<String>,
    /// The source text that the node covers.
    pub text: String,
    /// The children, in source order.
    pub children: Vec<SyntaxNode>,
}

/// The mathematical value of a [`SyntaxNode`].
pub ghost struct NodeView {
    pub kind: Seq<char>,
    pub named: bool,
    pub field: Option<Seq<char>>,
    pub text: Seq<char>,
    pub children: Seq<NodeView>,
}

/// What the engine tells of one node.
pub ghost struct NodeFacts {
    /// The name of the grammar rule that produced the node.
    pub kind: Seq<char>,
    /// Whether the node stands for a named rule of the grammar.
    pub named: bool,
    /// Whether the parser put the node in to mend an error.
    pub missing: bool,
    /// The byte at which the node starts in the text that was parsed.
    pub start: nat,
    /// The byte at which the node ends.
    pub end: nat,
    /// The number of children that the node reports.
    pub children: nat,
    /// The field names under which the node exposes its children, by the
    /// child's index; a child without a field has no entry.
    pub fields: Map<int, Seq<char>>,
}

/// The view of an optional string.
pub open spec fn field_view(field: Option<String>) -> Option<Seq<char>> {
    match field {
        Some(name) => Some(name@),
        None => None,
    }
}

impl View for SyntaxNode {
    type V = NodeView;

    open spec fn view(&self) -> NodeView {
        view_of(*self)
    }
}

/// The value of a node: its own data, and the values of its children.
pub open spec fn view_of(node: SyntaxNode) -> NodeView
    decreases node,
{
    NodeView {
        kind: node.kind@,
        named: node.named,
        field: field_view(node.field),
        text: node.text@,
        children: views_of(node.children@),
    }
}

/// The views of a sequence of nodes, in the same order.
pub open spec fn views_of(nodes: Seq<SyntaxNode>) -> Seq<NodeView>
    decreases nodes,
{
    if nodes.len() == 0 {
        Seq::empty()
    } else {
        views_of(nodes.drop_last()).push(view_of(nodes.last()))
    }
}

/// `views_of` keeps the length and maps each node to its view.
pub proof fn views_of_index(nodes: Seq<SyntaxNode>)
    ensures
        views_of(nodes).len() == nodes.len(),
        forall|i: int| 0 <= i < nodes.len() ==> #[trigger] views_of(nodes)[i] == nodes[i]@,
    decreases nodes.len(),
{
    if nodes.len() > 0 {
        views_of_index(nodes.drop_last());
    }
}

impl SyntaxNode {
    /// A node without children.
    pub fn leaf(kind: String, named: bool, field: Option<String>, text: String) -> (node: Self)
        ensures
            node@ == (NodeView {
                kind: kind@,
                named,
                field: field_view(field),
                text: text@,
                children: Seq::empty(),
            }),
    {
        SyntaxNode { kind, named, field, text, children: Vec::new() }
    }

    /// A node with the given children.
    pub fn branch(
        kind: String,
        named: bool,
        field: Option<String>,
        text: String,
        children: Vec<SyntaxNode>,
    ) -> (node: Self)
        ensures
            node@.kind == kind@,
            node@.named == named,
            node@.field == field_view(field),
            node@.text == text@,
            node@.children == views_of(children@),
            node@.children.len() == children@.len(),
            forall|i: int| 0 <= i < children@.len() ==> node@.children[i] == children@[i]@,
    {
        proof {
            views_of_index(children@);
        }
        SyntaxNode { kind, named, field, text, children }
    }

    /// The children of the view are the views of the children.
    pub proof fn view_children(&self)
        ensures
            self@.children.len() == self.children@.len(),
            forall|i: int| 0 <= i < self.children@.len() ==> self@.children[i] == self.children@[i]@,
    {
        views_of_index(self.children@);
    }
}

} // verus!
