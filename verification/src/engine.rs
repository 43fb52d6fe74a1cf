//! The parsing and query engine, `tree_sitter`, as this library sees it.
//!
//! Nothing in this file is proved. The types are opaque, and each function
//! hands one task to the engine; what a contract here claims is claimed of
//! the engine.

use vstd::prelude::*;
use tree_sitter::{Language, LanguageError, Node, Parser, Query, QueryCursor, QueryError, Tree};
use crate::node::NodeFacts;
use vstd::utf8::is_ascii_chars;
use crate::quote::is_plain_pattern;
use crate::text::clip;

verus! {

/// `tree_sitter::Language`: a grammar.
#[verifier::external_type_specification]
#[verifier::external_body]
pub struct ExLanguage(Language);

/// `tree_sitter::Tree`: the syntax tree of one text.
#[verifier::external_type_specification]
#[verifier::external_body]
pub struct ExTree(Tree);

/// `tree_sitter::Node`: a node of a syntax tree, borrowed from the tree.
#[verifier::external_type_specification]
#[verifier::external_body]
pub struct ExNode<'a>(Node<'a>);

/// `tree_sitter::Query`: a compiled pattern.
#[verifier::external_type_specification]
#[verifier::external_body]
pub struct ExQuery(Query);

/// `tree_sitter::LanguageError`: a grammar of a version that the engine
/// does not take.
#[verifier::external_type_specification]
#[verifier::external_body]
pub struct ExLanguageError(LanguageError);

/// `tree_sitter::QueryError`: why a pattern did not compile.
#[verifier::external_type_specification]
#[verifier::external_body]
pub struct ExQueryError(QueryError);

/// Whether the engine takes the grammar: `Parser::set_language` succeeds
/// exactly on a grammar of a version that the engine supports, which is
/// read off the grammar alone.
pub uninterp spec fn accepted(language: Language) -> bool;

/// What a tree holds: the facts of each of its nodes, by the path that
/// leads to it from the root.
pub uninterp spec fn tree_facts(tree: Tree) -> Map<Seq<int>, NodeFacts>;

/// What a new parser with the grammar `language` makes of `text`, a text
/// of ASCII: the facts of the tree, where it gives one. A new parser has
/// no time limit, no flag to stop it, no ranges and no earlier tree, so
/// that its tree is a function of the grammar and the text. Of other text
/// nothing is claimed: a grammar may tell letters and spaces by the rules
/// of the place where it runs, which agree on ASCII only.
pub uninterp spec fn parsed(language: Language, text: Seq<char>) -> Option<Map<Seq<int>, NodeFacts>>;

/// What an optional tree holds.
pub open spec fn tree_view(tree: Option<Tree>) -> Option<Map<Seq<int>, NodeFacts>> {
    match tree {
        Some(tree) => Some(tree_facts(tree)),
        None => None,
    }
}

/// Parses `text` with a new parser for `language`: `Parser::new`, then
/// `Parser::set_language`, whose error is handed on, then `Parser::parse`
/// on the whole text with no earlier tree. What comes of a text of ASCII
/// is what `parsed` names.
#[verifier::external_body]
pub(crate) fn parse_text(language: Language, text: &str) -> (outcome: Result<
    Option<Tree>,
    LanguageError,
>)
    ensures
        outcome.is_ok() == accepted(language),
        outcome matches Ok(tree) ==> (is_ascii_chars(text@) ==> tree_view(tree) == parsed(
            language,
            text@,
        )),
{
    let mut parser = Parser::new();
    parser.set_language(language)?;
    Ok(parser.parse(text, None))
}

/// Calls `Tree::root_node`. The tree below the root is the whole tree.
#[verifier::external_body]
pub(crate) fn tree_root<'a>(tree: &'a Tree) -> (root: Node<'a>)
    ensures
        subtree(root) == tree_facts(*tree),
{
    tree.root_node()
}

/// What the tree below `node` holds: the facts of each node that the engine
/// hands out there, by the path that leads to it from `node`, a sequence of
/// child indices. The empty path leads to `node` itself.
///
/// The engine's trees do not change while a node of theirs is held, and
/// each of the functions below reads its answer off the node and its tree
/// alone: so the answers are a function of the node, and this is its name.
pub uninterp spec fn subtree(node: Node) -> Map<Seq<int>, NodeFacts>;

/// The part of `tree` below the child at `index`.
pub open spec fn below(tree: Map<Seq<int>, NodeFacts>, index: int) -> Map<Seq<int>, NodeFacts> {
    Map::new(
        |path: Seq<int>| tree.dom().contains(seq![index] + path),
        |path: Seq<int>| tree[seq![index] + path],
    )
}

/// The facts of the node at the top of `tree`.
pub open spec fn top(tree: Map<Seq<int>, NodeFacts>) -> NodeFacts {
    tree[Seq::empty()]
}

/// Calls `Node::is_missing`, whose answer is the `missing` of the node's
/// facts.
#[verifier::external_body]
pub(crate) fn node_is_missing(node: &Node) -> (missing: bool)
    ensures
        missing == top(subtree(*node)).missing,
{
    node.is_missing()
}

/// Calls `Node::is_named`, whose answer is the `named` of the node's facts.
#[verifier::external_body]
pub(crate) fn node_is_named(node: &Node) -> (named: bool)
    ensures
        named == top(subtree(*node)).named,
{
    node.is_named()
}

/// Calls `Node::kind`, whose answer is the `kind` of the node's facts.
#[verifier::external_body]
pub(crate) fn node_kind(node: &Node) -> (kind: &'static str)
    ensures
        kind@ == top(subtree(*node)).kind,
{
    node.kind()
}

/// Calls `Node::child_count`, whose answer is the `children` of the node's
/// facts. The engine counts children in 32 bits and widens the count.
#[verifier::external_body]
pub(crate) fn node_child_count(node: &Node) -> (count: usize)
    ensures
        count == top(subtree(*node)).children,
        count <= u32::MAX,
{
    node.child_count()
}

/// Calls `Node::child`, which takes an index of 32 bits. The engine hands
/// out a child exactly where the tree below the node has the path of the
/// one index, and the tree below the child is the part of the node's tree
/// below that index.
#[verifier::external_body]
pub(crate) fn node_child<'a>(node: &Node<'a>, i: u32) -> (child: Option<Node<'a>>)
    ensures
        child.is_some() == subtree(*node).dom().contains(seq![i as int]),
        child matches Some(c) ==> subtree(c) == below(subtree(*node), i as int),
{
    node.child(i as usize)
}

/// Calls `Node::field_name_for_child`, whose answer is the entry for `i`
/// in the `fields` of the node's facts.
#[verifier::external_body]
pub(crate) fn node_field_name_for_child(node: &Node, i: u32) -> (name: Option<&'static str>)
    ensures
        name.is_some() == top(subtree(*node)).fields.contains_key(i as int),
        name matches Some(text) ==> text@ == top(subtree(*node)).fields[i as int],
{
    node.field_name_for_child(i)
}

/// Calls `Node::start_byte`, whose answer is the `start` of the node's
/// facts.
#[verifier::external_body]
pub(crate) fn node_start_byte(node: &Node) -> (start: usize)
    ensures
        start == top(subtree(*node)).start,
{
    node.start_byte()
}

/// Calls `Node::end_byte`, whose answer is the `end` of the node's facts.
#[verifier::external_body]
pub(crate) fn node_end_byte(node: &Node) -> (end: usize)
    ensures
        end == top(subtree(*node)).end,
{
    node.end_byte()
}

/// Whether a pattern ends in a closing bracket.
pub open spec fn is_closed(pattern: Seq<char>) -> bool {
    pattern.len() > 0 && pattern.last() == ')'
}

/// Whether the engine compiles `pattern` for `language`, where the pattern
/// holds outside its string literals only ASCII and no comment:
/// `Query::new` then reads the grammar and the pattern, and nothing else.
/// Of other patterns nothing is claimed: the engine tells the letters and
/// spaces of a pattern by the rules of the place where it runs.
pub uninterp spec fn compiles(language: Language, pattern: Seq<char>) -> bool;

/// What a query newly compiled from `pattern` for `language` finds in
/// `tree`, with `source` as the text of the nodes: for each match, in the
/// engine's order, and for each of its captures in order, the row and
/// column where the captured node starts, counted from 0.
pub uninterp spec fn finds(language: Language, pattern: Seq<char>, tree: Tree, source: Seq<u8>) -> Seq<Seq<(u32, u32)>>;

/// What `query` finds in `tree`, with `source` as the text of the nodes:
/// for each match, in the engine's order, and for each of its captures in
/// order, the row and column where the captured node starts, counted from
/// 0.
pub uninterp spec fn found_in(query: Query, tree: Tree, source: Seq<u8>) -> Seq<Seq<(u32, u32)>>;

/// Whether `query` finds, in every tree, what a query newly compiled from
/// `pattern` for `language` finds.
pub open spec fn compiled_from(query: Query, language: Language, pattern: Seq<char>) -> bool {
    forall|tree: Tree, source: Seq<u8>|
        #[trigger] found_in(query, tree, source) == finds(language, pattern, tree, source)
}

/// Calls `Query::new`, which compiles a pattern that is plain outside its
/// string literals exactly where `compiles` says so, and gives a query
/// that finds what `finds` names.
///
/// To report an unknown kind, field or capture, the engine cuts the name
/// out of the pattern, and fails to where the name runs to the end of the
/// pattern; a pattern that ends in a closing bracket has no such name.
#[verifier::external_body]
pub(crate) fn query_new(language: Language, source: &str) -> (outcome: Result<Query, QueryError>)
    requires
        is_closed(source@),
    ensures
        is_plain_pattern(source@) ==> outcome.is_ok() == compiles(language, source@),
        outcome matches Ok(query) ==> forall|tree: Tree, bytes: Seq<u8>|
            #[trigger] found_in(query, tree, bytes) == finds(language, source@, tree, bytes),
{
    Query::new(language, source)
}

/// Reads the fields `row` and `column` of a `QueryError`.
#[verifier::external_body]
pub(crate) fn query_error_position(error: &QueryError) -> (usize, usize) {
    (error.row, error.column)
}

/// Reads the field `message` of a `QueryError`.
#[verifier::external_body]
pub(crate) fn query_error_message(error: &QueryError) -> String {
    error.message.clone()
}

/// Runs `query` on `tree`, from its root (`Tree::root_node`), with a new
/// `QueryCursor`, by `QueryCursor::matches`, and hands out what `found_in`
/// names: for each match in the order of the engine and for each of its
/// captures in order, the row and column where the captured node starts
/// (`Node::start_position`), counted from 0. The engine holds both in 32
/// bits and widens them; here they are narrowed back.
///
/// The engine asks for a node's text to test a predicate; it is given the
/// bytes of `source` that `clip` selects for the node's byte range.
#[verifier::external_body]
pub(crate) fn query_matches(query: &Query, tree: &Tree, source: &[u8]) -> (found: Vec<
    Vec<(u32, u32)>,
>)
    ensures
        found.deep_view() == found_in(*query, *tree, source@),
{
    let mut cursor = QueryCursor::new();
    let text = |node: Node| std::iter::once(clip(source, node.start_byte(), node.end_byte()));
    cursor.matches(query, tree.root_node(), text).map(
        |m| m.captures.iter().map(
            |capture| {
                let start = capture.node.start_position();
                (start.row as u32, start.column as u32)
            },
        ).collect(),
    ).collect()
}

} // verus!
