//! From the text of a snippet to a compiled query.

use vstd::prelude::*;
use vstd::string::*;
use vstd::utf8::{encode_utf8, is_ascii_chars};
use tree_sitter::{Language, Node, Query, Tree};
use crate::engine::{
    accepted, below, compiled_from, compiles, is_closed, node_child, node_child_count,
    node_end_byte, node_field_name_for_child, node_is_missing, node_is_named, node_kind,
    node_start_byte, parse_text, parsed, query_error_message, query_error_position, query_new,
    subtree, top, tree_facts, tree_root,
};
use crate::error::SearchError;
use crate::node::{field_view, views_of, NodeFacts, NodeView, SyntaxNode};
use crate::pattern::{captures_in, query_is_closed, query_of, snippet_query};
use crate::quote::is_plain_pattern;
use crate::text::{text_at, text_between, text_view};

verus! {

/// Whether the text of every node of the tree is a stretch of `source`.
pub open spec fn texts_within(node: NodeView, source: Seq<u8>) -> bool
    decreases node,
{
    &&& exists|start: int, end: int|
        0 <= start <= end <= source.len() && encode_utf8(node.text) == #[trigger] source.subrange(
            start,
            end,
        )
    &&& forall|i: int| 0 <= i < node.children.len() ==> texts_within(node.children[i], source)
}

/// The field under which the node at the top of `tree` exposes its child
/// at `index`, if any.
pub open spec fn field_at(tree: Map<Seq<int>, NodeFacts>, index: int) -> Option<Seq<char>> {
    if top(tree).fields.contains_key(index) {
        Some(top(tree).fields[index])
    } else {
        None
    }
}

/// The copy of `tree`, a tree that the engine parsed from `source`, as
/// plain data, where its top stands under `field` and the descent may go
/// `levels` deep.
///
/// There is none where `levels` is used up, where the text of a node is
/// not to be had from `source`, or where a child that a node counts is not
/// handed out.
pub open spec fn copy_of(
    tree: Map<Seq<int>, NodeFacts>,
    field: Option<Seq<char>>,
    source: Seq<u8>,
    levels: nat,
) -> Option<NodeView>
    decreases levels, 0nat, 0nat,
{
    if levels == 0 {
        None
    } else {
        match text_at(source, top(tree).start as int, top(tree).end as int) {
            None => None,
            Some(text) => match copies_of(tree, top(tree).children, source, (levels - 1) as nat) {
                None => None,
                Some(children) => Some(
                    NodeView { kind: top(tree).kind, named: top(tree).named, field, text, children },
                ),
            },
        }
    }
}

/// The copies of the first `n` children of the top of `tree`, each to a
/// depth of `levels`; none where one of them has no copy.
pub open spec fn copies_of(
    tree: Map<Seq<int>, NodeFacts>,
    n: nat,
    source: Seq<u8>,
    levels: nat,
) -> Option<Seq<NodeView>>
    decreases levels, 1nat, n,
{
    if n == 0 {
        Some(Seq::empty())
    } else {
        match copies_of(tree, (n - 1) as nat, source, levels) {
            None => None,
            Some(before) => if !tree.dom().contains(seq![n - 1]) {
                None
            } else {
                match copy_of(below(tree, n - 1), field_at(tree, n - 1), source, levels) {
                    None => None,
                    Some(child) => Some(before.push(child)),
                }
            },
        }
    }
}

/// Where some children have no copies, more children have none either.
pub proof fn copies_of_none(
    tree: Map<Seq<int>, NodeFacts>,
    n: nat,
    m: nat,
    source: Seq<u8>,
    levels: nat,
)
    requires
        n <= m,
        copies_of(tree, n, source, levels).is_none(),
    ensures
        copies_of(tree, m, source, levels).is_none(),
    decreases m,
{
    if n < m {
        copies_of_none(tree, n, (m - 1) as nat, source, levels);
    }
}

/// The source text that `node` covers: there is one exactly when the
/// node's byte range is a range of `source` and holds UTF-8.
pub fn get_node_text(node: &Node, source: &[u8]) -> (text: Option<String>)
    ensures
        text_view(text) == text_at(
            source@,
            top(subtree(*node)).start as int,
            top(subtree(*node)).end as int,
        ),
        text matches Some(t) ==> exists|start: int, end: int|
            0 <= start <= end <= source@.len() && encode_utf8(t@) == #[trigger] source@.subrange(
                start,
                end,
            ),
{
    text_between(source, node_start_byte(node), node_end_byte(node))
}

/// The value of an optional node.
pub open spec fn node_view(node: Option<SyntaxNode>) -> Option<NodeView> {
    match node {
        Some(tree) => Some(tree@),
        None => None,
    }
}

/// Copies the tree below `node`, which the engine parsed from `source`,
/// into plain data. `field` is the field under which the parent exposes
/// `node`.
///
/// `levels` bounds the depth of the descent. There is no copy where the
/// tree is deeper, where the engine counts a child and then does not hand
/// it out, or where a node's byte range is no range of `source` or does not
/// hold UTF-8. The texts of a copy are stretches of `source`.
pub fn lift(node: &Node, field: Option<String>, source: &[u8], levels: usize) -> (copy: Option<
    SyntaxNode,
>)
    ensures
        node_view(copy) == copy_of(subtree(*node), field_view(field), source@, levels as nat),
        levels == 0 ==> copy.is_none(),
        copy matches Some(tree) ==> tree@.field == field_view(field) && texts_within(
            tree@,
            source@,
        ),
    decreases levels,
{
    if levels == 0 {
        return None;
    }
    let ghost tree = subtree(*node);
    let ghost deeper = (levels - 1) as nat;
    let text: String = match get_node_text(node, source) {
        Some(text) => text,
        None => {
            return None;
        },
    };
    let count: usize = node_child_count(node);
    let mut children: Vec<SyntaxNode> = Vec::new();
    let mut i: usize = 0;
    while i < count
        invariant
            i <= count <= u32::MAX,
            levels > 0,
            deeper == levels - 1,
            tree == subtree(*node),
            count == top(tree).children,
            copies_of(tree, i as nat, source@, deeper) == Some(views_of(children@)),
            forall|k: int| 0 <= k < children@.len() ==> texts_within(children@[k]@, source@),
        decreases count - i,
    {
        let ghost before = children@;
        let child: Node = match node_child(node, i as u32) {
            Some(child) => child,
            None => {
                proof {
                    copies_of_none(tree, (i + 1) as nat, count as nat, source@, deeper);
                }
                return None;
            },
        };
        let name: Option<String> = match node_field_name_for_child(node, i as u32) {
            Some(name) => Some(String::from_str(name)),
            None => None,
        };
        assert(field_view(name) == field_at(tree, i as int));
        match lift(&child, name, source, levels - 1) {
            Some(copy) => {
                children.push(copy);
                proof {
                    assert(children@.drop_last() =~= before);
                    assert(views_of(children@) == views_of(before).push(copy@));
                }
            },
            None => {
                proof {
                    copies_of_none(tree, (i + 1) as nat, count as nat, source@, deeper);
                }
                return None;
            },
        }
        i += 1;
    }
    let kind: String = String::from_str(node_kind(node));
    Some(SyntaxNode::branch(kind, node_is_named(node), field, text, children))
}

/// The query pattern that generalises the snippet `keyword`, given what
/// the tree that the engine parsed from it holds: the query of the first
/// top-level node. There is `NoPattern` where the root of the tree is a
/// missing node or has no first child, where the tree below that child has
/// no copy, or where the copy has more captures than `u32` counts.
pub open spec fn tree_pattern(tree: Map<Seq<int>, NodeFacts>, keyword: Seq<char>) -> Result<
    Seq<char>,
    SearchError,
> {
    if top(tree).missing || !tree.dom().contains(seq![0int]) {
        Err(SearchError::NoPattern)
    } else {
        match copy_of(below(tree, 0), None, encode_utf8(keyword), usize::MAX as nat) {
            Some(root) => if captures_in(root) <= u32::MAX {
                Ok(query_of(root))
            } else {
                Err(SearchError::NoPattern)
            },
            None => Err(SearchError::NoPattern),
        }
    }
}

/// The pattern of a snippet for which the engine gave `tree`, or none:
/// without a tree there is `NoPattern`.
pub open spec fn optional_tree_pattern(
    tree: Option<Map<Seq<int>, NodeFacts>>,
    keyword: Seq<char>,
) -> Result<Seq<char>, SearchError> {
    match tree {
        Some(tree) => tree_pattern(tree, keyword),
        None => Err(SearchError::NoPattern),
    }
}

/// The query pattern that generalises the snippet `keyword`, a text of
/// ASCII, under a grammar that the engine takes.
pub open spec fn snippet_pattern(language: Language, keyword: Seq<char>) -> Result<
    Seq<char>,
    SearchError,
> {
    optional_tree_pattern(parsed(language, keyword), keyword)
}

/// Whether `tree` can be what the engine gave for the snippet `keyword`:
/// for a text of ASCII it is what `parsed` names.
pub open spec fn reads_snippet(
    language: Language,
    keyword: Seq<char>,
    tree: Option<Map<Seq<int>, NodeFacts>>,
) -> bool {
    is_ascii_chars(keyword) ==> tree == parsed(language, keyword)
}

/// Whether `got` is the pattern `wanted`, or the same error.
pub open spec fn same_pattern(
    got: Result<String, SearchError>,
    wanted: Result<Seq<char>, SearchError>,
) -> bool {
    match wanted {
        Ok(text) => (got matches Ok(found) && found@ == text),
        Err(e) => got == Err::<String, SearchError>(e),
    }
}

/// The query pattern that generalises `keyword`, given the tree that the
/// engine parsed from it.
pub fn pattern_of_tree(tree: &Tree, keyword: &str) -> (pattern: Result<String, SearchError>)
    ensures
        same_pattern(pattern, tree_pattern(tree_facts(*tree), keyword@)),
{
    let root: Node = tree_root(tree);
    if node_is_missing(&root) {
        return Err(SearchError::NoPattern);
    }
    let first: Node = match node_child(&root, 0) {
        Some(first) => first,
        None => {
            return Err(SearchError::NoPattern);
        },
    };
    match lift(&first, None, keyword.as_bytes(), usize::MAX) {
        Some(copy) => pattern_or_none(snippet_query(&copy)),
        None => Err(SearchError::NoPattern),
    }
}

/// The query pattern that generalises `keyword`, parsed with `language`.
///
/// With a grammar that the engine does not take there is `Language`. Else
/// the result is the pattern of the tree that the engine gives for the
/// snippet, and `NoPattern` without a tree; for a snippet of ASCII the
/// tree is the one that `parsed` names.
pub fn generalize(keyword: &str, language: Language) -> (pattern: Result<String, SearchError>)
    ensures
        !accepted(language) ==> pattern == Err::<String, SearchError>(SearchError::Language),
        accepted(language) ==> exists|tree: Option<Map<Seq<int>, NodeFacts>>|
            #[trigger] reads_snippet(language, keyword@, tree) && same_pattern(
                pattern,
                optional_tree_pattern(tree, keyword@),
            ),
        accepted(language) && is_ascii_chars(keyword@) ==> same_pattern(
            pattern,
            snippet_pattern(language, keyword@),
        ),
{
    match parse_text(language, keyword) {
        Ok(Some(tree)) => {
            let pattern = pattern_of_tree(&tree, keyword);
            assert(reads_snippet(language, keyword@, Some(tree_facts(tree))));
            pattern
        },
        Ok(None) => {
            assert(reads_snippet(language, keyword@, None));
            Err(SearchError::NoPattern)
        },
        Err(_) => Err(SearchError::Language),
    }
}

/// A pattern, or `NoPattern` in its place.
pub fn pattern_or_none(query: Option<String>) -> (pattern: Result<String, SearchError>)
    ensures
        pattern == match query {
            Some(text) => Ok::<String, SearchError>(text),
            None => Err::<String, SearchError>(SearchError::NoPattern),
        },
{
    match query {
        Some(text) => Ok(text),
        None => Err(SearchError::NoPattern),
    }
}

/// Whether `pattern` ends in a closing bracket.
pub fn ends_in_bracket(pattern: &str) -> (closed: bool)
    ensures
        closed == is_closed(pattern@),
{
    let length: usize = pattern.unicode_len();
    length > 0 && pattern.get_char(length - 1) == ')'
}

/// What is said of a pattern that does not end in a closing bracket.
pub open spec fn not_closed_message() -> Seq<char> {
    "the pattern does not end in a closing bracket"@
}

/// Whether `query` is what compiling `pattern` for `language` can give: a
/// query that finds what a query newly compiled from the pattern finds, or
/// a `QueryCompile`; for a pattern that is plain outside its string
/// literals, a query exactly where `compiles` says so.
pub open spec fn compiled_as(
    query: Result<Query, SearchError>,
    language: Language,
    pattern: Seq<char>,
) -> bool {
    &&& match query {
        Ok(compiled) => compiled_from(compiled, language, pattern),
        Err(e) => e is QueryCompile,
    }
    &&& is_plain_pattern(pattern) ==> query.is_ok() == compiles(language, pattern)
}

/// Compiles `pattern` for `language`.
///
/// A pattern that does not end in a closing bracket is refused at its
/// start, unseen by the engine. Of any other, the engine gives a query
/// that finds what a query newly compiled from the pattern finds, or else
/// there is a `QueryCompile`; for a pattern that is plain outside its
/// string literals there is a query exactly when the engine compiles it.
pub fn compile_pattern(pattern: &str, language: Language) -> (query: Result<Query, SearchError>)
    ensures
        is_closed(pattern@) ==> compiled_as(query, language, pattern@),
        !is_closed(pattern@) ==> (query matches Err(
            SearchError::QueryCompile { row, column, message },
        ) && row == 0 && column == 0 && message@ == not_closed_message()),
{
    if !ends_in_bracket(pattern) {
        return Err(
            SearchError::QueryCompile {
                row: 0,
                column: 0,
                message: String::from_str("the pattern does not end in a closing bracket"),
            },
        );
    }
    match query_new(language, pattern) {
        Ok(query) => Ok(query),
        Err(error) => {
            let (row, column) = query_error_position(&error);
            Err(SearchError::QueryCompile { row, column, message: query_error_message(&error) })
        },
    }
}

/// Whether `query` is what compiling the outcome of generalising can
/// give: its error handed on, or its pattern compiled.
pub open spec fn compiled_pattern(
    query: Result<Query, SearchError>,
    language: Language,
    wanted: Result<Seq<char>, SearchError>,
) -> bool {
    match wanted {
        Ok(pattern) => compiled_as(query, language, pattern),
        Err(e) => query == Err::<Query, SearchError>(e),
    }
}

/// The compiled query that generalises `keyword`.
///
/// With a grammar that the engine does not take there is `Language`. Else
/// the snippet gives a pattern as `generalize` says; an error there is
/// handed on, and a pattern is compiled as `compile_pattern` says.
pub fn compile_keyword(keyword: &str, language: Language) -> (query: Result<Query, SearchError>)
    ensures
        !accepted(language) ==> query == Err::<Query, SearchError>(SearchError::Language),
        accepted(language) ==> exists|tree: Option<Map<Seq<int>, NodeFacts>>|
            #[trigger] reads_snippet(language, keyword@, tree) && compiled_pattern(
                query,
                language,
                optional_tree_pattern(tree, keyword@),
            ),
        accepted(language) && is_ascii_chars(keyword@) ==> compiled_pattern(
            query,
            language,
            snippet_pattern(language, keyword@),
        ),
{
    match generalize(keyword, language) {
        Ok(pattern) => {
            proof {
                let tree = choose|tree: Option<Map<Seq<int>, NodeFacts>>|
                    #[trigger] reads_snippet(language, keyword@, tree) && same_pattern(
                        Ok(pattern),
                        optional_tree_pattern(tree, keyword@),
                    );
                pattern_is_closed(tree->0, keyword@);
            }
            compile_pattern(pattern.as_str(), language)
        },
        Err(e) => Err(e),
    }
}

/// A pattern that a tree gives ends in a closing bracket.
pub proof fn pattern_is_closed(tree: Map<Seq<int>, NodeFacts>, keyword: Seq<char>)
    ensures
        tree_pattern(tree, keyword) matches Ok(pattern) ==> is_closed(pattern),
{
    if let Ok(pattern) = tree_pattern(tree, keyword) {
        query_is_closed(
            copy_of(below(tree, 0), None, encode_utf8(keyword), usize::MAX as nat).unwrap(),
        );
    }
}

} // verus!
