//! Generalising a snippet's syntax tree into a structural query pattern.
//!
//! A node becomes `(kind ...)`, with one part for each of its named
//! children. A child that its parent exposes under a field is captured under
//! a fresh name, the field's name followed by the value of a counter that
//! runs through the whole descent; where its text stands on one line, the
//! capture is also bound to that text.

use vstd::prelude::*;
use std::str::Chars;
use vstd::std_specs::iter::IteratorSpec;
use vstd::string::*;
use crate::node::{NodeView, SyntaxNode};
use crate::quote::{escape, escaped, escaped_reads, reads_as};
use crate::text::{decimal, is_digit, render_decimal, str_contains_char};

verus! {

/// Whether a dot has to part a field name from the counter behind it:
/// where the name ends in a digit, which would run into the counter, or in
/// a dot, which would pass for the parting one.
pub open spec fn needs_dot(field: Seq<char>) -> bool {
    field.len() > 0 && (is_digit(field.last()) || field.last() == '.')
}

/// What stands before the counter in a capture name: the field name, and
/// a dot where one is needed.
pub open spec fn capture_stem(field: Seq<char>) -> Seq<char> {
    if needs_dot(field) {
        field + "."@
    } else {
        field
    }
}

/// The name under which a child of field `field` is captured when the
/// counter stands at `counter`: the field name and the counter behind it,
/// with a dot between them only where the field name ends in a digit or a
/// dot.
pub open spec fn capture_name(field: Seq<char>, counter: nat) -> Seq<char> {
    capture_stem(field) + decimal(counter)
}

/// Whether a text stands on a single line.
pub open spec fn is_single_line(text: Seq<char>) -> bool {
    !text.contains('\n')
}

/// What binds the capture `name` to `text`: a literal-equality predicate
/// for a text of one line, with the text written as a string literal, and
/// nothing for a longer text.
pub open spec fn equality_clause(name: Seq<char>, text: Seq<char>) -> Seq<char> {
    if is_single_line(text) {
        " (#eq? @"@ + name + " \""@ + escaped(text) + "\")"@
    } else {
        Seq::empty()
    }
}

/// The number of capture names that the descent uses up inside `node`.
pub open spec fn captures_in(node: NodeView) -> nat
    decreases node, 1nat, 0nat,
{
    captures_in_prefix(node, node.children.len())
}

/// The number of capture names used up by the first `n` children of `node`.
pub open spec fn captures_in_prefix(node: NodeView, n: nat) -> nat
    decreases node, 0nat, n,
{
    if n == 0 || n > node.children.len() {
        0
    } else {
        captures_in_prefix(node, (n - 1) as nat) + captures_at(node.children[n - 1])
    }
}

/// The number of capture names used up by one child: none for an anonymous
/// child, else one for the child itself where it has a field, and those of
/// its own descent.
pub open spec fn captures_at(child: NodeView) -> nat
    decreases child, 2nat, 0nat,
{
    if !child.named {
        0
    } else if child.field.is_some() {
        1 + captures_in(child)
    } else {
        captures_in(child)
    }
}

/// The pattern of `node`, where the counter stands at `start` on entry.
pub open spec fn pattern_of(node: NodeView, start: nat) -> Seq<char>
    decreases node, 1nat, 0nat,
{
    "("@ + node.kind + children_pattern(node, node.children.len(), start) + ")"@
}

/// The parts of the first `n` children of `node`, each behind a space.
pub open spec fn children_pattern(node: NodeView, n: nat, start: nat) -> Seq<char>
    decreases node, 0nat, n,
{
    if n == 0 || n > node.children.len() {
        Seq::empty()
    } else {
        let child = node.children[n - 1];
        let before = children_pattern(node, (n - 1) as nat, start);
        if child.named {
            before + " "@ + child_pattern(
                child,
                start + captures_in_prefix(node, (n - 1) as nat),
            )
        } else {
            before
        }
    }
}

/// The part of one named child, where the counter stands at `counter`.
pub open spec fn child_pattern(child: NodeView, counter: nat) -> Seq<char>
    decreases child, 2nat, 0nat,
{
    match child.field {
        Some(field) => field + ": "@ + pattern_of(child, counter + 1) + " @"@ + capture_name(
            field,
            counter,
        ) + equality_clause(capture_name(field, counter), child.text),
        None => pattern_of(child, counter),
    }
}

/// The whole query for a snippet whose first top-level node is `root`: its
/// pattern, captured as `match`.
pub open spec fn query_of(root: NodeView) -> Seq<char> {
    "("@ + pattern_of(root, 0) + " @match)"@
}

/// A query ends in a closing bracket.
pub proof fn query_is_closed(root: NodeView)
    ensures
        query_of(root).len() > 0,
        query_of(root).last() == ')',
{
    reveal_strlit(" @match)");
}

/// The count over a prefix of the children never exceeds the count over all.
pub proof fn captures_in_prefix_monotonic(node: NodeView, n: nat, m: nat)
    requires
        n <= m <= node.children.len(),
    ensures
        captures_in_prefix(node, n) <= captures_in_prefix(node, m),
    decreases m,
{
    if n < m {
        captures_in_prefix_monotonic(node, n, (m - 1) as nat);
    }
}

/// A node without children is matched by its kind alone, whatever its
/// text: no text is bound in its pattern.
pub proof fn leaf_pattern(node: NodeView, start: nat)
    requires
        node.children.len() == 0,
    ensures
        captures_in(node) == 0,
        pattern_of(node, start) == "("@ + node.kind + ")"@,
        query_of(node) == "("@ + ("("@ + node.kind + ")"@) + " @match)"@,
{
    assert("("@ + node.kind + Seq::<char>::empty() + ")"@ =~= "("@ + node.kind + ")"@);
}

/// The part of a child with a field whose text runs over several lines
/// names the field, the child's own pattern and its capture, and binds the
/// capture to no text.
pub proof fn multi_line_child_unbound(child: NodeView, counter: nat)
    requires
        child.field.is_some(),
        !is_single_line(child.text),
    ensures
        child_pattern(child, counter) == child.field.unwrap() + ": "@ + pattern_of(
            child,
            counter + 1,
        ) + " @"@ + capture_name(child.field.unwrap(), counter),
{
    let name = capture_name(child.field.unwrap(), counter);
    let open = child.field.unwrap() + ": "@ + pattern_of(child, counter + 1) + " @"@ + name;
    assert(open + Seq::<char>::empty() =~= open);
}

/// The part of a child with a field whose text stands on one line binds
/// the child's capture to a string literal that stands for exactly that
/// text.
pub proof fn single_line_child_bound(child: NodeView, counter: nat)
    requires
        child.field.is_some(),
        is_single_line(child.text),
    ensures
        child_pattern(child, counter) == child.field.unwrap() + ": "@ + pattern_of(
            child,
            counter + 1,
        ) + " @"@ + capture_name(child.field.unwrap(), counter) + (" (#eq? @"@ + capture_name(
            child.field.unwrap(),
            counter,
        ) + " \""@ + escaped(child.text) + "\")"@),
        reads_as(escaped(child.text), child.text),
{
    escaped_reads(child.text);
}

/// Whether two trees differ at most in the text of nodes whose text runs
/// over several lines in both.
pub open spec fn alike(a: NodeView, b: NodeView) -> bool
    decreases a,
{
    &&& a.kind == b.kind
    &&& a.named == b.named
    &&& a.field == b.field
    &&& (a.text == b.text || (!is_single_line(a.text) && !is_single_line(b.text)))
    &&& a.children.len() == b.children.len()
    &&& forall|i: int| 0 <= i < a.children.len() ==> alike(a.children[i], b.children[i])
}

/// Text that runs over several lines does not enter the pattern: trees
/// that differ only there have the same pattern.
pub proof fn alike_pattern(a: NodeView, b: NodeView, start: nat)
    requires
        alike(a, b),
    ensures
        captures_in(a) == captures_in(b),
        pattern_of(a, start) == pattern_of(b, start),
    decreases a, 1nat, 0nat,
{
    alike_pattern_prefix(a, b, a.children.len(), start);
}

/// `alike_pattern`, for the first `n` children.
pub proof fn alike_pattern_prefix(a: NodeView, b: NodeView, n: nat, start: nat)
    requires
        alike(a, b),
        n <= a.children.len(),
    ensures
        captures_in_prefix(a, n) == captures_in_prefix(b, n),
        children_pattern(a, n, start) == children_pattern(b, n, start),
    decreases a, 0nat, n,
{
    if n > 0 {
        alike_pattern_prefix(a, b, (n - 1) as nat, start);
        assert(alike(a.children[n - 1], b.children[n - 1]));
        alike_pattern_child(
            a.children[n - 1],
            b.children[n - 1],
            start + captures_in_prefix(a, (n - 1) as nat),
        );
    }
}

/// `alike_pattern`, for one child reached at `counter`.
pub proof fn alike_pattern_child(a: NodeView, b: NodeView, counter: nat)
    requires
        alike(a, b),
    ensures
        captures_at(a) == captures_at(b),
        a.named ==> child_pattern(a, counter) == child_pattern(b, counter),
    decreases a, 2nat, 0nat,
{
    alike_pattern(a, b, counter);
    alike_pattern(a, b, counter + 1);
}

/// Whether a dot has to part `field` from the counter behind it.
pub fn ends_in_digit_or_dot(field: &str) -> (needed: bool)
    ensures
        needed == needs_dot(field@),
{
    let mut rest: Chars = field.chars();
    let mut last: Option<char> = None;
    let ghost mut seen: int = 0;
    assert(field@.skip(0) =~= field@);
    loop
        invariant
            0 <= seen <= field@.len(),
            rest.remaining() == field@.skip(seen),
            seen == 0 ==> last.is_none(),
            seen > 0 ==> last == Some(field@[seen - 1]),
        decreases field@.len() - seen,
    {
        match rest.next() {
            Some(c) => {
                proof {
                    assert(field@.skip(seen).drop_first() =~= field@.skip(seen + 1));
                    seen = seen + 1;
                }
                last = Some(c);
            },
            None => {
                return match last {
                    Some(c) => c == '0' || c == '1' || c == '2' || c == '3' || c == '4' || c == '5'
                        || c == '6' || c == '7' || c == '8' || c == '9' || c == '.',
                    None => false,
                };
            },
        }
    }
}

/// The name under which a child of field `field` is captured when the
/// counter stands at `counter`.
pub fn name_capture(field: &String, counter: u32) -> (name: String)
    ensures
        name@ == capture_name(field@, counter as nat),
{
    let mut name: String = field.clone();
    if ends_in_digit_or_dot(field.as_str()) {
        name.append(".");
    }
    name.append(render_decimal(counter as u64).as_str());
    name
}

/// Writes the part of a child with a field behind `out`, after a space:
/// the field, the child's own pattern `inner`, and the capture `name` with
/// what binds it to `text`.
fn push_captured(out: &mut String, field: &String, inner: &String, name: &String, text: &String)
    ensures
        final(out)@ == old(out)@ + " "@ + (field@ + ": "@ + inner@ + " @"@ + name@
            + equality_clause(name@, text@)),
{
    let ghost before = out@;
    out.append(" ");
    out.append(field.as_str());
    out.append(": ");
    out.append(inner.as_str());
    out.append(" @");
    out.append(name.as_str());
    if !str_contains_char(text.as_str(), '\n') {
        out.append(" (#eq? @");
        out.append(name.as_str());
        out.append(" \"");
        out.append(escape(text.as_str()).as_str());
        out.append("\")");
    }
    assert(out@ =~= before + " "@ + (field@ + ": "@ + inner@ + " @"@ + name@ + equality_clause(
        name@,
        text@,
    )));
}

/// Writes the part of a child without a field behind `out`, after a space.
fn push_plain(out: &mut String, inner: &String)
    ensures
        final(out)@ == old(out)@ + " "@ + inner@,
{
    out.append(" ");
    out.append(inner.as_str());
}

/// The pattern of `node` and the counter behind it, where the counter
/// stands at `field_start` on entry.
///
/// There is a result exactly when the counter stays within `u32`.
pub fn to_sexp_with_fields(node: &SyntaxNode, field_start: u32) -> (result: Option<(String, u32)>)
    ensures
        result.is_some() <==> field_start + captures_in(node@) <= u32::MAX,
        result matches Some((text, next)) ==> {
            &&& text@ == pattern_of(node@, field_start as nat)
            &&& next == field_start + captures_in(node@)
        },
    decreases node,
{
    let mut out: String = String::from_str("(");
    out.append(node.kind.as_str());
    let mut counter: u32 = field_start;
    let mut i: usize = 0;
    proof {
        node.view_children();
        assert(out@ =~= "("@ + node@.kind + children_pattern(node@, 0, field_start as nat));
    }
    while i < node.children.len()
        invariant
            i <= node.children.len(),
            node@.children.len() == node.children@.len(),
            forall|k: int| 0 <= k < node.children@.len() ==> node@.children[k] == node.children@[k]@,
            counter == field_start + captures_in_prefix(node@, i as nat),
            out@ == "("@ + node@.kind + children_pattern(node@, i as nat, field_start as nat),
        decreases node.children.len() - i,
    {
        let child: &SyntaxNode = &node.children[i];
        let ghost inner_before = children_pattern(node@, i as nat, field_start as nat);
        proof {
            captures_in_prefix_monotonic(node@, (i + 1) as nat, node@.children.len());
            assert(node@.children[i as int] == child@);
            assert(captures_in_prefix(node@, (i + 1) as nat) == captures_in_prefix(
                node@,
                i as nat,
            ) + captures_at(child@));
            assert(child@.field.is_some() == child.field.is_some());
            assert(children_pattern(node@, (i + 1) as nat, field_start as nat) == if child@.named {
                inner_before + " "@ + child_pattern(child@, counter as nat)
            } else {
                inner_before
            });
        }
        if child.named {
            match &child.field {
                Some(field) => {
                    if counter == u32::MAX {
                        return None;
                    }
                    let name: String = name_capture(field, counter);
                    match to_sexp_with_fields(child, counter + 1) {
                        None => {
                            return None;
                        },
                        Some((inner, next)) => {
                            push_captured(&mut out, field, &inner, &name, &child.text);
                            counter = next;
                        },
                    }
                },
                None => {
                    match to_sexp_with_fields(child, counter) {
                        None => {
                            return None;
                        },
                        Some((inner, next)) => {
                            push_plain(&mut out, &inner);
                            counter = next;
                        },
                    }
                },
            }
            assert(out@ =~= "("@ + node@.kind + (inner_before + " "@ + child_pattern(
                child@,
                field_start as nat + captures_in_prefix(node@, i as nat),
            )));
        }
        i += 1;
    }
    out.append(")");
    Some((out, counter))
}

/// The whole query for a snippet whose first top-level node is `root`.
///
/// There is a query exactly when the descent stays within `u32` capture
/// names.
pub fn snippet_query(root: &SyntaxNode) -> (query: Option<String>)
    ensures
        query.is_some() <==> captures_in(root@) <= u32::MAX,
        query matches Some(text) ==> text@ == query_of(root@),
{
    match to_sexp_with_fields(root, 0) {
        None => None,
        Some((pattern, _)) => {
            let mut text: String = String::from_str("(");
            text.append(pattern.as_str());
            text.append(" @match)");
            Some(text)
        },
    }
}

} // verus!
