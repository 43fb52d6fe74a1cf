//! The captures of a pattern: how they are numbered, that their names do
//! not collide, and that each stands in the pattern.

use vstd::prelude::*;
use crate::node::NodeView;
use crate::pattern::{
    capture_name, capture_stem, captures_at, captures_in, captures_in_prefix, captures_in_prefix_monotonic,
    child_pattern, children_pattern, equality_clause, needs_dot, pattern_of,
};
use crate::text::{
    decimal, decimal_digits, decimal_injective, decimal_not_empty, is_digit, occurs_in,
};

verus! {

/// The counter at which the child at `index` of `node` is reached, where
/// the counter stands at `start` on entry to `node`.
pub open spec fn counter_at(node: NodeView, index: nat, start: nat) -> nat {
    start + captures_in_prefix(node, index)
}

/// What stands before the counter in a capture name does not end in a
/// digit, and tells the field name.
pub proof fn capture_stem_determines(field: Seq<char>, other: Seq<char>)
    ensures
        capture_stem(field).len() > 0 ==> !is_digit(capture_stem(field).last()),
        capture_stem(field) == capture_stem(other) ==> field == other,
{
    reveal_strlit(".");
    let s = capture_stem(field);
    let t = capture_stem(other);
    if s == t {
        if needs_dot(field) && needs_dot(other) {
            assert(field =~= s.drop_last());
            assert(other =~= t.drop_last());
        } else if needs_dot(field) {
            assert(other.last() == '.');
        } else if needs_dot(other) {
            assert(field.last() == '.');
        }
    }
}

/// A capture name tells its field and its counter: two names are the same
/// only where both are.
pub proof fn capture_name_determines(field: Seq<char>, a: nat, other: Seq<char>, b: nat)
    requires
        capture_name(field, a) == capture_name(other, b),
    ensures
        field == other,
        a == b,
{
    let s = capture_stem(field);
    let t = capture_stem(other);
    let x = decimal(a);
    let y = decimal(b);
    let name = capture_name(field, a);
    let twin = capture_name(other, b);
    decimal_digits(a);
    decimal_digits(b);
    decimal_not_empty(a);
    decimal_not_empty(b);
    capture_stem_determines(field, other);
    capture_stem_determines(other, field);
    assert(name.len() == s.len() + x.len());
    assert(twin.len() == t.len() + y.len());
    if x.len() < y.len() {
        let k = s.len() - 1 - t.len();
        assert(name[s.len() - 1] == s.last());
        assert(twin[s.len() - 1] == y[k]);
        assert(is_digit(y[k]));
    } else if y.len() < x.len() {
        let k = t.len() - 1 - s.len();
        assert(twin[t.len() - 1] == t.last());
        assert(name[t.len() - 1] == x[k]);
        assert(is_digit(x[k]));
    } else {
        assert(s =~= name.subrange(0, s.len() as int));
        assert(t =~= twin.subrange(0, t.len() as int));
        assert(x =~= name.subrange(s.len() as int, name.len() as int));
        assert(y =~= twin.subrange(t.len() as int, twin.len() as int));
        decimal_injective(a, b);
    }
}

/// A field name that ends neither in a digit nor in a dot is captured
/// under the name and the counter, with nothing between.
pub proof fn capture_name_bare(field: Seq<char>, counter: nat)
    requires
        !needs_dot(field),
    ensures
        capture_name(field, counter) == field + decimal(counter),
{
}

/// Two children of one node that are both captured are captured at
/// different counters, the later one at the greater, and under different
/// names.
pub proof fn sibling_captures_distinct(node: NodeView, i: nat, j: nat, start: nat)
    requires
        i < j < node.children.len(),
        node.children[i as int].named,
        node.children[i as int].field.is_some(),
        node.children[j as int].field.is_some(),
    ensures
        counter_at(node, i, start) < counter_at(node, j, start),
        capture_name(node.children[i as int].field.unwrap(), counter_at(node, i, start))
            != capture_name(node.children[j as int].field.unwrap(), counter_at(node, j, start)),
{
    captures_in_prefix_monotonic(node, i + 1, j);
    assert(captures_in_prefix(node, i + 1) == captures_in_prefix(node, i) + captures_at(
        node.children[i as int],
    ));
    let first = node.children[i as int].field.unwrap();
    let second = node.children[j as int].field.unwrap();
    if capture_name(first, counter_at(node, i, start)) == capture_name(
        second,
        counter_at(node, j, start),
    ) {
        capture_name_determines(
            first,
            counter_at(node, i, start),
            second,
            counter_at(node, j, start),
        );
    }
}

/// The captures of a descent into `node`, in the order in which they get
/// their names: each with its field name and the counter of its name.
pub open spec fn captures_of(node: NodeView, start: nat) -> Seq<(Seq<char>, nat)>
    decreases node, 1nat, 0nat,
{
    captures_of_prefix(node, node.children.len(), start)
}

/// The captures of the first `n` children of `node`.
pub open spec fn captures_of_prefix(node: NodeView, n: nat, start: nat) -> Seq<(Seq<char>, nat)>
    decreases node, 0nat, n,
{
    if n == 0 || n > node.children.len() {
        Seq::empty()
    } else {
        captures_of_prefix(node, (n - 1) as nat, start) + captures_of_child(
            node.children[n - 1],
            counter_at(node, (n - 1) as nat, start),
        )
    }
}

/// The captures of one child, reached at `counter`: its own, where it is
/// named and has a field, and then those inside it.
pub open spec fn captures_of_child(child: NodeView, counter: nat) -> Seq<(Seq<char>, nat)>
    decreases child, 2nat, 0nat,
{
    if !child.named {
        Seq::empty()
    } else {
        match child.field {
            Some(field) => seq![(field, counter)] + captures_of(child, counter + 1),
            None => captures_of(child, counter),
        }
    }
}

/// The captures of a descent are numbered without a gap from the counter
/// on entry: there are `captures_in` of them, and the one at place `k` has
/// the counter `start + k`.
pub proof fn captures_numbered(node: NodeView, start: nat)
    ensures
        captures_of(node, start).len() == captures_in(node),
        forall|k: int|
            0 <= k < captures_in(node) ==> (#[trigger] captures_of(node, start)[k]).1 == start + k,
    decreases node, 1nat, 0nat,
{
    captures_numbered_prefix(node, node.children.len(), start);
}

/// `captures_numbered`, for the first `n` children of `node`.
pub proof fn captures_numbered_prefix(node: NodeView, n: nat, start: nat)
    requires
        n <= node.children.len(),
    ensures
        captures_of_prefix(node, n, start).len() == captures_in_prefix(node, n),
        forall|k: int|
            0 <= k < captures_in_prefix(node, n) ==> (#[trigger] captures_of_prefix(
                node,
                n,
                start,
            )[k]).1 == start + k,
    decreases node, 0nat, n,
{
    if n > 0 {
        let child = node.children[n - 1];
        let counter = counter_at(node, (n - 1) as nat, start);
        captures_numbered_prefix(node, (n - 1) as nat, start);
        captures_numbered_child(child, counter);
    }
}

/// `captures_numbered`, for one child reached at `counter`.
pub proof fn captures_numbered_child(child: NodeView, counter: nat)
    ensures
        captures_of_child(child, counter).len() == captures_at(child),
        forall|k: int|
            0 <= k < captures_at(child) ==> (#[trigger] captures_of_child(child, counter)[k]).1
                == counter + k,
    decreases child, 2nat, 0nat,
{
    if child.named {
        match child.field {
            Some(field) => {
                captures_numbered(child, counter + 1);
            },
            None => {
                captures_numbered(child, counter);
            },
        }
    }
}

/// No two captures of one descent share a counter, and no two share a
/// capture name, whatever their fields are called.
pub proof fn captures_distinct(node: NodeView, start: nat, i: int, j: int)
    requires
        0 <= i < j < captures_in(node),
    ensures
        captures_of(node, start)[i].1 < captures_of(node, start)[j].1,
        capture_name(captures_of(node, start)[i].0, captures_of(node, start)[i].1)
            != capture_name(captures_of(node, start)[j].0, captures_of(node, start)[j].1),
{
    captures_numbered(node, start);
    let all = captures_of(node, start);
    if capture_name(all[i].0, all[i].1) == capture_name(all[j].0, all[j].1) {
        capture_name_determines(all[i].0, all[i].1, all[j].0, all[j].1);
    }
}

/// What stands in `middle` stands in anything around it.
pub proof fn occurs_in_middle(
    part: Seq<char>,
    before: Seq<char>,
    middle: Seq<char>,
    after: Seq<char>,
)
    requires
        occurs_in(part, middle),
    ensures
        occurs_in(part, before + middle + after),
{
    let at = choose|at: int|
        0 <= at && at + part.len() <= middle.len() && #[trigger] middle.subrange(
            at,
            at + part.len(),
        ) == part;
    let whole = before + middle + after;
    let there = before.len() + at;
    assert(whole.subrange(there, there + part.len()) =~= part);
}

/// How a capture stands in a pattern: its name behind ` @`.
pub open spec fn capture_mark(capture: (Seq<char>, nat)) -> Seq<char> {
    " @"@ + capture_name(capture.0, capture.1)
}

/// Each capture of a descent stands in the pattern of the descent, under
/// its name.
pub proof fn captures_marked(node: NodeView, start: nat)
    ensures
        forall|k: int|
            0 <= k < captures_of(node, start).len() ==> occurs_in(
                capture_mark(#[trigger] captures_of(node, start)[k]),
                pattern_of(node, start),
            ),
    decreases node, 1nat, 0nat,
{
    captures_marked_prefix(node, node.children.len(), start);
    let inner = children_pattern(node, node.children.len(), start);
    assert forall|k: int| 0 <= k < captures_of(node, start).len() implies occurs_in(
        capture_mark(#[trigger] captures_of(node, start)[k]),
        pattern_of(node, start),
    ) by {
        assert(captures_of(node, start)[k] == captures_of_prefix(
            node,
            node.children.len(),
            start,
        )[k]);
        occurs_in_middle(
            capture_mark(captures_of(node, start)[k]),
            "("@ + node.kind,
            inner,
            ")"@,
        );
    }
}

/// `captures_marked`, for the first `n` children of `node`.
pub proof fn captures_marked_prefix(node: NodeView, n: nat, start: nat)
    requires
        n <= node.children.len(),
    ensures
        forall|k: int|
            0 <= k < captures_of_prefix(node, n, start).len() ==> occurs_in(
                capture_mark(#[trigger] captures_of_prefix(node, n, start)[k]),
                children_pattern(node, n, start),
            ),
    decreases node, 0nat, n,
{
    if n > 0 {
        let child = node.children[n - 1];
        let counter = counter_at(node, (n - 1) as nat, start);
        captures_marked_prefix(node, (n - 1) as nat, start);
        captures_marked_child(child, counter);
        let before = children_pattern(node, (n - 1) as nat, start);
        let earlier = captures_of_prefix(node, (n - 1) as nat, start);
        let own = captures_of_child(child, counter);
        let whole = children_pattern(node, n, start);
        assert forall|k: int| 0 <= k < (earlier + own).len() implies occurs_in(
            capture_mark(#[trigger] (earlier + own)[k]),
            whole,
        ) by {
            if child.named {
                let part = child_pattern(child, counter);
                if k < earlier.len() {
                    occurs_in_middle(capture_mark(earlier[k]), Seq::empty(), before, " "@ + part);
                    assert(Seq::<char>::empty() + before + (" "@ + part) =~= whole);
                } else {
                    occurs_in_middle(
                        capture_mark(own[k - earlier.len()]),
                        before + " "@,
                        part,
                        Seq::empty(),
                    );
                    assert(before + " "@ + part + Seq::<char>::empty() =~= whole);
                }
            }
        }
    }
}

/// `captures_marked`, for one named child reached at `counter`.
pub proof fn captures_marked_child(child: NodeView, counter: nat)
    ensures
        child.named ==> forall|k: int|
            0 <= k < captures_of_child(child, counter).len() ==> occurs_in(
                capture_mark(#[trigger] captures_of_child(child, counter)[k]),
                child_pattern(child, counter),
            ),
    decreases child, 2nat, 0nat,
{
    if child.named {
        match child.field {
            Some(field) => {
                captures_marked(child, counter + 1);
                let name = capture_name(field, counter);
                let inner = pattern_of(child, counter + 1);
                let clause = equality_clause(name, child.text);
                let whole = child_pattern(child, counter);
                let all = captures_of_child(child, counter);
                assert forall|k: int| 0 <= k < all.len() implies occurs_in(
                    capture_mark(#[trigger] all[k]),
                    whole,
                ) by {
                    if k == 0 {
                        let mark = capture_mark((field, counter));
                        assert(mark.subrange(0int, 0int + mark.len()) =~= mark);
                        assert(occurs_in(mark, mark));
                        occurs_in_middle(mark, field + ": "@ + inner, mark, clause);
                        assert(field + ": "@ + inner + mark + clause =~= whole);
                    } else {
                        assert(all[k] == captures_of(child, counter + 1)[k - 1]);
                        occurs_in_middle(
                            capture_mark(all[k]),
                            field + ": "@,
                            inner,
                            " @"@ + name + clause,
                        );
                        assert(field + ": "@ + inner + (" @"@ + name + clause) =~= whole);
                    }
                }
            },
            None => {
                captures_marked(child, counter);
                let all = captures_of_child(child, counter);
                assert forall|k: int| 0 <= k < all.len() implies occurs_in(
                    capture_mark(#[trigger] all[k]),
                    child_pattern(child, counter),
                ) by {
                    assert(all[k] == captures_of(child, counter)[k]);
                }
            },
        }
    }
}

} // verus!
