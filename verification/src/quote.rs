//! Writing a text as a string literal of the query language.
//!
//! In a string literal of the engine's queries, a backslash makes the
//! character behind it stand for itself (but for `n`, `r`, `t` and `0`,
//! which then stand for control characters), a double quote that no
//! backslash precedes ends the literal, and a line break is not allowed.

use vstd::prelude::*;
use std::str::Chars;
use vstd::std_specs::iter::IteratorSpec;
use vstd::string::*;
use crate::text::push_char;

verus! {

/// One character as it is written inside a string literal: a double quote
/// and a backslash behind a backslash, any other as it is.
pub open spec fn escape_char(c: char) -> Seq<char> {
    if c == '"' || c == '\\' {
        seq!['\\', c]
    } else {
        seq![c]
    }
}

/// A text as it is written inside a string literal.
pub open spec fn escaped(text: Seq<char>) -> Seq<char>
    decreases text.len(),
{
    if text.len() == 0 {
        Seq::empty()
    } else {
        escaped(text.drop_last()) + escape_char(text.last())
    }
}

/// What a character stands for behind a backslash.
pub open spec fn behind_backslash(c: char) -> char {
    if c == 'n' {
        '\n'
    } else if c == 'r' {
        '\r'
    } else if c == 't' {
        '\t'
    } else if c == '0' {
        '\0'
    } else {
        c
    }
}

/// Whether `body`, written between two double quotes, is a string literal
/// that stands for `text`: it holds no line break, no double quote but
/// behind a backslash and no backslash at its end, and read from left to
/// right it gives the characters of `text`.
pub open spec fn reads_as(body: Seq<char>, text: Seq<char>) -> bool
    decreases body.len(),
{
    if body.len() == 0 {
        text.len() == 0
    } else if body[0] == '\\' {
        &&& body.len() >= 2
        &&& text.len() >= 1
        &&& text[0] == behind_backslash(body[1])
        &&& reads_as(body.skip(2), text.skip(1))
    } else {
        &&& body[0] != '"'
        &&& body[0] != '\n'
        &&& text.len() >= 1
        &&& text[0] == body[0]
        &&& reads_as(body.skip(1), text.skip(1))
    }
}

/// Two literals behind one another stand for the two texts behind one
/// another.
pub proof fn reads_as_concat(
    body: Seq<char>,
    text: Seq<char>,
    more_body: Seq<char>,
    more_text: Seq<char>,
)
    requires
        reads_as(body, text),
        reads_as(more_body, more_text),
    ensures
        reads_as(body + more_body, text + more_text),
    decreases body.len(),
{
    if body.len() == 0 {
        assert(body + more_body =~= more_body);
        assert(text + more_text =~= more_text);
    } else if body[0] == '\\' {
        reads_as_concat(body.skip(2), text.skip(1), more_body, more_text);
        assert((body + more_body).skip(2) =~= body.skip(2) + more_body);
        assert((text + more_text).skip(1) =~= text.skip(1) + more_text);
    } else {
        reads_as_concat(body.skip(1), text.skip(1), more_body, more_text);
        assert((body + more_body).skip(1) =~= body.skip(1) + more_body);
        assert((text + more_text).skip(1) =~= text.skip(1) + more_text);
    }
}

/// A character that is no line break, written as `escape_char` writes it,
/// stands for itself.
pub proof fn escape_char_reads(c: char)
    requires
        c != '\n',
    ensures
        reads_as(escape_char(c), seq![c]),
{
    let body = escape_char(c);
    let text = seq![c];
    assert(text.skip(1) =~= Seq::<char>::empty());
    if c == '"' || c == '\\' {
        assert(body.skip(2) =~= Seq::<char>::empty());
        assert(reads_as(body.skip(2), text.skip(1)));
    } else {
        assert(body.skip(1) =~= Seq::<char>::empty());
        assert(reads_as(body.skip(1), text.skip(1)));
    }
}

/// A text of one line, written as `escaped` writes it, is a string literal
/// that stands for exactly that text.
pub proof fn escaped_reads(text: Seq<char>)
    requires
        !text.contains('\n'),
    ensures
        reads_as(escaped(text), text),
    decreases text.len(),
{
    if text.len() > 0 {
        let front = text.drop_last();
        assert forall|i: int| 0 <= i < front.len() implies front[i] != '\n' by {
            assert(text[i] == front[i]);
            assert(text.contains(text[i]));
        }
        assert(!front.contains('\n'));
        assert(text.contains(text.last()));
        escaped_reads(front);
        escape_char_reads(text.last());
        reads_as_concat(escaped(front), front, escape_char(text.last()), seq![text.last()]);
        assert(front + seq![text.last()] =~= text);
    }
}

/// Whether `pattern`, read from a place inside a string literal or
/// outside one, holds outside its string literals only characters of
/// ASCII, and no `;`, which would open a comment. `escaped` says whether
/// the character before the place was a backslash inside a literal.
pub open spec fn plain_from(pattern: Seq<char>, inside: bool, escaped: bool) -> bool
    decreases pattern.len(),
{
    if pattern.len() == 0 {
        true
    } else if inside {
        if escaped {
            plain_from(pattern.skip(1), true, false)
        } else if pattern[0] == '\\' {
            plain_from(pattern.skip(1), true, true)
        } else {
            plain_from(pattern.skip(1), pattern[0] != '"', false)
        }
    } else {
        &&& pattern[0] <= '\u{7f}'
        &&& pattern[0] != ';'
        &&& plain_from(pattern.skip(1), pattern[0] == '"', false)
    }
}

/// Whether a pattern holds outside its string literals only characters of
/// ASCII, and no comment. The engine tells letters, digits and spaces by
/// the rules of the place where it runs, which agree on ASCII; inside a
/// string literal it tells no character from another but the backslash,
/// the double quote and the line break.
pub open spec fn is_plain_pattern(pattern: Seq<char>) -> bool {
    plain_from(pattern, false, false)
}

/// Writes `text` as it stands inside a string literal.
pub fn escape(text: &str) -> (body: String)
    ensures
        body@ == escaped(text@),
{
    let mut rest: Chars = text.chars();
    let mut body: String = String::new();
    let ghost mut seen: int = 0;
    assert(text@.skip(0) =~= text@);
    assert(text@.take(0) =~= Seq::<char>::empty());
    loop
        invariant
            0 <= seen <= text@.len(),
            rest.remaining() == text@.skip(seen),
            body@ == escaped(text@.take(seen)),
        decreases text@.len() - seen,
    {
        match rest.next() {
            Some(c) => {
                let ghost before = body@;
                if c == '"' || c == '\\' {
                    push_char(&mut body, '\\');
                }
                push_char(&mut body, c);
                proof {
                    assert(text@[seen] == c);
                    assert(text@.skip(seen).drop_first() =~= text@.skip(seen + 1));
                    assert(text@.take(seen + 1).drop_last() =~= text@.take(seen));
                    assert(text@.take(seen + 1).last() == c);
                    assert(body@ =~= before + escape_char(c));
                    seen = seen + 1;
                }
            },
            None => {
                assert(text@.take(seen) =~= text@);
                return body;
            },
        }
    }
}

} // verus!
