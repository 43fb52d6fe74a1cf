//! Text building blocks: decimal numerals, ranges of bytes, and the few
//! things that the standard library does for the texts of this library.

use vstd::prelude::*;
use std::str::Chars;
use vstd::slice::slice_subrange;
use vstd::std_specs::iter::IteratorSpec;
use vstd::string::*;
use vstd::utf8::{decode_utf8, encode_utf8, encode_utf8_decode_utf8, valid_utf8};

verus! {

/// The character of a decimal digit.
pub open spec fn digit_char(d: nat) -> char {
    if d == 0 {
        '0'
    } else if d == 1 {
        '1'
    } else if d == 2 {
        '2'
    } else if d == 3 {
        '3'
    } else if d == 4 {
        '4'
    } else if d == 5 {
        '5'
    } else if d == 6 {
        '6'
    } else if d == 7 {
        '7'
    } else if d == 8 {
        '8'
    } else {
        '9'
    }
}

/// The decimal numeral of `n`: most significant digit first, no leading
/// zero, and `"0"` for zero.
pub open spec fn decimal(n: nat) -> Seq<char>
    decreases n,
{
    if n < 10 {
        seq![digit_char(n)]
    } else {
        decimal(n / 10).push(digit_char(n % 10))
    }
}

/// Different digits have different characters.
pub proof fn digit_char_injective(c: nat, d: nat)
    requires
        c < 10,
        d < 10,
        digit_char(c) == digit_char(d),
    ensures
        c == d,
{
}

/// Whether a character is a decimal digit.
pub open spec fn is_digit(c: char) -> bool {
    c == '0' || c == '1' || c == '2' || c == '3' || c == '4' || c == '5' || c == '6' || c == '7'
        || c == '8' || c == '9'
}

/// A numeral holds digits only.
pub proof fn decimal_digits(n: nat)
    ensures
        forall|i: int| 0 <= i < decimal(n).len() ==> is_digit(#[trigger] decimal(n)[i]),
    decreases n,
{
    if n < 10 {
        assert(decimal(n)[0] == digit_char(n));
    } else {
        decimal_digits(n / 10);
        assert forall|i: int| 0 <= i < decimal(n).len() implies is_digit(
            #[trigger] decimal(n)[i],
        ) by {
            if i < decimal(n / 10).len() {
                assert(decimal(n)[i] == decimal(n / 10)[i]);
            } else {
                assert(decimal(n)[i] == digit_char(n % 10));
            }
        }
    }
}

/// A numeral has at least one digit.
pub proof fn decimal_not_empty(n: nat)
    ensures
        decimal(n).len() >= 1,
    decreases n,
{
    if n >= 10 {
        decimal_not_empty(n / 10);
    }
}

/// Different numbers have different numerals.
pub proof fn decimal_injective(a: nat, b: nat)
    requires
        decimal(a) == decimal(b),
    ensures
        a == b,
    decreases a,
{
    if a < 10 && b < 10 {
        assert(decimal(a)[0] == digit_char(a));
        assert(decimal(b)[0] == digit_char(b));
        digit_char_injective(a, b);
    } else if a < 10 {
        decimal_not_empty(b / 10);
        assert(decimal(a).len() == 1);
        assert(decimal(b).len() >= 2);
    } else if b < 10 {
        decimal_not_empty(a / 10);
        assert(decimal(b).len() == 1);
        assert(decimal(a).len() >= 2);
    } else {
        let x = decimal(a / 10);
        let y = decimal(b / 10);
        assert(x.push(digit_char(a % 10)).drop_last() =~= x);
        assert(y.push(digit_char(b % 10)).drop_last() =~= y);
        assert(x.push(digit_char(a % 10)).last() == digit_char(a % 10));
        assert(y.push(digit_char(b % 10)).last() == digit_char(b % 10));
        assert(x == y);
        digit_char_injective(a % 10, b % 10);
        decimal_injective(a / 10, b / 10);
        assert(a % 10 == b % 10);
        assert(a / 10 == b / 10);
    }
}

/// The one-character string of a decimal digit.
fn digit_str(d: u64) -> (s: &'static str)
    requires
        d < 10,
    ensures
        s@ == seq![digit_char(d as nat)],
{
    proof {
        reveal_strlit("0");
        reveal_strlit("1");
        reveal_strlit("2");
        reveal_strlit("3");
        reveal_strlit("4");
        reveal_strlit("5");
        reveal_strlit("6");
        reveal_strlit("7");
        reveal_strlit("8");
        reveal_strlit("9");
    }
    let s: &'static str = if d == 0 {
        "0"
    } else if d == 1 {
        "1"
    } else if d == 2 {
        "2"
    } else if d == 3 {
        "3"
    } else if d == 4 {
        "4"
    } else if d == 5 {
        "5"
    } else if d == 6 {
        "6"
    } else if d == 7 {
        "7"
    } else if d == 8 {
        "8"
    } else {
        "9"
    };
    assert(s@ =~= seq![digit_char(d as nat)]);
    s
}

/// Writes `n` as a decimal numeral.
pub fn render_decimal(n: u64) -> (s: String)
    ensures
        s@ == decimal(n as nat),
    decreases n,
{
    if n < 10 {
        String::from_str(digit_str(n))
    } else {
        let mut s: String = render_decimal(n / 10);
        s.append(digit_str(n % 10));
        assert(s@ =~= decimal(n as nat));
        s
    }
}

/// Whether the character `c` occurs in `s`.
pub fn str_contains_char(s: &str, c: char) -> (found: bool)
    ensures
        found == s@.contains(c),
{
    let mut rest: Chars = s.chars();
    let ghost mut seen: int = 0;
    assert(s@.skip(0) =~= s@);
    loop
        invariant
            0 <= seen <= s@.len(),
            rest.remaining() == s@.skip(seen),
            forall|k: int| 0 <= k < seen ==> s@[k] != c,
        decreases s@.len() - seen,
    {
        match rest.next() {
            Some(next) => {
                if next == c {
                    assert(s@[seen] == c);
                    return true;
                }
                proof {
                    assert(s@.skip(seen).drop_first() =~= s@.skip(seen + 1));
                    seen = seen + 1;
                }
            },
            None => {
                return false;
            },
        }
    }
}

/// Appends `c` to `text`.
///
/// Trusted: calls `String::push` of std, which is documented to append the
/// character to the end of the string.
#[verifier::external_body]
pub(crate) fn push_char(text: &mut String, c: char)
    ensures
        final(text)@ == old(text)@.push(c),
{
    text.push(c)
}

/// The bytes of `source` from `start` up to `end`, or no bytes where that
/// is no range of `source`.
pub fn clip(source: &[u8], start: usize, end: usize) -> (bytes: &[u8])
    ensures
        bytes@ == clipped(source@, start as int, end as int),
{
    if start <= end && end <= source.len() {
        slice_subrange(source, start, end)
    } else {
        let bytes: &[u8] = slice_subrange(source, 0, 0);
        assert(bytes@ =~= Seq::<u8>::empty());
        bytes
    }
}

/// The bytes of `source` from `start` up to `end`, or no bytes where that
/// is no range of `source`.
pub open spec fn clipped(source: Seq<u8>, start: int, end: int) -> Seq<u8> {
    if 0 <= start <= end <= source.len() {
        source.subrange(start, end)
    } else {
        Seq::empty()
    }
}

/// The text that stands in `source` from `start` up to `end`: there is one
/// exactly when that is a range of `source` and holds UTF-8.
pub open spec fn text_at(source: Seq<u8>, start: int, end: int) -> Option<Seq<char>> {
    if 0 <= start <= end <= source.len() && valid_utf8(source.subrange(start, end)) {
        Some(decode_utf8(source.subrange(start, end)))
    } else {
        None
    }
}

/// The value of an optional text.
pub open spec fn text_view(text: Option<String>) -> Option<Seq<char>> {
    match text {
        Some(t) => Some(t@),
        None => None,
    }
}

/// The text that stands in `source` from `start` up to `end`: there is one
/// exactly when that is a range of `source` and holds UTF-8.
pub fn text_between(source: &[u8], start: usize, end: usize) -> (text: Option<String>)
    ensures
        text_view(text) == text_at(source@, start as int, end as int),
        text.is_some() <==> start <= end <= source@.len() && valid_utf8(
            source@.subrange(start as int, end as int),
        ),
        text matches Some(t) ==> encode_utf8(t@) == source@.subrange(start as int, end as int),
{
    if start > end || end > source.len() {
        None
    } else {
        let text: Option<String> = utf8_text(slice_subrange(source, start, end));
        proof {
            if text.is_some() {
                encode_utf8_decode_utf8(text.unwrap()@);
            }
        }
        text
    }
}

/// The text that `bytes` encode in UTF-8, if they encode one.
///
/// Trusted: calls `std::str::from_utf8`, which is documented to succeed
/// exactly on valid UTF-8 and then to hand back the same bytes as a string.
#[verifier::external_body]
pub(crate) fn utf8_text(bytes: &[u8]) -> (text: Option<String>)
    ensures
        text.is_some() <==> valid_utf8(bytes@),
        text matches Some(t) ==> encode_utf8(t@) == bytes@,
{
    match std::str::from_utf8(bytes) {
        Ok(text) => Some(text.to_string()),
        Err(_) => None,
    }
}

/// Whether `part` stands somewhere in `whole`.
pub open spec fn occurs_in(part: Seq<char>, whole: Seq<char>) -> bool {
    exists|at: int|
        0 <= at && at + part.len() <= whole.len() && #[trigger] whole.subrange(
            at,
            at + part.len(),
        ) == part
}

/// The place of the last dot in `name`, or -1 where it holds none.
pub open spec fn last_dot(name: Seq<char>) -> int
    decreases name.len(),
{
    if name.len() == 0 {
        -1
    } else if name.last() == '.' {
        name.len() - 1
    } else {
        last_dot(name.drop_last())
    }
}

/// The extension of a file name: what stands behind its last dot, where
/// it has a dot that is not its first character.
pub open spec fn extension_of_name(name: Seq<char>) -> Option<Seq<char>> {
    if last_dot(name) <= 0 {
        None
    } else {
        Some(name.subrange(last_dot(name) + 1, name.len() as int))
    }
}

/// The place of the last `/` in `path`, or -1 where it holds none.
pub open spec fn last_slash(path: Seq<char>) -> int
    decreases path.len(),
{
    if path.len() == 0 {
        -1
    } else if path.last() == '/' {
        path.len() - 1
    } else {
        last_slash(path.drop_last())
    }
}

/// What stands in `path` behind its last `/`: the whole of a path without
/// one.
pub open spec fn last_part(path: Seq<char>) -> Seq<char> {
    path.subrange(last_slash(path) + 1, path.len() as int)
}

/// Whether the last component of `path` is what stands behind its last
/// `/` on every system, and has an extension: the path holds no `\` and no
/// `:`, does not begin with `//`, and what stands behind its last `/` is
/// not the name of the parent directory and has a dot that is not its
/// first character.
pub open spec fn ends_in_plain_name(path: Seq<char>) -> bool {
    &&& !path.contains('\\')
    &&& !path.contains(':')
    &&& !(path.len() >= 2 && path[0] == '/' && path[1] == '/')
    &&& last_part(path) != seq!['.', '.']
    &&& last_dot(last_part(path)) > 0
}

/// Whether a path is one plain name: it holds none of the characters that
/// part a path on some system, and is not the name of the parent
/// directory.
pub open spec fn is_plain_name(path: Seq<char>) -> bool {
    &&& !path.contains('/')
    &&& !path.contains('\\')
    &&& !path.contains(':')
    &&& path != seq!['.', '.']
}

/// The extension of the last component of `path`, without its dot, if it
/// has one.
///
/// Trusted: calls `std::path::Path::extension`, and `OsStr::to_str` on
/// what it gives, which is Unicode because the path is. The documentation
/// gives the extension as the part of the file name behind its final dot,
/// and none for a name without a dot or with its only dot in front; the
/// file name is the last component of the path. So an extension holds no
/// dot and stands in the path behind a dot; a path without a dot has none;
/// a path that is one plain name has the extension of that name; and so
/// has a path that ends in a plain name with an extension behind a `/`,
/// where nothing in it is read differently from system to system.
#[verifier::external_body]
pub(crate) fn path_extension(path: &str) -> (extension: Option<String>)
    ensures
        extension matches Some(e) ==> !e@.contains('.') && occurs_in(seq!['.'] + e@, path@),
        !path@.contains('.') ==> extension.is_none(),
        is_plain_name(path@) ==> text_view(extension) == extension_of_name(path@),
        ends_in_plain_name(path@) ==> text_view(extension) == extension_of_name(last_part(path@)),
{
    match std::path::Path::new(path).extension() {
        Some(extension) => extension.to_str().map(|text| text.to_string()),
        None => None,
    }
}

} // verus!
