//! Character classes used by the lexer.

use vstd::prelude::*;

verus! {

/// Unicode `White_Space` membership, which `char::is_whitespace` reports:
/// the controls U+0009 to U+000D, the space, U+0085, U+00A0, U+1680, U+2000
/// to U+200A, U+2028, U+2029, U+202F, U+205F and U+3000.
pub open spec fn unicode_whitespace(c: char) -> bool {
    ||| '\u{9}' <= c <= '\u{d}'
    ||| c == ' '
    ||| c == '\u{85}'
    ||| c == '\u{a0}'
    ||| c == '\u{1680}'
    ||| '\u{2000}' <= c <= '\u{200a}'
    ||| c == '\u{2028}'
    ||| c == '\u{2029}'
    ||| c == '\u{202f}'
    ||| c == '\u{205f}'
    ||| c == '\u{3000}'
}

/// Unicode `Alphabetic` membership, as `char::is_alphabetic` reports it.
pub uninterp spec fn unicode_alphabetic(c: char) -> bool;

/// Unicode `Alphabetic` or numeric membership, as `char::is_alphanumeric` reports it.
pub uninterp spec fn unicode_alphanumeric(c: char) -> bool;

/// Whether `c` has the Unicode `White_Space` property (what
/// `char::is_whitespace` answers).
pub fn is_whitespace(c: char) -> (b: bool)
    ensures
        b == unicode_whitespace(c),
{
    ('\u{9}' <= c && c <= '\u{d}') || c == ' ' || c == '\u{85}' || c == '\u{a0}' || c == '\u{1680}'
        || ('\u{2000}' <= c && c <= '\u{200a}') || c == '\u{2028}' || c == '\u{2029}' || c == '\u{202f}'
        || c == '\u{205f}' || c == '\u{3000}'
}

/// `char::is_alphabetic`: whether `c` has the Unicode `Alphabetic` property.
/// The contract names the answer and says nothing of which characters have
/// it, but that they are alphanumeric too (`char::is_alphanumeric` is
/// documented as alphabetic or numeric).
#[verifier::external_body]
pub(crate) fn is_alphabetic(c: char) -> (b: bool)
    ensures
        b == unicode_alphabetic(c),
        b ==> unicode_alphanumeric(c),
{
    c.is_alphabetic()
}

/// `char::is_alphanumeric`: whether `c` is alphabetic or numeric in Unicode.
/// The contract names the answer and says nothing of which characters have it.
#[verifier::external_body]
pub(crate) fn is_alphanumeric(c: char) -> (b: bool)
    ensures
        b == unicode_alphanumeric(c),
{
    c.is_alphanumeric()
}

/// ASCII decimal digit.
pub open spec fn ascii_digit(c: char) -> bool {
    '0' <= c && c <= '9'
}

/// Whether `c` is an ASCII decimal digit.
pub fn is_ascii_digit(c: char) -> (b: bool)
    ensures
        b == ascii_digit(c),
{
    '0' <= c && c <= '9'
}

/// The value of an ASCII decimal digit.
pub open spec fn digit_value(c: char) -> int {
    (c as int) - ('0' as int)
}

/// The number of bytes of the UTF-8 encoding of the first `n` characters of `s`.
pub open spec fn utf8_len_prefix(s: Seq<char>, n: int) -> nat {
    vstd::utf8::encode_utf8(s.subrange(0, n)).len()
}

/// `str::char_indices`: every character of `s` with the byte offset at which
/// its UTF-8 encoding starts, in order. The offset of the `i`-th character is
/// the encoded length of the `i` characters before it.
#[verifier::external_body]
pub(crate) fn char_indices(s: &str) -> (v: Vec<(usize, char)>)
    ensures
        v@.len() == s@.len(),
        forall|i: int|
            0 <= i < v@.len() ==> (#[trigger] v@[i]).1 == s@[i] && v@[i].0 as nat
                == utf8_len_prefix(s@, i),
{
    s.char_indices().collect()
}

} // verus!
