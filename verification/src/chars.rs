//! Unicode character classes and case mapping, from `char` and `str`.

use vstd::prelude::*;

verus! {

/// Whether `char::is_alphanumeric` accepts `c` (the Unicode `Alphabetic` or
/// `Numeric` property).
pub uninterp spec fn alphanumeric(c: char) -> bool;

/// Whether `char::is_alphabetic` accepts `c` (the Unicode `Alphabetic`
/// property).
pub uninterp spec fn alphabetic(c: char) -> bool;

/// Whether `char::is_whitespace` accepts `c` (the Unicode `White_Space`
/// property).
pub uninterp spec fn whitespace(c: char) -> bool;

/// What `str::to_lowercase` gives for a text.
pub uninterp spec fn lowercase_of(s: Seq<char>) -> Seq<char>;

/// What `str::to_uppercase` gives for a text.
pub uninterp spec fn uppercase_of(s: Seq<char>) -> Seq<char>;

/// An ASCII decimal digit, `'0'` to `'9'` (`char::is_ascii_digit`).
pub open spec fn ascii_digit(c: char) -> bool {
    '0' <= c && c <= '9'
}

/// Calls `char::is_alphanumeric`. Claimed: the answer is `alphanumeric(c)`,
/// a function of `c` alone; the Unicode tables behind it are not stated.
#[verifier::external_body]
pub(crate) fn is_alphanumeric(c: char) -> (b: bool)
    ensures
        b == alphanumeric(c),
{
    c.is_alphanumeric()
}

/// Calls `char::is_alphabetic`. Claimed: the answer is `alphabetic(c)`, and
/// an alphabetic char is alphanumeric (the documentation defines
/// `is_alphanumeric` as `is_alphabetic` or `is_numeric`).
#[verifier::external_body]
pub(crate) fn is_alphabetic(c: char) -> (b: bool)
    ensures
        b == alphabetic(c),
        b ==> alphanumeric(c),
{
    c.is_alphabetic()
}

/// Calls `char::is_whitespace`. Claimed: the answer is `whitespace(c)`; the
/// Unicode table behind it is not stated.
#[verifier::external_body]
pub(crate) fn is_whitespace(c: char) -> (b: bool)
    ensures
        b == whitespace(c),
{
    c.is_whitespace()
}

/// Calls `str::to_lowercase`. Claimed: the result is `lowercase_of(s@)`, a
/// function of the text alone; the Unicode case mapping is not stated.
#[verifier::external_body]
pub(crate) fn to_lowercase(s: &str) -> (r: String)
    ensures
        r@ == lowercase_of(s@),
{
    s.to_lowercase()
}

/// Calls `str::to_uppercase`. Claimed: the result is `uppercase_of(s@)`, a
/// function of the text alone; the Unicode case mapping is not stated.
#[verifier::external_body]
pub(crate) fn to_uppercase(s: &str) -> (r: String)
    ensures
        r@ == uppercase_of(s@),
{
    s.to_uppercase()
}

/// Whether `c` is an ASCII decimal digit.
pub(crate) fn is_ascii_digit(c: char) -> (b: bool)
    ensures
        b == ascii_digit(c),
{
    '0' <= c && c <= '9'
}

} // verus!
