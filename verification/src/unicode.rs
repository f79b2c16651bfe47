//! What the standard library knows of characters and of quoting: case, the
//! Alphabetic and numeric properties, and `{:?}`.

use vstd::prelude::*;
use vstd::utf8::is_ascii_chars;

use crate::text;

verus! {

/// The text in lower case.
pub uninterp spec fn lowered(s: Seq<char>) -> Seq<char>;

/// The text in upper case.
pub uninterp spec fn uppered(s: Seq<char>) -> Seq<char>;

/// Whether a character beyond ASCII has the Unicode property Alphabetic.
pub uninterp spec fn alphabetic_beyond(c: char) -> bool;

/// Whether a character beyond ASCII is in one of the numeric general categories of Unicode.
pub uninterp spec fn numeric_beyond(c: char) -> bool;

/// Whether a character has the Unicode property Alphabetic.
pub open spec fn alphabetic(c: char) -> bool {
    if c as u32 <= 127 {
        'a' <= c <= 'z' || 'A' <= c <= 'Z'
    } else {
        alphabetic_beyond(c)
    }
}

/// Whether a character is in one of the numeric general categories of Unicode.
pub open spec fn numeric(c: char) -> bool {
    if c as u32 <= 127 {
        '0' <= c <= '9'
    } else {
        numeric_beyond(c)
    }
}

/// The text between double quotes, escaped as `{:?}` escapes it.
pub uninterp spec fn quoted(s: Seq<char>) -> Seq<char>;

/// `str::to_lowercase`: the text in lower case. ASCII text has its letters `A` to `Z`
/// turned into `a` to `z`.
#[verifier::external_body]
pub(crate) fn to_lower(s: &str) -> (r: String)
    ensures
        r@ == lowered(s@),
        is_ascii_chars(s@) ==> r@ == text::ascii_lowered(s@),
{
    s.to_lowercase()
}

/// `str::to_uppercase`: the text in upper case. ASCII text has its letters `a` to `z`
/// turned into `A` to `Z`.
#[verifier::external_body]
pub(crate) fn to_upper(s: &str) -> (r: String)
    ensures
        r@ == uppered(s@),
        is_ascii_chars(s@) ==> r@ == text::ascii_uppered(s@),
{
    s.to_uppercase()
}

/// `char::is_alphabetic`: the property Alphabetic, which among the ASCII characters the
/// letters have.
#[verifier::external_body]
pub(crate) fn is_alphabetic(c: char) -> (r: bool)
    ensures
        c as u32 <= 127 ==> r == ('a' <= c <= 'z' || 'A' <= c <= 'Z'),
        c as u32 > 127 ==> r == alphabetic_beyond(c),
{
    c.is_alphabetic()
}

/// `char::is_numeric`: the numeric general categories, in which among the ASCII
/// characters the digits are.
#[verifier::external_body]
pub(crate) fn is_numeric(c: char) -> (r: bool)
    ensures
        c as u32 <= 127 ==> r == ('0' <= c <= '9'),
        c as u32 > 127 ==> r == numeric_beyond(c),
{
    c.is_numeric()
}

/// `format!` with `{:?}` on a string: the text quoted and escaped.
#[verifier::external_body]
pub(crate) fn quote(s: &str) -> (r: String)
    ensures
        r@ == quoted(s@),
{
    format!("{:?}", s)
}

/// Alphabetic or numeric.
pub open spec fn alphanumeric(c: char) -> bool {
    alphabetic(c) || numeric(c)
}

pub fn is_alphanumeric(c: char) -> (r: bool)
    ensures
        r == alphanumeric(c),
{
    is_alphabetic(c) || is_numeric(c)
}

} // verus!
