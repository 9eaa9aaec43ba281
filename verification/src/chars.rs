//! Character classification.
//!
//! The tokenizer classifies arbitrary Unicode text, so it relies on the
//! standard library's Unicode tables through a few trusted wrappers.  The
//! White_Space property is small enough to state in full; the letter and
//! number tables are named by uninterpreted spec functions beyond ASCII.

use vstd::prelude::*;

verus! {

/// What `char::is_alphabetic` returns on characters above ASCII that are not
/// White_Space; only the trusted wrapper below gives it meaning.
pub uninterp spec fn alphabetic_beyond_ascii(c: char) -> bool;

/// What `char::is_numeric` returns on characters above ASCII that are not
/// White_Space; only the trusted wrapper below gives it meaning.
pub uninterp spec fn numeric_beyond_ascii(c: char) -> bool;

/// The Unicode White_Space property, written out in full: the ASCII
/// whitespace characters and the nineteen separator and control characters
/// above ASCII that carry the property.
pub open spec fn whitespace(c: char) -> bool {
    let u = c as u32;
    (0x09 <= u && u <= 0x0D) || u == 0x20 || u == 0x85 || u == 0xA0 || u == 0x1680 || (0x2000
        <= u && u <= 0x200A) || u == 0x2028 || u == 0x2029 || u == 0x202F || u == 0x205F || u
        == 0x3000
}

/// Unicode letters: exactly `a`-`z` and `A`-`Z` within ASCII, never a
/// White_Space character, and otherwise given by the letter tables.
pub open spec fn alphabetic(c: char) -> bool {
    let u = c as u32;
    if u < 0x80 {
        (0x61 <= u && u <= 0x7A) || (0x41 <= u && u <= 0x5A)
    } else if whitespace(c) {
        false
    } else {
        alphabetic_beyond_ascii(c)
    }
}

/// Unicode numbers: exactly `0`-`9` within ASCII, never a White_Space
/// character, and otherwise given by the number tables.
pub open spec fn numeric(c: char) -> bool {
    let u = c as u32;
    if u < 0x80 {
        0x30 <= u && u <= 0x39
    } else if whitespace(c) {
        false
    } else {
        numeric_beyond_ascii(c)
    }
}

pub open spec fn alphanumeric(c: char) -> bool {
    alphabetic(c) || numeric(c)
}

/// The ten ASCII digits.
pub open spec fn ascii_digit(c: char) -> bool {
    0x30 <= c as u32 && c as u32 <= 0x39
}

/// Relies on `char::is_whitespace`: true exactly on the Unicode White_Space
/// characters, a fixed list of twenty-five code points.
#[verifier::external_body]
pub(crate) fn char_is_whitespace(c: char) -> (r: bool)
    ensures
        r == whitespace(c),
{
    c.is_whitespace()
}

/// Relies on `char::is_alphabetic`: within ASCII it accepts exactly the
/// letters `a`-`z` and `A`-`Z`, and no character with the White_Space
/// property (all separators and controls) is a letter.
#[verifier::external_body]
pub(crate) fn char_is_alphabetic(c: char) -> (r: bool)
    ensures
        r == alphabetic(c),
        c as u32 >= 0x80 && !whitespace(c) ==> r == alphabetic_beyond_ascii(c),
{
    c.is_alphabetic()
}

/// Relies on `char::is_numeric`: within ASCII it accepts exactly the digits
/// `0`-`9`, and no character with the White_Space property is a number.
#[verifier::external_body]
pub(crate) fn char_is_numeric(c: char) -> (r: bool)
    ensures
        r == numeric(c),
        c as u32 >= 0x80 && !whitespace(c) ==> r == numeric_beyond_ascii(c),
{
    c.is_numeric()
}

/// Relies on `char::is_alphanumeric`, documented as the disjunction of
/// `char::is_alphabetic` and `char::is_numeric`.
#[verifier::external_body]
pub(crate) fn char_is_alphanumeric(c: char) -> (r: bool)
    ensures
        r == alphanumeric(c),
{
    c.is_alphanumeric()
}

} // verus!
