use vstd::prelude::*;

verus! {

/// What `char::is_alphabetic` returns: whether the character has the Unicode
/// `Alphabetic` property.
pub uninterp spec fn alphabetic(c: char) -> bool;

/// What `char::is_numeric` returns: whether the character's Unicode general
/// category is one of the number categories.
pub uninterp spec fn numeric(c: char) -> bool;

pub open spec fn ascii_letter(c: char) -> bool {
    (65 <= c as u32 && c as u32 <= 90) || (97 <= c as u32 && c as u32 <= 122)
}

pub open spec fn ascii_digit(c: char) -> bool {
    48 <= c as u32 && c as u32 <= 57
}

/// ASCII whitespace: space, tab, line feed, form feed and carriage return.
pub open spec fn space_char(c: char) -> bool {
    c == ' ' || c == '\t' || c == '\n' || c == '\x0C' || c == '\r'
}

/// Characters that may form an identifier: alphabetic ones and the underscore.
pub open spec fn letter_char(c: char) -> bool {
    if (c as u32) < 128 {
        ascii_letter(c) || c == '_'
    } else {
        alphabetic(c)
    }
}

/// Characters that may form an integer literal.
pub open spec fn digit_char(c: char) -> bool {
    if (c as u32) < 128 {
        ascii_digit(c)
    } else {
        numeric(c)
    }
}

pub open spec fn spaces() -> spec_fn(char) -> bool {
    |c: char| space_char(c)
}

pub open spec fn letters() -> spec_fn(char) -> bool {
    |c: char| letter_char(c)
}

pub open spec fn digits() -> spec_fn(char) -> bool {
    |c: char| digit_char(c)
}

/// Relies on `char::is_alphabetic`: the Unicode `Alphabetic` property, which
/// on ASCII holds of `A`-`Z` and `a`-`z` alone.
#[verifier::external_body]
pub(crate) fn char_is_alphabetic(c: char) -> (r: bool)
    ensures
        r == alphabetic(c),
        (c as u32) < 128 ==> (r == ascii_letter(c)),
{
    c.is_alphabetic()
}

/// Relies on `char::is_numeric`: the Unicode number categories, which on
/// ASCII hold of `0`-`9` alone.
#[verifier::external_body]
pub(crate) fn char_is_numeric(c: char) -> (r: bool)
    ensures
        r == numeric(c),
        (c as u32) < 128 ==> (r == ascii_digit(c)),
{
    c.is_numeric()
}

pub fn is_space(c: char) -> (r: bool)
    ensures
        r == space_char(c),
{
    c == ' ' || c == '\t' || c == '\n' || c == '\x0C' || c == '\r'
}

} // verus!
