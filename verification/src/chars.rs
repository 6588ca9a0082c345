//! Character classes of the source alphabet.
//!
//! The lexer reads its input byte by byte and takes each byte for the character
//! with the same code, so every class below is a set of ASCII characters.

use vstd::prelude::*;

verus! {

/// `0`–`9`.
pub open spec fn is_digit_spec(c: char) -> bool {
    '0' <= c <= '9'
}

/// `a`–`z`, `A`–`Z` and `_`: what an identifier may start with.
pub open spec fn is_alpha_spec(c: char) -> bool {
    'a' <= c <= 'z' || 'A' <= c <= 'Z' || c == '_'
}

/// What an identifier may continue with: a letter, `_` or a digit.
pub open spec fn is_alphanumeric_spec(c: char) -> bool {
    is_alpha_spec(c) || is_digit_spec(c)
}

/// Space, carriage return and tab: skipped without a trace.
pub open spec fn is_blank_spec(c: char) -> bool {
    c == ' ' || c == '\r' || c == '\t'
}

#[verifier::when_used_as_spec(is_digit_spec)]
pub fn is_digit(c: char) -> (r: bool)
    ensures
        r == is_digit_spec(c),
{
    c >= '0' && c <= '9'
}

#[verifier::when_used_as_spec(is_alpha_spec)]
pub fn is_alpha(c: char) -> (r: bool)
    ensures
        r == is_alpha_spec(c),
{
    (c >= 'a' && c <= 'z') || (c >= 'A' && c <= 'Z') || c == '_'
}

#[verifier::when_used_as_spec(is_alphanumeric_spec)]
pub fn is_alphanumeric(c: char) -> (r: bool)
    ensures
        r == is_alphanumeric_spec(c),
{
    is_alpha(c) || is_digit(c)
}

#[verifier::when_used_as_spec(is_blank_spec)]
pub fn is_blank(c: char) -> (r: bool)
    ensures
        r == is_blank_spec(c),
{
    c == ' ' || c == '\r' || c == '\t'
}

} // verus!
