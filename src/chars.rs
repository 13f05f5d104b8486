use vstd::prelude::*;

verus! {

/// What `char::is_alphabetic` answers: Unicode's Alphabetic property.
pub uninterp spec fn unicode_alphabetic(c: char) -> bool;

/// What `char::is_whitespace` answers: Unicode's White_Space property.
pub uninterp spec fn unicode_white_space(c: char) -> bool;

/// Relies on `char::is_alphabetic`: the answer depends on the character alone.
#[verifier::external_body]
fn std_is_alphabetic(c: char) -> (r: bool)
    ensures
        r == unicode_alphabetic(c),
{
    c.is_alphabetic()
}

/// Relies on `char::is_whitespace`: the answer depends on the character alone.
#[verifier::external_body]
fn std_is_whitespace(c: char) -> (r: bool)
    ensures
        r == unicode_white_space(c),
{
    c.is_whitespace()
}

pub open spec fn is_ascii_char(c: char) -> bool {
    (c as u32) < 128
}

/// Alphabetic characters: the ASCII letters, and beyond ASCII those Unicode calls alphabetic.
pub open spec fn alphabetic(c: char) -> bool {
    if is_ascii_char(c) {
        ('a' <= c && c <= 'z') || ('A' <= c && c <= 'Z')
    } else {
        unicode_alphabetic(c)
    }
}

/// Characters that may start or continue an identifier: alphabetic ones, `_`, `?` and `!`.
pub open spec fn letter(c: char) -> bool {
    alphabetic(c) || c == '_' || c == '?' || c == '!'
}

/// The decimal digits `0` to `9`.
pub open spec fn digit(c: char) -> bool {
    '0' <= c && c <= '9'
}

/// Whitespace: in ASCII space, tab, line feed, vertical tab, form feed and carriage return;
/// beyond ASCII what Unicode marks as White_Space.
pub open spec fn whitespace(c: char) -> bool {
    if is_ascii_char(c) {
        c == ' ' || c == '\t' || c == '\n' || c == '\x0B' || c == '\x0C' || c == '\r'
    } else {
        unicode_white_space(c)
    }
}

pub fn is_letter(ch: char) -> (r: bool)
    ensures
        r == letter(ch),
{
    let alpha = if (ch as u32) < 128 {
        ('a' <= ch && ch <= 'z') || ('A' <= ch && ch <= 'Z')
    } else {
        std_is_alphabetic(ch)
    };
    alpha || ch == '_' || ch == '?' || ch == '!'
}

pub fn is_digit(ch: char) -> (r: bool)
    ensures
        r == digit(ch),
{
    '0' <= ch && ch <= '9'
}

pub fn is_whitespace(ch: char) -> (r: bool)
    ensures
        r == whitespace(ch),
{
    if (ch as u32) < 128 {
        ch == ' ' || ch == '\t' || ch == '\n' || ch == '\x0B' || ch == '\x0C' || ch == '\r'
    } else {
        std_is_whitespace(ch)
    }
}

} // verus!
