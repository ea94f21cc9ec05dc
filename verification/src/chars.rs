//! Character classes and case conversion.
use vstd::prelude::*;

verus! {

pub open spec fn is_ascii_upper(c: char) -> bool {
    'A' <= c <= 'Z'
}

pub open spec fn is_ascii_lower(c: char) -> bool {
    'a' <= c <= 'z'
}

pub open spec fn is_ascii_digit(c: char) -> bool {
    '0' <= c <= '9'
}

pub open spec fn is_ascii_alnum(c: char) -> bool {
    is_ascii_upper(c) || is_ascii_lower(c) || is_ascii_digit(c)
}

/// Word characters of a regular expression: `[a-zA-Z0-9_]`.
pub open spec fn is_word_char(c: char) -> bool {
    is_ascii_alnum(c) || c == '_'
}

pub open spec fn spec_to_upper(c: char) -> char {
    if is_ascii_lower(c) {
        ((c as u32) - 32) as char
    } else {
        c
    }
}

pub open spec fn spec_to_lower(c: char) -> char {
    if is_ascii_upper(c) {
        ((c as u32) + 32) as char
    } else {
        c
    }
}

/// What `Debug` of a string writes: the string quoted, with its special
/// characters escaped (`"a\"b"` for `a"b`).
pub uninterp spec fn str_debug_text(s: Seq<char>) -> Seq<char>;

/// `<str as Debug>::fmt` with no other option (`format!("{:?}", s)`). The
/// contract names the result; the escapes that std chooses are not stated.
#[verifier::external_body]
pub(crate) fn debug_str(s: &str) -> (r: String)
    ensures
        r@ == str_debug_text(s@),
{
    format!("{:?}", s)
}

/// What `Debug` of a character writes: the character in single quotes,
/// escaped where it is special.
pub uninterp spec fn char_debug_text(c: char) -> Seq<char>;

/// `<char as Debug>::fmt` with no other option (`format!("{:?}", c)`). The
/// contract names the result; the escapes that std chooses are not stated.
#[verifier::external_body]
pub(crate) fn debug_char(c: char) -> (r: String)
    ensures
        r@ == char_debug_text(c),
{
    format!("{:?}", c)
}

/// Whether `char::is_alphanumeric` holds of a character (Unicode classes).
pub uninterp spec fn unicode_alphanumeric(c: char) -> bool;

/// `char::is_alphanumeric`: `[A-Za-z0-9]` among the ASCII characters, the
/// Unicode classes (left to the name) outside them.
pub open spec fn char_alphanumeric(c: char) -> bool {
    if (c as u32) < 128 {
        is_ascii_alnum(c)
    } else {
        unicode_alphanumeric(c)
    }
}

/// `char::is_alphanumeric`: true of the characters of the Unicode classes
/// Alphabetic and Numeric. Of an ASCII character it is true exactly of
/// `[A-Za-z0-9]`; outside ASCII the result is left to the name.
#[verifier::external_body]
pub(crate) fn is_alphanumeric(c: char) -> (r: bool)
    ensures
        r == unicode_alphanumeric(c),
        (c as u32) < 128 ==> (r == is_ascii_alnum(c)),
{
    c.is_alphanumeric()
}

pub fn to_ascii_upper(c: char) -> (r: char)
    ensures
        r == spec_to_upper(c),
{
    if 'a' <= c && c <= 'z' {
        let v = (c as u32) - 32;
        assert(0x41 <= v <= 0x5a);
        char_from_ascii(v)
    } else {
        c
    }
}

pub fn to_ascii_lower(c: char) -> (r: char)
    ensures
        r == spec_to_lower(c),
{
    if 'A' <= c && c <= 'Z' {
        let v = (c as u32) + 32;
        assert(0x61 <= v <= 0x7a);
        char_from_ascii(v)
    } else {
        c
    }
}

/// The character with an ASCII code.
pub(crate) fn char_from_ascii(v: u32) -> (r: char)
    requires
        v < 128,
    ensures
        r == v as char,
        r as u32 == v,
{
    let b = v as u8;
    b as char
}

} // verus!
