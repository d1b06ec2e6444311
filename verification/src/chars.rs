//! Character classes of the lexical grammar.
//!
//! Digits are decided here, by code point. Whether a character is a letter or
//! white space is a Unicode property that the standard library decides; those
//! answers are named, and only their ASCII part is spelled out.

use vstd::prelude::*;

verus! {

/// Whether `c` has the Unicode `White_Space` property.
pub uninterp spec fn unicode_whitespace(c: char) -> bool;

/// Whether `c` has the Unicode `Alphabetic` property.
pub uninterp spec fn unicode_alphabetic(c: char) -> bool;

/// Whether `c` is alphabetic or belongs to one of the Unicode number categories.
pub uninterp spec fn unicode_alphanumeric(c: char) -> bool;

pub open spec fn is_ascii(c: char) -> bool {
    (c as u32) < 128
}

/// The ASCII characters with the `White_Space` property: tab, line feed,
/// vertical tab, form feed, carriage return and space.
pub open spec fn is_ascii_whitespace(c: char) -> bool {
    (9 <= c as u32 <= 13) || c == ' '
}

pub open spec fn is_ascii_letter(c: char) -> bool {
    ('a' <= c <= 'z') || ('A' <= c <= 'Z')
}

pub open spec fn is_decimal_digit(c: char) -> bool {
    '0' <= c <= '9'
}

pub open spec fn is_binary_digit(c: char) -> bool {
    c == '0' || c == '1'
}

pub open spec fn is_hex_digit(c: char) -> bool {
    is_decimal_digit(c) || ('a' <= c <= 'f') || ('A' <= c <= 'F')
}

/// The value of a digit in any base up to sixteen; letters count from ten,
/// in either case.
pub open spec fn digit_value(c: char) -> nat
    recommends
        is_hex_digit(c),
{
    if is_decimal_digit(c) {
        (c as u32 - '0' as u32) as nat
    } else if 'a' <= c <= 'f' {
        (c as u32 - 'a' as u32 + 10) as nat
    } else {
        (c as u32 - 'A' as u32 + 10) as nat
    }
}

/// White space: among ASCII characters the six of [`is_ascii_whitespace`],
/// beyond ASCII whatever Unicode says.
pub open spec fn is_whitespace(c: char) -> bool {
    if is_ascii(c) {
        is_ascii_whitespace(c)
    } else {
        unicode_whitespace(c)
    }
}

/// Letters: among ASCII characters `a` to `z` and `A` to `Z`, beyond ASCII
/// whatever Unicode says.
pub open spec fn is_alphabetic(c: char) -> bool {
    if is_ascii(c) {
        is_ascii_letter(c)
    } else {
        unicode_alphabetic(c)
    }
}

/// Letters and digits: among ASCII characters the letters and `0` to `9`,
/// beyond ASCII whatever Unicode says.
pub open spec fn is_alphanumeric(c: char) -> bool {
    if is_ascii(c) {
        is_ascii_letter(c) || is_decimal_digit(c)
    } else {
        unicode_alphanumeric(c)
    }
}

/// A character that may stand in an identifier or a directive name.
pub open spec fn is_word_char(c: char) -> bool {
    is_alphabetic(c) || c == '_'
}

/// `char::is_whitespace`: the answer is the `White_Space` property of `c`,
/// which among ASCII characters holds of exactly the six listed in
/// [`is_ascii_whitespace`].
#[verifier::external_body]
fn char_is_whitespace(c: char) -> (b: bool)
    ensures
        b == unicode_whitespace(c),
        is_ascii(c) ==> b == is_ascii_whitespace(c),
{
    c.is_whitespace()
}

/// `char::is_alphabetic`: the answer is the `Alphabetic` property of `c`,
/// which among ASCII characters holds of exactly the fifty-two letters.
#[verifier::external_body]
fn char_is_alphabetic(c: char) -> (b: bool)
    ensures
        b == unicode_alphabetic(c),
        is_ascii(c) ==> b == is_ascii_letter(c),
{
    c.is_alphabetic()
}

/// `char::is_alphanumeric`: true of the alphabetic characters and of those in
/// the Unicode number categories; among ASCII characters these are exactly
/// the letters and the ten decimal digits.
#[verifier::external_body]
fn char_is_alphanumeric(c: char) -> (b: bool)
    ensures
        b == unicode_alphanumeric(c),
        is_ascii(c) ==> b == (is_ascii_letter(c) || is_decimal_digit(c)),
{
    c.is_alphanumeric()
}

pub fn whitespace(c: char) -> (b: bool)
    ensures
        b == is_whitespace(c),
{
    char_is_whitespace(c)
}

pub fn alphabetic(c: char) -> (b: bool)
    ensures
        b == is_alphabetic(c),
{
    char_is_alphabetic(c)
}

pub fn alphanumeric(c: char) -> (b: bool)
    ensures
        b == is_alphanumeric(c),
{
    char_is_alphanumeric(c)
}

pub fn decimal_digit(c: char) -> (b: bool)
    ensures
        b == is_decimal_digit(c),
{
    '0' <= c && c <= '9'
}

pub fn binary_digit(c: char) -> (b: bool)
    ensures
        b == is_binary_digit(c),
{
    c == '0' || c == '1'
}

pub fn hex_digit(c: char) -> (b: bool)
    ensures
        b == is_hex_digit(c),
{
    ('0' <= c && c <= '9') || ('a' <= c && c <= 'f') || ('A' <= c && c <= 'F')
}

/// The value of a hexadecimal digit, which covers the decimal and binary ones.
pub fn value_of_digit(c: char) -> (v: u8)
    requires
        is_hex_digit(c),
    ensures
        v == digit_value(c),
        v < 16,
        is_decimal_digit(c) ==> v < 10,
        is_binary_digit(c) ==> v < 2,
{
    let code: u32 = c as u32;
    if '0' <= c && c <= '9' {
        (code - 48) as u8
    } else if 'a' <= c && c <= 'f' {
        (code - 97 + 10) as u8
    } else {
        (code - 65 + 10) as u8
    }
}

/// A word character: a letter or an underscore.
pub fn word_char(c: char) -> (b: bool)
    ensures
        b == is_word_char(c),
{
    c == '_' || alphabetic(c)
}

} // verus!
