//! Character classes of the distinguished-name grammar.
//!
//! Each class is a spec predicate on `char`; the executable function of the
//! same name computes it and can be used in its place inside specifications.

use vstd::prelude::*;

verus! {

/// The letters `A` to `Z` and `a` to `z`.
pub open spec fn spec_is_alpha(chr: char) -> bool {
    ('A' <= chr && chr <= 'Z') || ('a' <= chr && chr <= 'z')
}

/// The digits `0` to `9`.
pub open spec fn spec_is_digit(chr: char) -> bool {
    '0' <= chr && chr <= '9'
}

/// The characters that end an unquoted value: `, = + < > # ;`.
pub open spec fn spec_is_special(chr: char) -> bool {
    chr == ',' || chr == '=' || chr == '+' || chr == '<' || chr == '>' || chr == '#' || chr == ';'
}

/// The quotation mark `"`.
pub open spec fn spec_is_quotation(chr: char) -> bool {
    chr == '"'
}

/// The escape character `\`.
pub open spec fn spec_is_escape(chr: char) -> bool {
    chr == '\\'
}

/// The hexadecimal digits, in either case.
pub open spec fn spec_is_hexchar(chr: char) -> bool {
    ('0' <= chr && chr <= '9') || ('A' <= chr && chr <= 'F') || ('a' <= chr && chr <= 'f')
}

/// The characters of a descriptor attribute type: letters, digits and `-`.
pub open spec fn is_keychar(chr: char) -> bool {
    spec_is_alpha(chr) || spec_is_digit(chr) || chr == '-'
}

/// The characters of a numeric attribute type: digits and `.`.
pub open spec fn is_oidchar(chr: char) -> bool {
    spec_is_digit(chr) || chr == '.'
}

/// The two characters that may stand between attributes: `,` and `+`.
pub open spec fn is_separator(chr: char) -> bool {
    chr == ',' || chr == '+'
}

/// The characters that stand for themselves in an unquoted value: everything
/// but the special characters, the quotation mark and the escape character.
pub open spec fn is_plain(chr: char) -> bool {
    !spec_is_special(chr) && !spec_is_quotation(chr) && !spec_is_escape(chr)
}

/// The number that a hexadecimal digit stands for, `0` to `15`
/// (and `0` for every other character).
pub open spec fn hex_digit_value(chr: char) -> int {
    if '0' <= chr && chr <= '9' {
        chr as int - 0x30
    } else if 'A' <= chr && chr <= 'F' {
        chr as int - 0x41 + 10
    } else if 'a' <= chr && chr <= 'f' {
        chr as int - 0x61 + 10
    } else {
        0
    }
}

/// The character whose code is written by the two hexadecimal digits `high` and `low`.
pub open spec fn hex_pair_char(high: char, low: char) -> char {
    (16 * hex_digit_value(high) + hex_digit_value(low)) as char
}

/// Whether `chr` is a letter.
#[verifier::when_used_as_spec(spec_is_alpha)]
pub fn is_alpha(chr: char) -> (b: bool)
    ensures
        b == spec_is_alpha(chr),
{
    (chr >= 'A' && chr <= 'Z') || (chr >= 'a' && chr <= 'z')
}

/// Whether `chr` is a decimal digit.
#[verifier::when_used_as_spec(spec_is_digit)]
pub fn is_digit(chr: char) -> (b: bool)
    ensures
        b == spec_is_digit(chr),
{
    chr >= '0' && chr <= '9'
}

/// Whether `chr` is one of the special characters `, = + < > # ;`.
#[verifier::when_used_as_spec(spec_is_special)]
pub fn is_special(chr: char) -> (b: bool)
    ensures
        b == spec_is_special(chr),
{
    chr == ',' || chr == '=' || chr == '+' || chr == '<' || chr == '>' || chr == '#' || chr == ';'
}

/// Whether `chr` is the quotation mark.
#[verifier::when_used_as_spec(spec_is_quotation)]
pub fn is_quotation(chr: char) -> (b: bool)
    ensures
        b == spec_is_quotation(chr),
{
    chr == '"'
}

/// Whether `chr` is the escape character.
#[verifier::when_used_as_spec(spec_is_escape)]
pub fn is_escape(chr: char) -> (b: bool)
    ensures
        b == spec_is_escape(chr),
{
    chr == '\\'
}

/// Whether `chr` is a hexadecimal digit.
#[verifier::when_used_as_spec(spec_is_hexchar)]
pub fn is_hexchar(chr: char) -> (b: bool)
    ensures
        b == spec_is_hexchar(chr),
{
    (chr >= '0' && chr <= '9') || (chr >= 'A' && chr <= 'F') || (chr >= 'a' && chr <= 'f')
}

/// The value of the hexadecimal digit `chr`.
fn hex_value(chr: char) -> (v: u8)
    requires
        spec_is_hexchar(chr),
    ensures
        v == hex_digit_value(chr),
        v < 16,
{
    let code: u32 = chr as u32;
    if chr <= '9' {
        (code - 0x30) as u8
    } else if chr <= 'F' {
        (code - 0x41 + 10) as u8
    } else {
        (code - 0x61 + 10) as u8
    }
}

/// The character written by two hexadecimal digits, or `None` if one of the
/// two characters is no hexadecimal digit.
pub fn decode_hex_pair(high: char, low: char) -> (r: Option<char>)
    ensures
        r == (if spec_is_hexchar(high) && spec_is_hexchar(low) {
            Some(hex_pair_char(high, low))
        } else {
            None::<char>
        }),
{
    if is_hexchar(high) && is_hexchar(low) {
        let code: u8 = hex_value(high) * 16 + hex_value(low);
        Some(code as char)
    } else {
        None
    }
}

} // verus!
