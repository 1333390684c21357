//! The grammar of distinguished names, as functions on sequences of characters.
//!
//! Every production is a function of the whole input and of the position at
//! which reading starts. It gives an [`Outcome`]: the decoded value, where the
//! text at that position is well formed, and the position at which reading
//! stopped, whether it succeeded or not. The parser's contracts are stated
//! over these functions.

use vstd::prelude::*;
use crate::chars::{
    hex_pair_char, is_keychar, is_oidchar, is_separator, spec_is_alpha, spec_is_digit,
    spec_is_escape, spec_is_hexchar, spec_is_quotation, spec_is_special,
};

verus! {

/// What a production makes of the input from some position on.
pub struct Outcome<T> {
    /// The decoded value, or `None` where the text is malformed.
    pub value: Option<T>,
    /// The position of the first character that was not consumed.
    pub end: int,
}

/// An attribute: its type and its decoded value.
pub type Pair = (Seq<char>, Seq<char>);

/// The outcome `rest`, with `head` put in front of its value.
pub open spec fn prepend<A>(head: Seq<A>, rest: Outcome<Seq<A>>) -> Outcome<Seq<A>> {
    Outcome {
        value: match rest.value {
            Some(tail) => Some(head + tail),
            None => None,
        },
        end: rest.end,
    }
}

/// The end of the longest run of type characters that starts at `pos`.
pub open spec fn keychar_run_end(s: Seq<char>, pos: int) -> int
    decreases s.len() - pos,
{
    if 0 <= pos < s.len() && is_keychar(s[pos]) {
        keychar_run_end(s, pos + 1)
    } else {
        pos
    }
}

/// The end of the longest run of digits and dots that starts at `pos`.
pub open spec fn oid_run_end(s: Seq<char>, pos: int) -> int
    decreases s.len() - pos,
{
    if 0 <= pos < s.len() && is_oidchar(s[pos]) {
        oid_run_end(s, pos + 1)
    } else {
        pos
    }
}

/// A descriptor attribute type: the longest run of letters, digits and `-`.
pub open spec fn keychar_type(s: Seq<char>, pos: int) -> Outcome<Seq<char>> {
    let end = keychar_run_end(s, pos);
    Outcome { value: Some(s.subrange(pos, end)), end }
}

/// A numeric attribute type: the longest run of digits and `.`.
pub open spec fn oid_type(s: Seq<char>, pos: int) -> Outcome<Seq<char>> {
    let end = oid_run_end(s, pos);
    Outcome { value: Some(s.subrange(pos, end)), end }
}

/// An attribute type: a descriptor where the first character is a letter, a
/// numeric type where it is a digit, and malformed otherwise.
pub open spec fn attribute_type(s: Seq<char>, pos: int) -> Outcome<Seq<char>> {
    if 0 <= pos < s.len() && spec_is_alpha(s[pos]) {
        keychar_type(s, pos)
    } else if 0 <= pos < s.len() && spec_is_digit(s[pos]) {
        oid_type(s, pos)
    } else {
        Outcome { value: None, end: pos }
    }
}

/// Two hexadecimal digits, which stand for the character with that code. Both
/// characters are consumed before they are looked at; where fewer than two
/// are left, what is left is consumed.
pub open spec fn hex_pair(s: Seq<char>, pos: int) -> Outcome<Seq<char>> {
    if 0 <= pos && pos + 2 <= s.len() {
        Outcome {
            value: if spec_is_hexchar(s[pos]) && spec_is_hexchar(s[pos + 1]) {
                Some(seq![hex_pair_char(s[pos], s[pos + 1])])
            } else {
                None
            },
            end: pos + 2,
        }
    } else {
        Outcome { value: None, end: if pos < s.len() { s.len() as int } else { pos } }
    }
}

/// An escape sequence: `\` and then either a special character, a quotation
/// mark or another `\`, which stands for itself, or a pair of hexadecimal digits.
pub open spec fn escape_sequence(s: Seq<char>, pos: int) -> Outcome<Seq<char>> {
    if !(0 <= pos < s.len() && spec_is_escape(s[pos])) {
        Outcome { value: None, end: pos }
    } else if pos + 1 >= s.len() {
        Outcome { value: None, end: pos + 1 }
    } else {
        let c = s[pos + 1];
        if spec_is_special(c) || spec_is_quotation(c) || spec_is_escape(c) {
            Outcome { value: Some(seq![c]), end: pos + 2 }
        } else if spec_is_hexchar(c) {
            hex_pair(s, pos + 1)
        } else {
            Outcome { value: None, end: pos + 1 }
        }
    }
}

/// An unquoted value. It ends before the first unescaped special character or
/// at the end of the input; an unescaped quotation mark makes it malformed.
pub open spec fn simple_string(s: Seq<char>, pos: int) -> Outcome<Seq<char>>
    decreases s.len() - pos,
{
    if !(0 <= pos < s.len()) || spec_is_special(s[pos]) {
        Outcome { value: Some(Seq::empty()), end: pos }
    } else if spec_is_quotation(s[pos]) {
        Outcome { value: None, end: pos }
    } else if spec_is_escape(s[pos]) {
        let escape = escape_sequence(s, pos);
        match escape.value {
            Some(decoded) => prepend(decoded, simple_string(s, escape.end)),
            None => Outcome { value: None, end: escape.end },
        }
    } else {
        prepend(seq![s[pos]], simple_string(s, pos + 1))
    }
}

/// What stands between the quotation marks of a quoted value. It ends before
/// the first unescaped quotation mark, and is malformed where there is none.
pub open spec fn quoted_body(s: Seq<char>, pos: int) -> Outcome<Seq<char>>
    decreases s.len() - pos,
{
    if !(0 <= pos < s.len()) {
        Outcome { value: None, end: pos }
    } else if spec_is_quotation(s[pos]) {
        Outcome { value: Some(Seq::empty()), end: pos }
    } else if spec_is_escape(s[pos]) {
        let escape = escape_sequence(s, pos);
        match escape.value {
            Some(decoded) => prepend(decoded, quoted_body(s, escape.end)),
            None => Outcome { value: None, end: escape.end },
        }
    } else {
        prepend(seq![s[pos]], quoted_body(s, pos + 1))
    }
}

/// A quoted value: a quotation mark, the body, and the closing quotation mark.
pub open spec fn quoted_string(s: Seq<char>, pos: int) -> Outcome<Seq<char>> {
    if !(0 <= pos < s.len() && spec_is_quotation(s[pos])) {
        Outcome { value: None, end: pos }
    } else {
        let body = quoted_body(s, pos + 1);
        match body.value {
            Some(text) => Outcome { value: Some(text), end: body.end + 1 },
            None => Outcome { value: None, end: body.end },
        }
    }
}

/// The pairs of hexadecimal digits of a hex string. They must reach the end
/// of the input: any other character makes the string malformed.
pub open spec fn hex_body(s: Seq<char>, pos: int) -> Outcome<Seq<char>>
    decreases s.len() - pos,
{
    if !(0 <= pos < s.len()) {
        Outcome { value: Some(Seq::empty()), end: pos }
    } else if spec_is_hexchar(s[pos]) {
        let pair = hex_pair(s, pos);
        match pair.value {
            Some(decoded) => prepend(decoded, hex_body(s, pair.end)),
            None => Outcome { value: None, end: pair.end },
        }
    } else {
        Outcome { value: None, end: pos }
    }
}

/// A hex string: `#` and then pairs of hexadecimal digits up to the end of the input.
pub open spec fn hex_string(s: Seq<char>, pos: int) -> Outcome<Seq<char>> {
    if !(0 <= pos < s.len() && s[pos] == '#') {
        Outcome { value: None, end: pos }
    } else {
        hex_body(s, pos + 1)
    }
}

/// An attribute value: quoted where it starts with a quotation mark, a hex
/// string where it starts with `#`, and unquoted otherwise. At the end of the
/// input it is the empty unquoted value.
pub open spec fn string_value(s: Seq<char>, pos: int) -> Outcome<Seq<char>> {
    if 0 <= pos < s.len() && spec_is_quotation(s[pos]) {
        quoted_string(s, pos)
    } else if 0 <= pos < s.len() && s[pos] == '#' {
        hex_string(s, pos)
    } else {
        simple_string(s, pos)
    }
}

/// An attribute: a type, the character `=`, and a value.
pub open spec fn attribute(s: Seq<char>, pos: int) -> Outcome<Pair> {
    let name = attribute_type(s, pos);
    match name.value {
        None => Outcome { value: None, end: name.end },
        Some(key) => if !(0 <= name.end < s.len() && s[name.end] == '=') {
            Outcome { value: None, end: name.end }
        } else {
            let text = string_value(s, name.end + 1);
            match text.value {
                Some(value) => Outcome { value: Some((key, value)), end: text.end },
                None => Outcome { value: None, end: text.end },
            }
        },
    }
}

/// A list of attributes, each but the last followed by `,` or `+`. A
/// separator may also follow the last one. The list must reach the end of the input.
pub open spec fn attribute_list(s: Seq<char>, pos: int) -> Outcome<Seq<Pair>>
    decreases s.len() - pos,
    via attribute_list_decreases
{
    if !(0 <= pos < s.len()) {
        Outcome { value: Some(Seq::empty()), end: pos }
    } else {
        let first = attribute(s, pos);
        match first.value {
            None => Outcome { value: None, end: first.end },
            Some(pair) => if first.end >= s.len() {
                Outcome { value: Some(seq![pair]), end: first.end }
            } else if is_separator(s[first.end]) {
                prepend(seq![pair], attribute_list(s, first.end + 1))
            } else {
                Outcome { value: None, end: first.end }
            },
        }
    }
}

#[via_fn]
proof fn attribute_list_decreases(s: Seq<char>, pos: int) {
    if 0 <= pos < s.len() {
        lemma_attribute_advances(s, pos);
    }
}

/// The map that a list of attributes stands for: each type with the value of
/// its last occurrence.
pub open spec fn attribute_map(pairs: Seq<Pair>) -> Map<Seq<char>, Seq<char>>
    decreases pairs.len(),
{
    if pairs.len() == 0 {
        Map::empty()
    } else {
        attribute_map(pairs.drop_last()).insert(pairs.last().0, pairs.last().1)
    }
}

/// The attributes of a distinguished name, or `None` where the text is no
/// distinguished name.
pub open spec fn distinguished_name(s: Seq<char>) -> Option<Map<Seq<char>, Seq<char>>> {
    match attribute_list(s, 0).value {
        Some(pairs) => Some(attribute_map(pairs)),
        None => None,
    }
}

/// Putting nothing in front of an outcome leaves it as it is.
pub proof fn lemma_prepend_nothing<A>(rest: Outcome<Seq<A>>)
    ensures
        prepend(Seq::empty(), rest) == rest,
{
    if let Some(tail) = rest.value {
        assert(Seq::<A>::empty() + tail =~= tail);
    }
}

/// Putting `second` and then `first` in front of an outcome puts `first + second` in front of it.
pub proof fn lemma_prepend_twice<A>(first: Seq<A>, second: Seq<A>, rest: Outcome<Seq<A>>)
    ensures
        prepend(first, prepend(second, rest)) == prepend(first + second, rest),
{
    if let Some(tail) = rest.value {
        assert(first + (second + tail) =~= (first + second) + tail);
    }
}

/// A run of type characters does not end before it starts, nor after the input.
pub proof fn lemma_keychar_run_bounds(s: Seq<char>, pos: int)
    requires
        0 <= pos <= s.len(),
    ensures
        pos <= keychar_run_end(s, pos) <= s.len(),
        forall|i: int| pos <= i < keychar_run_end(s, pos) ==> is_keychar(#[trigger] s[i]),
        keychar_run_end(s, pos) < s.len() ==> !is_keychar(s[keychar_run_end(s, pos)]),
    decreases s.len() - pos,
{
    if pos < s.len() && is_keychar(s[pos]) {
        lemma_keychar_run_bounds(s, pos + 1);
    }
}

/// A run of digits and dots does not end before it starts, nor after the input.
pub proof fn lemma_oid_run_bounds(s: Seq<char>, pos: int)
    requires
        0 <= pos <= s.len(),
    ensures
        pos <= oid_run_end(s, pos) <= s.len(),
        forall|i: int| pos <= i < oid_run_end(s, pos) ==> is_oidchar(#[trigger] s[i]),
        oid_run_end(s, pos) < s.len() ==> !is_oidchar(s[oid_run_end(s, pos)]),
    decreases s.len() - pos,
{
    if pos < s.len() && is_oidchar(s[pos]) {
        lemma_oid_run_bounds(s, pos + 1);
    }
}

/// An unquoted value stops between its start and the end of the input.
pub proof fn lemma_simple_string_bounds(s: Seq<char>, pos: int)
    requires
        0 <= pos <= s.len(),
    ensures
        pos <= simple_string(s, pos).end <= s.len(),
    decreases s.len() - pos,
{
    if pos < s.len() && !spec_is_special(s[pos]) && !spec_is_quotation(s[pos]) {
        if spec_is_escape(s[pos]) {
            let escape = escape_sequence(s, pos);
            if escape.value is Some {
                lemma_simple_string_bounds(s, escape.end);
            }
        } else {
            lemma_simple_string_bounds(s, pos + 1);
        }
    }
}

/// The body of a quoted value stops between its start and the end of the
/// input, and where it is well formed it stops at a quotation mark.
pub proof fn lemma_quoted_body_bounds(s: Seq<char>, pos: int)
    requires
        0 <= pos <= s.len(),
    ensures
        pos <= quoted_body(s, pos).end <= s.len(),
        quoted_body(s, pos).value is Some ==> quoted_body(s, pos).end < s.len()
            && spec_is_quotation(s[quoted_body(s, pos).end]),
    decreases s.len() - pos,
{
    if pos < s.len() && !spec_is_quotation(s[pos]) {
        if spec_is_escape(s[pos]) {
            let escape = escape_sequence(s, pos);
            if escape.value is Some {
                lemma_quoted_body_bounds(s, escape.end);
            }
        } else {
            lemma_quoted_body_bounds(s, pos + 1);
        }
    }
}

/// The pairs of a hex string stop between their start and the end of the
/// input, and where they are well formed they stop at the end of the input.
pub proof fn lemma_hex_body_bounds(s: Seq<char>, pos: int)
    requires
        0 <= pos <= s.len(),
    ensures
        pos <= hex_body(s, pos).end <= s.len(),
        hex_body(s, pos).value is Some ==> hex_body(s, pos).end == s.len(),
    decreases s.len() - pos,
{
    if pos < s.len() && spec_is_hexchar(s[pos]) {
        let pair = hex_pair(s, pos);
        if pair.value is Some {
            lemma_hex_body_bounds(s, pair.end);
        }
    }
}

/// An attribute value stops between its start and the end of the input.
pub proof fn lemma_string_value_bounds(s: Seq<char>, pos: int)
    requires
        0 <= pos <= s.len(),
    ensures
        pos <= string_value(s, pos).end <= s.len(),
{
    lemma_simple_string_bounds(s, pos);
    if pos < s.len() {
        lemma_quoted_body_bounds(s, pos + 1);
        lemma_hex_body_bounds(s, pos + 1);
    }
}

/// An attribute stops between its start and the end of the input, and a well
/// formed one is not empty.
pub proof fn lemma_attribute_advances(s: Seq<char>, pos: int)
    requires
        0 <= pos <= s.len(),
    ensures
        pos <= attribute(s, pos).end <= s.len(),
        attribute(s, pos).value is Some ==> pos + 2 <= attribute(s, pos).end,
{
    lemma_keychar_run_bounds(s, pos);
    lemma_oid_run_bounds(s, pos);
    let name = attribute_type(s, pos);
    if name.value is Some && name.end < s.len() && s[name.end] == '=' {
        lemma_string_value_bounds(s, name.end + 1);
    }
}

/// A list of attributes stops between its start and the end of the input,
/// and a well formed one reaches the end of the input.
pub proof fn lemma_attribute_list_bounds(s: Seq<char>, pos: int)
    requires
        0 <= pos <= s.len(),
    ensures
        pos <= attribute_list(s, pos).end <= s.len(),
        attribute_list(s, pos).value is Some ==> attribute_list(s, pos).end == s.len(),
    decreases s.len() - pos,
{
    if pos < s.len() {
        lemma_attribute_advances(s, pos);
        let first = attribute(s, pos);
        if first.value is Some && first.end < s.len() && is_separator(s[first.end]) {
            lemma_attribute_list_bounds(s, first.end + 1);
        }
    }
}

} // verus!
