//! What holds of every text, proved from the definition of the grammar.

use vstd::prelude::*;
use crate::chars::{
    is_keychar, is_oidchar, is_plain, is_separator, spec_is_alpha, spec_is_digit, spec_is_escape,
    spec_is_hexchar, spec_is_quotation, spec_is_special,
};
use crate::error::ParseError;
use crate::grammar::{
    attribute, attribute_list, attribute_map, attribute_type, distinguished_name,
    escape_sequence, hex_body, hex_pair, keychar_run_end, lemma_attribute_advances,
    lemma_attribute_list_bounds, lemma_hex_body_bounds, lemma_keychar_run_bounds,
    lemma_oid_run_bounds, lemma_quoted_body_bounds, lemma_simple_string_bounds,
    lemma_string_value_bounds, oid_run_end, quoted_body, quoted_string, simple_string,
    string_value, Outcome, Pair,
};
use crate::name::{parse_outcome, parsed_name, DistinguishedName};

verus! {

/// A descriptor: a letter, and then letters, digits and `-`.
pub open spec fn is_descriptor(name: Seq<char>) -> bool {
    &&& name.len() > 0
    &&& spec_is_alpha(name[0])
    &&& forall|i: int| 0 <= i < name.len() ==> is_keychar(#[trigger] name[i])
}

/// A numeric type: a digit, and then digits and `.`.
pub open spec fn is_numeric_type(name: Seq<char>) -> bool {
    &&& name.len() > 0
    &&& spec_is_digit(name[0])
    &&& forall|i: int| 0 <= i < name.len() ==> is_oidchar(#[trigger] name[i])
}

/// The texts that the grammar reads as an attribute type.
pub open spec fn is_type_name(name: Seq<char>) -> bool {
    is_descriptor(name) || is_numeric_type(name)
}

/// Text that needs no escaping in an unquoted value: no special character,
/// no quotation mark and no `\`.
pub open spec fn is_plain_text(text: Seq<char>) -> bool {
    forall|i: int| 0 <= i < text.len() ==> is_plain(#[trigger] text[i])
}

/// The text `name=value`.
pub open spec fn unquoted_attribute(name: Seq<char>, value: Seq<char>) -> Seq<char> {
    name + seq!['='] + value
}

/// The text `name="value"`.
pub open spec fn quoted_attribute(name: Seq<char>, value: Seq<char>) -> Seq<char> {
    name + seq!['=', '"'] + value + seq!['"']
}

/// The attributes of a name with one attribute.
pub open spec fn single_attribute(name: Seq<char>, value: Seq<char>) -> Map<Seq<char>, Seq<char>> {
    Map::<Seq<char>, Seq<char>>::empty().insert(name, value)
}

/// Whether the list of attributes that starts at `pos` has one of its
/// separators at `at`: an attribute of the list ends there, and a `,` or a
/// `+` follows it.
pub open spec fn separator_position(s: Seq<char>, pos: int, at: int) -> bool
    decreases s.len() - pos,
    via separator_position_decreases
{
    if !(0 <= pos < s.len()) {
        false
    } else {
        let first = attribute(s, pos);
        &&& first.value is Some
        &&& first.end < s.len()
        &&& is_separator(s[first.end])
        &&& (first.end == at || separator_position(s, first.end + 1, at))
    }
}

#[via_fn]
proof fn separator_position_decreases(s: Seq<char>, pos: int, at: int) {
    if 0 <= pos < s.len() {
        lemma_attribute_advances(s, pos);
    }
}

/// Whether `a` and `b` are equal from `from` on, but that at `at`, where
/// both have a separator, they may have different ones.
pub open spec fn same_but_separator(a: Seq<char>, b: Seq<char>, from: int, at: int) -> bool {
    &&& a.len() == b.len()
    &&& forall|j: int| from <= j < a.len() && j != at ==> a[j] == b[j]
    &&& from <= at ==> at < a.len() && is_separator(a[at]) && is_separator(b[at])
}

/// Type characters up to the end of the input, or to a character that is
/// none, are a run of type characters.
proof fn lemma_keychar_run(s: Seq<char>, pos: int, end: int)
    requires
        0 <= pos <= end <= s.len(),
        forall|i: int| pos <= i < end ==> is_keychar(#[trigger] s[i]),
        end == s.len() || !is_keychar(s[end]),
    ensures
        keychar_run_end(s, pos) == end,
    decreases end - pos,
{
    if pos < end {
        lemma_keychar_run(s, pos + 1, end);
    }
}

/// Digits and dots up to the end of the input, or to a character that is
/// neither, are a run of digits and dots.
proof fn lemma_oid_run(s: Seq<char>, pos: int, end: int)
    requires
        0 <= pos <= end <= s.len(),
        forall|i: int| pos <= i < end ==> is_oidchar(#[trigger] s[i]),
        end == s.len() || !is_oidchar(s[end]),
    ensures
        oid_run_end(s, pos) == end,
    decreases end - pos,
{
    if pos < end {
        lemma_oid_run(s, pos + 1, end);
    }
}

/// A type name that stands at the start of the text, before `=`, is read whole.
proof fn lemma_reads_type(s: Seq<char>, name: Seq<char>)
    requires
        is_type_name(name),
        name.len() < s.len(),
        s.subrange(0, name.len() as int) == name,
        s[name.len() as int] == '=',
    ensures
        attribute_type(s, 0) == (Outcome { value: Some(name), end: name.len() as int }),
{
    let n = name.len() as int;
    assert forall|i: int| 0 <= i < n implies s[i] == name[i] by {
        assert(s.subrange(0, n)[i] == s[i]);
    }
    if is_descriptor(name) {
        assert forall|i: int| 0 <= i < n implies is_keychar(#[trigger] s[i]) by {
            assert(is_keychar(name[i]));
        }
        lemma_keychar_run(s, 0, n);
    } else {
        assert forall|i: int| 0 <= i < n implies is_oidchar(#[trigger] s[i]) by {
            assert(is_oidchar(name[i]));
        }
        lemma_oid_run(s, 0, n);
    }
}

/// Plain characters up to a special character or the end of the input are an
/// unquoted value, and stand for themselves.
proof fn lemma_plain_run(s: Seq<char>, pos: int, end: int)
    requires
        0 <= pos <= end <= s.len(),
        forall|i: int| pos <= i < end ==> is_plain(#[trigger] s[i]),
        end == s.len() || spec_is_special(s[end]),
    ensures
        simple_string(s, pos) == (Outcome { value: Some(s.subrange(pos, end)), end }),
    decreases end - pos,
{
    if pos < end {
        lemma_plain_run(s, pos + 1, end);
        assert(is_plain(s[pos]));
        assert(seq![s[pos]] + s.subrange(pos + 1, end) =~= s.subrange(pos, end));
    } else {
        assert(s.subrange(pos, end) =~= Seq::<char>::empty());
    }
}

/// Characters other than `"` and `\` up to a quotation mark are the body of
/// a quoted value, and stand for themselves.
proof fn lemma_quoted_run(s: Seq<char>, pos: int, end: int)
    requires
        0 <= pos <= end < s.len(),
        forall|i: int|
            pos <= i < end ==> !spec_is_quotation(#[trigger] s[i]) && !spec_is_escape(s[i]),
        spec_is_quotation(s[end]),
    ensures
        quoted_body(s, pos) == (Outcome { value: Some(s.subrange(pos, end)), end }),
    decreases end - pos,
{
    if pos < end {
        lemma_quoted_run(s, pos + 1, end);
        assert(!spec_is_quotation(s[pos]) && !spec_is_escape(s[pos]));
        assert(seq![s[pos]] + s.subrange(pos + 1, end) =~= s.subrange(pos, end));
    } else {
        assert(s.subrange(pos, end) =~= Seq::<char>::empty());
    }
}

/// One attribute that reaches the end of the input is a distinguished name
/// with that attribute alone.
proof fn lemma_single_attribute(s: Seq<char>, pair: Pair)
    requires
        s.len() > 0,
        attribute(s, 0) == (Outcome { value: Some(pair), end: s.len() as int }),
    ensures
        distinguished_name(s) == Some(single_attribute(pair.0, pair.1)),
{
    let pairs = seq![pair];
    assert(attribute_list(s, 0).value == Some(pairs));
    assert(pairs.drop_last() =~= Seq::<Pair>::empty());
    assert(attribute_map(pairs.drop_last()) == Map::<Seq<char>, Seq<char>>::empty());
    assert(pairs.last() == pair);
}

/// The parser is a function of the text: two results that it gives for the
/// same text are both errors, or hold the same common name and attributes.
pub proof fn law_same_text_same_result(
    text: Seq<char>,
    first: Result<DistinguishedName, ParseError>,
    second: Result<DistinguishedName, ParseError>,
)
    requires
        parse_outcome(first) == parsed_name(text),
        parse_outcome(second) == parsed_name(text),
    ensures
        parse_outcome(first) == parse_outcome(second),
        first is Ok <==> second is Ok,
{
}

/// A value of plain characters is kept as it is: for a type name `name` and
/// plain text `value`, the text `name=value` is the distinguished name whose
/// one attribute has the type `name` and the value `value`.
pub proof fn law_plain_value_is_kept(name: Seq<char>, value: Seq<char>)
    requires
        is_type_name(name),
        is_plain_text(value),
    ensures
        distinguished_name(unquoted_attribute(name, value)) == Some(single_attribute(name, value)),
        parsed_name(unquoted_attribute(name, value)) matches Some(dn) && dn.attributes
            == single_attribute(name, value) && dn.attributes[name] == value,
{
    let s = unquoted_attribute(name, value);
    let n = name.len() as int;
    assert(s.subrange(0, n) =~= name);
    assert(s[n] == '=');
    lemma_reads_type(s, name);
    assert forall|i: int| n + 1 <= i < s.len() implies is_plain(#[trigger] s[i]) by {
        assert(s[i] == value[i - n - 1]);
    }
    lemma_plain_run(s, n + 1, s.len() as int);
    assert(s.subrange(n + 1, s.len() as int) =~= value);
    if value.len() > 0 {
        assert(is_plain(s[n + 1]));
    }
    assert(string_value(s, n + 1) == (Outcome { value: Some(value), end: s.len() as int }));
    lemma_single_attribute(s, (name, value));
}

/// Quoting changes nothing where nothing needs it: for a type name `name`
/// and plain text `value`, the texts `name="value"` and `name=value` are the
/// same distinguished name, whose one attribute has the value `value`.
pub proof fn law_quoting_equivalence(name: Seq<char>, value: Seq<char>)
    requires
        is_type_name(name),
        is_plain_text(value),
    ensures
        parsed_name(quoted_attribute(name, value)) == parsed_name(unquoted_attribute(name, value)),
        distinguished_name(quoted_attribute(name, value)) == Some(single_attribute(name, value)),
{
    law_plain_value_is_kept(name, value);
    let s = quoted_attribute(name, value);
    let n = name.len() as int;
    let end = s.len() - 1;
    assert(s.subrange(0, n) =~= name);
    assert(s[n] == '=');
    assert(s[n + 1] == '"');
    assert(s[end] == '"');
    lemma_reads_type(s, name);
    assert forall|i: int| n + 2 <= i < end implies !spec_is_quotation(#[trigger] s[i])
        && !spec_is_escape(s[i]) by {
        assert(s[i] == value[i - n - 2]);
        assert(is_plain(value[i - n - 2]));
    }
    lemma_quoted_run(s, n + 2, end);
    assert(s.subrange(n + 2, end) =~= value);
    assert(quoted_string(s, n + 1) == (Outcome { value: Some(value), end: s.len() as int }));
    lemma_single_attribute(s, (name, value));
}

// The lemmas that follow say of one production each that it reads nothing
// but what stands between its start and its end: where two texts differ in
// the separator at `at` only, and the production starts after `at` or stops
// at `at` or before it, it is the same in both.

proof fn lemma_keychar_run_local(a: Seq<char>, b: Seq<char>, pos: int, at: int)
    requires
        same_but_separator(a, b, pos, at),
        0 <= pos <= a.len(),
        at < pos || keychar_run_end(a, pos) <= at,
    ensures
        keychar_run_end(b, pos) == keychar_run_end(a, pos),
    decreases a.len() - pos,
{
    lemma_keychar_run_bounds(a, pos);
    if pos < a.len() && is_keychar(a[pos]) {
        lemma_keychar_run_bounds(a, pos + 1);
        lemma_keychar_run_local(a, b, pos + 1, at);
    }
}

proof fn lemma_oid_run_local(a: Seq<char>, b: Seq<char>, pos: int, at: int)
    requires
        same_but_separator(a, b, pos, at),
        0 <= pos <= a.len(),
        at < pos || oid_run_end(a, pos) <= at,
    ensures
        oid_run_end(b, pos) == oid_run_end(a, pos),
    decreases a.len() - pos,
{
    lemma_oid_run_bounds(a, pos);
    if pos < a.len() && is_oidchar(a[pos]) {
        lemma_oid_run_bounds(a, pos + 1);
        lemma_oid_run_local(a, b, pos + 1, at);
    }
}

proof fn lemma_attribute_type_local(a: Seq<char>, b: Seq<char>, pos: int, at: int)
    requires
        same_but_separator(a, b, pos, at),
        0 <= pos <= a.len(),
        at < pos || attribute_type(a, pos).end <= at,
    ensures
        attribute_type(b, pos) == attribute_type(a, pos),
{
    lemma_keychar_run_bounds(a, pos);
    lemma_oid_run_bounds(a, pos);
    if pos < a.len() && spec_is_alpha(a[pos]) {
        lemma_keychar_run_local(a, b, pos, at);
        let end = keychar_run_end(a, pos);
        assert(a.subrange(pos, end) =~= b.subrange(pos, end));
    } else if pos < a.len() && spec_is_digit(a[pos]) {
        lemma_oid_run_local(a, b, pos, at);
        let end = oid_run_end(a, pos);
        assert(a.subrange(pos, end) =~= b.subrange(pos, end));
    }
}

proof fn lemma_escape_sequence_local(a: Seq<char>, b: Seq<char>, pos: int, at: int)
    requires
        same_but_separator(a, b, pos, at),
        0 <= pos <= a.len(),
        at < pos || escape_sequence(a, pos).end <= at,
    ensures
        escape_sequence(b, pos) == escape_sequence(a, pos),
{
}

proof fn lemma_simple_string_local(a: Seq<char>, b: Seq<char>, pos: int, at: int)
    requires
        same_but_separator(a, b, pos, at),
        0 <= pos <= a.len(),
        at < pos || simple_string(a, pos).end <= at,
    ensures
        simple_string(b, pos) == simple_string(a, pos),
    decreases a.len() - pos,
{
    if pos < a.len() && !spec_is_special(a[pos]) && !spec_is_quotation(a[pos]) {
        if spec_is_escape(a[pos]) {
            let escape = escape_sequence(a, pos);
            if escape.value is Some {
                lemma_simple_string_bounds(a, escape.end);
                lemma_escape_sequence_local(a, b, pos, at);
                lemma_simple_string_local(a, b, escape.end, at);
            } else {
                lemma_escape_sequence_local(a, b, pos, at);
            }
        } else {
            lemma_simple_string_bounds(a, pos + 1);
            lemma_simple_string_local(a, b, pos + 1, at);
        }
    }
}

proof fn lemma_quoted_body_local(a: Seq<char>, b: Seq<char>, pos: int, at: int)
    requires
        same_but_separator(a, b, pos, at),
        0 <= pos <= a.len(),
        at < pos || quoted_body(a, pos).end <= at,
    ensures
        quoted_body(b, pos) == quoted_body(a, pos),
    decreases a.len() - pos,
{
    if pos < a.len() && !spec_is_quotation(a[pos]) {
        if spec_is_escape(a[pos]) {
            let escape = escape_sequence(a, pos);
            if escape.value is Some {
                lemma_quoted_body_bounds(a, escape.end);
                lemma_escape_sequence_local(a, b, pos, at);
                lemma_quoted_body_local(a, b, escape.end, at);
            } else {
                lemma_escape_sequence_local(a, b, pos, at);
            }
        } else {
            lemma_quoted_body_bounds(a, pos + 1);
            lemma_quoted_body_local(a, b, pos + 1, at);
        }
    }
}

proof fn lemma_hex_body_local(a: Seq<char>, b: Seq<char>, pos: int, at: int)
    requires
        same_but_separator(a, b, pos, at),
        0 <= pos <= a.len(),
        at < pos || hex_body(a, pos).end <= at,
    ensures
        hex_body(b, pos) == hex_body(a, pos),
    decreases a.len() - pos,
{
    if pos < a.len() && spec_is_hexchar(a[pos]) {
        let pair = hex_pair(a, pos);
        if pair.value is Some {
            lemma_hex_body_bounds(a, pair.end);
            lemma_hex_body_local(a, b, pair.end, at);
        }
    }
}

proof fn lemma_string_value_local(a: Seq<char>, b: Seq<char>, pos: int, at: int)
    requires
        same_but_separator(a, b, pos, at),
        0 <= pos <= a.len(),
        at < pos || string_value(a, pos).end <= at,
    ensures
        string_value(b, pos) == string_value(a, pos),
{
    if pos < a.len() && spec_is_quotation(a[pos]) {
        lemma_quoted_body_bounds(a, pos + 1);
        lemma_quoted_body_local(a, b, pos + 1, at);
    } else if pos < a.len() && a[pos] == '#' {
        lemma_hex_body_bounds(a, pos + 1);
        lemma_hex_body_local(a, b, pos + 1, at);
    } else {
        lemma_simple_string_local(a, b, pos, at);
    }
}

proof fn lemma_attribute_local(a: Seq<char>, b: Seq<char>, pos: int, at: int)
    requires
        same_but_separator(a, b, pos, at),
        0 <= pos <= a.len(),
        at < pos || attribute(a, pos).end <= at,
    ensures
        attribute(b, pos) == attribute(a, pos),
{
    lemma_keychar_run_bounds(a, pos);
    lemma_oid_run_bounds(a, pos);
    let name = attribute_type(a, pos);
    if name.value is Some && name.end < a.len() && a[name.end] == '=' {
        lemma_string_value_bounds(a, name.end + 1);
        lemma_attribute_type_local(a, b, pos, at);
        lemma_string_value_local(a, b, name.end + 1, at);
    } else {
        lemma_attribute_type_local(a, b, pos, at);
    }
}

/// Texts that are equal from `pos` on have equal lists from `pos` on.
proof fn lemma_attribute_list_suffix(a: Seq<char>, b: Seq<char>, pos: int, at: int)
    requires
        same_but_separator(a, b, pos, at),
        0 <= pos <= a.len(),
        at < pos,
    ensures
        attribute_list(b, pos) == attribute_list(a, pos),
    decreases a.len() - pos,
{
    if pos < a.len() {
        lemma_attribute_advances(a, pos);
        lemma_attribute_local(a, b, pos, at);
        let first = attribute(a, pos);
        if first.value is Some && first.end < a.len() && is_separator(a[first.end]) {
            lemma_attribute_list_suffix(a, b, first.end + 1, at);
        }
    }
}

/// Texts that differ in one separator of their lists only have equal lists.
proof fn lemma_attribute_list_separator(a: Seq<char>, b: Seq<char>, pos: int, at: int)
    requires
        same_but_separator(a, b, pos, at),
        0 <= pos <= a.len(),
        separator_position(a, pos, at),
    ensures
        attribute_list(b, pos) == attribute_list(a, pos),
    decreases a.len() - pos,
{
    lemma_attribute_advances(a, pos);
    let first = attribute(a, pos);
    if first.end == at {
        lemma_attribute_local(a, b, pos, at);
        lemma_attribute_list_suffix(a, b, at + 1, at);
    } else {
        lemma_separator_position_bounds(a, first.end + 1, at);
        lemma_attribute_local(a, b, pos, at);
        lemma_attribute_list_separator(a, b, first.end + 1, at);
    }
}

/// A separator of a list stands after the start of the list, and is `,` or `+`.
pub proof fn lemma_separator_position_bounds(s: Seq<char>, pos: int, at: int)
    requires
        0 <= pos <= s.len(),
        separator_position(s, pos, at),
    ensures
        pos < at < s.len(),
        is_separator(s[at]),
    decreases s.len() - pos,
{
    lemma_attribute_advances(s, pos);
    let first = attribute(s, pos);
    if first.end != at {
        lemma_separator_position_bounds(s, first.end + 1, at);
    }
}

/// The choice of a separator does not matter: where a distinguished name has
/// `,` or `+` between two attributes, the text with the other of the two in
/// that place is the same distinguished name, or is malformed as well.
pub proof fn law_separator_choice(s: Seq<char>, at: int, other: char)
    requires
        separator_position(s, 0, at),
        is_separator(other),
    ensures
        attribute_list(s.update(at, other), 0) == attribute_list(s, 0),
        parsed_name(s.update(at, other)) == parsed_name(s),
{
    lemma_separator_position_bounds(s, 0, at);
    lemma_attribute_list_separator(s, s.update(at, other), 0, at);
}

/// The map of a list of attributes holds the types of the list and no others.
pub proof fn law_types_of_the_map(pairs: Seq<Pair>, key: Seq<char>)
    ensures
        attribute_map(pairs).contains_key(key) <==> exists|i: int|
            0 <= i < pairs.len() && (#[trigger] pairs[i]).0 == key,
    decreases pairs.len(),
{
    if pairs.len() > 0 {
        let front = pairs.drop_last();
        law_types_of_the_map(front, key);
        if attribute_map(pairs).contains_key(key) {
            if pairs.last().0 == key {
                assert(pairs[pairs.len() - 1].0 == key);
            } else {
                let i = choose|i: int| 0 <= i < front.len() && (#[trigger] front[i]).0 == key;
                assert(pairs[i].0 == key);
            }
        }
        if exists|i: int| 0 <= i < pairs.len() && (#[trigger] pairs[i]).0 == key {
            let i = choose|i: int| 0 <= i < pairs.len() && (#[trigger] pairs[i]).0 == key;
            if i < front.len() {
                assert(front[i].0 == key);
            }
        }
    }
}

/// The last occurrence wins: where a type stands several times in a list of
/// attributes, the map of the list holds the value of the last one.
pub proof fn law_last_occurrence_wins(pairs: Seq<Pair>, i: int)
    requires
        0 <= i < pairs.len(),
        forall|j: int| i < j < pairs.len() ==> (#[trigger] pairs[j]).0 != pairs[i].0,
    ensures
        attribute_map(pairs).contains_key(pairs[i].0),
        attribute_map(pairs)[pairs[i].0] == pairs[i].1,
    decreases pairs.len(),
{
    if i < pairs.len() - 1 {
        let front = pairs.drop_last();
        assert(front[i] == pairs[i]);
        assert forall|j: int| i < j < front.len() implies (#[trigger] front[j]).0
            != front[i].0 by {
            assert(front[j] == pairs[j]);
        }
        law_last_occurrence_wins(front, i);
        assert(pairs[pairs.len() - 1].0 != pairs[i].0);
    }
}

/// Nothing is cut off: a text is a distinguished name only if the list of its
/// attributes reaches its end.
pub proof fn law_whole_text_is_read(s: Seq<char>)
    requires
        parsed_name(s) is Some,
    ensures
        attribute_list(s, 0).end == s.len(),
{
    lemma_attribute_list_bounds(s, 0);
}

} // verus!
