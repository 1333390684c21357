//! The parser: a cursor over the input and one method for each production of
//! the grammar.

use vstd::prelude::*;
use vstd::string::StringExecFns;
use crate::attributes::AttributeMap;
use crate::chars::{
    decode_hex_pair, is_alpha, is_digit, is_escape, is_hexchar, is_quotation, is_special,
};
use crate::error::ParseError;
use crate::grammar::{
    attribute, attribute_list, attribute_map, attribute_type, escape_sequence, hex_body, hex_pair,
    hex_string, keychar_run_end, keychar_type, lemma_attribute_advances,
    lemma_attribute_list_bounds, lemma_prepend_nothing, lemma_prepend_twice, oid_run_end,
    oid_type, prepend, quoted_body, quoted_string, simple_string, string_value, Outcome, Pair,
};

verus! {

/// The input of a parser and the position that it has reached.
pub struct Cursor {
    /// The whole input.
    pub input: Seq<char>,
    /// The number of characters consumed, at most the length of the input.
    pub pos: int,
}

/// A position in a sequence of characters. It moves forward only, one
/// character at a time, and never past the end of the input.
pub struct ParserState<'a> {
    input: &'a [char],
    cur: usize,
}

impl<'a> View for ParserState<'a> {
    type V = Cursor;

    closed spec fn view(&self) -> Cursor {
        Cursor { input: self.input@, pos: self.cur as int }
    }
}

impl<'a> ParserState<'a> {
    #[verifier::type_invariant]
    spec fn in_bounds(&self) -> bool {
        self.cur <= self.input@.len()
    }

    /// The character at the position, or `None` at the end of the input.
    /// The position stays where it is.
    pub fn get(&self) -> (r: Option<char>)
        ensures
            0 <= self@.pos <= self@.input.len(),
            r == (if self@.pos < self@.input.len() {
                Some(self@.input[self@.pos])
            } else {
                None::<char>
            }),
    {
        proof {
            use_type_invariant(self);
        }
        if self.cur < self.input.len() {
            Some(self.input[self.cur])
        } else {
            None
        }
    }

    /// Whether the whole input has been consumed.
    pub fn eof(&self) -> (b: bool)
        ensures
            0 <= self@.pos <= self@.input.len(),
            b == (self@.pos == self@.input.len()),
    {
        proof {
            use_type_invariant(self);
        }
        self.cur >= self.input.len()
    }

    /// Moves the position forward by one character. At the end of the input
    /// it stays where it is.
    pub fn consume(&mut self)
        ensures
            final(self)@.input == old(self)@.input,
            final(self)@.pos == (if old(self)@.pos < old(self)@.input.len() {
                old(self)@.pos + 1
            } else {
                old(self)@.pos
            }),
    {
        proof {
            use_type_invariant(&*self);
        }
        if self.cur < self.input.len() {
            self.cur += 1;
        }
    }
}

/// The value that a production gave, or `None` where it failed.
pub open spec fn decoded(r: Result<String, ParseError>) -> Option<Seq<char>> {
    match r {
        Ok(text) => Some(text@),
        Err(_) => None,
    }
}

/// A parser of distinguished names over a sequence of characters.
///
/// Every method reads one production of the grammar from the position of
/// `state` on, and leaves `state` where the production stopped.
pub struct Parser<'a> {
    pub state: ParserState<'a>,
}

impl<'a> Parser<'a> {
    /// A parser at the start of `input`.
    pub fn new_with_input(input: &'a [char]) -> (parser: Parser<'a>)
        ensures
            parser.state@.input == input@,
            parser.state@.pos == 0,
    {
        Parser { state: ParserState { input, cur: 0 } }
    }

    /// Reads a list of attributes up to the end of the input, and gives the
    /// map of their types to their values, the last value of each type.
    pub fn parse_attributes(&mut self) -> (r: Result<AttributeMap, ParseError>)
        ensures
            final(self).state@.input == old(self).state@.input,
            final(self).state@.pos == attribute_list(
                old(self).state@.input,
                old(self).state@.pos,
            ).end,
            r is Ok ==> final(self).state@.pos == old(self).state@.input.len(),
            match r {
                Ok(map) => attribute_list(old(self).state@.input, old(self).state@.pos).value
                    matches Some(pairs) && map@ == attribute_map(pairs),
                Err(_) => attribute_list(old(self).state@.input, old(self).state@.pos).value
                    is None,
            },
    {
        let ghost s = self.state@.input;
        let ghost start = self.state@.pos;
        let ghost mut done: Seq<Pair> = Seq::empty();
        let mut map = AttributeMap::new();
        proof {
            use_type_invariant(&self.state);
            lemma_prepend_nothing(attribute_list(s, start));
        }
        loop
            invariant_except_break
                attribute_list(s, start) == prepend(done, attribute_list(s, self.state@.pos)),
            invariant
                s == old(self).state@.input,
                start == old(self).state@.pos,
                self.state@.input == s,
                0 <= self.state@.pos <= s.len(),
                map@ == attribute_map(done),
            ensures
                attribute_list(s, start) == (Outcome { value: Some(done), end: self.state@.pos }),
            decreases s.len() - self.state@.pos,
        {
            let ghost pos = self.state@.pos;
            if self.state.eof() {
                proof {
                    assert(done + Seq::<Pair>::empty() =~= done);
                }
                break ;
            }
            proof {
                lemma_attribute_advances(s, pos);
            }
            match self.parse_attribute() {
                Ok(Some((key, value))) => {
                    proof {
                        assert(done.push((key@, value@)).drop_last() =~= done);
                        lemma_prepend_twice(
                            done,
                            seq![(key@, value@)],
                            attribute_list(s, attribute(s, pos).end + 1),
                        );
                        assert(done + seq![(key@, value@)] =~= done.push((key@, value@)));
                        done = done.push((key@, value@));
                    }
                    map.insert(key, value);
                },
                Ok(None) => {
                    return Err(ParseError);
                },
                Err(e) => {
                    return Err(e);
                },
            }
            match self.state.get() {
                Some(c) => {
                    if c == ',' || c == '+' {
                        self.state.consume();
                    } else {
                        return Err(ParseError);
                    }
                },
                None => {
                    break ;
                },
            }
        }
        proof {
            lemma_attribute_list_bounds(s, start);
        }
        Ok(map)
    }

    /// Reads one attribute: a type, the character `=`, and a value.
    pub fn parse_attribute(&mut self) -> (r: Result<Option<(String, String)>, ParseError>)
        ensures
            final(self).state@.input == old(self).state@.input,
            final(self).state@.pos == attribute(old(self).state@.input, old(self).state@.pos).end,
            match r {
                Ok(Some(pair)) => attribute(old(self).state@.input, old(self).state@.pos).value
                    == Some((pair.0@, pair.1@)),
                Ok(None) => false,
                Err(_) => attribute(old(self).state@.input, old(self).state@.pos).value is None,
            },
    {
        let attr_type = match self.parse_attribute_type() {
            Ok(s) => s,
            Err(e) => {
                return Err(e);
            },
        };
        match self.state.get() {
            Some(c) => {
                if c == '=' {
                    self.state.consume();
                } else {
                    return Err(ParseError);
                }
            },
            None => {
                return Err(ParseError);
            },
        }
        let attr_value = match self.parse_attribute_value() {
            Ok(s) => s,
            Err(e) => {
                return Err(e);
            },
        };
        Ok(Some((attr_type, attr_value)))
    }

    /// Reads an attribute type: a descriptor where the next character is a
    /// letter, a numeric type where it is a digit.
    pub fn parse_attribute_type(&mut self) -> (r: Result<String, ParseError>)
        ensures
            final(self).state@.input == old(self).state@.input,
            final(self).state@.pos == attribute_type(
                old(self).state@.input,
                old(self).state@.pos,
            ).end,
            decoded(r) == attribute_type(old(self).state@.input, old(self).state@.pos).value,
    {
        match self.state.get() {
            Some(c) => {
                if is_alpha(c) {
                    self.parse_attribute_type_keychar()
                } else if is_digit(c) {
                    self.parse_attribute_type_oid()
                } else {
                    Err(ParseError)
                }
            },
            None => Err(ParseError),
        }
    }

    /// Reads the longest run of letters, digits and `-`. It may be empty.
    pub fn parse_attribute_type_keychar(&mut self) -> (r: Result<String, ParseError>)
        ensures
            final(self).state@.input == old(self).state@.input,
            final(self).state@.pos == keychar_type(
                old(self).state@.input,
                old(self).state@.pos,
            ).end,
            decoded(r) == keychar_type(old(self).state@.input, old(self).state@.pos).value,
    {
        let ghost s = self.state@.input;
        let ghost start = self.state@.pos;
        let mut buf = String::new();
        proof {
            use_type_invariant(&self.state);
        }
        loop
            invariant_except_break
                keychar_run_end(s, start) == keychar_run_end(s, self.state@.pos),
            invariant
                s == old(self).state@.input,
                start == old(self).state@.pos,
                self.state@.input == s,
                0 <= start <= self.state@.pos <= s.len(),
                buf@ == s.subrange(start, self.state@.pos),
            ensures
                keychar_run_end(s, start) == self.state@.pos,
            decreases s.len() - self.state@.pos,
        {
            let ghost pos = self.state@.pos;
            match self.state.get() {
                Some(c) => {
                    if is_alpha(c) || is_digit(c) || c == '-' {
                        buf.push(c);
                        self.state.consume();
                        proof {
                            assert(s.subrange(start, pos).push(c) =~= s.subrange(start, pos + 1));
                        }
                    } else {
                        break ;
                    }
                },
                None => {
                    break ;
                },
            }
        }
        Ok(buf)
    }

    /// Reads the longest run of digits and `.`. It may be empty.
    pub fn parse_attribute_type_oid(&mut self) -> (r: Result<String, ParseError>)
        ensures
            final(self).state@.input == old(self).state@.input,
            final(self).state@.pos == oid_type(old(self).state@.input, old(self).state@.pos).end,
            decoded(r) == oid_type(old(self).state@.input, old(self).state@.pos).value,
    {
        let ghost s = self.state@.input;
        let ghost start = self.state@.pos;
        let mut buf = String::new();
        proof {
            use_type_invariant(&self.state);
        }
        loop
            invariant_except_break
                oid_run_end(s, start) == oid_run_end(s, self.state@.pos),
            invariant
                s == old(self).state@.input,
                start == old(self).state@.pos,
                self.state@.input == s,
                0 <= start <= self.state@.pos <= s.len(),
                buf@ == s.subrange(start, self.state@.pos),
            ensures
                oid_run_end(s, start) == self.state@.pos,
            decreases s.len() - self.state@.pos,
        {
            let ghost pos = self.state@.pos;
            match self.state.get() {
                Some(c) => {
                    if is_digit(c) || c == '.' {
                        buf.push(c);
                        self.state.consume();
                        proof {
                            assert(s.subrange(start, pos).push(c) =~= s.subrange(start, pos + 1));
                        }
                    } else {
                        break ;
                    }
                },
                None => {
                    break ;
                },
            }
        }
        Ok(buf)
    }

    /// Reads an attribute value.
    pub fn parse_attribute_value(&mut self) -> (r: Result<String, ParseError>)
        ensures
            final(self).state@.input == old(self).state@.input,
            final(self).state@.pos == string_value(
                old(self).state@.input,
                old(self).state@.pos,
            ).end,
            decoded(r) == string_value(old(self).state@.input, old(self).state@.pos).value,
    {
        self.parse_string()
    }

    /// Reads a value: quoted where the next character is a quotation mark, a
    /// hex string where it is `#`, and unquoted otherwise.
    pub fn parse_string(&mut self) -> (r: Result<String, ParseError>)
        ensures
            final(self).state@.input == old(self).state@.input,
            final(self).state@.pos == string_value(
                old(self).state@.input,
                old(self).state@.pos,
            ).end,
            decoded(r) == string_value(old(self).state@.input, old(self).state@.pos).value,
    {
        match self.state.get() {
            Some(c) => {
                if c == '"' {
                    self.parse_string_quoted()
                } else if c == '#' {
                    self.parse_hexstring()
                } else {
                    self.parse_string_simple()
                }
            },
            None => self.parse_string_simple(),
        }
    }

    /// Reads an unquoted value, up to the first special character that is
    /// not escaped or to the end of the input.
    pub fn parse_string_simple(&mut self) -> (r: Result<String, ParseError>)
        ensures
            final(self).state@.input == old(self).state@.input,
            final(self).state@.pos == simple_string(
                old(self).state@.input,
                old(self).state@.pos,
            ).end,
            decoded(r) == simple_string(old(self).state@.input, old(self).state@.pos).value,
    {
        let ghost s = self.state@.input;
        let ghost start = self.state@.pos;
        let mut buf = String::new();
        proof {
            use_type_invariant(&self.state);
        }
        proof {
            lemma_prepend_nothing(simple_string(s, start));
        }
        loop
            invariant_except_break
                simple_string(s, start) == prepend(buf@, simple_string(s, self.state@.pos)),
            invariant
                s == old(self).state@.input,
                start == old(self).state@.pos,
                self.state@.input == s,
                0 <= self.state@.pos <= s.len(),
            ensures
                simple_string(s, start) == (Outcome { value: Some(buf@), end: self.state@.pos }),
            decreases s.len() - self.state@.pos,
        {
            let ghost pos = self.state@.pos;
            let ghost before = buf@;
            match self.state.get() {
                Some(c) => {
                    if is_special(c) {
                        proof {
                            assert(before + Seq::<char>::empty() =~= before);
                        }
                        break ;
                    } else if is_quotation(c) {
                        return Err(ParseError);
                    } else if is_escape(c) {
                        match self.parse_escape_sequence() {
                            Ok(decoded) => {
                                buf.append(decoded.as_str());
                                proof {
                                    lemma_prepend_twice(
                                        before,
                                        decoded@,
                                        simple_string(s, escape_sequence(s, pos).end),
                                    );
                                }
                            },
                            Err(e) => {
                                return Err(e);
                            },
                        }
                    } else {
                        buf.push(c);
                        self.state.consume();
                        proof {
                            lemma_prepend_twice(before, seq![c], simple_string(s, pos + 1));
                            assert(before + seq![c] =~= before.push(c));
                        }
                    }
                },
                None => {
                    proof {
                        assert(before + Seq::<char>::empty() =~= before);
                    }
                    break ;
                },
            }
        }
        Ok(buf)
    }

    /// Reads a quoted value: a quotation mark, the text up to the next
    /// quotation mark that is not escaped, and that quotation mark.
    pub fn parse_string_quoted(&mut self) -> (r: Result<String, ParseError>)
        ensures
            final(self).state@.input == old(self).state@.input,
            final(self).state@.pos == quoted_string(
                old(self).state@.input,
                old(self).state@.pos,
            ).end,
            decoded(r) == quoted_string(old(self).state@.input, old(self).state@.pos).value,
    {
        let ghost s = self.state@.input;
        let ghost start = self.state@.pos;
        let mut buf = String::new();
        match self.state.get() {
            Some(c) => {
                if c == '"' {
                    self.state.consume();
                } else {
                    return Err(ParseError);
                }
            },
            None => {
                return Err(ParseError);
            },
        }
        proof {
            lemma_prepend_nothing(quoted_body(s, start + 1));
        }
        loop
            invariant_except_break
                quoted_body(s, start + 1) == prepend(buf@, quoted_body(s, self.state@.pos)),
            invariant
                0 <= start < s.len(),
                s[start] == '"',
                s == old(self).state@.input,
                start == old(self).state@.pos,
                self.state@.input == s,
                0 <= self.state@.pos <= s.len(),
            ensures
                quoted_body(s, start + 1) == (Outcome {
                    value: Some(buf@),
                    end: self.state@.pos,
                }),
                self.state@.pos < s.len(),
                s[self.state@.pos] == '"',
            decreases s.len() - self.state@.pos,
        {
            let ghost pos = self.state@.pos;
            let ghost before = buf@;
            match self.state.get() {
                Some(c) => {
                    if is_quotation(c) {
                        proof {
                            assert(before + Seq::<char>::empty() =~= before);
                        }
                        break ;
                    } else if is_escape(c) {
                        match self.parse_escape_sequence() {
                            Ok(decoded) => {
                                buf.append(decoded.as_str());
                                proof {
                                    lemma_prepend_twice(
                                        before,
                                        decoded@,
                                        quoted_body(s, escape_sequence(s, pos).end),
                                    );
                                }
                            },
                            Err(e) => {
                                return Err(e);
                            },
                        }
                    } else {
                        buf.push(c);
                        self.state.consume();
                        proof {
                            lemma_prepend_twice(before, seq![c], quoted_body(s, pos + 1));
                            assert(before + seq![c] =~= before.push(c));
                        }
                    }
                },
                None => {
                    return Err(ParseError);
                },
            }
        }
        match self.state.get() {
            Some(c) => {
                if c == '"' {
                    self.state.consume();
                } else {
                    return Err(ParseError);
                }
            },
            None => {
                return Err(ParseError);
            },
        }
        Ok(buf)
    }

    /// Reads an escape sequence and gives the one character that it stands for.
    pub fn parse_escape_sequence(&mut self) -> (r: Result<String, ParseError>)
        ensures
            final(self).state@.input == old(self).state@.input,
            final(self).state@.pos == escape_sequence(
                old(self).state@.input,
                old(self).state@.pos,
            ).end,
            decoded(r) == escape_sequence(old(self).state@.input, old(self).state@.pos).value,
    {
        match self.state.get() {
            Some(c) => {
                if c == '\\' {
                    self.state.consume();
                } else {
                    return Err(ParseError);
                }
            },
            None => {
                return Err(ParseError);
            },
        }
        match self.state.get() {
            Some(c) => {
                if is_special(c) || is_quotation(c) || is_escape(c) {
                    self.state.consume();
                    let mut text = String::new();
                    text.push(c);
                    proof {
                        assert(text@ =~= seq![c]);
                    }
                    Ok(text)
                } else if is_hexchar(c) {
                    self.parse_hexpair()
                } else {
                    Err(ParseError)
                }
            },
            None => Err(ParseError),
        }
    }

    /// Reads a hex string: `#` and pairs of hexadecimal digits up to the end
    /// of the input.
    pub fn parse_hexstring(&mut self) -> (r: Result<String, ParseError>)
        ensures
            final(self).state@.input == old(self).state@.input,
            final(self).state@.pos == hex_string(old(self).state@.input, old(self).state@.pos).end,
            decoded(r) == hex_string(old(self).state@.input, old(self).state@.pos).value,
    {
        let ghost s = self.state@.input;
        let ghost start = self.state@.pos;
        match self.state.get() {
            Some(c) => {
                if c == '#' {
                    self.state.consume();
                } else {
                    return Err(ParseError);
                }
            },
            None => {
                return Err(ParseError);
            },
        }
        let mut buf = String::new();
        proof {
            lemma_prepend_nothing(hex_body(s, start + 1));
        }
        loop
            invariant_except_break
                hex_body(s, start + 1) == prepend(buf@, hex_body(s, self.state@.pos)),
            invariant
                0 <= start < s.len(),
                s[start] == '#',
                s == old(self).state@.input,
                start == old(self).state@.pos,
                self.state@.input == s,
                0 <= self.state@.pos <= s.len(),
            ensures
                hex_body(s, start + 1) == (Outcome { value: Some(buf@), end: self.state@.pos }),
            decreases s.len() - self.state@.pos,
        {
            let ghost pos = self.state@.pos;
            let ghost before = buf@;
            match self.state.get() {
                Some(c) => {
                    if is_hexchar(c) {
                        match self.parse_hexpair() {
                            Ok(decoded) => {
                                buf.append(decoded.as_str());
                                proof {
                                    lemma_prepend_twice(
                                        before,
                                        decoded@,
                                        hex_body(s, hex_pair(s, pos).end),
                                    );
                                }
                            },
                            Err(e) => {
                                return Err(e);
                            },
                        }
                    } else {
                        return Err(ParseError);
                    }
                },
                None => {
                    proof {
                        assert(before + Seq::<char>::empty() =~= before);
                    }
                    break ;
                },
            }
        }
        Ok(buf)
    }

    /// Reads two characters and gives the character whose code they write in
    /// hexadecimal digits. Both are consumed even where they are no such digits.
    pub fn parse_hexpair(&mut self) -> (r: Result<String, ParseError>)
        ensures
            final(self).state@.input == old(self).state@.input,
            final(self).state@.pos == hex_pair(old(self).state@.input, old(self).state@.pos).end,
            decoded(r) == hex_pair(old(self).state@.input, old(self).state@.pos).value,
    {
        let high = match self.state.get() {
            Some(c) => c,
            None => {
                return Err(ParseError);
            },
        };
        self.state.consume();
        let low = match self.state.get() {
            Some(c) => c,
            None => {
                return Err(ParseError);
            },
        };
        self.state.consume();
        match decode_hex_pair(high, low) {
            Some(c) => {
                let mut text = String::new();
                text.push(c);
                proof {
                    assert(text@ =~= seq![c]);
                }
                Ok(text)
            },
            None => Err(ParseError),
        }
    }
}

} // verus!
