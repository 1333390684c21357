//! Parser for the string representation of X.500 distinguished names.
//!
//! A distinguished name is written as a list of attributes, `type=value`,
//! separated by `,` or `+`. [`parse_distinguished_name_str`] reads such a
//! text into a [`DistinguishedName`]. What it gives for each text is defined
//! in [`grammar`], and [`laws`] holds what follows from that definition.

use vstd::prelude::*;

pub mod attributes;
pub mod chars;
pub mod error;
pub mod grammar;
pub mod laws;
pub mod name;
pub mod parser;
pub mod text;

pub use crate::attributes::AttributeMap;
pub use crate::chars::{is_alpha, is_digit, is_escape, is_hexchar, is_quotation, is_special};
pub use crate::error::ParseError;
pub use crate::name::DistinguishedName;
pub use crate::parser::{Parser, ParserState};

use crate::name::{common_name_key, parse_outcome, parsed_name};

verus! {

/// Reads a distinguished name from a sequence of characters.
///
/// It gives the name that `input` stands for, and an error exactly where
/// `input` is no distinguished name. The whole input is read: text that
/// starts with a distinguished name and goes on is an error.
pub fn parse_distinguished_name(input: &[char]) -> (r: Result<DistinguishedName, ParseError>)
    ensures
        parse_outcome(r) == parsed_name(input@),
{
    let mut parser = Parser::new_with_input(input);
    match parser.parse_attributes() {
        Ok(attributes) => {
            proof {
                reveal_strlit("CN");
                assert("CN"@ =~= common_name_key());
            }
            let common_name = match attributes.get("CN") {
                Some(value) => Some(value.clone()),
                None => None,
            };
            Ok(DistinguishedName { common_name, attributes })
        },
        Err(e) => Err(e),
    }
}

/// Reads a distinguished name from a string, character by character.
pub fn parse_distinguished_name_str(input: &str) -> (r: Result<DistinguishedName, ParseError>)
    ensures
        parse_outcome(r) == parsed_name(input@),
{
    let mut chars: Vec<char> = Vec::new();
    for c in it: input.chars()
        invariant
            chars@ == it.seq().take(it.index() as int),
    {
        chars.push(c);
    }
    assert(chars@ =~= input@);
    parse_distinguished_name(chars.as_slice())
}

} // verus!
