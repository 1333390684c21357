//! The distinguished name that the parser gives.

use vstd::prelude::*;
use crate::attributes::AttributeMap;
use crate::error::ParseError;
use crate::grammar::distinguished_name;
use crate::text::option_view;

verus! {

/// A distinguished name: its attributes and, for convenience, its common name.
///
/// The parser sets `common_name` to the value of the attribute `CN`. The two
/// fields are independent otherwise: a name made by `from_common_name` has a
/// common name and no attributes.
#[derive(Debug)]
pub struct DistinguishedName {
    pub common_name: Option<String>,
    pub attributes: AttributeMap,
}

/// What a distinguished name holds, as mathematical values.
pub struct NameView {
    pub common_name: Option<Seq<char>>,
    pub attributes: Map<Seq<char>, Seq<char>>,
}

/// The attribute type `CN`.
pub open spec fn common_name_key() -> Seq<char> {
    seq!['C', 'N']
}

/// The attribute type `emailAddress`.
pub open spec fn email_address_key() -> Seq<char> {
    seq!['e', 'm', 'a', 'i', 'l', 'A', 'd', 'd', 'r', 'e', 's', 's']
}

/// The value that `attributes` holds for `key`, if it holds one.
pub open spec fn lookup(attributes: Map<Seq<char>, Seq<char>>, key: Seq<char>) -> Option<
    Seq<char>,
> {
    if attributes.contains_key(key) {
        Some(attributes[key])
    } else {
        None
    }
}

/// The distinguished name that the text `s` stands for: its attributes, with
/// the value of `CN` as its common name. `None` where `s` is no distinguished name.
pub open spec fn parsed_name(s: Seq<char>) -> Option<NameView> {
    match distinguished_name(s) {
        Some(attributes) => Some(
            NameView { common_name: lookup(attributes, common_name_key()), attributes },
        ),
        None => None,
    }
}

/// What a result of the parser holds: the name's view, or `None` for an error.
pub open spec fn parse_outcome(r: Result<DistinguishedName, ParseError>) -> Option<NameView> {
    match r {
        Ok(dn) => Some(dn@),
        Err(_) => None,
    }
}

impl View for DistinguishedName {
    type V = NameView;

    open spec fn view(&self) -> NameView {
        NameView { common_name: option_view(self.common_name), attributes: self.attributes@ }
    }
}

impl Clone for DistinguishedName {
    /// A name with the same common name and the same attributes.
    fn clone(&self) -> (copy: DistinguishedName)
        ensures
            copy@ == self@,
    {
        let common_name = match &self.common_name {
            Some(name) => Some(name.clone()),
            None => None,
        };
        DistinguishedName { common_name, attributes: self.attributes.clone() }
    }
}

impl DistinguishedName {
    /// A name with the common name `name` and no attributes.
    pub fn from_common_name(name: &str) -> (dn: DistinguishedName)
        ensures
            dn@.common_name == Some(name@),
            dn@.attributes == Map::<Seq<char>, Seq<char>>::empty(),
    {
        DistinguishedName { common_name: Some(name.to_owned()), attributes: AttributeMap::new() }
    }

    /// A name with no common name and no attributes.
    pub fn new() -> (dn: DistinguishedName)
        ensures
            dn@.common_name is None,
            dn@.attributes == Map::<Seq<char>, Seq<char>>::empty(),
    {
        DistinguishedName { common_name: None, attributes: AttributeMap::new() }
    }

    /// The value of the attribute `emailAddress`, if the name has one.
    pub fn get_email(&self) -> (email: Option<String>)
        ensures
            option_view(email) == lookup(self@.attributes, email_address_key()),
    {
        proof {
            reveal_strlit("emailAddress");
            assert("emailAddress"@ =~= email_address_key());
        }
        match self.attributes.get("emailAddress") {
            Some(value) => Some(value.clone()),
            None => None,
        }
    }
}

} // verus!
