//! What this library takes on trust of `String`.

use vstd::prelude::*;

verus! {

/// `String::push` of the standard library: it appends the character `ch` to
/// the end of the string and leaves what was there as it was. This is taken
/// from its documentation and not proved.
pub assume_specification[ String::push ](s: &mut String, ch: char)
    ensures
        final(s)@ == old(s)@.push(ch),
;

/// The characters of an optional string.
pub open spec fn option_view(text: Option<String>) -> Option<Seq<char>> {
    match text {
        Some(s) => Some(s@),
        None => None,
    }
}

} // verus!
