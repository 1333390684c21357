//! The error of the parser.

use vstd::prelude::*;

verus! {

/// The text is no distinguished name. The error says neither where nor why.
#[derive(Clone, Copy, Debug, PartialEq, Eq)]
pub struct ParseError;

} // verus!
