//! The directive imports that the surrounding editor offers on a
//! header line, each carrying its argument text.

use vstd::prelude::*;

verus! {

/// A kind of import that a directive header can configure.
#[derive(Debug, Clone, PartialEq, Eq)]
pub enum Import {
    Option(String),
    MultiOption(String),
    MatchingPair(String),
}

} // verus!
