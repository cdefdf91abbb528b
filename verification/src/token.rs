//! Tokens: named markers of a fixed value.

use vstd::prelude::*;

verus! {

/// A token with a name, a display string and a value.
#[derive(Clone, Debug, PartialEq, Eq, Hash)]
pub struct Token {
    pub name: String,
    pub display: String,
    /// Value in cents, so that no amount is ever rounded.
    pub value_cents: u64,
}

} // verus!
