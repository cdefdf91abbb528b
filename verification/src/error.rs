//! The errors that the ledger and the tables return.

use vstd::prelude::*;

verus! {

/// The ways a ledger or table operation can be refused.
#[derive(Clone, Copy, Debug, PartialEq, Eq, Structural)]
pub enum Error {
    /// More chips were asked for than are held of that denomination.
    InsufficientFunds,
    /// The stake lies outside the table's limits.
    InvalidBet,
    /// No player sits at the given index.
    InvalidPlayer,
    /// The card source holds no more cards.
    Empty,
}

} // verus!
