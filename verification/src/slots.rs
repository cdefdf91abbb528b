//! The parts of a slot machine.

use vstd::prelude::*;

verus! {

/// A symbol on a reel, with what a line of it pays.
pub struct Symbol {
    name: String,
    payout_multiplier: u32,
}

/// One reel: its symbols in order.
pub struct Reel {
    symbols: Vec<Symbol>,
}

/// A slot machine: its reels and its paylines.
pub struct Slot {
    reels: Vec<Reel>,
    /// Each payline gives one position per reel.
    paylines: Vec<Vec<usize>>,
}

} // verus!
