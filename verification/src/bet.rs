//! Chips and the bets staked with them.

use vstd::prelude::*;
use vstd::std_specs::cmp::PartialEqSpecImpl;
use crate::error::Error;
use crate::ledger::{
    chips_in, count_in, deposited, fit_together, merged, saturated, total_of, well_kept,
    withdrawn, ChipCounts,
};

verus! {

/// What identifies a chip: its name, its display string and its value.
pub struct ChipView {
    pub name: Seq<char>,
    pub display: Seq<char>,
    pub value_cents: u64,
}

/// A chip denomination.
#[derive(Debug, Hash)]
pub struct Chip {
    pub name: String,
    pub display: String,
    /// Value in cents, so that no amount is ever rounded.
    pub value_cents: u64,
}

impl View for Chip {
    type V = ChipView;

    open spec fn view(&self) -> ChipView {
        ChipView { name: self.name@, display: self.display@, value_cents: self.value_cents }
    }
}

impl Clone for Chip {
    fn clone(&self) -> (copy: Self)
        ensures
            copy@ == self@,
    {
        Chip {
            name: self.name.clone(),
            display: self.display.clone(),
            value_cents: self.value_cents,
        }
    }
}

impl PartialEq for Chip {
    fn eq(&self, other: &Chip) -> (same: bool) {
        self.name == other.name && self.display == other.display && self.value_cents
            == other.value_cents
    }
}

impl PartialEqSpecImpl for Chip {
    open spec fn obeys_eq_spec() -> bool {
        true
    }

    open spec fn eq_spec(&self, other: &Chip) -> bool {
        self@ == other@
    }
}

impl Eq for Chip {

}


/// The chips staked on one wager, by denomination.
pub struct Bet {
    pub chips: ChipCounts,
}

impl View for Bet {
    type V = Map<ChipView, nat>;

    open spec fn view(&self) -> Map<ChipView, nat> {
        self.chips@
    }
}

impl Default for Bet {
    fn default() -> (bet: Self)
        ensures
            bet@ == Map::<ChipView, nat>::empty(),
    {
        Bet::new()
    }
}

impl Bet {
    /// A bet with nothing staked.
    pub fn new() -> (bet: Self)
        ensures
            bet@ == Map::<ChipView, nat>::empty(),
    {
        Bet { chips: ChipCounts::new() }
    }

    /// Stakes `count` more chips of the denomination `chip`.
    pub fn place_chip(&mut self, chip: Chip, count: u32)
        requires
            count_in(old(self)@, chip@) + count <= u32::MAX,
        ensures
            final(self)@ == deposited(old(self)@, chip@, count as int),
            total_of(final(self)@) == total_of(old(self)@) + chip.value_cents * count,
            chips_in(final(self)@) == chips_in(old(self)@) + count,
            well_kept(final(self)@),
    {
        self.chips.add(chip, count);
    }

    /// Stakes all of `chips` on top of what is staked already.
    pub fn place_multiple(&mut self, chips: ChipCounts)
        requires
            fit_together(old(self)@, chips@),
        ensures
            final(self)@ == merged(old(self)@, chips@),
            total_of(final(self)@) == total_of(old(self)@) + total_of(chips@),
            chips_in(final(self)@) == chips_in(old(self)@) + chips_in(chips@),
            well_kept(final(self)@),
    {
        self.chips.add_all(chips);
    }

    /// Takes `count` chips of the denomination `chip` back, or refuses and changes
    /// nothing where fewer are staked.
    pub fn remove_chip(&mut self, chip: &Chip, count: u32) -> (taken: Result<(), Error>)
        ensures
            taken is Ok <==> count <= count_in(old(self)@, chip@),
            taken is Err ==> taken == Err::<(), Error>(Error::InsufficientFunds) && final(self)@
                == old(self)@,
            taken is Ok ==> final(self)@ == withdrawn(old(self)@, chip@, count as int),
            taken is Ok ==> total_of(final(self)@) == total_of(old(self)@) - chip.value_cents
                * count,
            taken is Ok ==> chips_in(final(self)@) == chips_in(old(self)@) - count,
            well_kept(final(self)@),
    {
        self.chips.remove(chip, count)
    }

    /// Value of the bet in cents, held at `u64::MAX` where the sum would not fit.
    pub fn total_cents(&self) -> (cents: u64)
        ensures
            cents == saturated(total_of(self@)),
    {
        self.chips.total_cents()
    }
}

} // verus!
