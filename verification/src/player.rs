//! Players and the chips they hold.

use vstd::prelude::*;
use vstd::string::StringExecFns;
use crate::bet::{Chip, ChipView};
use crate::error::Error;
use crate::ledger::{
    chips_in, count_in, deposited, fit_together, merged, saturated, total_of, well_kept,
    withdrawn, ChipCounts,
};

verus! {

/// A player at a table, with the chips in their wallet.
#[derive(Clone)]
pub struct Player {
    pub name: String,
    /// The chips held, by denomination.
    pub wallet: ChipCounts,
}

impl Player {
    /// The chips in the wallet, by denomination.
    pub open spec fn holdings(&self) -> Map<ChipView, nat> {
        self.wallet@
    }

    /// A player of that name with an empty wallet.
    pub fn new(name: &str) -> (player: Self)
        ensures
            player.name@ == name@,
            player.holdings() == Map::<ChipView, nat>::empty(),
    {
        Player { name: String::from_str(name), wallet: ChipCounts::new() }
    }

    /// Puts `count` chips of the denomination `token` into the wallet.
    pub fn deposit(&mut self, token: Chip, count: u32)
        requires
            count_in(old(self).holdings(), token@) + count <= u32::MAX,
        ensures
            final(self).name == old(self).name,
            final(self).holdings() == deposited(old(self).holdings(), token@, count as int),
            total_of(final(self).holdings()) == total_of(old(self).holdings()) + token.value_cents
                * count,
            chips_in(final(self).holdings()) == chips_in(old(self).holdings()) + count,
            well_kept(final(self).holdings()),
    {
        self.wallet.add(token, count);
    }

    /// Puts all of `tokens` into the wallet.
    pub fn deposit_multiple(&mut self, tokens: ChipCounts)
        requires
            fit_together(old(self).holdings(), tokens@),
        ensures
            final(self).name == old(self).name,
            final(self).holdings() == merged(old(self).holdings(), tokens@),
            total_of(final(self).holdings()) == total_of(old(self).holdings()) + total_of(tokens@),
            chips_in(final(self).holdings()) == chips_in(old(self).holdings()) + chips_in(tokens@),
            well_kept(final(self).holdings()),
    {
        self.wallet.add_all(tokens);
    }

    /// Takes `count` chips of the denomination `token` out of the wallet, or refuses and
    /// changes nothing where fewer are held.
    pub fn withdraw(&mut self, token: &Chip, count: u32) -> (taken: Result<(), Error>)
        ensures
            final(self).name == old(self).name,
            taken is Ok <==> count <= count_in(old(self).holdings(), token@),
            taken is Err ==> taken == Err::<(), Error>(Error::InsufficientFunds)
                && final(self).holdings() == old(self).holdings(),
            taken is Ok ==> final(self).holdings() == withdrawn(
                old(self).holdings(),
                token@,
                count as int,
            ),
            taken is Ok ==> total_of(final(self).holdings()) == total_of(old(self).holdings())
                - token.value_cents * count,
            taken is Ok ==> chips_in(final(self).holdings()) == chips_in(old(self).holdings())
                - count,
            well_kept(final(self).holdings()),
    {
        self.wallet.remove(token, count)
    }

    /// Number of chips held of the denomination `token`.
    pub fn token_count(&self, token: &Chip) -> (n: u32)
        ensures
            n == count_in(self.holdings(), token@),
    {
        self.wallet.count(token)
    }

    /// Total balance in cents, held at `u64::MAX` where the sum would not fit.
    pub fn total_cents(&self) -> (cents: u64)
        ensures
            cents == saturated(total_of(self.holdings())),
    {
        self.wallet.total_cents()
    }
}

} // verus!
