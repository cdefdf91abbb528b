//! Polyhedral dice.

use vstd::prelude::*;
use crate::random::random_between;

verus! {

/// The dice there are, named by their number of sides.
#[derive(Clone, Copy, Debug, PartialEq, Eq, Structural)]
pub enum Die {
    D4,
    D6,
    D8,
    D10,
    D12,
    D20,
    D100,
}

impl Die {
    /// Number of sides of this die.
    pub open spec fn spec_sides(&self) -> u8 {
        match self {
            Die::D4 => 4,
            Die::D6 => 6,
            Die::D8 => 8,
            Die::D10 => 10,
            Die::D12 => 12,
            Die::D20 => 20,
            Die::D100 => 100,
        }
    }

    /// The die with that many sides, if there is one.
    pub open spec fn spec_new(sides: u8) -> Option<Die> {
        if sides == 4 {
            Some(Die::D4)
        } else if sides == 6 {
            Some(Die::D6)
        } else if sides == 8 {
            Some(Die::D8)
        } else if sides == 10 {
            Some(Die::D10)
        } else if sides == 12 {
            Some(Die::D12)
        } else if sides == 20 {
            Some(Die::D20)
        } else if sides == 100 {
            Some(Die::D100)
        } else {
            None
        }
    }

    /// A die is made from a number exactly if that is the number of its sides.
    pub proof fn lemma_new_by_sides(sides: u8, die: Die)
        ensures
            Die::spec_new(sides) == Some(die) <==> die.spec_sides() == sides,
    {
    }

    /// The die with that many sides, if there is one.
    pub fn new(sides: u8) -> (die: Option<Self>)
        ensures
            die == Die::spec_new(sides),
    {
        match sides {
            4 => Some(Die::D4),
            6 => Some(Die::D6),
            8 => Some(Die::D8),
            10 => Some(Die::D10),
            12 => Some(Die::D12),
            20 => Some(Die::D20),
            100 => Some(Die::D100),
            _ => None,
        }
    }

    /// Number of sides of this die.
    #[verifier::when_used_as_spec(spec_sides)]
    pub fn sides(&self) -> (n: u8)
        ensures
            n == self.spec_sides(),
    {
        match self {
            Die::D4 => 4,
            Die::D6 => 6,
            Die::D8 => 8,
            Die::D10 => 10,
            Die::D12 => 12,
            Die::D20 => 20,
            Die::D100 => 100,
        }
    }

    /// Rolls the die: some face from 1 to the number of sides comes up.
    pub fn roll(&self) -> (face: u8)
        ensures
            1 <= face <= self.spec_sides(),
    {
        random_between(1, self.sides() as usize) as u8
    }
}

} // verus!
