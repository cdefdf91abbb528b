//! Roulette wheels and their pockets.

use vstd::prelude::*;
use crate::random::random_between;

verus! {

/// The colour of a pocket.
#[derive(Clone, Copy, Debug, PartialEq, Structural)]
pub enum RouletteColor {
    Red,
    Black,
    Green,
}

impl RouletteColor {
    /// The colours, in a fixed order.
    pub open spec fn spec_all() -> Seq<RouletteColor> {
        seq![RouletteColor::Red, RouletteColor::Black, RouletteColor::Green]
    }

    /// The name of a colour.
    pub open spec fn spec_as_str(&self) -> Seq<char> {
        match self {
            RouletteColor::Red => "Red"@,
            RouletteColor::Black => "Black"@,
            RouletteColor::Green => "Green"@,
        }
    }

    /// The colours, in a fixed order.
    pub fn all() -> (colors: &'static [RouletteColor])
        ensures
            colors@ == RouletteColor::spec_all(),
    {
        &[RouletteColor::Red, RouletteColor::Black, RouletteColor::Green]
    }

    /// The name of this colour.
    pub fn as_str(&self) -> (name: &'static str)
        ensures
            name@ == self.spec_as_str(),
    {
        match self {
            RouletteColor::Red => "Red",
            RouletteColor::Black => "Black",
            RouletteColor::Green => "Green",
        }
    }
}

/// The numbers from 1 to 36 whose pockets are red.
pub open spec fn red_numbers() -> Set<u16> {
    set![1, 3, 5, 7, 9, 12, 14, 16, 18, 19, 21, 23, 25, 27, 30, 32, 34, 36]
}

/// The colour of pocket `number`: the zeros (0, and 37 and 38 for the double and the
/// triple zero) are green, the red numbers red, the others black.
pub open spec fn pocket_color(number: u16) -> RouletteColor {
    if number == 0 || number >= 37 {
        RouletteColor::Green
    } else if red_numbers().contains(number) {
        RouletteColor::Red
    } else {
        RouletteColor::Black
    }
}

/// The pocket with that number.
pub open spec fn pocket(number: u16) -> RouletteNumber {
    RouletteNumber { number, color: pocket_color(number) }
}

/// A pocket of the wheel: its number and its colour.
#[derive(Clone, Copy, Debug, PartialEq, Structural)]
pub struct RouletteNumber {
    pub number: u16,
    pub color: RouletteColor,
}

impl RouletteNumber {
    /// The pocket with that number, for the numbers up to 38 (37 and 38 stand for the
    /// double and the triple zero); there is none above.
    pub fn new(number: u16) -> (made: Option<Self>)
        ensures
            made == (if number <= 38 {
                Some(pocket(number))
            } else {
                None
            }),
    {
        match number {
            0 | 37 | 38 => Some(RouletteNumber { number, color: RouletteColor::Green }),
            1 | 3 | 5 | 7 | 9 | 12 | 14 | 16 | 18 | 19 | 21 | 23 | 25 | 27 | 30 | 32 | 34 | 36 => Some(
                RouletteNumber { number, color: RouletteColor::Red },
            ),
            2 | 4 | 6 | 8 | 10 | 11 | 13 | 15 | 17 | 20 | 22 | 24 | 26 | 28 | 29 | 31 | 33 | 35 => Some(
                RouletteNumber { number, color: RouletteColor::Black },
            ),
            _ => None,
        }
    }
}

/// The kinds of wheel, told apart by their zeros.
pub enum WheelType {
    /// With 0 and 00.
    American,
    /// With 0 alone.
    European,
    /// With 0, 00 and 000.
    TripleZero,
}

impl WheelType {
    /// The kinds of wheel, in a fixed order.
    pub open spec fn spec_all() -> Seq<WheelType> {
        seq![WheelType::American, WheelType::European, WheelType::TripleZero]
    }

    /// Number of pockets of a wheel of this kind.
    pub open spec fn pockets(&self) -> nat {
        match self {
            WheelType::American => 38,
            WheelType::European => 37,
            WheelType::TripleZero => 39,
        }
    }

    /// The pockets of a wheel of this kind, by number.
    pub open spec fn spec_numbers(&self) -> Seq<RouletteNumber> {
        Seq::new(self.pockets(), |i: int| pocket(i as u16))
    }

    /// The kinds of wheel, in a fixed order.
    pub fn all() -> (kinds: &'static [WheelType])
        ensures
            kinds@ == WheelType::spec_all(),
    {
        &[WheelType::American, WheelType::European, WheelType::TripleZero]
    }

    /// The pockets of a wheel of this kind, by number.
    pub fn numbers(&self) -> (pockets: Vec<RouletteNumber>)
        ensures
            pockets@ == self.spec_numbers(),
    {
        let end: u16 = match self {
            WheelType::American => 38,
            WheelType::European => 37,
            WheelType::TripleZero => 40,
        };
        let mut pockets: Vec<RouletteNumber> = Vec::new();
        let mut number: u16 = 0;
        while number < end
            invariant
                number <= end <= 40,
                end == 40 || end == self.pockets(),
                end == 40 ==> self.pockets() == 39,
                pockets@ == Seq::new(
                    if number <= 39 {
                        number as nat
                    } else {
                        39
                    },
                    |i: int| pocket(i as u16),
                ),
            decreases end - number,
        {
            if let Some(made) = RouletteNumber::new(number) {
                pockets.push(made);
            }
            number += 1;
        }
        pockets
    }
}

/// A roulette wheel.
pub struct RouletteWheel {
    pub wheel: WheelType,
}

impl RouletteWheel {
    pub fn new(wheel: WheelType) -> (made: Self)
        ensures
            made.wheel == wheel,
    {
        RouletteWheel { wheel }
    }

    /// Spins the wheel: the ball comes to rest in one of its pockets.
    pub fn spin(&self) -> (drawn: RouletteNumber)
        ensures
            self.wheel.spec_numbers().contains(drawn),
    {
        let numbers = self.wheel.numbers();
        let index = random_between(0, numbers.len() - 1);
        numbers[index]
    }
}

} // verus!
