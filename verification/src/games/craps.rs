//! Craps: the come-out roll, the point, and the shooter.

use vstd::prelude::*;
use crate::dice::Die;
use crate::player::Player;

verus! {

/// The variants of the game.
#[derive(Clone, Copy, Debug, PartialEq, Eq, Structural)]
pub enum CrapsType {
    StandardCraps,
    CraplessCraps,
    EasyCraps,
}

/// Where a round of craps stands.
#[derive(Clone, Copy, Debug, PartialEq, Eq, Structural)]
pub enum GameState {
    /// Before the come-out roll.
    ComeOut,
    /// A point is set and has to be rolled again.
    PointSet(u8),
    /// The point was rolled again.
    PointWin,
    /// A 7 came before the point.
    Lose,
    /// The come-out roll was 2, 3 or 12.
    Craps,
    /// The come-out roll was 7 or 11.
    NaturalWin,
}

/// A roll of two dice, as the table reports it.
#[derive(Clone, Copy, Debug, PartialEq, Eq, Structural)]
pub struct DiceRoll {
    pub d1: u8,
    pub d2: u8,
    pub total: u8,
    pub hard_way: bool,
}

/// A hard way: both dice show the same face, and the total is 4, 6, 8 or 10.
pub open spec fn hard_way(d1: u8, d2: u8, total: u8) -> bool {
    d1 == d2 && (total == 4 || total == 6 || total == 8 || total == 10)
}

/// The come-out roll of the standard and the easy game: 7 and 11 win at once, 2, 3 and
/// 12 are craps, the other totals of two dice set the point. Any other number changes
/// nothing.
pub open spec fn standard_come_out(state: GameState, total: u8) -> GameState {
    if total == 7 || total == 11 {
        GameState::NaturalWin
    } else if total == 2 || total == 3 || total == 12 {
        GameState::Craps
    } else if 4 <= total <= 10 {
        GameState::PointSet(total)
    } else {
        state
    }
}

/// The come-out roll of the crapless game: 7 and 11 win at once, every other total of
/// two dice sets the point. Any other number changes nothing.
pub open spec fn crapless_come_out(state: GameState, total: u8) -> GameState {
    if total == 7 || total == 11 {
        GameState::NaturalWin
    } else if 2 <= total <= 12 {
        GameState::PointSet(total)
    } else {
        state
    }
}

/// The come-out roll of the given variant.
pub open spec fn come_out(game_type: CrapsType, state: GameState, total: u8) -> GameState {
    match game_type {
        CrapsType::StandardCraps | CrapsType::EasyCraps => standard_come_out(state, total),
        CrapsType::CraplessCraps => crapless_come_out(state, total),
    }
}

/// A roll while a point is set: the point wins, a 7 loses, anything else changes
/// nothing. Without a point the roll changes nothing.
pub open spec fn point_step(state: GameState, roll: u8) -> GameState {
    match state {
        GameState::PointSet(point) => if roll == point {
            GameState::PointWin
        } else if roll == 7 {
            GameState::Lose
        } else {
            state
        },
        _ => state,
    }
}

/// The seat after `shooter` at a table of `players`, going round.
pub open spec fn next_shooter(shooter: usize, players: nat) -> int {
    (shooter + 1) % (players as int)
}

/// A table of craps.
pub struct CrapsGame {
    pub game_type: CrapsType,
    pub game_state: GameState,
    /// Index of the shooter among the players.
    pub shooter: usize,
    pub players: Vec<Player>,
}

impl CrapsGame {
    /// A table before its first come-out roll, the first player shooting.
    pub fn new(game_type: CrapsType, players: Vec<Player>) -> (game: Self)
        ensures
            game.game_type == game_type,
            game.game_state == GameState::ComeOut,
            game.shooter == 0,
            game.players == players,
    {
        CrapsGame { game_type, game_state: GameState::ComeOut, shooter: 0, players }
    }

    /// Passes the dice to the next player, going round the table.
    pub fn advance_shooter(&mut self)
        requires
            old(self).players@.len() > 0,
        ensures
            final(self).shooter == next_shooter(old(self).shooter, old(self).players@.len()),
            final(self).game_type == old(self).game_type,
            final(self).game_state == old(self).game_state,
            final(self).players == old(self).players,
    {
        let seats = self.players.len();
        let seat = self.shooter % seats;
        proof {
            let n = seats as int;
            vstd::arithmetic::div_mod::lemma_add_mod_noop(self.shooter as int, 1, n);
            vstd::arithmetic::div_mod::lemma_mod_bound(self.shooter as int, n);
            if n == 1 {
                assert((seat + 0) % 1 == 0);
            } else {
                vstd::arithmetic::div_mod::lemma_small_mod(1, n as nat);
                if seat + 1 == n {
                    vstd::arithmetic::div_mod::lemma_mod_self_0(n);
                } else {
                    vstd::arithmetic::div_mod::lemma_small_mod((seat + 1) as nat, n as nat);
                }
            }
        }
        self.shooter = if seat + 1 == seats {
            0
        } else {
            seat + 1
        };
    }

    /// Starts the next round: back to the come-out roll, with the next shooter.
    pub fn reset_game(&mut self)
        requires
            old(self).players@.len() > 0,
        ensures
            final(self).game_state == GameState::ComeOut,
            final(self).shooter == next_shooter(old(self).shooter, old(self).players@.len()),
            final(self).game_type == old(self).game_type,
            final(self).players == old(self).players,
    {
        self.game_state = GameState::ComeOut;
        self.advance_shooter();
    }

    /// Whether the dice `d1` and `d2`, adding up to `total`, came the hard way.
    pub fn is_hardway(&self, d1: u8, d2: u8, total: u8) -> (hard: bool)
        ensures
            hard == hard_way(d1, d2, total),
    {
        (d1 == d2) && (total == 4 || total == 6 || total == 8 || total == 10)
    }

    /// Rolls two dice for the come-out and moves the game by their total.
    pub fn come_out_roll(&mut self) -> (roll: DiceRoll)
        ensures
            1 <= roll.d1 <= 6,
            1 <= roll.d2 <= 6,
            roll.total == roll.d1 + roll.d2,
            roll.hard_way == hard_way(roll.d1, roll.d2, roll.total),
            final(self).game_state == come_out(
                old(self).game_type,
                old(self).game_state,
                roll.total,
            ),
            final(self).game_type == old(self).game_type,
            final(self).shooter == old(self).shooter,
            final(self).players == old(self).players,
    {
        let d1 = Die::D6.roll();
        let d2 = Die::D6.roll();
        let total = d1 + d2;
        let hard_way = self.is_hardway(d1, d2, total);
        self.resolve_come_out(total);
        DiceRoll { d1, d2, total, hard_way }
    }

    /// Moves the game by a come-out roll of `total`, by the rules of its variant.
    pub fn resolve_come_out(&mut self, total: u8)
        ensures
            final(self).game_state == come_out(old(self).game_type, old(self).game_state, total),
            final(self).game_type == old(self).game_type,
            final(self).shooter == old(self).shooter,
            final(self).players == old(self).players,
    {
        match self.game_type {
            CrapsType::StandardCraps | CrapsType::EasyCraps => self.standard_craps_come_out(total),
            CrapsType::CraplessCraps => self.crapless_craps_come_out(total),
        }
    }

    /// Moves the game by a come-out roll of `total`, by the standard rules.
    pub fn standard_craps_come_out(&mut self, total: u8)
        ensures
            final(self).game_state == standard_come_out(old(self).game_state, total),
            final(self).game_type == old(self).game_type,
            final(self).shooter == old(self).shooter,
            final(self).players == old(self).players,
    {
        match total {
            7 | 11 => self.game_state = GameState::NaturalWin,
            2 | 3 | 12 => self.game_state = GameState::Craps,
            4 | 5 | 6 | 8 | 9 | 10 => self.game_state = GameState::PointSet(total),
            _ => {},
        }
    }

    /// Moves the game by a come-out roll of `total`, by the crapless rules.
    pub fn crapless_craps_come_out(&mut self, total: u8)
        ensures
            final(self).game_state == crapless_come_out(old(self).game_state, total),
            final(self).game_type == old(self).game_type,
            final(self).shooter == old(self).shooter,
            final(self).players == old(self).players,
    {
        match total {
            7 | 11 => self.game_state = GameState::NaturalWin,
            2 | 3 | 4 | 5 | 6 | 8 | 9 | 10 | 12 => self.game_state = GameState::PointSet(total),
            _ => {},
        }
    }

    /// Moves the game by a roll of `roll` while a point is set.
    pub fn point_roll(&mut self, roll: u8)
        ensures
            final(self).game_state == point_step(old(self).game_state, roll),
            final(self).game_type == old(self).game_type,
            final(self).shooter == old(self).shooter,
            final(self).players == old(self).players,
    {
        if let GameState::PointSet(point) = self.game_state {
            if roll == point {
                self.game_state = GameState::PointWin;
            } else if roll == 7 {
                self.game_state = GameState::Lose;
            }
        }
    }
}

} // verus!
