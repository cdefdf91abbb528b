//! Tabletop casino games over a shared card source and chip ledger.

pub mod bet;
pub mod cards;
pub mod dice;
pub mod error;
pub mod games;
pub mod ledger;
pub mod player;
pub mod random;
pub mod roulette;
pub mod slots;
pub mod text;
pub mod token;
