//! The table games.

pub mod baccarat;
pub mod blackjack;
pub mod craps;
