//! Verified game logic for a collection of terminal toys: the lightcycle
//! arena, a blackjack table, and the integer helpers of the other toys.

pub mod rng;
pub mod lightcycle;
pub mod blackjack;
pub mod pixels;
pub mod toys;
