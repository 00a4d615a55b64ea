//! The blackjack table: cards and hands, the shoe, the layout of the felt,
//! the animation queue and the state machine of a round.

pub mod cards;
pub mod text;
pub mod table;
pub mod model;
pub mod keeps;
pub mod game;
pub mod laws;
pub mod screen;
pub mod render;
pub mod overlay;
