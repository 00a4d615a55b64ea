//! The lightcycle arena: a grid on which cycles leave trails, steered by a
//! player and by AI drivers.

pub mod util;
pub mod sim;
pub mod ai;
pub mod laws;
pub mod input;
pub mod walls;
pub mod render;
