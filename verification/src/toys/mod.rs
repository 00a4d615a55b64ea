//! The integer logic of the smaller toys: grids, generators, pixels and
//! the rules that move things on them.

pub mod maze;
pub mod ants;
pub mod noise;
pub mod canvas;
pub mod lander;
pub mod frog;
pub mod pipes;
pub mod rain;
pub mod ghosts;
pub mod aurora;
pub mod orrery;
pub mod matrix;
pub mod colony;
pub mod frog_game;
pub mod ghost_screen;
pub mod pipe_frame;
pub mod fountain;
pub mod palette;
pub mod newton;
pub mod grayscott;
pub mod fluid;
pub mod aquarium;
pub mod orbits;
pub mod orrery_panel;
