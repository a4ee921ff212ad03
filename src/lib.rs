//! Overworld model of a tile-based game: canonical assets, paired doors,
//! sprites of four kinds, and a two-phase tick.

pub mod registry;
pub mod door;
pub mod sprite;
pub mod world;
