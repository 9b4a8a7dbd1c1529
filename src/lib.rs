//! Simulation core of a grid-based snake game: the segment chain, the
//! per-tick movement rule, collision detection, food placement and
//! direction control.

pub mod chain;
pub mod game;
pub mod grid;
pub mod rules;
