//! A probabilistic cellular automaton on a torus: the standard birth and
//! survival rule decides each cell's next state, and that outcome is kept or
//! flipped at random. Runs are repeated in launches, and per-cell alive
//! counts are gathered across launches.

pub mod cell;
pub mod grid;
pub mod laws;
pub mod types;
