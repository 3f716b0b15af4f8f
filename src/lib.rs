//! A 2048-style tile-merging puzzle modelled as a strictly alternating
//! two-sided turn process: a mover that slides the board and an environment
//! that places new tiles.

pub mod board;
mod chance;
pub mod engine;
pub mod rules;
