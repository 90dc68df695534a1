//! Grid/turn resolution engine for a sliding-tile puzzle: coin tiles merge in
//! doublings, bomb pairs detonate in a cross-shaped blast, walls block, and a
//! turn controller drives the validate / apply / spawn / game-over cycle.

pub mod board;
pub mod grid;
pub mod laws;
pub mod moves;
mod rng;
pub mod score;
pub mod tile;
pub mod turn;
