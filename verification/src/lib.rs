//! Procedural terrain on a hexagonal grid.
//!
//! A world is built in three stages: every cell is classified from its noise
//! samples, rivers are carved downhill from high-relief cells, and the result
//! is shaded into a flat RGBA buffer. All quantities that are fractions of one
//! (altitudes, temperatures, biases) are fixed-point numbers counted in
//! millionths, so that every rule is stated and proved over integers.

pub mod cell;
pub mod channels;
pub mod classify;
pub mod color;
pub mod dice;
pub mod grid;
pub mod hex;
pub mod river;
pub mod world;
