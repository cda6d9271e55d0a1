//! A verified core for an N-body gravity simulator.
//!
//! Scalars are exact rational numbers over `i128`, so every physical law the
//! simulation relies on (action/reaction symmetry, momentum bookkeeping,
//! deterministic stepping) can be stated and proved rather than sampled.

pub mod arith;
pub mod rat;
pub mod vec3;
pub mod body;
pub mod sim;
pub mod laws;
