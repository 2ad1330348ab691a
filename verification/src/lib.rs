//! A verified core for a real-time two-dimensional circle collision
//! simulation: bodies move over integer world coordinates, are kept inside a
//! rectangular arena, and pairwise overlaps are found through a spatial index
//! and resolved with positional corrections and equal-mass impulses.

pub mod math;
pub mod body;
pub mod stages;
pub mod broad;
pub mod narrow;
pub mod resolve;
pub mod world;
pub mod laws;
