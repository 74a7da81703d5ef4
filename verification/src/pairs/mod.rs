//! Candidate image pairs for matching.

pub mod temporal;
pub mod graph;
pub mod geometry;
pub mod names;
