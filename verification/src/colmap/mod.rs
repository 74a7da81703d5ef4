//! Decisions behind the COLMAP database and its input files.

pub mod pair_list;
pub mod cameras;
pub mod rigs;
pub mod schema;
