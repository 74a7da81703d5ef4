//! Insta360 dual-lens capture handling.

pub mod files;
pub mod sync;
pub mod telemetry;
