//! Run metadata written next to a project.

use vstd::prelude::*;

verus! {

/// Summary of a build run.
#[derive(Debug, Clone)]
pub struct RunManifest {
    pub project: String,
    pub calibration: String,
    pub frames: usize,
    pub pairs: usize,
    pub config_hash: String,
}

} // verus!
