//! The capture's project layout.

use vstd::prelude::*;

verus! {

/// The two lens recordings of a capture and the project directory built from them.
#[derive(Debug, Clone)]
pub struct Insta360Capture {
    pub front: String,
    pub rear: String,
    pub project_dir: String,
}

} // verus!
