//! The source section of the keyframe manifest.

use vstd::prelude::*;

verus! {

/// Where the keyframes came from.
#[derive(Debug, Clone)]
pub struct Source {
    pub video_a: String,
    pub video_b: String,
    pub camera_model: Option<String>,
    pub duration_ms: i64,
}

} // verus!
