//! Sections of the keyframe manifest read by the mask generator, and of the mask
//! manifest it writes.

use vstd::prelude::*;

verus! {

/// The source section of a keyframe manifest.
#[derive(Debug, Clone)]
pub struct KeyframesSource {
    pub video_a: String,
    pub video_b: String,
    pub camera_model: Option<String>,
    pub duration_ms: i64,
}

/// How masks were produced.
#[derive(Debug, Clone)]
pub struct ProcessingMeta {
    pub people_backend: String,
    pub people_quality: String,
    pub shadow_mode: String,
    pub temporal_propagation: bool,
    pub preset: Option<String>,
    pub colmap_masks: Option<String>,
    pub colmap_invert: bool,
}

} // verus!
