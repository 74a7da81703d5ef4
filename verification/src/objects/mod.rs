//! Object segmentation back-ends.

pub mod detector;
pub mod prompt;
pub mod segmenter;
