//! Decoded images and pixel-level image operations.

pub mod clean;
pub mod resize;

use vstd::prelude::*;

verus! {

/// A decoded image: `width`×`height` pixels, RGB8, row-major.
#[derive(Debug, Clone)]
pub struct DecodedImage {
    pub width: u32,
    pub height: u32,
    pub data: Vec<u8>,
}

} // verus!
