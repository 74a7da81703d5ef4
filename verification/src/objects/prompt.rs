//! Promptable segmentation: a text prompt selects what to mask.

use vstd::prelude::*;
use crate::error::AppError;
use crate::image::DecodedImage;

verus! {

/// Segments the region a text prompt describes, as a mask of the image's size.
pub trait PromptableSegmenter: Send + Sync {
    fn segment_prompt(&self, image: &DecodedImage, prompt: &str) -> (r: Result<Vec<u8>, AppError>)
        requires
            image.width * image.height <= u32::MAX,
    ;
}

/// Placeholder segmenter that masks nothing.
pub struct DummyPromptSegmenter;

impl PromptableSegmenter for DummyPromptSegmenter {
    fn segment_prompt(&self, image: &DecodedImage, prompt: &str) -> (r: Result<Vec<u8>, AppError>)
        ensures
            r matches Ok(m) && m@.len() == image.width * image.height && forall|i: int|
                0 <= i < m@.len() ==> #[trigger] m@[i] == 0,
    {
        let n: usize = (image.width * image.height) as usize;
        let mut m: Vec<u8> = Vec::new();
        let mut i: usize = 0;
        while i < n
            invariant
                n == image.width * image.height,
                i <= n,
                m@.len() == i,
                forall|k: int| 0 <= k < i ==> #[trigger] m@[k] == 0,
            decreases n - i,
        {
            m.push(0);
            i = i + 1;
        }
        Ok(m)
    }
}

} // verus!
