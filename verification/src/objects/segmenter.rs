//! Segmentation of a detected region of interest.

use vstd::prelude::*;
use crate::error::AppError;
use crate::image::DecodedImage;
use crate::mask::rect::{fill_rect, is_rect_mask};

verus! {

/// Segments the object inside `bbox` (`[x, y, w, h]`), as a mask of the image's size.
pub trait RoiSegmenter: Send + Sync {
    fn segment_roi(&self, image: &DecodedImage, bbox: [u32; 4]) -> (r: Result<Vec<u8>, AppError>)
        requires
            image.width * image.height <= u32::MAX,
    ;
}

/// Placeholder segmenter that masks the whole box, padded by 2 pixels and clipped to
/// the image (the box's far edge is computed without overflow).
pub struct DummyRoiSegmenter;

/// Padding added around the box on every side.
pub open spec fn roi_pad() -> int {
    2
}

impl RoiSegmenter for DummyRoiSegmenter {
    fn segment_roi(&self, image: &DecodedImage, bbox: [u32; 4]) -> (r: Result<Vec<u8>, AppError>)
        ensures
            r matches Ok(m) && is_rect_mask(
                m@,
                image.width as int,
                image.height as int,
                if bbox[0] >= 2 { bbox[0] - 2 } else { 0 },
                if bbox[1] >= 2 { bbox[1] - 2 } else { 0 },
                if bbox[0] + bbox[2] + 2 < image.width { bbox[0] + bbox[2] + 2 } else { image.width as int },
                if bbox[1] + bbox[3] + 2 < image.height { bbox[1] + bbox[3] + 2 } else { image.height as int },
            ),
    {
        let (w, h) = (image.width, image.height);
        let (x, y, bw, bh) = (bbox[0], bbox[1], bbox[2], bbox[3]);
        let pad: u32 = 2;
        let x0 = x.saturating_sub(pad);
        let y0 = y.saturating_sub(pad);
        let x_end: u64 = x as u64 + bw as u64 + pad as u64;
        let y_end: u64 = y as u64 + bh as u64 + pad as u64;
        let x1: u32 = if x_end < w as u64 { x_end as u32 } else { w };
        let y1: u32 = if y_end < h as u64 { y_end as u32 } else { h };
        Ok(fill_rect(w, h, x0, y0, x1, y1))
    }
}

} // verus!
