//! Mask feathering. Masks stay binary for photogrammetry, so feathering widens the
//! excluded area by half the radius.

use vstd::prelude::*;
use vstd::slice::slice_to_vec;
use crate::mask::morphology::{
    capped_radius, chessboard_dilation, dilate, dilated, near_foreground, saturated, within_chessboard,
};

verus! {

/// The feathered mask: unchanged for radius 0, otherwise dilated by `radius / 2`.
pub open spec fn feathered(mask: Seq<u8>, w: u32, h: u32, radius: u32) -> Seq<u8> {
    if radius == 0 {
        mask
    } else {
        dilated(mask, w, h, radius / 2)
    }
}

/// Feathers a mask's edge by dilating it with half the radius.
pub fn feather(mask: &[u8], w: u32, h: u32, radius: u32) -> (r: Vec<u8>)
    requires
        radius / 2 > 0 ==> mask@.len() >= w * h && w + h <= u32::MAX,
    ensures
        r@ == feathered(mask@, w, h, radius),
        r@.len() == mask@.len(),
        radius / 2 > 0 ==> forall|i: int| 0 <= i < r@.len() ==> #[trigger] r@[i] == 0 || r@[i] == 255,
        radius / 2 > 0 ==> forall|i: int| 0 <= i < w * h && mask@[i] > 0 ==> #[trigger] r@[i] == 255,
{
    if radius == 0 {
        return slice_to_vec(mask);
    }
    dilate(mask, w, h, radius / 2)
}

/// Radii 0 and 1 leave the mask unchanged.
pub proof fn lemma_feather_small_radius(mask: Seq<u8>, w: u32, h: u32, radius: u32)
    requires
        radius <= 1,
    ensures
        feathered(mask, w, h, radius) == mask,
{
}

/// Feathering with radius `r >= 2` marks exactly the pixels within chessboard distance
/// `r / 2` of a marked pixel (below the distance saturation bound): a pixel is 255 when
/// some non-zero pixel lies at most `r / 2` columns and `r / 2` rows away, and 0 when
/// every non-zero pixel is farther.
pub proof fn lemma_feather_reach(mask: Seq<u8>, w: u32, h: u32, radius: u32, p: int)
    requires
        radius >= 2,
        radius / 2 < 255,
        radius / 2 < w + h,
        mask.len() >= w * h,
        0 <= p < w * h,
    ensures
        feathered(mask, w, h, radius)[p] == 255 <==> exists|q: int|
            0 <= q < w * h && mask[q] != 0 && -(radius / 2) <= #[trigger] (p % (w as int) - q % (w as int)) <= radius / 2
                && -(radius / 2) <= p / (w as int) - q / (w as int) <= radius / 2,
        feathered(mask, w, h, radius)[p] == 0 <==> !exists|q: int|
            0 <= q < w * h && mask[q] != 0 && -(radius / 2) <= #[trigger] (p % (w as int) - q % (w as int)) <= radius / 2
                && -(radius / 2) <= p / (w as int) - q / (w as int) <= radius / 2,
{
    let k = capped_radius(radius / 2);
    assert(k as int == radius / 2);
    assert(!saturated(w, h, k));
    let f = feathered(mask, w, h, radius);
    assert(f == chessboard_dilation(mask, w, h, k));
    if near_foreground(mask, w, h, p, k) {
        let q = choose|q: int| 0 <= q < w * h && mask[q] != 0 && #[trigger] within_chessboard(w, p, q, k);
        assert(-(radius / 2) <= p % (w as int) - q % (w as int) <= radius / 2);
    }
    if exists|q: int|
        0 <= q < w * h && mask[q] != 0 && -(radius / 2) <= #[trigger] (p % (w as int) - q % (w as int)) <= radius / 2
            && -(radius / 2) <= p / (w as int) - q / (w as int) <= radius / 2 {
        let q = choose|q: int|
            0 <= q < w * h && mask[q] != 0 && -(radius / 2) <= #[trigger] (p % (w as int) - q % (w as int)) <= radius / 2
                && -(radius / 2) <= p / (w as int) - q / (w as int) <= radius / 2;
        assert(within_chessboard(w, p, q, k));
    }
}

} // verus!
