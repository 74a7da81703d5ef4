//! Dilation, erosion and closing of masks under the chessboard (L∞) distance.
//!
//! The pixel work is done by `imageproc`; a pixel counts as foreground when it is
//! non-zero, and results hold only 0 and 255.

use vstd::prelude::*;
use vstd::slice::slice_to_vec;

verus! {

/// Pixels `p` and `q` of an image `w` pixels wide (row-major indices) are at most `k`
/// apart in both columns and rows: their chessboard distance is at most `k`.
pub open spec fn within_chessboard(w: u32, p: int, q: int, k: u8) -> bool {
    let dx = p % (w as int) - q % (w as int);
    let dy = p / (w as int) - q / (w as int);
    -(k as int) <= dx <= k && -(k as int) <= dy <= k
}

/// The distances of `imageproc`'s transform saturate at `min(w + h, 255)`; when `k`
/// reaches that bound every pixel counts as near.
pub open spec fn saturated(w: u32, h: u32, k: u8) -> bool {
    w + h <= k || k == 255
}

/// Some non-zero pixel of the `w`×`h` image is within distance `k` of pixel `p`.
pub open spec fn near_foreground(mask: Seq<u8>, w: u32, h: u32, p: int, k: u8) -> bool {
    exists|q: int| 0 <= q < w * h && mask[q] != 0 && #[trigger] within_chessboard(w, p, q, k)
}

/// Some zero pixel of the `w`×`h` image is within distance `k` of pixel `p`.
pub open spec fn near_background(mask: Seq<u8>, w: u32, h: u32, p: int, k: u8) -> bool {
    exists|q: int| 0 <= q < w * h && mask[q] == 0 && #[trigger] within_chessboard(w, p, q, k)
}

/// What `imageproc::morphology::dilate` with `Norm::LInf` returns (as a raw buffer) for
/// the `w`×`h` gray image held in `mask`: each pixel within distance `k` of a non-zero
/// pixel becomes 255 and every other pixel 0 (all pixels become 255 once `k` reaches
/// the saturation bound); buffer bytes past the image are mapped by `v <= k`.
pub open spec fn chessboard_dilation(mask: Seq<u8>, w: u32, h: u32, k: u8) -> Seq<u8> {
    Seq::new(
        mask.len(),
        |p: int|
            if p < w * h {
                if saturated(w, h, k) || near_foreground(mask, w, h, p, k) {
                    255u8
                } else {
                    0u8
                }
            } else if mask[p] <= k {
                255u8
            } else {
                0u8
            },
    )
}

/// What `imageproc::morphology::erode` with `Norm::LInf` returns (as a raw buffer) for
/// the `w`×`h` gray image held in `mask`: each pixel within distance `k` of a zero
/// pixel becomes 0 and every other pixel 255 (all pixels become 0 once `k` reaches the
/// saturation bound); buffer bytes past the image are mapped by `v <= k`.
pub open spec fn chessboard_erosion(mask: Seq<u8>, w: u32, h: u32, k: u8) -> Seq<u8> {
    Seq::new(
        mask.len(),
        |p: int|
            if p < w * h {
                if saturated(w, h, k) || near_background(mask, w, h, p, k) {
                    0u8
                } else {
                    255u8
                }
            } else if mask[p] <= k {
                0u8
            } else {
                255u8
            },
    )
}

/// Calls `imageproc::morphology::dilate` with `Norm::LInf` on the `w`×`h` image
/// holding `mask` (`image::GrayImage::from_raw`, which accepts a buffer of at least
/// `w * h` bytes) and returns its raw buffer. The distance transform inside adds the
/// width and the height as `u32`, so their sum must fit.
///
/// Claimed from imageproc's documentation ("sets all pixels within distance `k` of a
/// foreground pixel to white", foreground being non-zero) and source: the clone keeps
/// the buffer; the two-pass L∞ distance transform gives each pixel its distance to the
/// nearest non-zero pixel, saturated at `min(w + h, 255)`, and touches only the first
/// `w * h` bytes; then every byte `d` of the buffer becomes `if d <= k { 255 } else { 0 }`.
#[verifier::external_body]
fn dilate_chessboard(mask: &[u8], w: u32, h: u32, k: u8) -> (r: Vec<u8>)
    requires
        mask@.len() >= w * h,
        w + h <= u32::MAX,
    ensures
        r@ == chessboard_dilation(mask@, w, h, k),
{
    let img = image::GrayImage::from_raw(w, h, mask.to_vec()).unwrap();
    imageproc::morphology::dilate(&img, imageproc::distance_transform::Norm::LInf, k).into_raw()
}

/// Calls `imageproc::morphology::erode` with `Norm::LInf` on the `w`×`h` image
/// holding `mask` and returns its raw buffer (the sum of width and height must fit in
/// `u32`, as for dilation).
///
/// Claimed from imageproc's documentation ("sets all pixels within distance `k` of a
/// background pixel to black") and source: as for dilation, with distances to the
/// nearest zero pixel and every byte `d` becoming `if d <= k { 0 } else { 255 }`.
#[verifier::external_body]
fn erode_chessboard(mask: &[u8], w: u32, h: u32, k: u8) -> (r: Vec<u8>)
    requires
        mask@.len() >= w * h,
        w + h <= u32::MAX,
    ensures
        r@ == chessboard_erosion(mask@, w, h, k),
{
    let img = image::GrayImage::from_raw(w, h, mask.to_vec()).unwrap();
    imageproc::morphology::erode(&img, imageproc::distance_transform::Norm::LInf, k).into_raw()
}

/// The structuring distance used for a radius: the radius, capped at 255.
pub open spec fn capped_radius(radius: u32) -> u8 {
    if radius > 255 {
        255
    } else {
        radius as u8
    }
}

/// The dilation of a mask by `radius`; radius 0 leaves it unchanged.
pub open spec fn dilated(mask: Seq<u8>, w: u32, h: u32, radius: u32) -> Seq<u8> {
    if radius == 0 {
        mask
    } else {
        chessboard_dilation(mask, w, h, capped_radius(radius))
    }
}

/// The erosion of a mask by `radius`; radius 0 leaves it unchanged.
pub open spec fn eroded(mask: Seq<u8>, w: u32, h: u32, radius: u32) -> Seq<u8> {
    if radius == 0 {
        mask
    } else {
        chessboard_erosion(mask, w, h, capped_radius(radius))
    }
}

fn cap_radius(radius: u32) -> (k: u8)
    ensures
        k == capped_radius(radius),
{
    if radius > 255 {
        255
    } else {
        radius as u8
    }
}

/// Grows the excluded area: every pixel within `radius` (chessboard distance) of a
/// non-zero pixel becomes 255. Radius 0 returns the mask unchanged.
pub fn dilate(mask: &[u8], w: u32, h: u32, radius: u32) -> (r: Vec<u8>)
    requires
        radius > 0 ==> mask@.len() >= w * h && w + h <= u32::MAX,
    ensures
        r@ == dilated(mask@, w, h, radius),
        r@.len() == mask@.len(),
        radius > 0 ==> forall|i: int| 0 <= i < r@.len() ==> #[trigger] r@[i] == 0 || r@[i] == 255,
        radius > 0 ==> forall|i: int| 0 <= i < w * h && mask@[i] > 0 ==> #[trigger] r@[i] == 255,
{
    if radius == 0 {
        return slice_to_vec(mask);
    }
    let k = cap_radius(radius);
    let r = dilate_chessboard(mask, w, h, k);
    assert forall|i: int| 0 <= i < w * h && mask@[i] > 0 implies #[trigger] r@[i] == 255 by {
        assert(within_chessboard(w, i, i, k));
    }
    r
}

/// Shrinks the excluded area: every pixel within `radius` (chessboard distance) of a
/// zero pixel becomes 0. Radius 0 returns the mask unchanged.
pub fn erode(mask: &[u8], w: u32, h: u32, radius: u32) -> (r: Vec<u8>)
    requires
        radius > 0 ==> mask@.len() >= w * h && w + h <= u32::MAX,
    ensures
        r@ == eroded(mask@, w, h, radius),
        r@.len() == mask@.len(),
        radius > 0 ==> forall|i: int| 0 <= i < r@.len() ==> #[trigger] r@[i] == 0 || r@[i] == 255,
        radius > 0 ==> forall|i: int| 0 <= i < w * h && mask@[i] == 0 ==> #[trigger] r@[i] == 0,
{
    if radius == 0 {
        return slice_to_vec(mask);
    }
    let k = cap_radius(radius);
    let r = erode_chessboard(mask, w, h, k);
    assert forall|i: int| 0 <= i < w * h && mask@[i] == 0 implies #[trigger] r@[i] == 0 by {
        assert(within_chessboard(w, i, i, k));
    }
    r
}

/// Closing: dilation followed by erosion with the same radius, which fills gaps
/// narrower than the radius.
pub fn close(mask: &[u8], w: u32, h: u32, radius: u32) -> (r: Vec<u8>)
    requires
        radius > 0 ==> mask@.len() >= w * h && w + h <= u32::MAX,
    ensures
        r@ == closed(mask@, w, h, radius),
        r@.len() == mask@.len(),
        radius > 0 ==> forall|i: int| 0 <= i < r@.len() ==> #[trigger] r@[i] == 0 || r@[i] == 255,
{
    let d = dilate(mask, w, h, radius);
    erode(d.as_slice(), w, h, radius)
}

/// Closing with radius 0 changes nothing.
pub proof fn lemma_close_radius_zero(mask: Seq<u8>, w: u32, h: u32)
    ensures
        eroded(dilated(mask, w, h, 0), w, h, 0) == mask,
{
}

/// The mask closed with `radius`: dilated, then eroded, by the same radius.
pub open spec fn closed(mask: Seq<u8>, w: u32, h: u32, radius: u32) -> Seq<u8> {
    eroded(dilated(mask, w, h, radius), w, h, radius)
}

/// Closing with `radius` does nothing (radius 0) or stays below the bound at which
/// `imageproc`'s distances saturate.
pub open spec fn closing_unsaturated(w: u32, h: u32, radius: u32) -> bool {
    radius == 0 || !saturated(w, h, capped_radius(radius))
}

/// Chessboard nearness is symmetric.
proof fn lemma_within_symmetric(w: u32, p: int, q: int, k: u8)
    ensures
        within_chessboard(w, p, q, k) == within_chessboard(w, q, p, k),
{
}

/// Closing never clears a marked pixel: every non-zero pixel of a `w`×`h` mask is
/// non-zero after closing.
pub proof fn lemma_close_extensive(mask: Seq<u8>, w: u32, h: u32, radius: u32)
    requires
        mask.len() == w * h,
        closing_unsaturated(w, h, radius),
    ensures
        forall|p: int| 0 <= p < mask.len() && mask[p] != 0 ==> #[trigger] closed(mask, w, h, radius)[p] != 0,
{
    if radius > 0 {
        let k = capped_radius(radius);
        let d = chessboard_dilation(mask, w, h, k);
        let c = chessboard_erosion(d, w, h, k);
        assert(closed(mask, w, h, radius) == c);
        assert forall|p: int| 0 <= p < mask.len() && mask[p] != 0 implies #[trigger] c[p] != 0 by {
            if near_background(d, w, h, p, k) {
                let r = choose|r: int| 0 <= r < w * h && d[r] == 0 && #[trigger] within_chessboard(w, p, r, k);
                lemma_within_symmetric(w, p, r, k);
                assert(near_foreground(mask, w, h, r, k));
            }
        }
    }
}

/// Dilating the closed mask gives back the dilated mask.
proof fn lemma_dilate_closed(mask: Seq<u8>, w: u32, h: u32, k: u8)
    requires
        mask.len() == w * h,
        !saturated(w, h, k),
    ensures
        chessboard_dilation(chessboard_erosion(chessboard_dilation(mask, w, h, k), w, h, k), w, h, k)
            == chessboard_dilation(mask, w, h, k),
{
    let d = chessboard_dilation(mask, w, h, k);
    let c = chessboard_erosion(d, w, h, k);
    let dc = chessboard_dilation(c, w, h, k);
    assert forall|p: int| 0 <= p < w * h implies dc[p] == d[p] by {
        if near_foreground(c, w, h, p, k) {
            let q = choose|q: int| 0 <= q < w * h && c[q] != 0 && #[trigger] within_chessboard(w, p, q, k);
            lemma_within_symmetric(w, p, q, k);
            if d[p] == 0 {
                assert(near_background(d, w, h, q, k));
            }
        }
        if near_foreground(mask, w, h, p, k) {
            let q = choose|q: int| 0 <= q < w * h && mask[q] != 0 && #[trigger] within_chessboard(w, p, q, k);
            if near_background(d, w, h, q, k) {
                let r = choose|r: int| 0 <= r < w * h && d[r] == 0 && #[trigger] within_chessboard(w, q, r, k);
                lemma_within_symmetric(w, q, r, k);
                assert(near_foreground(mask, w, h, r, k));
            }
            assert(c[q] != 0);
            assert(near_foreground(c, w, h, p, k));
        }
    }
    assert(dc =~= d);
}

/// Closing twice is closing once.
pub proof fn lemma_close_idempotent(mask: Seq<u8>, w: u32, h: u32, radius: u32)
    requires
        mask.len() == w * h,
        closing_unsaturated(w, h, radius),
    ensures
        closed(closed(mask, w, h, radius), w, h, radius) == closed(mask, w, h, radius),
{
    if radius > 0 {
        let k = capped_radius(radius);
        lemma_dilate_closed(mask, w, h, k);
    }
}

} // verus!
