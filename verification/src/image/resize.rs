//! Resizing masks to another resolution.

use vstd::prelude::*;
use vstd::slice::slice_to_vec;

verus! {

/// What `image::imageops::resize` with `FilterType::Nearest` returns (as a raw buffer)
/// for the `w`×`h` gray image holding `mask`, resized to `tw`×`th`.
pub uninterp spec fn nearest_resized(mask: Seq<u8>, w: u32, h: u32, tw: u32, th: u32) -> Seq<u8>;

/// `v` is one of the first `n` bytes of `s`.
pub open spec fn occurs_within(v: u8, s: Seq<u8>, n: int) -> bool {
    exists|j: int| 0 <= j < n && j < s.len() && #[trigger] s[j] == v
}

/// Calls `image::imageops::resize` with `FilterType::Nearest` on the `w`×`h` gray
/// image holding `mask` (`image::GrayImage::from_raw`, which accepts a buffer of at
/// least `w * h` bytes) and returns the raw buffer of the result.
///
/// Claimed from image's source: the result is a `tw`×`th` gray image, so its buffer
/// holds `tw * th` bytes. The resampling passes allocate a `w`×`th` four-channel `f32`
/// buffer and a `tw`×`th` one, whose sizes must fit in `usize`. With the `Nearest`
/// filter each pass weighs exactly one source pixel by 1, so every resulting byte is a
/// byte of the source image; an empty source (zero width or height) gives a zeroed
/// buffer.
#[verifier::external_body]
fn resize_nearest(mask: &[u8], w: u32, h: u32, tw: u32, th: u32) -> (r: Vec<u8>)
    requires
        mask@.len() >= w * h,
        tw * th <= usize::MAX,
        4 * w * th <= usize::MAX,
    ensures
        r@ == nearest_resized(mask@, w, h, tw, th),
        r@.len() == tw * th,
        w > 0 && h > 0 ==> forall|i: int| 0 <= i < r@.len() ==> occurs_within(#[trigger] r@[i], mask@, w * h),
        w == 0 || h == 0 ==> forall|i: int| 0 <= i < r@.len() ==> #[trigger] r@[i] == 0,
{
    let img = image::GrayImage::from_raw(w, h, mask.to_vec()).unwrap();
    image::imageops::resize(&img, tw, th, image::imageops::FilterType::Nearest).into_raw()
}

/// The mask resized to `target_w`×`target_h`: unchanged when the size already matches,
/// otherwise resampled by nearest neighbour.
pub open spec fn resized_mask(mask: Seq<u8>, w: u32, h: u32, target_w: u32, target_h: u32) -> Seq<u8> {
    if w == target_w && h == target_h {
        mask
    } else {
        nearest_resized(mask, w, h, target_w, target_h)
    }
}

/// Resizes a `w`×`h` mask to `target_w`×`target_h` by nearest neighbour.
pub fn resize_mask(mask: &[u8], w: u32, h: u32, target_w: u32, target_h: u32) -> (r: Vec<u8>)
    requires
        !(w == target_w && h == target_h) ==> {
            &&& mask@.len() >= w * h
            &&& target_w * target_h <= usize::MAX
            &&& 4 * w * target_h <= usize::MAX
        },
    ensures
        r@ == resized_mask(mask@, w, h, target_w, target_h),
        !(w == target_w && h == target_h) ==> r@.len() == target_w * target_h,
        w > 0 && h > 0 ==> forall|i: int|
            0 <= i < r@.len() ==> occurs_within(#[trigger] r@[i], mask@, mask@.len() as int),
        (w == 0 || h == 0) && !(w == target_w && h == target_h) ==> forall|i: int|
            0 <= i < r@.len() ==> #[trigger] r@[i] == 0,
{
    if w == target_w && h == target_h {
        let r = slice_to_vec(mask);
        assert forall|i: int| 0 <= i < r@.len() implies occurs_within(#[trigger] r@[i], mask@, mask@.len() as int) by {
            assert(r@[i] == mask@[i]);
        }
        return r;
    }
    let r = resize_nearest(mask, w, h, target_w, target_h);
    proof {
        if w > 0 && h > 0 {
            assert forall|i: int| 0 <= i < r@.len() implies occurs_within(#[trigger] r@[i], mask@, mask@.len() as int) by {
                assert(occurs_within(r@[i], mask@, w * h));
                let j = choose|j: int| 0 <= j < w * h && #[trigger] mask[j] == r@[i];
                assert(mask@[j] == r@[i]);
            }
        }
    }
    r
}

} // verus!
