//! Union of exclusion masks, minus the areas that must be kept.

use vstd::prelude::*;
use crate::image::resize::{resize_mask, resized_mask};

verus! {

/// A mask value that marks its pixel (above the midpoint).
pub open spec fn marks(v: u8) -> bool {
    v > 127
}

/// A mask `(pixels, w, h)` brought to `width`×`height`: itself when the sizes agree,
/// otherwise resized by nearest neighbour.
pub open spec fn fitted(m: (Vec<u8>, u32, u32), width: u32, height: u32) -> Seq<u8> {
    resized_mask(m.0@, m.1, m.2, width, height)
}

/// A mask can be brought to `width`×`height` without panicking: one of that size holds
/// exactly its pixels, another holds at least its own `w * h` pixels and is small
/// enough to resample.
pub open spec fn fits(m: (Vec<u8>, u32, u32), width: u32, height: u32) -> bool {
    if m.1 == width && m.2 == height {
        m.0@.len() == width * height
    } else {
        &&& m.0@.len() >= m.1 * m.2
        &&& 4 * m.1 * height <= usize::MAX
    }
}

/// Some mask in `masks`, brought to `width`×`height`, marks pixel `i`.
pub open spec fn any_marks(masks: Seq<(Vec<u8>, u32, u32)>, width: u32, height: u32, i: int) -> bool {
    exists|k: int| 0 <= k < masks.len() && marks(#[trigger] fitted(masks[k], width, height)[i])
}

/// The combined value of pixel `i`: excluded (255) when a base mask marks it and no
/// keep mask does, retained (0) otherwise.
pub open spec fn combined_pixel(
    base: Seq<(Vec<u8>, u32, u32)>,
    keep: Seq<(Vec<u8>, u32, u32)>,
    width: u32,
    height: u32,
    i: int,
) -> u8 {
    if any_marks(base, width, height, i) && !any_marks(keep, width, height, i) {
        255
    } else {
        0
    }
}

/// Combines masks, each given as `(pixels, w, h)`: the union of `base_masks`, with
/// every pixel marked by one of `keep_masks` cleared. A mask of another size than
/// `width`×`height` is first resized to it by nearest neighbour.
pub fn combine_masks(
    base_masks: &[(Vec<u8>, u32, u32)],
    keep_masks: &[(Vec<u8>, u32, u32)],
    width: u32,
    height: u32,
) -> (r: Vec<u8>)
    requires
        width * height <= u32::MAX,
        forall|k: int| 0 <= k < base_masks@.len() ==> fits(#[trigger] base_masks@[k], width, height),
        forall|k: int| 0 <= k < keep_masks@.len() ==> fits(#[trigger] keep_masks@[k], width, height),
    ensures
        r@.len() == width * height,
        forall|i: int|
            0 <= i < width * height ==> #[trigger] r@[i] == combined_pixel(base_masks@, keep_masks@, width, height, i),
{
    let n: usize = (width * height) as usize;
    let mut out: Vec<u8> = Vec::new();
    let mut i: usize = 0;
    while i < n
        invariant
            n == width * height,
            i <= n,
            out@.len() == i,
            forall|p: int| 0 <= p < i ==> #[trigger] out@[p] == 0,
        decreases n - i,
    {
        out.push(0);
        i = i + 1;
    }
    let mut m: usize = 0;
    while m < base_masks.len()
        invariant
            n == width * height,
            m <= base_masks@.len(),
            out@.len() == n,
            forall|k: int| 0 <= k < base_masks@.len() ==> fits(#[trigger] base_masks@[k], width, height),
            forall|p: int|
                0 <= p < n ==> #[trigger] out@[p] == if any_marks(base_masks@.subrange(0, m as int), width, height, p) {
                    255u8
                } else {
                    0u8
                },
        decreases base_masks@.len() - m,
    {
        let entry = &base_masks[m];
        assert(fits(base_masks@[m as int], width, height));
        let mask = resize_mask(entry.0.as_slice(), entry.1, entry.2, width, height);
        let ghost before = out@;
        let mut i: usize = 0;
        while i < n
            invariant
                n == width * height,
                m < base_masks@.len(),
                mask@ == fitted(base_masks@[m as int], width, height),
                mask@.len() == n,
                i <= n,
                out@.len() == n,
                forall|p: int| i <= p < n ==> #[trigger] out@[p] == before[p],
                forall|p: int|
                    0 <= p < i ==> #[trigger] out@[p] == if marks(mask@[p]) {
                        255u8
                    } else {
                        before[p]
                    },
            decreases n - i,
        {
            if mask[i] > 127 {
                out.set(i, 255);
            }
            i = i + 1;
        }
        proof {
            let done = base_masks@.subrange(0, m + 1);
            let prev = base_masks@.subrange(0, m as int);
            assert forall|p: int| 0 <= p < n implies #[trigger] out@[p] == if any_marks(done, width, height, p) {
                255u8
            } else {
                0u8
            } by {
                if any_marks(prev, width, height, p) {
                    let k = choose|k: int| 0 <= k < prev.len() && marks(#[trigger] fitted(prev[k], width, height)[p]);
                    assert(done[k] == prev[k]);
                }
                if marks(mask@[p]) {
                    assert(done[m as int] == base_masks@[m as int]);
                }
                if any_marks(done, width, height, p) && !marks(mask@[p]) {
                    let k = choose|k: int| 0 <= k < done.len() && marks(#[trigger] fitted(done[k], width, height)[p]);
                    assert(prev[k] == done[k]);
                }
            }
        }
        m = m + 1;
    }
    let ghost unioned = out@;
    assert(base_masks@.subrange(0, base_masks@.len() as int) =~= base_masks@);
    let mut m: usize = 0;
    while m < keep_masks.len()
        invariant
            n == width * height,
            m <= keep_masks@.len(),
            out@.len() == n,
            unioned.len() == n,
            forall|k: int| 0 <= k < keep_masks@.len() ==> fits(#[trigger] keep_masks@[k], width, height),
            forall|p: int|
                0 <= p < n ==> #[trigger] out@[p] == if any_marks(keep_masks@.subrange(0, m as int), width, height, p) {
                    0u8
                } else {
                    unioned[p]
                },
        decreases keep_masks@.len() - m,
    {
        let entry = &keep_masks[m];
        assert(fits(keep_masks@[m as int], width, height));
        let keep = resize_mask(entry.0.as_slice(), entry.1, entry.2, width, height);
        let ghost before = out@;
        let mut i: usize = 0;
        while i < n
            invariant
                n == width * height,
                m < keep_masks@.len(),
                keep@ == fitted(keep_masks@[m as int], width, height),
                keep@.len() == n,
                i <= n,
                out@.len() == n,
                forall|p: int| i <= p < n ==> #[trigger] out@[p] == before[p],
                forall|p: int|
                    0 <= p < i ==> #[trigger] out@[p] == if marks(keep@[p]) {
                        0u8
                    } else {
                        before[p]
                    },
            decreases n - i,
        {
            if keep[i] > 127 {
                out.set(i, 0);
            }
            i = i + 1;
        }
        proof {
            let done = keep_masks@.subrange(0, m + 1);
            let prev = keep_masks@.subrange(0, m as int);
            assert forall|p: int| 0 <= p < n implies #[trigger] out@[p] == if any_marks(done, width, height, p) {
                0u8
            } else {
                unioned[p]
            } by {
                if any_marks(prev, width, height, p) {
                    let k = choose|k: int| 0 <= k < prev.len() && marks(#[trigger] fitted(prev[k], width, height)[p]);
                    assert(done[k] == prev[k]);
                }
                if marks(keep@[p]) {
                    assert(done[m as int] == keep_masks@[m as int]);
                }
                if any_marks(done, width, height, p) && !marks(keep@[p]) {
                    let k = choose|k: int| 0 <= k < done.len() && marks(#[trigger] fitted(done[k], width, height)[p]);
                    assert(prev[k] == done[k]);
                }
            }
        }
        m = m + 1;
    }
    assert(keep_masks@.subrange(0, keep_masks@.len() as int) =~= keep_masks@);
    out
}

} // verus!
