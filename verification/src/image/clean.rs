//! Blanking the masked pixels of an RGB image before it is written out.
//!
//! A mask byte above 127 marks its pixel. Only whole RGB triples are pixels; trailing
//! bytes of an incomplete triple are left alone.

use vstd::prelude::*;
use vstd::slice::slice_to_vec;
use crate::text::{chars_of, chars_equal};

verus! {

/// How masked pixels are shown in a cleaned image.
#[derive(Debug, Clone, Copy, PartialEq, Eq)]
pub enum CleanMode {
    /// Written as RGBA with masked pixels fully transparent.
    Transparent,
    /// Masked pixels painted magenta.
    Solid,
    /// Masked pixels painted mid-gray (also used for `blur`, `inpaint` and any other name).
    Gray,
}

/// The mode a mode name selects.
pub open spec fn clean_mode_named(name: Seq<char>) -> CleanMode {
    if name == "transparent"@ {
        CleanMode::Transparent
    } else if name == "solid"@ {
        CleanMode::Solid
    } else {
        CleanMode::Gray
    }
}

/// Selects the clean mode by name.
pub fn clean_mode(name: &str) -> (m: CleanMode)
    ensures
        m == clean_mode_named(name@),
{
    let n = chars_of(name);
    let t = chars_of("transparent");
    let s = chars_of("solid");
    if chars_equal(&n, &t) {
        CleanMode::Transparent
    } else if chars_equal(&n, &s) {
        CleanMode::Solid
    } else {
        CleanMode::Gray
    }
}

/// The colour painted over masked pixels in the given (painting) mode.
pub open spec fn fill_colour(mode: CleanMode) -> (u8, u8, u8) {
    match mode {
        CleanMode::Solid => (255, 0, 255),
        _ => (128, 128, 128),
    }
}

/// The colour a painting mode paints masked pixels with: magenta for `Solid`,
/// mid-gray otherwise.
pub fn mode_fill_colour(mode: CleanMode) -> (c: (u8, u8, u8))
    ensures
        c == fill_colour(mode),
{
    match mode {
        CleanMode::Solid => (255, 0, 255),
        _ => (128, 128, 128),
    }
}

/// Pixel `p` is masked.
pub open spec fn pixel_masked(mask: Option<Seq<u8>>, p: int) -> bool {
    match mask {
        Some(m) => m[p] > 127,
        None => false,
    }
}

/// `r` is `data` with every masked pixel painted `colour`.
pub open spec fn is_painted(r: Seq<u8>, data: Seq<u8>, mask: Option<Seq<u8>>, colour: (u8, u8, u8)) -> bool {
    let n = data.len() / 3;
    &&& r.len() == data.len()
    &&& forall|p: int|
        0 <= p < n ==> {
            &&& #[trigger] r[3 * p] == if pixel_masked(mask, p) { colour.0 } else { data[3 * p] }
            &&& r[3 * p + 1] == if pixel_masked(mask, p) { colour.1 } else { data[3 * p + 1] }
            &&& r[3 * p + 2] == if pixel_masked(mask, p) { colour.2 } else { data[3 * p + 2] }
        }
    &&& forall|i: int| 3 * n <= i < data.len() ==> #[trigger] r[i] == data[i]
}

/// The view of an optional mask.
pub open spec fn mask_view(mask: Option<&[u8]>) -> Option<Seq<u8>> {
    match mask {
        Some(m) => Some(m@),
        None => None,
    }
}

fn is_masked(mask: Option<&[u8]>, p: usize) -> (b: bool)
    requires
        mask matches Some(m) ==> p < m@.len(),
    ensures
        b == pixel_masked(mask_view(mask), p as int),
{
    match mask {
        Some(m) => m[p] > 127,
        None => false,
    }
}

/// Paints the masked pixels of an RGB buffer with `colour`.
#[verifier::spinoff_prover]
pub fn paint_masked(data: &[u8], mask: Option<&[u8]>, colour: (u8, u8, u8)) -> (r: Vec<u8>)
    requires
        mask matches Some(m) ==> m@.len() >= data@.len() / 3,
    ensures
        is_painted(r@, data@, mask_view(mask), colour),
{
    let mut buf = slice_to_vec(data);
    let len = data.len();
    let n = len / 3;
    assert(3 * n <= data@.len()) by (nonlinear_arith)
        requires
            n == data@.len() / 3,
    ;
    let mut p: usize = 0;
    while p < n
        invariant
            n == data@.len() / 3,
            3 * n <= data@.len(),
            data@.len() <= usize::MAX,
            mask matches Some(m) ==> m@.len() >= n,
            p <= n,
            buf@.len() == data@.len(),
            forall|q: int|
                0 <= q < p ==> {
                    &&& #[trigger] buf@[3 * q] == if pixel_masked(mask_view(mask), q) { colour.0 } else { data@[3 * q] }
                    &&& buf@[3 * q + 1] == if pixel_masked(mask_view(mask), q) { colour.1 } else { data@[3 * q + 1] }
                    &&& buf@[3 * q + 2] == if pixel_masked(mask_view(mask), q) { colour.2 } else { data@[3 * q + 2] }
                },
            forall|i: int| 3 * p <= i < data@.len() ==> #[trigger] buf@[i] == data@[i],
        decreases n - p,
    {
        let ghost prev = buf@;
        if is_masked(mask, p) {
            buf.set(3 * p, colour.0);
            buf.set(3 * p + 1, colour.1);
            buf.set(3 * p + 2, colour.2);
        }
        proof {
            assert forall|q: int| 0 <= q < p implies #[trigger] buf@[3 * q] == prev[3 * q] && buf@[3 * q + 1]
                == prev[3 * q + 1] && buf@[3 * q + 2] == prev[3 * q + 2] by {}
        }
        p = p + 1;
    }
    buf
}

/// The alpha of pixel `p`: 0 where masked, 255 elsewhere.
pub open spec fn pixel_alpha(mask: Option<Seq<u8>>, p: int) -> u8 {
    if pixel_masked(mask, p) {
        0
    } else {
        255
    }
}

/// `r` is the RGBA buffer of the whole pixels of `data`, masked pixels transparent.
pub open spec fn is_masked_rgba(r: Seq<u8>, data: Seq<u8>, mask: Option<Seq<u8>>) -> bool {
    let n = data.len() / 3;
    &&& r.len() == 4 * n
    &&& forall|p: int|
        0 <= p < n ==> {
            &&& #[trigger] r[4 * p] == data[3 * p]
            &&& r[4 * p + 1] == data[3 * p + 1]
            &&& r[4 * p + 2] == data[3 * p + 2]
            &&& r[4 * p + 3] == pixel_alpha(mask, p)
        }
}

/// Expands an RGB buffer to RGBA, making masked pixels fully transparent.
#[verifier::spinoff_prover]
pub fn masked_rgba(data: &[u8], mask: Option<&[u8]>) -> (r: Vec<u8>)
    requires
        mask matches Some(m) ==> m@.len() >= data@.len() / 3,
    ensures
        is_masked_rgba(r@, data@, mask_view(mask)),
{
    let len = data.len();
    let n = len / 3;
    assert(3 * n <= data@.len()) by (nonlinear_arith)
        requires
            n == data@.len() / 3,
    ;
    let mut out: Vec<u8> = Vec::new();
    let mut p: usize = 0;
    while p < n
        invariant
            n == data@.len() / 3,
            3 * n <= data@.len(),
            data@.len() <= usize::MAX,
            mask matches Some(m) ==> m@.len() >= n,
            p <= n,
            out@.len() == 4 * p,
            forall|q: int|
                0 <= q < p ==> {
                    &&& #[trigger] out@[4 * q] == data@[3 * q]
                    &&& out@[4 * q + 1] == data@[3 * q + 1]
                    &&& out@[4 * q + 2] == data@[3 * q + 2]
                    &&& out@[4 * q + 3] == pixel_alpha(mask_view(mask), q)
                },
        decreases n - p,
    {
        let alpha: u8 = if is_masked(mask, p) {
            0
        } else {
            255
        };
        let ghost prev = out@;
        out.push(data[3 * p]);
        out.push(data[3 * p + 1]);
        out.push(data[3 * p + 2]);
        out.push(alpha);
        proof {
            assert(out@ == prev + seq![data@[3 * p as int], data@[3 * p + 1], data@[3 * p + 2], alpha]);
            assert forall|q: int| 0 <= q < p + 1 implies {
                &&& #[trigger] out@[4 * q] == data@[3 * q]
                &&& out@[4 * q + 1] == data@[3 * q + 1]
                &&& out@[4 * q + 2] == data@[3 * q + 2]
                &&& out@[4 * q + 3] == pixel_alpha(mask_view(mask), q)
            } by {
                if q < p {
                    assert(prev[4 * q] == data@[3 * q]);
                }
            }
        }
        p = p + 1;
    }
    out
}

} // verus!
