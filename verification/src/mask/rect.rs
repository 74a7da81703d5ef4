//! Axis-aligned rectangular masks.

use vstd::prelude::*;

verus! {

/// The value of pixel (`px`, `py`) in a mask that excludes exactly the pixels with
/// `x0 <= px < x1` and `y0 <= py < y1`.
pub open spec fn rect_value(px: int, py: int, x0: int, y0: int, x1: int, y1: int) -> u8 {
    if x0 <= px < x1 && y0 <= py < y1 {
        255
    } else {
        0
    }
}

/// `r` is the `width`×`height` mask excluding the pixels in `[x0, x1) × [y0, y1)`.
pub open spec fn is_rect_mask(r: Seq<u8>, width: int, height: int, x0: int, y0: int, x1: int, y1: int) -> bool {
    &&& r.len() == width * height
    &&& forall|py: int, px: int|
        0 <= py < height && 0 <= px < width ==> #[trigger] r[py * width + px] == rect_value(px, py, x0, y0, x1, y1)
}

proof fn lemma_row_index(py: int, px: int, width: int, yy: int)
    requires
        0 <= py < yy,
        0 <= px < width,
    ensures
        0 <= py * width + px < yy * width,
        py * width + px < (py + 1) * width,
{
    assert(0 <= py * width) by (nonlinear_arith)
        requires
            0 <= py,
            0 <= width,
    ;
    assert((py + 1) * width == py * width + width) by (nonlinear_arith);
    assert((py + 1) * width <= yy * width) by (nonlinear_arith)
        requires
            py + 1 <= yy,
            0 <= width,
    ;
}

/// The `width`×`height` mask that excludes `[x0, x1) × [y0, y1)` and retains the rest.
pub fn fill_rect(width: u32, height: u32, x0: u32, y0: u32, x1: u32, y1: u32) -> (r: Vec<u8>)
    ensures
        is_rect_mask(r@, width as int, height as int, x0 as int, y0 as int, x1 as int, y1 as int),
{
    let mut out: Vec<u8> = Vec::new();
    let mut yy: u32 = 0;
    while yy < height
        invariant
            yy <= height,
            out@.len() == yy * width,
            forall|py: int, px: int|
                0 <= py < yy && 0 <= px < width ==> #[trigger] out@[py * width + px] == rect_value(
                    px,
                    py,
                    x0 as int,
                    y0 as int,
                    x1 as int,
                    y1 as int,
                ),
        decreases height - yy,
    {
        let ghost row_start = out@.len();
        let ghost before = out@;
        let mut xx: u32 = 0;
        while xx < width
            invariant
                yy < height,
                xx <= width,
                row_start == yy * width,
                out@.len() == row_start + xx,
                out@.subrange(0, row_start as int) == before.subrange(0, row_start as int),
                before.len() == row_start,
                forall|px: int|
                    0 <= px < xx ==> #[trigger] out@[row_start + px] == rect_value(
                        px,
                        yy as int,
                        x0 as int,
                        y0 as int,
                        x1 as int,
                        y1 as int,
                    ),
            decreases width - xx,
        {
            let v: u8 = if x0 <= xx && xx < x1 && y0 <= yy && yy < y1 {
                255
            } else {
                0
            };
            let ghost prev = out@;
            out.push(v);
            assert(out@.subrange(0, row_start as int) =~= prev.subrange(0, row_start as int));
            xx = xx + 1;
        }
        proof {
            assert((yy + 1) * width == yy * width + width) by (nonlinear_arith);
            assert forall|py: int, px: int|
                0 <= py < yy + 1 && 0 <= px < width implies #[trigger] out@[py * width + px] == rect_value(
                px,
                py,
                x0 as int,
                y0 as int,
                x1 as int,
                y1 as int,
            ) by {
                if py < yy {
                    lemma_row_index(py, px, width as int, yy as int);
                    assert(out@.subrange(0, row_start as int)[py * width + px] == out@[py * width + px]);
                    assert(before.subrange(0, row_start as int)[py * width + px] == before[py * width + px]);
                } else {
                    assert(py * width + px == row_start + px);
                }
            }
        }
        yy = yy + 1;
    }
    assert(yy * width == width * yy) by (nonlinear_arith);
    out
}

/// The mask of the rectangle at (`x`, `y`) of size `w`×`h`, clipped to the
/// `width`×`height` image.
pub fn rect_mask(x: u32, y: u32, w: u32, h: u32, width: u32, height: u32) -> (r: Vec<u8>)
    requires
        width * height <= u32::MAX,
        x + w <= u32::MAX,
        y + h <= u32::MAX,
    ensures
        is_rect_mask(
            r@,
            width as int,
            height as int,
            x as int,
            y as int,
            if x + w < width { x + w } else { width as int },
            if y + h < height { y + h } else { height as int },
        ),
{
    let x0 = if x < width { x } else { width };
    let y0 = if y < height { y } else { height };
    let x1 = if x + w < width { x + w } else { width };
    let y1 = if y + h < height { y + h } else { height };
    let r = fill_rect(width, height, x0, y0, x1, y1);
    proof {
        assert forall|py: int, px: int| 0 <= py < height && 0 <= px < width implies rect_value(
            px,
            py,
            x0 as int,
            y0 as int,
            x1 as int,
            y1 as int,
        ) == rect_value(
            px,
            py,
            x as int,
            y as int,
            if x + w < width { x + w } else { width as int },
            if y + h < height { y + h } else { height as int },
        ) by {}
    }
    r
}

} // verus!
