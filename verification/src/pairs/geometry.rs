//! Candidate pairs for the view-overlap test.
//!
//! The overlap estimate is rotation-only, so on a translating capture it cannot bound
//! the number of candidates by itself; only image pairs whose frame ids differ by at
//! most a window are considered. The overlap test itself is done by the caller.

use vstd::prelude::*;
use crate::pairs::graph::PairSource;

verus! {

/// A pair to test for view overlap, by index into the image list (`first < second`).
#[derive(Debug, Clone, Copy, PartialEq, Eq)]
pub struct WindowPair {
    pub first: usize,
    pub second: usize,
    /// `GEOMETRY`, plus `CROSS_LENS` when the two images come from different sensors.
    pub source: PairSource,
}

/// Distance between two frame ids.
pub open spec fn frame_distance(a: u64, b: u64) -> int {
    if a >= b {
        a - b
    } else {
        b - a
    }
}

/// The source flags of a geometry pair of images `i` and `j`.
pub open spec fn window_source(images: Seq<(String, u64, u32)>, i: int, j: int) -> PairSource {
    if images[i].2 != images[j].2 {
        PairSource { bits: 2u32 | 4u32 }
    } else {
        PairSource { bits: 2 }
    }
}

/// Images `i < j` are both in the list and their frame ids are at most `window` apart.
pub open spec fn in_frame_window(images: Seq<(String, u64, u32)>, i: int, j: int, window: u64) -> bool {
    0 <= i < j < images.len() && frame_distance(images[i].1, images[j].1) <= window
}

/// `a` comes before `b` in the order of (first, second) index.
pub open spec fn pair_before(a: WindowPair, b: WindowPair) -> bool {
    a.first < b.first || (a.first == b.first && a.second < b.second)
}

/// Some pair of `r` is the pair of images `i` and `j`.
pub open spec fn lists_pair(r: Seq<WindowPair>, i: int, j: int) -> bool {
    exists|k: int| 0 <= k < r.len() && (#[trigger] r[k]).first == i && r[k].second == j
}

/// `r` holds exactly the pairs `i < j` within the window, each with its source flags,
/// in increasing (first, second) order.
pub open spec fn is_window_listing(r: Seq<WindowPair>, images: Seq<(String, u64, u32)>, window: u64) -> bool {
    &&& forall|k: int|
        0 <= k < r.len() ==> in_frame_window(images, (#[trigger] r[k]).first as int, r[k].second as int, window)
            && r[k].source == window_source(images, r[k].first as int, r[k].second as int)
    &&& forall|i: int, j: int| #[trigger] in_frame_window(images, i, j, window) ==> lists_pair(r, i, j)
    &&& forall|a: int, b: int| 0 <= a < b < r.len() ==> pair_before(#[trigger] r[a], #[trigger] r[b])
}

/// The pairs `(i, j')` for `i < j' < j` within the window, in order of `j'`.
pub open spec fn window_row(images: Seq<(String, u64, u32)>, i: int, j: int, window: u64) -> Seq<WindowPair>
    decreases j - i,
{
    if j <= i + 1 {
        Seq::empty()
    } else {
        window_row(images, i, j - 1, window) + if frame_distance(images[i].1, images[j - 1].1) <= window {
            seq![WindowPair { first: i as usize, second: (j - 1) as usize, source: window_source(images, i, j - 1) }]
        } else {
            Seq::empty()
        }
    }
}

/// All window pairs whose first index is below `i`, in loop order.
pub open spec fn window_pairs_through(images: Seq<(String, u64, u32)>, i: int, window: u64) -> Seq<WindowPair>
    decreases i,
{
    if i <= 0 {
        Seq::empty()
    } else {
        window_pairs_through(images, i - 1, window) + window_row(images, i - 1, images.len() as int, window)
    }
}

/// Every pair `i < j` of images whose frame ids differ by at most `max_frame_delta`, in
/// the order of a loop over `i` then `j`.
pub fn geometry_window_pairs(images: &Vec<(String, u64, u32)>, max_frame_delta: u64) -> (r: Vec<WindowPair>)
    ensures
        r@ == window_pairs_through(images@, images@.len() as int, max_frame_delta),
        is_window_listing(r@, images@, max_frame_delta),
{
    let n = images.len();
    let mut out: Vec<WindowPair> = Vec::new();
    let mut i: usize = 0;
    while i < n
        invariant
            n == images@.len(),
            i <= n,
            out@ == window_pairs_through(images@, i as int, max_frame_delta),
            forall|k: int|
                0 <= k < out@.len() ==> in_frame_window(images@, (#[trigger] out@[k]).first as int, out@[k].second as int, max_frame_delta)
                    && out@[k].source == window_source(images@, out@[k].first as int, out@[k].second as int)
                    && out@[k].first < i,
            forall|a: int, b: int| #[trigger] in_frame_window(images@, a, b, max_frame_delta) && a < i ==> lists_pair(out@, a, b),
            forall|a: int, b: int| 0 <= a < b < out@.len() ==> pair_before(#[trigger] out@[a], #[trigger] out@[b]),
        decreases n - i,
    {
        let ghost start = out@;
        let mut j: usize = i + 1;
        while j < n
            invariant
                n == images@.len(),
                i < n,
                i + 1 <= j <= n,
                out@ == start + window_row(images@, i as int, j as int, max_frame_delta),
                forall|k: int|
                    0 <= k < out@.len() ==> in_frame_window(images@, (#[trigger] out@[k]).first as int, out@[k].second as int, max_frame_delta)
                        && out@[k].source == window_source(images@, out@[k].first as int, out@[k].second as int)
                        && (out@[k].first < i || (out@[k].first == i && out@[k].second < j)),
                forall|a: int, b: int|
                    #[trigger] in_frame_window(images@, a, b, max_frame_delta) && (a < i || (a == i && b < j))
                        ==> lists_pair(out@, a, b),
                forall|a: int, b: int| 0 <= a < b < out@.len() ==> pair_before(#[trigger] out@[a], #[trigger] out@[b]),
            decreases n - j,
        {
            let a = images[i].1;
            let b = images[j].1;
            let dist = if a >= b { a - b } else { b - a };
            let ghost before = out@;
            if dist <= max_frame_delta {
                let source = if images[i].2 != images[j].2 {
                    PairSource::geometry().union(PairSource::cross_lens())
                } else {
                    PairSource::geometry()
                };
                out.push(WindowPair { first: i, second: j, source });
                proof {
                    let last = out@.len() - 1;
                    assert(out@[last] == WindowPair { first: i, second: j, source });
                    assert forall|a: int, b: int|
                        #[trigger] in_frame_window(images@, a, b, max_frame_delta) && (a < i || (a == i && b < j + 1))
                            implies lists_pair(out@, a, b) by {
                        if a == i && b == j {
                            assert(out@[last].first == a && out@[last].second == b);
                        } else {
                            assert(lists_pair(before, a, b));
                            let k = choose|k: int| 0 <= k < before.len() && (#[trigger] before[k]).first == a && before[k].second == b;
                            assert(out@[k] == before[k]);
                        }
                    }
                    assert forall|a: int, b: int| 0 <= a < b < out@.len() implies pair_before(#[trigger] out@[a], #[trigger] out@[b]) by {
                        if b == last {
                            assert(out@[a] == before[a]);
                        } else {
                            assert(out@[a] == before[a] && out@[b] == before[b]);
                        }
                    }
                }
            } else {
                proof {
                    assert forall|a: int, b: int|
                        #[trigger] in_frame_window(images@, a, b, max_frame_delta) && (a < i || (a == i && b < j + 1))
                            implies lists_pair(out@, a, b) by {
                        if a == i && b == j {
                            assert(false);
                        }
                    }
                }
            }
            proof {
                assert(window_row(images@, i as int, j + 1, max_frame_delta) == window_row(
                    images@,
                    i as int,
                    j as int,
                    max_frame_delta,
                ) + if frame_distance(images@[i as int].1, images@[j as int].1) <= max_frame_delta {
                    seq![WindowPair { first: i, second: j, source: window_source(images@, i as int, j as int) }]
                } else {
                    Seq::empty()
                });
            }
            j = j + 1;
        }
        proof {
            assert forall|a: int, b: int| #[trigger] in_frame_window(images@, a, b, max_frame_delta) && a < i + 1
                implies lists_pair(out@, a, b) by {
                if a == i {
                    assert(b < n);
                }
            }
        }
        i = i + 1;
    }
    out
}

} // verus!
