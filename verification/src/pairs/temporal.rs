//! Temporal candidate edges: each image is paired with its nearest predecessors and
//! successors along the capture, per lens.
//!
//! Images are `(relative_path, frame_id, sensor_id)`. For each of the two sensors
//! (0, then 1) the images of that sensor are put in frame order (stable: equal frame
//! ids keep their input order); each image then gets an edge to up to `before`
//! predecessors (nearest first) followed by up to `after` successors (nearest first).
//! The scores of an edge depend only on its step and are computed by the caller.

use vstd::prelude::*;

verus! {

/// One temporal edge, by index into the image list.
#[derive(Clone, Copy, Debug, PartialEq, Eq)]
pub struct TemporalEdge {
    /// The image the edge is generated for.
    pub from: usize,
    /// Its neighbour.
    pub to: usize,
    /// How many places apart the two are in their lens's frame order (1 = adjacent).
    pub step: usize,
    /// `frame_id` of the later image minus that of the earlier, each taken as `i32`.
    pub frame_delta: i32,
}

/// The frame id of image `i`.
pub open spec fn fid(images: Seq<(String, u64, u32)>, i: usize) -> u64 {
    images[i as int].1
}

/// Frame order with ties broken by input position (a stable sort by frame id).
pub open spec fn frame_before(images: Seq<(String, u64, u32)>, a: usize, b: usize) -> bool {
    fid(images, a) < fid(images, b) || (fid(images, a) == fid(images, b) && a < b)
}

/// `q` lists exactly the images of `sensor`, in frame order.
pub open spec fn is_sensor_order(images: Seq<(String, u64, u32)>, sensor: u32, q: Seq<usize>) -> bool {
    &&& forall|i: int, j: int| 0 <= i < j < q.len() ==> frame_before(images, #[trigger] q[i], #[trigger] q[j])
    &&& forall|x: usize| q.contains(x) <==> (x < images.len() && images[x as int].2 == sensor)
}

/// The images of `sensor` in frame order.
pub open spec fn sensor_order(images: Seq<(String, u64, u32)>, sensor: u32) -> Seq<usize> {
    choose|q: Seq<usize>| is_sensor_order(images, sensor, q)
}

/// Frame id difference as the edge records it: both ids taken as `i32`.
pub open spec fn frame_delta(later: u64, earlier: u64) -> int {
    (later as i32) - (earlier as i32)
}

/// The frame id difference of a pair, `later - earlier` with both ids taken as `i32`
/// (the subtraction overflows, and the original panics, outside `i32`).
pub fn frame_id_delta(later: u64, earlier: u64) -> (d: i32)
    requires
        i32::MIN <= frame_delta(later, earlier) <= i32::MAX,
    ensures
        d == frame_delta(later, earlier),
{
    (later as i32) - (earlier as i32)
}

/// The edges of the image at position `idx` of `q` to its predecessors, nearest first.
pub open spec fn backward_edges(
    images: Seq<(String, u64, u32)>,
    q: Seq<usize>,
    idx: int,
    before: int,
) -> Seq<TemporalEdge> {
    let n = if before < idx {
        before
    } else {
        idx
    };
    Seq::new(
        n as nat,
        |k: int|
            TemporalEdge {
                from: q[idx],
                to: q[idx - k - 1],
                step: (k + 1) as usize,
                frame_delta: frame_delta(fid(images, q[idx]), fid(images, q[idx - k - 1])) as i32,
            },
    )
}

/// The edges of the image at position `idx` of `q` to its successors, nearest first.
pub open spec fn forward_edges(
    images: Seq<(String, u64, u32)>,
    q: Seq<usize>,
    idx: int,
    after: int,
) -> Seq<TemporalEdge> {
    let rest = q.len() - 1 - idx;
    let n = if after < rest {
        after
    } else {
        rest
    };
    Seq::new(
        n as nat,
        |k: int|
            TemporalEdge {
                from: q[idx],
                to: q[idx + k + 1],
                step: (k + 1) as usize,
                frame_delta: frame_delta(fid(images, q[idx + k + 1]), fid(images, q[idx])) as i32,
            },
    )
}

/// The edges generated for the first `n` positions of the order `q`.
pub open spec fn edges_through(
    images: Seq<(String, u64, u32)>,
    q: Seq<usize>,
    n: int,
    before: int,
    after: int,
) -> Seq<TemporalEdge>
    decreases n,
{
    if n <= 0 {
        Seq::empty()
    } else {
        edges_through(images, q, n - 1, before, after) + backward_edges(images, q, n - 1, before)
            + forward_edges(images, q, n - 1, after)
    }
}

/// All temporal edges: sensor 0's, then sensor 1's.
pub open spec fn temporal_plan_spec(
    images: Seq<(String, u64, u32)>,
    before: int,
    after: int,
) -> Seq<TemporalEdge> {
    let q0 = sensor_order(images, 0);
    let q1 = sensor_order(images, 1);
    edges_through(images, q0, q0.len() as int, before, after) + edges_through(
        images,
        q1,
        q1.len() as int,
        before,
        after,
    )
}

/// Every frame difference the plan computes fits in `i32` (the computation panics
/// on overflow otherwise).
pub open spec fn temporal_deltas_fit(images: Seq<(String, u64, u32)>, before: int, after: int) -> bool {
    forall|s: u32, a: int, b: int|
        #![trigger sensor_order(images, s)[a], sensor_order(images, s)[b]]
        (s == 0 || s == 1) && 0 <= a < b < sensor_order(images, s).len() && (b - a <= before || b - a
            <= after) ==> i32::MIN <= frame_delta(
            fid(images, sensor_order(images, s)[b]),
            fid(images, sensor_order(images, s)[a]),
        ) <= i32::MAX
}

/// Edge `e` joins two different images of the same lens (sensor 0 or 1), at most
/// `before` places back or `after` places forward in that lens's frame order.
pub open spec fn joins_within_lens(images: Seq<(String, u64, u32)>, e: TemporalEdge, before: int, after: int) -> bool {
    &&& e.from < images.len()
    &&& e.to < images.len()
    &&& e.from != e.to
    &&& images[e.from as int].2 == images[e.to as int].2
    &&& (images[e.from as int].2 == 0 || images[e.from as int].2 == 1)
    &&& 1 <= e.step
    &&& (e.step <= before || e.step <= after)
}

/// Every edge generated for the first `n` positions of a lens's frame order joins two
/// different images of that lens within the window.
proof fn lemma_edges_through_within_lens(
    images: Seq<(String, u64, u32)>,
    sensor: u32,
    q: Seq<usize>,
    n: int,
    before: int,
    after: int,
)
    requires
        sensor == 0 || sensor == 1,
        is_sensor_order(images, sensor, q),
        0 <= n <= q.len(),
        0 <= before <= usize::MAX,
        0 <= after <= usize::MAX,
    ensures
        forall|k: int|
            0 <= k < edges_through(images, q, n, before, after).len() ==> joins_within_lens(
                images,
                #[trigger] edges_through(images, q, n, before, after)[k],
                before,
                after,
            ),
    decreases n,
{
    if n > 0 {
        lemma_edges_through_within_lens(images, sensor, q, n - 1, before, after);
        let prev = edges_through(images, q, n - 1, before, after);
        let be = backward_edges(images, q, n - 1, before);
        let fe = forward_edges(images, q, n - 1, after);
        let all = edges_through(images, q, n, before, after);
        assert(all == prev + be + fe);
        assert(q.contains(q[n - 1]));
        assert forall|k: int| 0 <= k < all.len() implies joins_within_lens(
            images,
            #[trigger] all[k],
            before,
            after,
        ) by {
            if k < prev.len() {
                assert(all[k] == prev[k]);
            } else if k < prev.len() + be.len() {
                let j = k - prev.len();
                assert(be.len() <= n - 1);
                assert(all[k] == be[j]);
                let t = n - 2 - j;
                assert(q.contains(q[t]));
                assert(frame_before(images, q[t], q[n - 1]));
            } else {
                let j = k - prev.len() - be.len();
                assert(fe.len() <= q.len() - n);
                assert(all[k] == fe[j]);
                let t = n + j;
                assert(q.contains(q[t]));
                assert(frame_before(images, q[n - 1], q[t]));
            }
        }
    }
}

/// Two frame orders of the same images are the same sequence.
proof fn lemma_sensor_order_unique(
    images: Seq<(String, u64, u32)>,
    sensor: u32,
    q1: Seq<usize>,
    q2: Seq<usize>,
)
    requires
        forall|i: int, j: int| 0 <= i < j < q1.len() ==> frame_before(images, #[trigger] q1[i], #[trigger] q1[j]),
        forall|i: int, j: int| 0 <= i < j < q2.len() ==> frame_before(images, #[trigger] q2[i], #[trigger] q2[j]),
        forall|x: usize| q1.contains(x) <==> q2.contains(x),
    ensures
        q1 == q2,
    decreases q1.len(),
{
    if q1.len() == 0 {
        if q2.len() > 0 {
            assert(q2.contains(q2[0]));
        }
        assert(q1 =~= q2);
    } else {
        assert(q1.contains(q1[0]));
        let j = choose|j: int| 0 <= j < q2.len() && q2[j] == q1[0];
        assert(q2.contains(q2[0]));
        let m = choose|m: int| 0 <= m < q1.len() && q1[m] == q2[0];
        if j > 0 {
            assert(frame_before(images, q2[0], q2[j]));
            if m > 0 {
                assert(frame_before(images, q1[0], q1[m]));
            }
        }
        assert(j == 0);
        let r1 = q1.drop_first();
        let r2 = q2.drop_first();
        assert forall|x: usize| r1.contains(x) <==> r2.contains(x) by {
            if r1.contains(x) {
                let a = choose|a: int| 0 <= a < r1.len() && r1[a] == x;
                assert(q1[a + 1] == x);
                assert(frame_before(images, q1[0], q1[a + 1]));
                assert(q2.contains(x));
                let b = choose|b: int| 0 <= b < q2.len() && q2[b] == x;
                if b == 0 {
                    assert(x == q1[0]);
                }
                assert(r2[b - 1] == x);
            }
            if r2.contains(x) {
                let a = choose|a: int| 0 <= a < r2.len() && r2[a] == x;
                assert(q2[a + 1] == x);
                assert(frame_before(images, q2[0], q2[a + 1]));
                assert(q1.contains(x));
                let b = choose|b: int| 0 <= b < q1.len() && q1[b] == x;
                if b == 0 {
                    assert(x == q2[0]);
                }
                assert(r1[b - 1] == x);
            }
        }
        assert forall|i: int, k: int| 0 <= i < k < r1.len() implies frame_before(
            images,
            #[trigger] r1[i],
            #[trigger] r1[k],
        ) by {
            assert(r1[i] == q1[i + 1] && r1[k] == q1[k + 1]);
        }
        assert forall|i: int, k: int| 0 <= i < k < r2.len() implies frame_before(
            images,
            #[trigger] r2[i],
            #[trigger] r2[k],
        ) by {
            assert(r2[i] == q2[i + 1] && r2[k] == q2[k + 1]);
        }
        lemma_sensor_order_unique(images, sensor, r1, r2);
        assert(q1 =~= seq![q1[0]] + r1);
        assert(q2 =~= seq![q2[0]] + r2);
    }
}

/// The images of `sensor`, in frame order (stable on equal frame ids).
pub fn order_for_sensor(images: &Vec<(String, u64, u32)>, sensor: u32) -> (q: Vec<usize>)
    ensures
        q@ == sensor_order(images@, sensor),
        is_sensor_order(images@, sensor, q@),
{
    let ghost imgs = images@;
    let mut q: Vec<usize> = Vec::new();
    let mut i: usize = 0;
    while i < images.len()
        invariant
            imgs == images@,
            i <= images.len(),
            forall|a: int, b: int| 0 <= a < b < q@.len() ==> frame_before(imgs, #[trigger] q@[a], #[trigger] q@[b]),
            forall|x: usize| q@.contains(x) <==> (x < i && imgs[x as int].2 == sensor),
        decreases images.len() - i,
    {
        if images[i].2 == sensor {
            let f = images[i].1;
            proof {
                assert forall|a: int| 0 <= a < q@.len() implies #[trigger] q@[a] < i by {
                    assert(q@.contains(q@[a]));
                }
            }
            let mut pos: usize = q.len();
            while pos > 0 && images[q[pos - 1]].1 > f
                invariant
                    imgs == images@,
                    i < images.len(),
                    f == fid(imgs, i),
                    pos <= q@.len(),
                    forall|a: int| 0 <= a < q@.len() ==> #[trigger] q@[a] < i,
                    forall|a: int| pos <= a < q@.len() ==> fid(imgs, #[trigger] q@[a]) > f,
                    forall|a: int, b: int| 0 <= a < b < q@.len() ==> frame_before(imgs, #[trigger] q@[a], #[trigger] q@[b]),
                    forall|x: usize| q@.contains(x) <==> (x < i && imgs[x as int].2 == sensor),
                decreases pos,
            {
                assert(q@.contains(q@[pos - 1]));
                pos = pos - 1;
            }
            let ghost old_q = q@;
            proof {
                assert forall|a: int| 0 <= a < pos implies frame_before(imgs, #[trigger] old_q[a], i) by {
                    assert(old_q.contains(old_q[a]));
                    if a < pos - 1 {
                        assert(frame_before(imgs, old_q[a], old_q[pos - 1]));
                    }
                }
                assert forall|a: int| pos <= a < old_q.len() implies frame_before(imgs, i, #[trigger] old_q[a]) by {
                }
            }
            q.insert(pos, i);
            proof {
                let nq = q@;
                assert(nq == old_q.insert(pos as int, i));
                assert forall|a: int, b: int| 0 <= a < b < nq.len() implies frame_before(
                    imgs,
                    #[trigger] nq[a],
                    #[trigger] nq[b],
                ) by {
                    if b < pos {
                        assert(nq[a] == old_q[a] && nq[b] == old_q[b]);
                    } else if b == pos {
                        assert(nq[a] == old_q[a]);
                    } else if a < pos {
                        assert(nq[a] == old_q[a] && nq[b] == old_q[b - 1]);
                    } else if a == pos {
                        assert(nq[b] == old_q[b - 1]);
                    } else {
                        assert(nq[a] == old_q[a - 1] && nq[b] == old_q[b - 1]);
                    }
                }
                assert forall|x: usize| nq.contains(x) <==> (x < i + 1 && imgs[x as int].2 == sensor) by {
                    if nq.contains(x) {
                        let a = choose|a: int| 0 <= a < nq.len() && nq[a] == x;
                        if a < pos {
                            assert(old_q.contains(old_q[a]));
                        } else if a > pos {
                            assert(old_q.contains(old_q[a - 1]));
                        }
                    }
                    if x < i + 1 && imgs[x as int].2 == sensor {
                        if x == i {
                            assert(nq[pos as int] == x);
                        } else {
                            assert(old_q.contains(x));
                            let a = choose|a: int| 0 <= a < old_q.len() && old_q[a] == x;
                            if a < pos {
                                assert(nq[a] == x);
                            } else {
                                assert(nq[a + 1] == x);
                            }
                        }
                    }
                }
            }
        }
        i = i + 1;
    }
    proof {
        let s = sensor_order(imgs, sensor);
        assert(is_sensor_order(imgs, sensor, q@));
        assert(is_sensor_order(imgs, sensor, s));
        lemma_sensor_order_unique(imgs, sensor, q@, s);
    }
    q
}

/// Appends the edges of every position of the order `q`.
#[verifier::spinoff_prover]
#[verifier::rlimit(40)]
fn append_edges(
    images: &Vec<(String, u64, u32)>,
    q: &Vec<usize>,
    sensor: u32,
    before: usize,
    after: usize,
    out: &mut Vec<TemporalEdge>,
)
    requires
        sensor == 0 || sensor == 1,
        is_sensor_order(images@, sensor, q@),
        q@ == sensor_order(images@, sensor),
        temporal_deltas_fit(images@, before as int, after as int),
    ensures
        final(out)@ == old(out)@ + edges_through(images@, q@, q@.len() as int, before as int, after as int),
{
    let ghost imgs = images@;
    let ghost start = out@;
    let mut idx: usize = 0;
    while idx < q.len()
        invariant
            imgs == images@,
            sensor == 0 || sensor == 1,
            is_sensor_order(imgs, sensor, q@),
            q@ == sensor_order(imgs, sensor),
            temporal_deltas_fit(imgs, before as int, after as int),
            idx <= q.len(),
            out@ == start + edges_through(imgs, q@, idx as int, before as int, after as int),
        decreases q.len() - idx,
    {
        let ghost mid = out@;
        let cur = q[idx];
        assert(q@.contains(cur));
        let mut d: usize = 1;
        while d <= before && d <= idx
            invariant
                imgs == images@,
                sensor == 0 || sensor == 1,
                is_sensor_order(imgs, sensor, q@),
                q@ == sensor_order(imgs, sensor),
                temporal_deltas_fit(imgs, before as int, after as int),
                idx < q.len(),
                cur == q@[idx as int],
                cur < images.len(),
                1 <= d,
                d <= idx + 1,
                d <= before + 1,
                out@ == mid + backward_edges(imgs, q@, idx as int, before as int).subrange(0, d - 1),
            decreases idx + 1 - d,
        {
            let prev = q[idx - d];
            assert(q@.contains(prev));
            assert(i32::MIN <= frame_delta(fid(imgs, q@[idx as int]), fid(imgs, q@[idx - d])) <= i32::MAX);
            let frame_delta: i32 = (images[cur].1 as i32) - (images[prev].1 as i32);
            out.push(TemporalEdge { from: cur, to: prev, step: d, frame_delta });
            proof {
                let be = backward_edges(imgs, q@, idx as int, before as int);
                assert(be[d - 1] == TemporalEdge { from: cur, to: prev, step: d, frame_delta });
                assert(be.subrange(0, d as int) =~= be.subrange(0, d - 1).push(be[d - 1]));
            }
            d = d + 1;
        }
        proof {
            let be = backward_edges(imgs, q@, idx as int, before as int);
            assert(be.subrange(0, d - 1) =~= be);
        }
        let ghost mid2 = out@;
        let rest = q.len() - 1 - idx;
        let mut d: usize = 1;
        while d <= after && d <= rest
            invariant
                imgs == images@,
                sensor == 0 || sensor == 1,
                is_sensor_order(imgs, sensor, q@),
                q@ == sensor_order(imgs, sensor),
                temporal_deltas_fit(imgs, before as int, after as int),
                idx < q.len(),
                rest == q.len() - 1 - idx,
                cur == q@[idx as int],
                cur < images.len(),
                1 <= d,
                d <= rest + 1,
                d <= after + 1,
                out@ == mid2 + forward_edges(imgs, q@, idx as int, after as int).subrange(0, d - 1),
            decreases rest + 1 - d,
        {
            let next = q[idx + d];
            assert(q@.contains(next));
            assert(i32::MIN <= frame_delta(fid(imgs, q@[idx + d]), fid(imgs, q@[idx as int])) <= i32::MAX);
            let frame_delta: i32 = (images[next].1 as i32) - (images[cur].1 as i32);
            out.push(TemporalEdge { from: cur, to: next, step: d, frame_delta });
            proof {
                let fe = forward_edges(imgs, q@, idx as int, after as int);
                assert(fe[d - 1] == TemporalEdge { from: cur, to: next, step: d, frame_delta });
                assert(fe.subrange(0, d as int) =~= fe.subrange(0, d - 1).push(fe[d - 1]));
            }
            d = d + 1;
        }
        proof {
            let fe = forward_edges(imgs, q@, idx as int, after as int);
            assert(fe.subrange(0, d - 1) =~= fe);
            assert(out@ =~= start + edges_through(imgs, q@, idx + 1, before as int, after as int));
        }
        idx = idx + 1;
    }
}

/// The temporal edges of a capture, in the order they are generated: for sensor 0 then
/// sensor 1, for each image in frame order, its backward edges then its forward edges.
pub fn temporal_plan(images: &Vec<(String, u64, u32)>, before: usize, after: usize) -> (r: Vec<
    TemporalEdge,
>)
    requires
        temporal_deltas_fit(images@, before as int, after as int),
    ensures
        r@ == temporal_plan_spec(images@, before as int, after as int),
        forall|k: int|
            0 <= k < r@.len() ==> joins_within_lens(images@, #[trigger] r@[k], before as int, after as int),
{
    let mut out: Vec<TemporalEdge> = Vec::new();
    let q0 = order_for_sensor(images, 0);
    append_edges(images, &q0, 0, before, after, &mut out);
    let q1 = order_for_sensor(images, 1);
    append_edges(images, &q1, 1, before, after, &mut out);
    assert(out@ =~= temporal_plan_spec(images@, before as int, after as int));
    proof {
        let n0 = q0@.len() as int;
        let n1 = q1@.len() as int;
        lemma_edges_through_within_lens(images@, 0, q0@, n0, before as int, after as int);
        lemma_edges_through_within_lens(images@, 1, q1@, n1, before as int, after as int);
        let e0 = edges_through(images@, q0@, n0, before as int, after as int);
        let e1 = edges_through(images@, q1@, n1, before as int, after as int);
        assert(out@ == e0 + e1);
        assert forall|k: int| 0 <= k < out@.len() implies joins_within_lens(
            images@,
            #[trigger] out@[k],
            before as int,
            after as int,
        ) by {
            if k < e0.len() {
                assert(out@[k] == e0[k]);
            } else {
                assert(out@[k] == e1[k - e0.len()]);
            }
        }
    }
    out
}

} // verus!
