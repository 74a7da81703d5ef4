//! Ordering IMU samples: sort by timestamp (stably), optionally dropping repeated
//! timestamps (the first sample of each timestamp stays).

use vstd::prelude::*;

verus! {

/// Sample `a` comes before sample `b`: earlier timestamp, or the same one and earlier
/// in the input.
pub open spec fn sample_before(ts: Seq<i64>, a: usize, b: usize) -> bool {
    ts[a as int] < ts[b as int] || (ts[a as int] == ts[b as int] && a < b)
}

/// `q` lists exactly the kept samples, sorted by timestamp, ties in input order.
pub open spec fn is_stable_order(ts: Seq<i64>, keep: Seq<bool>, q: Seq<usize>) -> bool {
    &&& forall|i: int, j: int| 0 <= i < j < q.len() ==> sample_before(ts, #[trigger] q[i], #[trigger] q[j])
    &&& forall|x: usize| q.contains(x) <==> (x < ts.len() && keep[x as int])
}

/// `q` lists, in increasing timestamp order, one kept sample per distinct timestamp:
/// the earliest in the input among the kept samples with that timestamp.
pub open spec fn is_dedup_order(ts: Seq<i64>, keep: Seq<bool>, q: Seq<usize>) -> bool {
    &&& forall|i: int, j: int| 0 <= i < j < q.len() ==> ts[#[trigger] q[i] as int] < ts[#[trigger] q[j] as int]
    &&& forall|i: int|
        0 <= i < q.len() ==> {
            &&& #[trigger] q[i] < ts.len()
            &&& keep[q[i] as int]
            &&& forall|x: int| 0 <= x < ts.len() && keep[x] && ts[x] == ts[q[i] as int] ==> q[i] <= x
        }
    &&& forall|x: int| 0 <= x < ts.len() && keep[x] ==> exists|i: int| 0 <= i < q.len() && ts[#[trigger] q[i] as int] == ts[x]
}

/// The kept samples in stable timestamp order.
fn stable_order(ts: &Vec<i64>, keep: &Vec<bool>) -> (q: Vec<usize>)
    requires
        keep@.len() == ts@.len(),
    ensures
        is_stable_order(ts@, keep@, q@),
{
    let mut q: Vec<usize> = Vec::new();
    let mut i: usize = 0;
    while i < ts.len()
        invariant
            keep@.len() == ts@.len(),
            i <= ts@.len(),
            forall|a: int, b: int| 0 <= a < b < q@.len() ==> sample_before(ts@, #[trigger] q@[a], #[trigger] q@[b]),
            forall|x: usize| q@.contains(x) <==> (x < i && keep@[x as int]),
        decreases ts@.len() - i,
    {
        if keep[i] {
            let t = ts[i];
            proof {
                assert forall|a: int| 0 <= a < q@.len() implies #[trigger] q@[a] < i by {
                    assert(q@.contains(q@[a]));
                }
            }
            let mut pos: usize = q.len();
            while pos > 0 && ts[q[pos - 1]] > t
                invariant
                    keep@.len() == ts@.len(),
                    i < ts@.len(),
                    t == ts@[i as int],
                    pos <= q@.len(),
                    forall|a: int| 0 <= a < q@.len() ==> #[trigger] q@[a] < i,
                    forall|a: int| pos <= a < q@.len() ==> ts@[#[trigger] q@[a] as int] > t,
                    forall|a: int, b: int| 0 <= a < b < q@.len() ==> sample_before(ts@, #[trigger] q@[a], #[trigger] q@[b]),
                    forall|x: usize| q@.contains(x) <==> (x < i && keep@[x as int]),
                decreases pos,
            {
                pos = pos - 1;
            }
            let ghost old_q = q@;
            proof {
                assert forall|a: int| 0 <= a < pos implies sample_before(ts@, #[trigger] old_q[a], i) by {
                    if a < pos - 1 {
                        assert(sample_before(ts@, old_q[a], old_q[pos - 1]));
                    }
                }
            }
            q.insert(pos, i);
            proof {
                let nq = q@;
                assert forall|a: int, b: int| 0 <= a < b < nq.len() implies sample_before(
                    ts@,
                    #[trigger] nq[a],
                    #[trigger] nq[b],
                ) by {
                    if b < pos {
                        assert(nq[a] == old_q[a] && nq[b] == old_q[b]);
                    } else if b == pos {
                        assert(nq[a] == old_q[a]);
                    } else if a < pos {
                        assert(nq[a] == old_q[a] && nq[b] == old_q[b - 1]);
                    } else if a == pos {
                        assert(nq[b] == old_q[b - 1]);
                    } else {
                        assert(nq[a] == old_q[a - 1] && nq[b] == old_q[b - 1]);
                    }
                }
                assert forall|x: usize| nq.contains(x) <==> (x < i + 1 && keep@[x as int]) by {
                    if nq.contains(x) {
                        let a = choose|a: int| 0 <= a < nq.len() && nq[a] == x;
                        if a < pos {
                            assert(old_q.contains(old_q[a]));
                        } else if a > pos {
                            assert(old_q.contains(old_q[a - 1]));
                        }
                    }
                    if x < i + 1 && keep@[x as int] {
                        if x == i {
                            assert(nq[pos as int] == x);
                        } else {
                            assert(old_q.contains(x));
                            let a = choose|a: int| 0 <= a < old_q.len() && old_q[a] == x;
                            if a < pos {
                                assert(nq[a] == x);
                            } else {
                                assert(nq[a + 1] == x);
                            }
                        }
                    }
                }
            }
        }
        i = i + 1;
    }
    q
}

/// The order in which samples are kept: the samples whose `keep` flag is set, sorted
/// by timestamp with ties in input order; with `remove_duplicates`, only the first
/// sample of each timestamp.
pub fn sample_order(timestamps: &Vec<i64>, keep: &Vec<bool>, remove_duplicates: bool) -> (q: Vec<usize>)
    requires
        keep@.len() == timestamps@.len(),
    ensures
        !remove_duplicates ==> is_stable_order(timestamps@, keep@, q@),
        remove_duplicates ==> is_dedup_order(timestamps@, keep@, q@),
{
    let sorted = stable_order(timestamps, keep);
    if !remove_duplicates {
        return sorted;
    }
    let ghost ts = timestamps@;
    let len = timestamps.len();
    let mut out: Vec<usize> = Vec::new();
    let mut k: usize = 0;
    proof {
        assert forall|a: int| 0 <= a < sorted@.len() implies #[trigger] sorted@[a] < ts.len() && keep@[
            sorted@[a] as int] by {
            assert(sorted@.contains(sorted@[a]));
        }
    }
    while k < sorted.len()
        invariant
            ts == timestamps@,
            keep@.len() == ts.len(),
            ts.len() <= usize::MAX,
            is_stable_order(ts, keep@, sorted@),
            forall|a: int| 0 <= a < sorted@.len() ==> #[trigger] sorted@[a] < ts.len() && keep@[sorted@[a] as int],
            k <= sorted@.len(),
            k == 0 <==> out@.len() == 0,
            k > 0 ==> ts[out@.last() as int] == ts[sorted@[k - 1] as int],
            forall|i: int, j: int| 0 <= i < j < out@.len() ==> ts[#[trigger] out@[i] as int] < ts[#[trigger] out@[j] as int],
            forall|i: int|
                0 <= i < out@.len() ==> {
                    &&& #[trigger] out@[i] < ts.len()
                    &&& keep@[out@[i] as int]
                    &&& forall|x: int| 0 <= x < ts.len() && keep@[x] && ts[x] == ts[out@[i] as int] ==> out@[i] <= x
                },
            forall|p: int| #![trigger sorted@[p]] 0 <= p < k ==> exists|i: int| 0 <= i < out@.len() && ts[#[trigger] out@[i] as int] == ts[sorted@[p] as int],
        decreases sorted@.len() - k,
    {
        let cur = sorted[k];
        let ghost old_out = out@;
        if k == 0 || timestamps[sorted[k - 1]] != timestamps[cur] {
            proof {
                if k > 0 {
                    assert(sample_before(ts, sorted@[k - 1], cur));
                }
                // cur is the earliest kept sample with its timestamp
                assert forall|x: int| 0 <= x < ts.len() && keep@[x] && ts[x] == ts[cur as int] implies cur <= x by {
                    assert(sorted@.contains(x as usize));
                    let p = choose|p: int| 0 <= p < sorted@.len() && sorted@[p] == x as usize;
                    if p < k {
                        if p < k - 1 {
                            assert(sample_before(ts, sorted@[p], sorted@[k - 1]));
                        }
                        assert(sample_before(ts, sorted@[p], sorted@[k as int]));
                    } else if p > k {
                        assert(sample_before(ts, sorted@[k as int], sorted@[p]));
                    }
                }
                assert forall|i: int| 0 <= i < out@.len() implies ts[#[trigger] out@[i] as int] < ts[cur as int] by {
                    if i < out@.len() - 1 {
                        assert(ts[out@[i] as int] < ts[out@.last() as int]);
                    }
                }
            }
            out.push(cur);
        }
        proof {
            assert forall|p: int| #![trigger sorted@[p]] 0 <= p < k + 1 implies exists|i: int|
                0 <= i < out@.len() && ts[#[trigger] out@[i] as int] == ts[sorted@[p] as int] by {
                if p == k {
                    assert(ts[out@[out@.len() - 1] as int] == ts[sorted@[p] as int]);
                } else {
                    let i = choose|i: int| 0 <= i < old_out.len() && ts[#[trigger] old_out[i] as int] == ts[sorted@[p] as int];
                    assert(out@[i] == old_out[i]);
                }
            }
        }
        k = k + 1;
    }
    proof {
        assert forall|x: int| 0 <= x < ts.len() && keep@[x] implies exists|i: int|
            0 <= i < out@.len() && ts[#[trigger] out@[i] as int] == ts[x] by {
            assert(sorted@.contains(x as usize));
            let p = choose|p: int| 0 <= p < sorted@.len() && sorted@[p] == x as usize;
            assert(ts[sorted@[p] as int] == ts[x]);
        }
    }
    out
}

} // verus!
