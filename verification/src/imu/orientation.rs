//! Looking up the integrated orientation at a time.

use vstd::prelude::*;

verus! {

/// The timestamps are in non-decreasing order.
pub open spec fn is_sorted(ts: Seq<i64>) -> bool {
    forall|i: int, j: int| 0 <= i <= j < ts.len() ==> ts[i] <= ts[j]
}

/// The number of timestamps before `t` (in a sorted list: where `t` would be inserted).
pub open spec fn count_before(ts: Seq<i64>, t: i64) -> int
    decreases ts.len(),
{
    if ts.len() == 0 {
        0
    } else {
        count_before(ts.drop_last(), t) + if ts.last() < t {
            1int
        } else {
            0int
        }
    }
}

proof fn lemma_count_before_sorted(ts: Seq<i64>, t: i64, p: int)
    requires
        is_sorted(ts),
        0 <= p <= ts.len(),
        forall|i: int| 0 <= i < p ==> ts[i] < t,
        forall|i: int| p <= i < ts.len() ==> ts[i] >= t,
    ensures
        count_before(ts, t) == p,
    decreases ts.len(),
{
    if ts.len() > 0 {
        let init = ts.drop_last();
        if p == ts.len() {
            lemma_count_before_sorted(init, t, p - 1);
        } else {
            lemma_count_before_sorted(init, t, p);
        }
    }
}

/// The index of the orientation recorded at `t` or, when none is, the last one before
/// it (the first one when `t` precedes them all). `None` for an empty list.
///
/// On timestamps out of order the index is some valid index, as with a binary search
/// of an unsorted slice.
pub fn orientation_index_at(timestamps: &Vec<i64>, t: i64) -> (r: Option<usize>)
    ensures
        r is None <==> timestamps@.len() == 0,
        r matches Some(i) ==> i < timestamps@.len(),
        r matches Some(i) ==> (is_sorted(timestamps@) ==> {
            if exists|j: int| 0 <= j < timestamps@.len() && timestamps@[j] == t {
                timestamps@[i as int] == t
            } else {
                i == if count_before(timestamps@, t) == 0 { 0 } else { count_before(timestamps@, t) - 1 }
            }
        }),
{
    let n = timestamps.len();
    if n == 0 {
        return None;
    }
    // first position whose timestamp is not before t
    let mut lo: usize = 0;
    let mut hi: usize = n;
    while lo < hi
        invariant
            n == timestamps@.len(),
            lo <= hi <= n,
            is_sorted(timestamps@) ==> forall|i: int| 0 <= i < lo ==> timestamps@[i] < t,
            is_sorted(timestamps@) ==> forall|i: int| hi <= i < n ==> timestamps@[i] >= t,
        decreases hi - lo,
    {
        let mid = lo + (hi - lo) / 2;
        if timestamps[mid] < t {
            lo = mid + 1;
        } else {
            hi = mid;
        }
    }
    let idx = if lo < n && timestamps[lo] == t {
        lo
    } else if lo == 0 {
        0
    } else {
        lo - 1
    };
    proof {
        if is_sorted(timestamps@) {
            lemma_count_before_sorted(timestamps@, t, lo as int);
            if exists|j: int| 0 <= j < timestamps@.len() && timestamps@[j] == t {
                let j = choose|j: int| 0 <= j < timestamps@.len() && timestamps@[j] == t;
                assert(j >= lo);
                if lo < n {
                    assert(timestamps@[lo as int] <= timestamps@[j]);
                }
            }
        }
    }
    Some(idx)
}

} // verus!
