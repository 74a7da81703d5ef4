//! Sample timelines: shifting timestamps to start at zero, and the evenly spaced
//! timeline used when a recording has no usable IMU data.

use vstd::prelude::*;

verus! {

/// Timestamps shifted so that the first one is 0.
pub open spec fn zero_based(ts: Seq<i64>) -> Seq<int> {
    Seq::new(ts.len(), |i: int| ts[i] - ts[0])
}

/// Shifts every timestamp by the first one, so the timeline starts at 0.
pub fn shift_to_zero(timestamps: &Vec<i64>) -> (r: Vec<i64>)
    requires
        forall|i: int| 0 <= i < timestamps@.len() ==> i64::MIN <= #[trigger] timestamps@[i] - timestamps@[0] <= i64::MAX,
    ensures
        r@.len() == timestamps@.len(),
        forall|i: int| 0 <= i < r@.len() ==> #[trigger] r@[i] == timestamps@[i] - timestamps@[0],
{
    let mut r: Vec<i64> = Vec::new();
    if timestamps.len() == 0 {
        return r;
    }
    let first = timestamps[0];
    let mut i: usize = 0;
    while i < timestamps.len()
        invariant
            timestamps@.len() > 0,
            first == timestamps@[0],
            forall|k: int| 0 <= k < timestamps@.len() ==> i64::MIN <= #[trigger] timestamps@[k] - timestamps@[0] <= i64::MAX,
            i <= timestamps@.len(),
            r@.len() == i,
            forall|k: int| 0 <= k < i ==> #[trigger] r@[k] == timestamps@[k] - timestamps@[0],
        decreases timestamps@.len() - i,
    {
        r.push(timestamps[i] - first);
        i = i + 1;
    }
    r
}

/// Spacing of the fallback timeline (10 ms).
pub open spec fn fallback_step_us() -> int {
    10_000
}

/// Length assumed for a recording of unknown duration (30 s).
pub open spec fn fallback_duration_us() -> int {
    30_000_000
}

/// The duration the fallback timeline covers.
pub open spec fn fallback_span(duration_us: int) -> int {
    if duration_us > 0 {
        duration_us
    } else {
        fallback_duration_us()
    }
}

/// The number of fallback samples: one per step that starts before the end.
pub open spec fn fallback_count(duration_us: int) -> int {
    (fallback_span(duration_us) + fallback_step_us() - 1) / fallback_step_us()
}

/// Timestamps `0, 10 000, 20 000, …` below the duration (30 s when the duration is not
/// positive), used to select frames by time alone.
pub fn fallback_timestamps(duration_us: i64) -> (r: Vec<i64>)
    requires
        fallback_step_us() * fallback_count(duration_us as int) <= i64::MAX,
    ensures
        r@.len() == fallback_count(duration_us as int),
        forall|k: int| 0 <= k < r@.len() ==> #[trigger] r@[k] == fallback_step_us() * k,
{
    let dur_us: i64 = if duration_us > 0 {
        duration_us
    } else {
        30_000_000
    };
    let step: i64 = 10_000;
    let ghost count = fallback_count(duration_us as int);
    let mut r: Vec<i64> = Vec::new();
    let mut ts: i64 = 0;
    while ts < dur_us
        invariant
            dur_us == fallback_span(duration_us as int),
            step == 10_000,
            count == fallback_count(duration_us as int),
            fallback_step_us() * count <= i64::MAX,
            ts == step * r@.len(),
            r@.len() <= count,
            ts < dur_us ==> r@.len() < count,
            ts >= dur_us ==> r@.len() == count,
            forall|k: int| 0 <= k < r@.len() ==> #[trigger] r@[k] == fallback_step_us() * k,
        decreases count - r@.len(),
    {
        r.push(ts);
        proof {
            let n = r@.len();
            assert(step * n == ts + step);
            assert(step * n <= i64::MAX) by (nonlinear_arith)
                requires
                    n <= count,
                    step == 10_000,
                    10_000 * count <= i64::MAX,
            ;
            assert((step * n < dur_us) ==> n < count) by (nonlinear_arith)
                requires
                    count == (dur_us + 9_999) / 10_000,
                    step == 10_000,
                    dur_us > 0,
            ;
            assert((step * n >= dur_us) ==> n == count) by (nonlinear_arith)
                requires
                    count == (dur_us + 9_999) / 10_000,
                    step == 10_000,
                    dur_us > 0,
                    step * (n - 1) < dur_us,
                    n <= count,
            ;
        }
        ts = ts + step;
    }
    r
}

/// For a positive duration `d` the fallback timeline covers the whole recording: the
/// `k`-th timestamp `10 000 * k` is in the timeline exactly when it lies before `d`.
pub proof fn lemma_fallback_covers_recording(d: int, k: int)
    requires
        d > 0,
        k >= 0,
    ensures
        k < fallback_count(d) <==> 10_000 * k < d,
{
    let c = fallback_count(d);
    assert(c == (d + 9_999) / 10_000);
    assert(k < c <==> 10_000 * k < d) by (nonlinear_arith)
        requires
            c == (d + 9_999) / 10_000,
            d > 0,
            k >= 0,
    ;
}

/// Without a positive duration the fallback timeline covers 30 s: timestamp `10 000 * k`
/// is in it exactly when it lies before 30 000 000 µs.
pub proof fn lemma_fallback_default_span(d: int, k: int)
    requires
        d <= 0,
        k >= 0,
    ensures
        k < fallback_count(d) <==> 10_000 * k < 30_000_000,
{
    assert(fallback_count(d) == 3000);
}

} // verus!
