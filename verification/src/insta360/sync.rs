//! Synchronising the two lens streams.

use vstd::prelude::*;
use crate::error::AppError;

verus! {

/// The common span of the two streams.
#[derive(Debug, Clone, Copy)]
pub struct SyncResult {
    pub duration_us: i64,
}

/// Duration assumed when neither stream reports one (200 s); selection is then driven
/// by the IMU timestamps.
pub open spec fn unknown_duration_us() -> int {
    200_000_000
}

/// The synchronised duration: the shorter stream's duration (negative counts as 0),
/// or the fallback when that is 0.
pub open spec fn synced_duration(dur_a_us: int, dur_b_us: int) -> int {
    let shorter = if dur_a_us < dur_b_us {
        dur_a_us
    } else {
        dur_b_us
    };
    let end = if shorter > 0 {
        shorter
    } else {
        0
    };
    if end == 0 {
        unknown_duration_us()
    } else {
        end
    }
}

/// Which lens is called A does not matter to the synchronised duration.
pub proof fn lemma_synced_duration_symmetric(dur_a_us: int, dur_b_us: int)
    ensures
        synced_duration(dur_a_us, dur_b_us) == synced_duration(dur_b_us, dur_a_us),
{
}

/// When both streams report a positive duration, the synchronised duration is the
/// shorter one: it reaches past the end of neither stream and equals one of them.
pub proof fn lemma_synced_duration_is_shorter(dur_a_us: int, dur_b_us: int)
    requires
        dur_a_us > 0,
        dur_b_us > 0,
    ensures
        synced_duration(dur_a_us, dur_b_us) <= dur_a_us,
        synced_duration(dur_a_us, dur_b_us) <= dur_b_us,
        synced_duration(dur_a_us, dur_b_us) == dur_a_us || synced_duration(dur_a_us, dur_b_us) == dur_b_us,
{
}

/// When a stream reports no positive duration, 200 s is assumed.
pub proof fn lemma_synced_duration_unknown(dur_a_us: int, dur_b_us: int)
    requires
        dur_a_us <= 0 || dur_b_us <= 0,
    ensures
        synced_duration(dur_a_us, dur_b_us) == 200_000_000,
{
}

/// The skew between the lens durations exceeds the tolerance (reported, not an error).
#[derive(Debug, Clone, Copy)]
pub struct LensSkew {
    pub skew_us: i64,
    pub exceeds_tolerance: bool,
}

/// The absolute difference of the two durations, and whether it exceeds
/// `max_skew_ms` milliseconds.
pub fn lens_skew(dur_a_us: i64, dur_b_us: i64, max_skew_ms: i64) -> (r: LensSkew)
    requires
        i64::MIN < dur_a_us - dur_b_us <= i64::MAX,
        i64::MIN <= max_skew_ms * 1000 <= i64::MAX,
    ensures
        r.skew_us == if dur_a_us >= dur_b_us { dur_a_us - dur_b_us } else { dur_b_us - dur_a_us },
        r.exceeds_tolerance == (r.skew_us > max_skew_ms * 1000),
{
    let diff = dur_a_us - dur_b_us;
    let skew_us = if diff < 0 {
        -diff
    } else {
        diff
    };
    let max_skew_us = max_skew_ms * 1000;
    LensSkew { skew_us, exceeds_tolerance: skew_us > max_skew_us }
}

/// Synchronises the lens streams from their durations. A skew beyond `max_skew_ms`
/// is tolerated (a few tens of milliseconds are normal), so this always succeeds.
pub fn synchronize(dur_a_us: i64, dur_b_us: i64, max_skew_ms: i64) -> (r: Result<SyncResult, AppError>)
    requires
        i64::MIN < dur_a_us - dur_b_us <= i64::MAX,
        i64::MIN <= max_skew_ms * 1000 <= i64::MAX,
    ensures
        r matches Ok(s) && s.duration_us == synced_duration(dur_a_us as int, dur_b_us as int)
            && s.duration_us > 0,
{
    let shorter = if dur_a_us < dur_b_us {
        dur_a_us
    } else {
        dur_b_us
    };
    let end_us = if shorter > 0 {
        shorter
    } else {
        0
    };
    let effective_end: i64 = if end_us == 0 {
        200_000_000
    } else {
        end_us
    };
    let _skew = lens_skew(dur_a_us, dur_b_us, max_skew_ms);
    Ok(SyncResult { duration_us: effective_end })
}

} // verus!
