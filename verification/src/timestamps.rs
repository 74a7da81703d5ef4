//! Timestamp conversions. Nanoseconds (`i64`) are the authoritative unit.

use vstd::prelude::*;

verus! {

pub type TimestampNs = i64;

/// Microseconds to nanoseconds.
pub fn us_to_ns(us: i64) -> (ns: TimestampNs)
    requires
        i64::MIN <= us * 1000 <= i64::MAX,
    ensures
        ns == us * 1000,
{
    us * 1000
}

/// Integer quotient rounded toward zero, as Rust's `/` on signed integers computes it.
pub open spec fn div_toward_zero(a: int, d: int) -> int
    recommends
        d > 0,
{
    if a >= 0 {
        a / d
    } else {
        -((-a) / d)
    }
}

/// Nanoseconds to microseconds, rounding toward zero.
pub fn ns_to_us(ns: TimestampNs) -> (us: i64)
    ensures
        us == div_toward_zero(ns as int, 1000),
{
    ns / 1000
}

/// The timestamp recorded for the `idx`-th physical frame: its capture time when
/// known, otherwise one second per frame.
pub open spec fn frame_timestamp_ns(capture_us: Option<i64>, idx: int) -> int {
    match capture_us {
        Some(us) => us * 1000,
        None => idx * 1_000_000_000,
    }
}

/// The nanosecond timestamp of the `idx`-th physical frame.
pub fn keyframe_timestamp_ns(capture_us: Option<i64>, idx: usize) -> (ns: TimestampNs)
    requires
        i64::MIN <= frame_timestamp_ns(capture_us, idx as int) <= i64::MAX,
        idx <= i64::MAX,
    ensures
        ns == frame_timestamp_ns(capture_us, idx as int),
{
    match capture_us {
        Some(us) => us_to_ns(us),
        None => (idx as i64) * 1_000_000_000,
    }
}

/// Converting microseconds to nanoseconds and back gives the same value.
pub proof fn lemma_us_ns_round_trip(us: int)
    ensures
        div_toward_zero(us * 1000, 1000) == us,
{
    if us >= 0 {
        assert((us * 1000) / 1000 == us) by (nonlinear_arith);
    } else {
        assert(-(us * 1000) == (-us) * 1000) by (nonlinear_arith);
        assert(((-us) * 1000) / 1000 == -us) by (nonlinear_arith);
    }
}

} // verus!
