//! The wall clock that samples are measured with.

use vstd::prelude::*;

verus! {

/// Reads a monotonic nanosecond counter.
///
/// Relies on `time::precise_time_ns`: a high-resolution performance counter
/// in nanoseconds since an unspecified epoch. Nothing is promised of the value.
#[verifier::external_body]
pub(crate) fn now_ns() -> u64 {
    time::precise_time_ns()
}

/// Nanoseconds from `t0` to `t1`; zero where the counter went backwards.
pub fn elapsed_ns(t0: u64, t1: u64) -> (d: u64)
    ensures
        t0 <= t1 ==> d == t1 - t0,
        t0 > t1 ==> d == 0,
{
    if t0 <= t1 {
        t1 - t0
    } else {
        0
    }
}

} // verus!
