//! The monotonic clock that cache expiry is measured against.

use vstd::prelude::*;

verus! {

/// Relies on `time::precise_time_ns`: a reading of a monotonic
/// high-resolution counter, in nanoseconds since an unspecified epoch.
/// Nothing is promised of its value.
#[verifier::external_body]
fn clock_ns() -> (r: u64) {
    time::precise_time_ns()
}

/// The current clock reading in milliseconds.
pub fn now_ms() -> (r: u64) {
    clock_ns() / 1_000_000
}

} // verus!
