//! The monotonic clock as the library sees it.
//!
//! A timeline counts microseconds from an origin on the monotonic clock.
//! Nothing is known of what the clock will show: whoever reads it gets some
//! `u64`, and the callers in this library are proved for every such reading.

use vstd::prelude::*;

verus! {

/// `std::time::Instant`, a point on the monotonic clock. Opaque: it is only
/// kept as the origin of a timeline.
#[verifier::external_type_specification]
#[verifier::external_body]
pub struct ExInstant(std::time::Instant);

/// `Instant::now` reads the monotonic clock. Nothing is claimed of the reading.
pub assume_specification[ std::time::Instant::now ]() -> (now: std::time::Instant)
;

/// `Instant::elapsed` gives the time that has passed since an instant. Nothing
/// is claimed of the span.
pub assume_specification[ std::time::Instant::elapsed ](origin: &std::time::Instant) -> (span:
    std::time::Duration)
;

/// `Duration::as_micros` gives a span in whole microseconds. Nothing is
/// claimed of the number.
pub assume_specification[ std::time::Duration::as_micros ](span: &std::time::Duration) -> (micros:
    u128)
;

/// The microseconds that have passed since `origin`, saturated to `u64`.
pub(crate) fn micros_since(origin: &std::time::Instant) -> (micros: u64) {
    let span = origin.elapsed();
    saturated_micros(span.as_micros())
}

/// A count of microseconds as an instant of a timeline: the count itself where
/// it fits, the last instant where it does not.
pub open spec fn saturate_micros(micros: u128) -> u64 {
    if micros > u64::MAX {
        u64::MAX
    } else {
        micros as u64
    }
}

/// Brings a count of microseconds, as the clock gives it, onto a timeline.
pub fn saturated_micros(micros: u128) -> (instant: u64)
    ensures
        instant == saturate_micros(micros),
{
    if micros > u64::MAX as u128 {
        u64::MAX
    } else {
        micros as u64
    }
}

} // verus!
