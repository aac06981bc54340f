//! The clock that the times of a shared storage are read from.

use crate::model::MAX_NANOS;
use std::time::Duration;
use tokio::time::Instant;
use vstd::prelude::*;

verus! {

/// The clock reading of the `tokio` crate.
#[verifier::external_type_specification]
#[verifier::external_body]
pub struct ExInstant(tokio::time::Instant);

/// Reads the clock. Nothing is claimed of the reading.
pub assume_specification[ Instant::now ]() -> Instant;

/// The time that has passed since a reading of the clock. Nothing is claimed of it.
pub assume_specification[ Instant::elapsed ](instant: &Instant) -> Duration;

/// The length of a duration in nanoseconds.
pub uninterp spec fn duration_nanos(duration: Duration) -> u128;

/// The length of a duration in nanoseconds. The longest duration is a nanosecond short of 2^64
/// seconds.
pub assume_specification[ Duration::as_nanos ](duration: &Duration) -> (nanos: u128)
    ensures
        nanos == duration_nanos(*duration),
        nanos <= MAX_NANOS,
;

/// Whether `now` is a number of nanoseconds that `Instant::elapsed` can give as the time since
/// `start`.
pub open spec fn clock_reads(start: Instant, now: u128) -> bool {
    exists|elapsed: Duration|
        {
            &&& #[trigger] call_ensures(Instant::elapsed, (&start,), elapsed)
            &&& now == duration_nanos(elapsed) <= MAX_NANOS
        }
}

/// The time on a clock that started at the given instant, in nanoseconds.
pub(crate) fn read_clock(start: &Instant) -> (now: u128)
    ensures
        clock_reads(*start, now),
        exists|elapsed: Duration| #[trigger]
            call_ensures(Instant::elapsed, (start,), elapsed) && now == duration_nanos(elapsed),
        now <= MAX_NANOS,
{
    let elapsed = start.elapsed();
    assert(call_ensures(Instant::elapsed, (start,), elapsed));
    elapsed.as_nanos()
}

} // verus!
