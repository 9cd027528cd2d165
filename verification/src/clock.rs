//! Reading the clock, for message time-to-live.

use std::time::{Duration, Instant};

use vstd::prelude::*;

verus! {

#[verifier::external_type_specification]
#[verifier::external_body]
pub struct ExInstant(std::time::Instant);

/// The current instant (`Instant::now`). Nothing is claimed of it: it is the time.
#[verifier::external_body]
pub fn current_instant() -> Instant {
    Instant::now()
}

/// The time elapsed since `since` (`Instant::elapsed`). Nothing is claimed of it: it
/// depends on the time at which it is called.
#[verifier::external_body]
pub fn elapsed_since(since: &Instant) -> Duration {
    since.elapsed()
}

/// The length of a duration in nanoseconds, as `Duration::as_nanos` reports it.
pub uninterp spec fn duration_nanos(d: Duration) -> u128;

/// The whole length of `d` in nanoseconds (`Duration::as_nanos`); the result is named
/// by [`duration_nanos`].
#[verifier::external_body]
pub fn as_nanos(d: &Duration) -> (nanos: u128)
    ensures
        nanos == duration_nanos(*d),
{
    d.as_nanos()
}

} // verus!
