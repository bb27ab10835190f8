//! Monotonic clock and duration values used for deadlines and cadences.
//!
//! Instants and durations are carried opaquely: what the clock reads depends
//! on the host, so no contract states a value of either.

use std::time::{Duration, Instant};

use vstd::prelude::*;

verus! {

#[verifier::external_type_specification]
#[verifier::external_body]
pub struct ExInstant(Instant);

/// Reads the monotonic clock (`Instant::now`).
#[verifier::external_body]
pub fn instant_now() -> Instant {
    Instant::now()
}

/// What `Instant::checked_add` gives for an instant and a duration: the
/// later instant, or `None` where it is not representable. It depends on
/// the two values alone.
pub uninterp spec fn instant_sum(instant: Instant, duration: Duration) -> Option<Instant>;

/// Whether one instant is at or after another (`Instant` ordering), which
/// depends on the two values alone.
pub uninterp spec fn instant_at_or_after(now: Instant, deadline: Instant) -> bool;

/// Adds a duration to an instant (`Instant::checked_add`); `None` when the
/// result is not representable.
#[verifier::external_body]
pub fn instant_checked_add(instant: Instant, duration: Duration) -> (r: Option<Instant>)
    ensures
        r == instant_sum(instant, duration),
{
    instant.checked_add(duration)
}

/// True when `now` is at or after `deadline` (`Instant` ordering).
#[verifier::external_body]
pub fn instant_reached(now: Instant, deadline: Instant) -> (r: bool)
    ensures
        r == instant_at_or_after(now, deadline),
{
    now >= deadline
}

/// The length of a duration in nanoseconds (`Duration::as_nanos`).
pub uninterp spec fn duration_nanos(d: Duration) -> nat;

/// A duration of whole seconds (`Duration::from_secs`): `secs` times a
/// billion nanoseconds.
#[verifier::external_body]
pub fn duration_from_secs(secs: u64) -> (d: Duration)
    ensures
        duration_nanos(d) == secs * 1_000_000_000,
{
    Duration::from_secs(secs)
}

/// A duration of whole milliseconds (`Duration::from_millis`): `millis`
/// times a million nanoseconds.
#[verifier::external_body]
pub fn duration_from_millis(millis: u64) -> (d: Duration)
    ensures
        duration_nanos(d) == millis * 1_000_000,
{
    Duration::from_millis(millis)
}

} // verus!
