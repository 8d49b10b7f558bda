//! Durations and instants, as far as the library needs them.

use vstd::prelude::*;
use core::time::Duration;
use std::time::Instant;

verus! {

#[verifier::external_type_specification]
#[verifier::external_body]
pub struct ExInstant(Instant);

/// The `Duration` of `secs` whole seconds.
pub uninterp spec fn duration_from_secs(secs: u64) -> Duration;

/// Calls `Duration::from_secs`; the contract claims the result is the named
/// `duration_from_secs` of the argument.
#[verifier::external_body]
pub(crate) fn seconds(secs: u64) -> (d: Duration)
    ensures
        d == duration_from_secs(secs),
{
    Duration::from_secs(secs)
}

/// Compares two durations with `Duration::eq`; the contract claims it tells
/// whether they are the same duration.
#[verifier::external_body]
pub(crate) fn same_duration(a: &Duration, b: &Duration) -> (r: bool)
    ensures
        r == (*a == *b),
{
    a == b
}

/// Calls `Instant::elapsed`: the time since `start`. What comes back depends
/// on the clock, so nothing is claimed of it.
#[verifier::external_body]
pub(crate) fn elapsed_since(start: &Instant) -> Duration {
    start.elapsed()
}

} // verus!
