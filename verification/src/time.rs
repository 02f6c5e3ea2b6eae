//! Durations as the standard library makes them. A `Duration` is opaque to
//! the proofs, so each constructor's result is given a name, and a contract
//! that returns a duration says which named duration it is.

use vstd::prelude::*;
use core::time::Duration;

verus! {

/// What `Duration::from_millis(ms)` returns.
pub uninterp spec fn millis_duration(ms: u64) -> Duration;

/// What `Duration::from_secs(seconds)` returns.
pub uninterp spec fn seconds_duration(seconds: u64) -> Duration;

/// `Duration::from_millis`: the duration of `ms` milliseconds, the same one
/// for the same count.
#[verifier::external_body]
pub(crate) fn duration_from_millis(ms: u64) -> (duration: Duration)
    ensures
        duration == millis_duration(ms),
{
    Duration::from_millis(ms)
}

/// `Duration::from_secs`: the duration of `seconds` whole seconds, the same
/// one for the same count.
#[verifier::external_body]
pub(crate) fn duration_from_secs(seconds: u64) -> (duration: Duration)
    ensures
        duration == seconds_duration(seconds),
{
    Duration::from_secs(seconds)
}

/// `Duration::as_secs`: the whole seconds of a duration. Of a duration made
/// from milliseconds that is the milliseconds divided by 1000, and of one made
/// from whole seconds those seconds.
#[verifier::external_body]
pub(crate) fn whole_seconds(duration: &Duration) -> (seconds: u64)
    ensures
        forall|ms: u64| *duration == #[trigger] millis_duration(ms) ==> seconds == ms / 1000,
        forall|s: u64| *duration == #[trigger] seconds_duration(s) ==> seconds == s,
{
    duration.as_secs()
}

/// `Duration::subsec_nanos`: the nanoseconds past the whole seconds, which
/// the documentation bounds below one second. Of a duration made from
/// milliseconds that is the milliseconds past the second, in nanoseconds, and
/// of one made from whole seconds it is zero.
#[verifier::external_body]
pub(crate) fn subsecond_nanos(duration: &Duration) -> (nanos: u32)
    ensures
        nanos < 1_000_000_000,
        forall|ms: u64| *duration == #[trigger] millis_duration(ms) ==> nanos == (ms % 1000) * 1_000_000,
        forall|s: u64| *duration == #[trigger] seconds_duration(s) ==> nanos == 0,
{
    duration.subsec_nanos()
}

} // verus!
