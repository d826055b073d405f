use vstd::prelude::*;

use std::time::{Duration, Instant, SystemTime};

verus! {

#[verifier::external_type_specification]
#[verifier::external_body]
pub struct ExSystemTime(SystemTime);

#[verifier::external_type_specification]
#[verifier::external_body]
pub struct ExInstant(Instant);

/// `SystemTime::clone`: the same instant.
pub assume_specification[ <SystemTime as Clone>::clone ](t: &SystemTime) -> (r: SystemTime)
    ensures
        r == *t,
;

/// The length of a `Duration` in nanoseconds.
pub uninterp spec fn duration_nanos(d: Duration) -> nat;

/// How long after the Unix epoch a `SystemTime` lies, in nanoseconds, or
/// `None` when it lies before the epoch.
pub uninterp spec fn nanos_since_epoch(t: SystemTime) -> Option<nat>;

pub const NANOS_PER_SEC: u64 = 1_000_000_000;

/// `Duration::new`: `secs` whole seconds plus `nanos` nanoseconds. (It panics
/// only when the nanoseconds carry past `u64::MAX` seconds, which
/// `nanos < 1e9` rules out.)
#[verifier::external_body]
pub(crate) fn duration_new(secs: u64, nanos: u32) -> (d: Duration)
    requires
        nanos < NANOS_PER_SEC,
    ensures
        duration_nanos(d) == secs * NANOS_PER_SEC + nanos,
{
    Duration::new(secs, nanos)
}

/// `Duration::as_secs`: the number of whole seconds.
#[verifier::external_body]
pub(crate) fn duration_as_secs(d: &Duration) -> (s: u64)
    ensures
        s == duration_nanos(*d) / (NANOS_PER_SEC as nat),
{
    d.as_secs()
}

/// `Duration::as_nanos`: the whole length in nanoseconds.
#[verifier::external_body]
pub(crate) fn duration_as_nanos(d: &Duration) -> (n: u128)
    ensures
        n == duration_nanos(*d),
{
    d.as_nanos()
}

/// `Instant::elapsed`: the time since `start` by the monotonic clock. It
/// reads the clock, so nothing is stated of the result.
#[verifier::external_body]
pub(crate) fn elapsed_since(start: &Instant) -> (d: Duration) {
    start.elapsed()
}

/// `SystemTime::duration_since(UNIX_EPOCH)`: the time elapsed since the
/// epoch, or `None` (the error case) when `t` lies before it.
#[verifier::external_body]
pub(crate) fn since_unix_epoch(t: &SystemTime) -> (r: Option<Duration>)
    ensures
        match r {
            Some(d) => nanos_since_epoch(*t) == Some(duration_nanos(d)),
            None => nanos_since_epoch(*t) is None,
        },
{
    t.duration_since(std::time::UNIX_EPOCH).ok()
}

} // verus!
