use vstd::prelude::*;

verus! {

/// An instant, in nanoseconds since the Unix epoch (UTC).
pub type Timestamp = i128;

/// A non-negative span of time, in nanoseconds.
pub type Nanos = u128;

/// Bound on the magnitude of every instant the library handles: every instant
/// that can be built from an `i64` count of seconds and a sub-second part lies
/// within it.
pub const TIMESTAMP_BOUND: i128 = 10_000_000_000_000_000_000_000_000_000;

/// The longest span that converts to a signed time delta of whole
/// milliseconds in an `i64` (`i64::MAX` milliseconds, in nanoseconds).
pub const MAX_DELTA_NANOS: u128 = 9_223_372_036_854_775_807_000_000;

pub open spec fn valid_timestamp(t: Timestamp) -> bool {
    -TIMESTAMP_BOUND <= t <= TIMESTAMP_BOUND
}

pub open spec fn valid_delta(d: Nanos) -> bool {
    d <= MAX_DELTA_NANOS
}

/// Nanoseconds in one second.
pub const NANOS_PER_SECOND: i128 = 1_000_000_000;

/// The instant `secs` seconds and `subsec` nanoseconds after the epoch.
pub open spec fn spec_instant(secs: i64, subsec: u32) -> int {
    secs * 1_000_000_000 + subsec
}

/// The instant `secs` seconds and `subsec` nanoseconds after the epoch.
pub fn instant_from_parts(secs: i64, subsec: u32) -> (t: Timestamp)
    requires
        subsec < 2_000_000_000,
    ensures
        t == spec_instant(secs, subsec),
        valid_timestamp(t),
{
    (secs as i128) * NANOS_PER_SECOND + (subsec as i128)
}


/// The current time as whole seconds since the epoch and the nanoseconds
/// past them.
///
/// Trusted: `chrono::Utc::now`, read with `DateTime::timestamp` and
/// `DateTime::timestamp_subsec_nanos`; the sub-second part is below two
/// seconds (a leap second is counted there). Nothing else is promised.
#[verifier::external_body]
pub(crate) fn now_parts() -> (r: (i64, u32))
    ensures
        r.1 < 2_000_000_000,
{
    let now = chrono::Utc::now();
    (now.timestamp(), now.timestamp_subsec_nanos())
}

/// The current time, in nanoseconds since the epoch.
pub fn now_timestamp() -> (t: Timestamp)
    ensures
        valid_timestamp(t),
{
    let (secs, subsec) = now_parts();
    instant_from_parts(secs, subsec)
}

} // verus!
