//! The clocks, read in one place.

use vstd::prelude::*;
use std::time::{Duration, Instant, SystemTime, UNIX_EPOCH};

verus! {

/// A reading of the monotonic clock.
#[verifier::external_type_specification]
#[verifier::external_body]
pub struct ExInstant(Instant);

/// A reading of the system clock.
#[verifier::external_type_specification]
#[verifier::external_body]
pub struct ExSystemTime(SystemTime);

/// The whole milliseconds that `Duration::as_millis` counts in a duration.
pub uninterp spec fn millis_of(d: Duration) -> u128;

/// Relies on Instant::now: a reading of the monotonic clock; nothing is promised of it.
#[verifier::external_body]
pub(crate) fn instant_now() -> (r: Instant) {
    Instant::now()
}

/// Relies on Instant::saturating_duration_since: the time from `earlier` to `later`, zero
/// when `earlier` is the later one; it never panics.
#[verifier::external_body]
fn saturating_since(later: &Instant, earlier: &Instant) -> (r: Duration) {
    later.saturating_duration_since(*earlier)
}

/// Relies on SystemTime::now: a reading of the system clock; nothing is promised of it.
#[verifier::external_body]
fn system_now() -> (r: SystemTime) {
    SystemTime::now()
}

/// Relies on SystemTime::duration_since: the time since the Unix epoch, or `None` when the
/// clock reads earlier than the epoch.
#[verifier::external_body]
fn since_unix_epoch(t: &SystemTime) -> (r: Option<Duration>) {
    t.duration_since(UNIX_EPOCH).ok()
}

/// Relies on Duration::as_millis: the whole milliseconds of `d`.
#[verifier::external_body]
fn whole_millis(d: &Duration) -> (r: u128)
    ensures
        r == millis_of(*d),
{
    d.as_millis()
}

/// Milliseconds on the monotonic clock since `origin`, capped at `u64::MAX`.
pub(crate) fn monotonic_millis(origin: &Instant) -> (r: u64) {
    let now = instant_now();
    let m = whole_millis(&saturating_since(&now, origin));
    if m > u64::MAX as u128 {
        u64::MAX
    } else {
        m as u64
    }
}

/// Milliseconds since the Unix epoch on the system clock; 0 when the clock reads earlier
/// than the epoch, capped at `i64::MAX`.
pub(crate) fn wall_clock_millis() -> (r: i64)
    ensures
        r >= 0,
{
    match since_unix_epoch(&system_now()) {
        None => 0,
        Some(d) => {
            let m = whole_millis(&d);
            if m > i64::MAX as u128 {
                i64::MAX
            } else {
                m as i64
            }
        },
    }
}

} // verus!
