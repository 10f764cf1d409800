//! The clock of this machine.

use std::time::{Duration, Instant, SystemTime, UNIX_EPOCH};
use vstd::prelude::*;

verus! {

/// A point of the system clock.
#[verifier::external_type_specification]
#[verifier::external_body]
pub struct ExSystemTime(SystemTime);

/// A point of the monotonic clock.
#[verifier::external_type_specification]
#[verifier::external_body]
pub struct ExInstant(Instant);

/// How many whole nanoseconds a span has, as `Duration::as_nanos` says.
pub uninterp spec fn nanos_of(d: Duration) -> nat;

/// How long after the UNIX epoch a point of the system clock is, as
/// `SystemTime::duration_since` says; nothing before the epoch.
pub uninterp spec fn span_since_epoch(t: SystemTime) -> Option<Duration>;

/// `Instant::now` reads the monotonic clock; nothing is claimed of what it
/// shows.
pub assume_specification[ Instant::now ]() -> Instant
;

/// `Instant::elapsed` is the span since that point of the clock; nothing is
/// claimed of it, since it grows with time.
pub assume_specification[ Instant::elapsed ](t: &Instant) -> Duration
;

/// `SystemTime::now` reads the system clock; nothing is claimed of what it
/// shows.
pub assume_specification[ SystemTime::now ]() -> SystemTime
;

/// `Duration::as_nanos` is the number of nanoseconds of a span; it is that span
/// alone that decides it.
pub assume_specification[ Duration::as_nanos ](d: &Duration) -> (r: u128)
    ensures
        r == nanos_of(*d),
;

/// `Duration::as_millis` is the number of whole milliseconds of a span.
pub assume_specification[ Duration::as_millis ](d: &Duration) -> (r: u128)
    ensures
        r == nanos_of(*d) / 1000000,
;

/// `Duration::as_secs` is the number of whole seconds of a span.
pub assume_specification[ Duration::as_secs ](d: &Duration) -> (r: u64)
    ensures
        r == nanos_of(*d) / 1000000000,
;

/// `SystemTime::duration_since` the UNIX epoch; none for a point before it. The
/// point alone decides it.
#[verifier::external_body]
fn since_epoch(t: SystemTime) -> (r: Option<Duration>)
    ensures
        r == span_since_epoch(t),
{
    t.duration_since(UNIX_EPOCH).ok()
}

/// The milliseconds since the UNIX epoch at a point of the system clock, zero
/// before it.
pub open spec fn ms_at(t: SystemTime) -> u64 {
    match span_since_epoch(t) {
        Some(d) => (nanos_of(d) / 1000000) as u64,
        None => 0,
    }
}

/// The seconds since the UNIX epoch at a point of the system clock, zero before
/// it.
pub open spec fn secs_at(t: SystemTime) -> nat {
    match span_since_epoch(t) {
        Some(d) => nanos_of(d) / 1000000000,
        None => 0,
    }
}

/// Current time in milliseconds since UNIX epoch.
pub fn now_ms() -> (r: u64)
    ensures
        exists|t: SystemTime| #[trigger]
            call_ensures(SystemTime::now, (), t) && r == ms_at(t),
{
    let t = SystemTime::now();
    let r: u64 = match since_epoch(t) {
        Some(d) => d.as_millis() as u64,
        None => 0,
    };
    assert(r == ms_at(t));
    r
}

/// Current time in seconds since UNIX epoch.
pub fn now_secs() -> (r: u64)
    ensures
        exists|t: SystemTime| #[trigger]
            call_ensures(SystemTime::now, (), t) && r == secs_at(t),
{
    let t = SystemTime::now();
    let r: u64 = match since_epoch(t) {
        Some(d) => d.as_secs(),
        None => 0,
    };
    assert(r == secs_at(t));
    r
}

/// This point of the monotonic clock.
pub fn instant_now() -> (r: Instant)
    ensures
        call_ensures(Instant::now, (), r),
{
    Instant::now()
}

/// How many whole seconds ago a point of the monotonic clock was.
pub fn age_secs(t: &Instant) -> (r: u64)
    ensures
        exists|d: Duration| #[trigger]
            call_ensures(Instant::elapsed, (t,), d) && r == nanos_of(d) / 1000000000,
{
    t.elapsed().as_secs()
}

/// A span in whole nanoseconds.
pub fn span_nanos(d: &Duration) -> (r: u128)
    ensures
        r == nanos_of(*d),
{
    d.as_nanos()
}

/// A time is told in whole milliseconds and whole seconds since the epoch; a time
/// before it is told as zero.
pub proof fn times_are_told_since_the_epoch(t: SystemTime, d: Duration)
    ensures
        span_since_epoch(t) is None ==> ms_at(t) == 0 && secs_at(t) == 0,
        span_since_epoch(t) == Some(d) ==> {
            &&& secs_at(t) * 1000000000 <= nanos_of(d) < (secs_at(t) + 1) * 1000000000
            &&& nanos_of(d) / 1000000 <= u64::MAX ==> ms_at(t) * 1000000 <= nanos_of(d) < (ms_at(t)
                + 1) * 1000000
        },
{
}

} // verus!
