//! Spans of time and the two clocks.

use std::time::{Instant, SystemTime};
use vstd::prelude::*;

verus! {

/// `std::time::Instant`: a reading of the monotonic clock, carried through unread.
#[verifier::external_type_specification]
#[verifier::external_body]
pub struct ExInstant(std::time::Instant);

/// `std::time::SystemTime`: a reading of the wall clock, carried through unread.
#[verifier::external_type_specification]
#[verifier::external_body]
pub struct ExSystemTime(std::time::SystemTime);

/// `std::time::Instant::now`: reads the monotonic clock. Nothing is claimed of the
/// reading.
pub assume_specification[ std::time::Instant::now ]() -> std::time::Instant;

/// `std::time::SystemTime::now`: reads the wall clock. Nothing is claimed of the
/// reading.
pub assume_specification[ std::time::SystemTime::now ]() -> std::time::SystemTime;

/// `std::time::Instant::elapsed`: the time since a reading of the monotonic clock.
/// It depends on when it is called, so nothing is claimed of it.
#[verifier::external_body]
fn elapsed_since(start: &Instant) -> (r: Duration) {
    Duration { nanos: start.elapsed().as_nanos() }
}

/// `std::time::SystemTime::duration_since` the Unix epoch: nothing where the wall
/// clock stands before it. What the clock reads is left open.
#[verifier::external_body]
fn since_epoch(t: &SystemTime) -> (r: Option<Duration>) {
    match t.duration_since(std::time::UNIX_EPOCH) {
        Ok(d) => Some(Duration { nanos: d.as_nanos() }),
        Err(_) => None,
    }
}

/// The monotonic clock, asked for the present moment, gave `now`.
pub closed spec fn is_present(now: Instant) -> bool {
    call_ensures(Instant::now, (), now)
}

/// The monotonic clock, asked for the time since `start`, gave `age`.
pub closed spec fn is_age(start: Instant, age: Duration) -> bool {
    call_ensures(elapsed_since, (&start,), age)
}

/// The wall clock, asked for the present moment, gave a time that lies `since` after the
/// Unix epoch, or before it where there is none.
pub closed spec fn is_wall_time(since: Option<Duration>) -> bool {
    exists|t: SystemTime|
        call_ensures(SystemTime::now, (), t) && #[trigger] call_ensures(since_epoch, (&t,), since)
}

/// Asks the monotonic clock for the present moment.
pub(crate) fn present() -> (now: Instant)
    ensures
        is_present(now),
{
    Instant::now()
}

/// Asks the monotonic clock for the time since an earlier reading.
pub(crate) fn age_of(start: &Instant) -> (age: Duration)
    ensures
        is_age(*start, age),
{
    elapsed_since(start)
}

/// Asks the wall clock for the time since the Unix epoch.
pub(crate) fn wall_time() -> (since: Option<Duration>)
    ensures
        is_wall_time(since),
{
    let t = SystemTime::now();
    since_epoch(&t)
}

/// The number of nanoseconds in a millisecond.
pub const NANOS_PER_MILLI: u128 = 1_000_000;

/// A span of time, in nanoseconds.
#[derive(Clone, Copy, Debug, PartialEq, Eq, Structural)]
pub struct Duration {
    pub nanos: u128,
}

impl Duration {
    pub fn from_millis(ms: u64) -> (r: Duration)
        ensures
            r.nanos == ms * NANOS_PER_MILLI,
    {
        Duration { nanos: ms as u128 * NANOS_PER_MILLI }
    }

    /// The whole milliseconds of the span.
    pub fn as_millis(self) -> (r: u128)
        ensures
            r == self.nanos / NANOS_PER_MILLI,
    {
        self.nanos / NANOS_PER_MILLI
    }

    /// The whole milliseconds of the span, of which the low 64 bits are kept.
    pub open spec fn millis(self) -> u64 {
        ((self.nanos / NANOS_PER_MILLI) % 0x1_0000_0000_0000_0000u128) as u64
    }

    /// The whole milliseconds of the span as a 64-bit number.
    pub fn to_millis(self) -> (r: u64)
        ensures
            r == self.millis(),
    {
        let ms: u128 = self.as_millis();
        assert(ms as u64 == ms % 0x1_0000_0000_0000_0000u128) by (bit_vector);
        #[verifier::truncate]
        (ms as u64)
    }

    /// What is left after `other`, and nothing where it is longer.
    pub fn saturating_sub(self, other: Duration) -> (r: Duration)
        ensures
            r.nanos == if self.nanos >= other.nanos {
                self.nanos - other.nanos
            } else {
                0
            },
    {
        if self.nanos >= other.nanos {
            Duration { nanos: self.nanos - other.nanos }
        } else {
            Duration { nanos: 0 }
        }
    }

    pub fn is_zero(self) -> (r: bool)
        ensures
            r == (self.nanos == 0),
    {
        self.nanos == 0
    }

    /// `self >= other`.
    pub fn at_least(self, other: Duration) -> (r: bool)
        ensures
            r == (self.nanos >= other.nanos),
    {
        self.nanos >= other.nanos
    }

    /// The shorter of two spans.
    pub fn min(self, other: Duration) -> (r: Duration)
        ensures
            r == if other.nanos < self.nanos {
                other
            } else {
                self
            },
    {
        if other.nanos < self.nanos {
            other
        } else {
            self
        }
    }
}

/// The timestamp in milliseconds for a reading of the wall clock: nothing before the
/// Unix epoch counts.
pub open spec fn timestamp_of(since: Option<Duration>) -> u64 {
    match since {
        Some(d) => d.millis(),
        None => 0,
    }
}

/// Turns a reading of the wall clock into a timestamp.
pub fn epoch_ms(since: Option<Duration>) -> (r: u64)
    ensures
        r == timestamp_of(since),
{
    match since {
        Some(d) => d.to_millis(),
        None => 0,
    }
}

/// The wall clock in milliseconds since the Unix epoch.
pub fn now_ms() -> (r: u64)
    ensures
        exists|since: Option<Duration>| #[trigger] is_wall_time(since) && r == timestamp_of(since),
{
    let since = wall_time();
    epoch_ms(since)
}

/// A timestamp counts the whole milliseconds since the epoch, and a clock that is set before
/// the epoch gives zero.
pub proof fn timestamps_count_milliseconds(since: Duration)
    requires
        since.nanos < 0x1_0000_0000_0000_0000 * 1_000_000,
    ensures
        timestamp_of(Some(since)) * 1_000_000 <= since.nanos < (timestamp_of(Some(since)) + 1)
            * 1_000_000,
        timestamp_of(None) == 0,
{
}

} // verus!
