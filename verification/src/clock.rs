//! The two clocks the gateway reads: one that only runs forward, and the calendar.

use vstd::prelude::*;

verus! {

/// A reading of the clock that only runs forward.
#[verifier::external_type_specification]
#[verifier::external_body]
pub struct ExInstant(std::time::Instant);

/// A reading of the calendar clock.
#[verifier::external_type_specification]
#[verifier::external_body]
pub struct ExSystemTime(std::time::SystemTime);

/// `std::time::Instant::now`: nothing is promised of a reading.
pub assume_specification[ std::time::Instant::now ]() -> (r: std::time::Instant)
;

/// `std::time::SystemTime::now`: nothing is promised of a reading.
pub assume_specification[ std::time::SystemTime::now ]() -> (r: std::time::SystemTime)
;

/// Nanoseconds in a second.
pub const SECOND: u128 = 1_000_000_000;

/// No span between two readings reaches this many nanoseconds: a `Duration` holds
/// its whole seconds in 64 bits.
pub const LATEST: u128 = 18_446_744_073_709_551_616_000_000_000;

/// The nanoseconds from one reading to another, none where the other is the earlier, as
/// `std::time::Instant::saturating_duration_since` gives them.
pub uninterp spec fn nanos_between(start: std::time::Instant, now: std::time::Instant) -> u128;

/// The whole seconds from the Unix epoch to a reading, as
/// `std::time::SystemTime::duration_since` gives them, or `None` where the reading lies
/// before it.
pub uninterp spec fn epoch_seconds(reading: std::time::SystemTime) -> Option<u64>;

/// `std::time::Instant::saturating_duration_since`, in nanoseconds: the time from
/// `start` to `now`, or none where `now` is the earlier. It is a function of the two
/// readings. A `Duration` is under 2^64 seconds.
#[verifier::external_body]
fn nanos_since(start: &std::time::Instant, now: std::time::Instant) -> (r: u128)
    ensures
        r == nanos_between(*start, now),
        r < LATEST,
{
    now.saturating_duration_since(*start).as_nanos()
}

/// `std::time::SystemTime::duration_since` the Unix epoch, in whole seconds, or
/// `None` where the reading lies before it. It is a function of the reading.
#[verifier::external_body]
fn seconds_since_epoch(now: std::time::SystemTime) -> (r: Option<u64>)
    ensures
        r == epoch_seconds(now),
{
    now.duration_since(std::time::UNIX_EPOCH).ok().map(|elapsed| elapsed.as_secs())
}

/// A clock that counts nanoseconds from when it was made.
pub struct Clock {
    start: std::time::Instant,
}

impl Clock {
    /// The reading the clock counts from.
    pub closed spec fn started(&self) -> std::time::Instant {
        self.start
    }

    /// Whether the clock may show this: the nanoseconds from its start to some reading.
    pub open spec fn shows(&self, nanos: u128) -> bool {
        exists|reading: std::time::Instant| nanos == #[trigger] nanos_between(
            self.started(),
            reading,
        )
    }

    /// A clock that starts at this moment.
    pub fn new() -> (r: Self) {
        Clock { start: std::time::Instant::now() }
    }

    /// The nanoseconds since the clock was made.
    pub fn now(&self) -> (r: u128)
        ensures
            self.shows(r),
            r < LATEST,
    {
        let reading = std::time::Instant::now();
        let nanos = nanos_since(&self.start, reading);
        proof {
            assert(nanos == nanos_between(self.started(), reading));
        }
        nanos
    }

    /// The present moment.
    pub fn moment(&self) -> (r: Moment)
        ensures
            self.shows(r.nanos),
            calendar_shows(r.unix),
            r.nanos < LATEST,
    {
        Moment { nanos: self.now(), unix: unix_now() }
    }
}

/// A moment by both clocks: nanoseconds on the one that only runs forward, and
/// seconds since the Unix epoch.
#[derive(Clone, Copy)]
pub struct Moment {
    pub nanos: u128,
    pub unix: i64,
}

/// Whole seconds as nanoseconds.
pub fn from_secs(seconds: u64) -> (r: u128)
    ensures
        r == seconds * SECOND,
        r < LATEST,
{
    seconds as u128 * SECOND
}

/// The seconds since the Unix epoch as a signed number, zero before it.
pub open spec fn unix_seconds(since: Option<u64>) -> i64 {
    match since {
        Some(seconds) => seconds as i64,
        None => 0,
    }
}

/// What the calendar clock reads, from the whole seconds since the Unix epoch.
pub fn unix_from(since: Option<u64>) -> (r: i64)
    ensures
        r == unix_seconds(since),
{
    match since {
        Some(seconds) => seconds as i64,
        None => 0,
    }
}

/// Whether the calendar clock may show this: the seconds since the Unix epoch of some
/// reading.
pub open spec fn calendar_shows(unix: i64) -> bool {
    exists|reading: std::time::SystemTime| unix == unix_seconds(#[trigger] epoch_seconds(reading))
}

/// Whether the calendar clock may read this many whole seconds since the Unix epoch.
pub open spec fn calendar_reads(seconds: u64) -> bool {
    exists|reading: std::time::SystemTime| #[trigger] epoch_seconds(reading) == Some(seconds)
}

/// The calendar clock, in whole seconds since the Unix epoch.
pub fn unix_now() -> (r: i64)
    ensures
        calendar_shows(r),
{
    unix_from(seconds_since_epoch(std::time::SystemTime::now()))
}

} // verus!
