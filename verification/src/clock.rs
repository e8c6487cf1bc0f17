use std::time::Instant;

use chrono::{DateTime, TimeZone, Utc};
use vstd::prelude::*;

verus! {

/// Earliest second since the Unix epoch that the calendar can represent.
pub const MIN_SECONDS: i64 = -8_334_601_228_800;

/// Latest second since the Unix epoch that the calendar can represent.
pub const MAX_SECONDS: i64 = 8_210_266_876_799;

/// A moment in UTC: whole seconds since the Unix epoch and the nanoseconds within the second.
#[derive(Debug, Clone, Copy, PartialEq, Eq, Structural)]
pub struct Timestamp {
    pub seconds: i64,
    pub nanos: u32,
}

impl Timestamp {
    /// The calendar can represent this moment.
    pub open spec fn wf(self) -> bool {
        &&& MIN_SECONDS <= self.seconds <= MAX_SECONDS
        &&& self.nanos < 1_000_000_000
    }

    /// `self` is not later than `other`.
    pub open spec fn at_or_before(self, other: Timestamp) -> bool {
        self.seconds < other.seconds || (self.seconds == other.seconds && self.nanos
            <= other.nanos)
    }

    /// Milliseconds since the Unix epoch, rounded down.
    pub open spec fn millis(self) -> int {
        self.seconds * 1000 + self.nanos as int / 1_000_000
    }

    /// `self` with the part below the millisecond cut off.
    pub open spec fn to_the_millisecond(self) -> Timestamp {
        Timestamp {
            seconds: self.seconds,
            nanos: (self.nanos as int / 1_000_000 * 1_000_000) as u32,
        }
    }

    /// Tells whether `self` is not later than `other`.
    pub fn is_at_or_before(&self, other: &Timestamp) -> (r: bool)
        ensures
            r == self.at_or_before(*other),
    {
        self.seconds < other.seconds || (self.seconds == other.seconds && self.nanos
            <= other.nanos)
    }

    /// Milliseconds since the Unix epoch.
    pub fn timestamp_millis(&self) -> (r: i64)
        requires
            self.wf(),
        ensures
            r == self.millis(),
    {
        self.seconds * 1000 + (self.nanos / 1_000_000) as i64
    }

    /// The Unix epoch.
    pub fn epoch() -> (r: Timestamp)
        ensures
            r == epoch_time(),
    {
        Timestamp { seconds: 0, nanos: 0 }
    }
}

/// The Unix epoch.
pub open spec fn epoch_time() -> Timestamp {
    Timestamp { seconds: 0, nanos: 0 }
}

/// The moment that lies `ms` milliseconds after the Unix epoch.
pub open spec fn time_of_millis(ms: int) -> Timestamp {
    Timestamp { seconds: (ms / 1000) as i64, nanos: (ms % 1000 * 1_000_000) as u32 }
}

/// The moment `ms` milliseconds after the epoch, or the epoch itself when the calendar does not
/// reach that far.
pub open spec fn time_of_millis_or_epoch(ms: int) -> Timestamp {
    if MIN_SECONDS <= ms / 1000 <= MAX_SECONDS {
        time_of_millis(ms)
    } else {
        epoch_time()
    }
}

/// RFC 3339 text of a moment, as chrono's `DateTime::<Utc>::to_rfc3339` writes it.
pub uninterp spec fn rfc3339_text(seconds: i64, nanos: u32) -> Seq<char>;

/// Calls chrono's `Utc::now`. The moment is after the Unix epoch (the call panics on a system
/// clock set before it) and inside the calendar; nothing else is known of it.
#[verifier::external_body]
pub(crate) fn utc_now() -> (r: Timestamp)
    ensures
        r.wf(),
        r.seconds >= 0,
{
    let now = Utc::now();
    Timestamp { seconds: now.timestamp(), nanos: now.timestamp_subsec_nanos() }
}

/// `t` is what a reading of the wall clock gave.
pub closed spec fn read_from_wall_clock(t: Timestamp) -> bool {
    call_ensures(utc_now, (), t)
}

/// Calls `source` and hands on what it gave.
pub(crate) fn reading_of<T, F: Fn() -> T>(source: F) -> (r: T)
    requires
        call_requires(source, ()),
    ensures
        call_ensures(source, (), r),
{
    source()
}

/// Reads the wall clock.
pub(crate) fn wall_clock() -> (r: Timestamp)
    ensures
        r.wf(),
        r.seconds >= 0,
        read_from_wall_clock(r),
{
    reading_of(utc_now)
}

/// Only the wall clock gives readings of the wall clock: each of them came back from `utc_now`.
pub(crate) proof fn wall_readings_come_from_the_clock(t: Timestamp)
    requires
        read_from_wall_clock(t),
    ensures
        call_ensures(utc_now, (), t),
        t.wf(),
        t.seconds >= 0,
{
}

/// Calls chrono's `Utc.timestamp_millis_opt(ms).single()`: the moment `ms` milliseconds after the
/// epoch, or `None` when its second lies outside the calendar.
#[verifier::external_body]
fn timestamp_millis_opt(ms: i64) -> (r: Option<Timestamp>)
    ensures
        r == (if MIN_SECONDS <= ms as int / 1000 <= MAX_SECONDS {
            Some(time_of_millis(ms as int))
        } else {
            None
        }),
{
    Utc.timestamp_millis_opt(ms).single().map(
        |t| Timestamp { seconds: t.timestamp(), nanos: t.timestamp_subsec_nanos() },
    )
}

/// Calls chrono's `DateTime::<Utc>::to_rfc3339` on the moment. The text is named, not spelled
/// out.
#[verifier::external_body]
fn to_rfc3339_text(seconds: i64, nanos: u32) -> (r: String)
    requires
        (Timestamp { seconds, nanos }).wf(),
    ensures
        r@ == rfc3339_text(seconds, nanos),
{
    DateTime::<Utc>::from_timestamp(seconds, nanos).unwrap().to_rfc3339()
}

impl Timestamp {
    /// RFC 3339 text of this moment.
    pub fn to_rfc3339(&self) -> (r: String)
        requires
            self.wf(),
        ensures
            r@ == rfc3339_text(self.seconds, self.nanos),
    {
        to_rfc3339_text(self.seconds, self.nanos)
    }
}

/// The moment `ms` milliseconds after the epoch; the epoch when the calendar does not reach it.
pub fn ms_to_datetime(ms: i64) -> (r: Timestamp)
    ensures
        r == time_of_millis_or_epoch(ms as int),
        r.wf(),
{
    match timestamp_millis_opt(ms) {
        Some(t) => t,
        None => Timestamp::epoch(),
    }
}

/// A reading of a monotonic clock: nanoseconds since the clock was started.
pub type Moment = u128;

/// Whole milliseconds that lie between two readings of one clock.
pub open spec fn elapsed_ms(since: Moment, now: Moment) -> int {
    if now > since {
        (now - since) / 1_000_000
    } else {
        0
    }
}

/// Whole milliseconds that lie between two readings of one clock.
pub fn millis_between(since: Moment, now: Moment) -> (r: u128)
    ensures
        r == elapsed_ms(since, now),
{
    if now > since {
        (now - since) / 1_000_000
    } else {
        0
    }
}

/// An instant of the operating system's monotonic clock.
#[verifier::external_type_specification]
#[verifier::external_body]
pub struct ExInstant(std::time::Instant);

/// Calls `Instant::now`. Nothing is known of the instant.
#[verifier::external_body]
fn instant_now() -> (r: Instant)
{
    Instant::now()
}

/// Calls `Instant::elapsed` and counts nanoseconds. How much time has passed is not known.
#[verifier::external_body]
fn elapsed_nanos(since: &Instant) -> (r: u128)
{
    since.elapsed().as_nanos()
}

/// A monotonic clock that counts from the instant it was started.
#[derive(Debug)]
pub struct Clock {
    origin: Instant,
}

/// Calls `source` on the instant and hands on what it gave.
fn reading_since<F: Fn(&Instant) -> u128>(source: F, since: &Instant) -> (r: u128)
    requires
        call_requires(source, (since,)),
    ensures
        call_ensures(source, (since,), r),
{
    source(since)
}

impl Clock {
    /// `m` is what a reading of this clock gave.
    pub closed spec fn reads(&self, m: Moment) -> bool {
        call_ensures(elapsed_nanos, (&self.origin,), m)
    }

    /// Only the clock gives readings of the clock: each of them is the time that passed since
    /// the clock was started.
    proof fn readings_come_from_the_clock(&self, m: Moment)
        requires
            self.reads(m),
        ensures
            call_ensures(elapsed_nanos, (&self.origin,), m),
    {
    }

    /// Starts a clock at the present instant. Which instant that is rests on the machine, and
    /// nothing is stated of it.
    pub fn start() -> Clock {
        Clock { origin: instant_now() }
    }

    /// Reads the clock. How much time has passed since it was started rests on the machine: what
    /// is decided by a reading is decided by functions that take it as an argument.
    pub fn now(&self) -> (r: Moment)
        ensures
            self.reads(r),
    {
        reading_since(elapsed_nanos, &self.origin)
    }
}

/// Milliseconds and back: every moment of the calendar comes back cut to the millisecond.
pub proof fn millis_round_trip(t: Timestamp)
    requires
        t.wf(),
    ensures
        i64::MIN <= t.millis() <= i64::MAX,
        time_of_millis_or_epoch(t.millis()) == t.to_the_millisecond(),
{
}

} // verus!
