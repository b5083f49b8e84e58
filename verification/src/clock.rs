//! Time as the pool reckons it: spans, readings of a monotonic clock, and
//! unix time. All of them count nanoseconds or milliseconds in plain integers.

use vstd::prelude::*;

verus! {

/// Nanoseconds in one millisecond.
pub const NANOS_PER_MILLI: u128 = 1_000_000;

/// Nanoseconds in one second.
pub const NANOS_PER_SEC: u128 = 1_000_000_000;

/// What a [`Clock`] reads at its origin: one day, so that moments shortly
/// before the origin can be written down.
pub const ORIGIN_NANOS: u128 = 86_400_000_000_000;

/// The sum of two counts of nanoseconds, held at the largest one.
pub open spec fn nanos_sum(a: u128, b: u128) -> u128 {
    if a + b <= u128::MAX {
        (a + b) as u128
    } else {
        u128::MAX
    }
}

/// The product of a count of nanoseconds and a factor, held at the largest
/// count.
pub open spec fn nanos_product(a: u128, factor: nat) -> u128 {
    if a * factor <= u128::MAX {
        (a * factor) as u128
    } else {
        u128::MAX
    }
}

/// A span of time.
#[derive(Debug, Clone, Copy, PartialEq, Eq, Structural)]
pub struct Duration {
    /// Length in nanoseconds.
    pub nanos: u128,
}

impl Duration {
    /// The span of `secs` seconds.
    pub open spec fn of_secs(secs: u64) -> Duration {
        Duration { nanos: (secs * NANOS_PER_SEC) as u128 }
    }

    /// The span of `millis` milliseconds.
    pub open spec fn of_millis(millis: u64) -> Duration {
        Duration { nanos: (millis * NANOS_PER_MILLI) as u128 }
    }

    /// Both spans, one after the other.
    pub open spec fn sum(self, other: Duration) -> Duration {
        Duration { nanos: nanos_sum(self.nanos, other.nanos) }
    }

    /// The span, `factor` times over.
    pub open spec fn product(self, factor: nat) -> Duration {
        Duration { nanos: nanos_product(self.nanos, factor) }
    }

    /// Whole milliseconds in the span.
    pub open spec fn millis(self) -> u128 {
        (self.nanos / NANOS_PER_MILLI) as u128
    }

    /// A span of `secs` seconds.
    pub fn from_secs(secs: u64) -> (r: Duration)
        ensures
            r == Duration::of_secs(secs),
            r.nanos == secs * 1_000_000_000,
    {
        Duration { nanos: secs as u128 * NANOS_PER_SEC }
    }

    /// A span of `millis` milliseconds.
    pub fn from_millis(millis: u64) -> (r: Duration)
        ensures
            r == Duration::of_millis(millis),
            r.nanos == millis * 1_000_000,
    {
        Duration { nanos: millis as u128 * NANOS_PER_MILLI }
    }

    /// Whole milliseconds in the span.
    pub fn as_millis(self) -> (r: u128)
        ensures
            r == self.millis(),
            r == self.nanos as int / 1_000_000,
    {
        self.nanos / NANOS_PER_MILLI
    }

    /// Both spans, one after the other.
    pub fn plus(self, other: Duration) -> (r: Duration)
        ensures
            r == self.sum(other),
    {
        Duration { nanos: self.nanos.saturating_add(other.nanos) }
    }

    /// The span, `factor` times over.
    pub fn times(self, factor: u64) -> (r: Duration)
        ensures
            r == self.product(factor as nat),
    {
        match self.nanos.checked_mul(factor as u128) {
            Some(nanos) => Duration { nanos },
            None => Duration { nanos: u128::MAX },
        }
    }
}

/// A reading of a monotonic clock.
#[derive(Debug, Clone, Copy, PartialEq, Eq, Structural)]
pub struct Instant {
    /// Nanoseconds since the clock's zero.
    pub nanos: u128,
}

impl Instant {
    /// The reading `span` after this one.
    pub open spec fn after(self, span: Duration) -> Instant {
        Instant { nanos: nanos_sum(self.nanos, span.nanos) }
    }

    /// The span from `earlier` to this reading, zero where `earlier` is later.
    pub open spec fn since(self, earlier: Instant) -> Duration {
        Duration {
            nanos: if self.nanos >= earlier.nanos {
                (self.nanos - earlier.nanos) as u128
            } else {
                0
            },
        }
    }

    /// The reading `span` after this one.
    pub fn plus(self, span: Duration) -> (r: Instant)
        ensures
            r == self.after(span),
    {
        Instant { nanos: self.nanos.saturating_add(span.nanos) }
    }

    /// The reading `span` before this one, if the clock reaches back so far.
    pub fn checked_sub(self, span: Duration) -> (r: Option<Instant>)
        ensures
            r == (if self.nanos >= span.nanos {
                Some(Instant { nanos: (self.nanos - span.nanos) as u128 })
            } else {
                None
            }),
    {
        match self.nanos.checked_sub(span.nanos) {
            Some(nanos) => Some(Instant { nanos }),
            None => None,
        }
    }

    /// The span from `earlier` to this reading, zero where `earlier` is later.
    pub fn saturating_duration_since(self, earlier: Instant) -> (r: Duration)
        ensures
            r == self.since(earlier),
    {
        Duration { nanos: self.nanos.saturating_sub(earlier.nanos) }
    }
}

/// One look at both clocks: the monotonic one, by which cooldowns run, and
/// unix time, by which rate windows run.
#[derive(Debug, Clone, Copy, PartialEq, Eq, Structural)]
pub struct Moment {
    /// Monotonic reading.
    pub at: Instant,
    /// Time since the unix epoch.
    pub unix: Duration,
}

impl Moment {
    /// Unix time in milliseconds.
    pub open spec fn ms(self) -> i64 {
        span_millis(self.unix)
    }

    /// Unix time in milliseconds.
    pub fn unix_ms(&self) -> (r: i64)
        ensures
            r == self.ms(),
            r >= 0,
    {
        millis_of(self.unix)
    }
}

/// The operating system's monotonic clock reading, which no contract looks
/// into.
#[verifier::external_type_specification]
#[verifier::external_body]
pub struct ExStdInstant(std::time::Instant);

/// The operating system's wall clock reading, which no contract looks into.
#[verifier::external_type_specification]
#[verifier::external_body]
pub struct ExSystemTime(std::time::SystemTime);

/// `std::time::Instant::now`: nothing is claimed of what it reads.
pub assume_specification[ std::time::Instant::now ]() -> (r: std::time::Instant);

/// `std::time::SystemTime::now`: nothing is claimed of what it reads.
pub assume_specification[ std::time::SystemTime::now ]() -> (r: std::time::SystemTime);

/// `std::time::Instant::elapsed`, as nanoseconds: the time since `origin`. It
/// depends on when it is called, so nothing is claimed of it.
#[verifier::external_body]
fn elapsed_nanos(origin: &std::time::Instant) -> (r: u128) {
    origin.elapsed().as_nanos()
}

/// `std::time::SystemTime::duration_since` the unix epoch, as nanoseconds;
/// `None` for a clock set before the epoch. The clock is the machine's, so
/// nothing is claimed of it.
#[verifier::external_body]
fn nanos_since_epoch(time: std::time::SystemTime) -> (r: Option<u128>) {
    match time.duration_since(std::time::UNIX_EPOCH) {
        Ok(span) => Some(span.as_nanos()),
        Err(_) => None,
    }
}

/// A monotonic clock with an origin of its own.
#[derive(Debug, Clone, Copy)]
pub struct Clock {
    origin: std::time::Instant,
}

impl Clock {
    /// A clock whose origin is now.
    pub fn new() -> Clock {
        Clock { origin: std::time::Instant::now() }
    }

    /// The current reading, never before the origin.
    pub fn now(&self) -> (r: Instant)
        ensures
            r.nanos >= ORIGIN_NANOS,
    {
        Instant { nanos: ORIGIN_NANOS.saturating_add(elapsed_nanos(&self.origin)) }
    }

    /// A look at this clock and at the wall clock, not before `floor`.
    pub fn read(&self, floor: Instant) -> (r: Reading)
        ensures
            r.source() == *self,
            r.shown().at.nanos >= floor.nanos,
            r.shown().at.nanos >= ORIGIN_NANOS,
    {
        let now: Moment = self.moment();
        let at: Instant = if now.at.nanos >= floor.nanos {
            now.at
        } else {
            floor
        };
        Reading { moment: Moment { at, unix: now.unix }, clock: *self }
    }

    /// The current reading together with the current unix time.
    pub fn moment(&self) -> (r: Moment)
        ensures
            r.at.nanos >= ORIGIN_NANOS,
    {
        Moment { at: self.now(), unix: unix_time() }
    }
}

/// A look that was taken at a clock. Only [`Clock::read`] makes one, so that
/// what is said of a reading is said of a moment that a clock did show.
#[derive(Debug, Clone, Copy)]
pub struct Reading {
    moment: Moment,
    clock: Clock,
}

impl Reading {
    /// The moment that the clock showed.
    pub closed spec fn shown(self) -> Moment {
        self.moment
    }

    /// The clock that was looked at.
    pub closed spec fn source(self) -> Clock {
        self.clock
    }

    /// The moment that the clock showed.
    pub fn moment(&self) -> (r: Moment)
        ensures
            r == self.shown(),
    {
        self.moment
    }
}

/// Whether a moment was read from a clock.
pub open spec fn read_from(clock: Clock, m: Moment) -> bool {
    exists|reading: Reading| #[trigger] reading.source() == clock && reading.shown() == m
}

/// A look that was taken at the wall clock. Only [`look_at_the_wall`] makes one.
#[derive(Debug, Clone, Copy)]
pub struct WallReading {
    span: Duration,
}

impl WallReading {
    /// The time since the unix epoch that the wall clock showed.
    pub closed spec fn shown(self) -> Duration {
        self.span
    }

    /// The time since the unix epoch that the wall clock showed.
    pub fn span(&self) -> (r: Duration)
        ensures
            r == self.shown(),
    {
        self.span
    }
}

/// A look at the wall clock.
pub fn look_at_the_wall() -> (r: WallReading) {
    WallReading { span: unix_time() }
}

/// Whether the wall clock showed this unix time, in milliseconds.
pub open spec fn on_the_wall(ms: i64) -> bool {
    exists|reading: WallReading| span_millis(#[trigger] reading.shown()) == ms
}

/// The span since the epoch that a wall clock shows, given its nanoseconds
/// since then; zero for a clock set before the epoch, which gives none.
pub fn since_epoch(reading: Option<u128>) -> (r: Duration)
    ensures
        r.nanos == (match reading {
            Some(nanos) => nanos,
            None => 0,
        }),
{
    match reading {
        Some(nanos) => Duration { nanos },
        None => Duration { nanos: 0 },
    }
}

/// Unix time as a span since the epoch; zero for a clock set before it. The
/// wall clock may show anything, and [`since_epoch`] says what is made of it.
pub fn unix_time() -> (r: Duration) {
    since_epoch(nanos_since_epoch(std::time::SystemTime::now()))
}

/// Whole milliseconds of a span, held at the largest `i64`.
pub open spec fn span_millis(span: Duration) -> i64 {
    if span.millis() <= i64::MAX {
        span.millis() as i64
    } else {
        i64::MAX
    }
}

/// Whole milliseconds of a span, held at the largest `i64`.
pub fn millis_of(span: Duration) -> (r: i64)
    ensures
        r == span_millis(span),
        r >= 0,
{
    let millis: u128 = span.as_millis();
    if millis <= i64::MAX as u128 {
        millis as i64
    } else {
        i64::MAX
    }
}

/// Spans add up, as far as they can be held; a second is a thousand milliseconds,
/// and a millisecond a million nanoseconds.
pub proof fn law_spans(a: Duration, b: Duration, factor: nat, secs: u64, millis: u64)
    ensures
        Duration::of_secs(secs).nanos == secs * 1_000_000_000,
        Duration::of_millis(millis).nanos == millis * 1_000_000,
        Duration::of_millis(millis).millis() == millis,
        a.nanos + b.nanos <= u128::MAX ==> a.sum(b).nanos == a.nanos + b.nanos,
        a.nanos + b.nanos > u128::MAX ==> a.sum(b).nanos == u128::MAX,
        a.nanos * factor <= u128::MAX ==> a.product(factor).nanos == a.nanos * factor,
        a.nanos * factor > u128::MAX ==> a.product(factor).nanos == u128::MAX,
        a.millis() * 1_000_000 <= a.nanos < (a.millis() + 1) * 1_000_000,
        a.millis() <= i64::MAX ==> span_millis(a) == a.millis(),
        a.millis() > i64::MAX ==> span_millis(a) == i64::MAX,
{
    assert(secs * 1_000_000_000 <= u128::MAX) by (nonlinear_arith)
        requires
            secs <= u64::MAX,
    ;
    assert(millis * 1_000_000 <= u128::MAX) by (nonlinear_arith)
        requires
            millis <= u64::MAX,
    ;
}

/// A span after a reading is as long as the time since that reading; a later
/// reading has no time since an earlier one the other way round.
pub proof fn law_readings(at: Instant, span: Duration, other: Instant, m: Moment)
    ensures
        at.nanos + span.nanos <= u128::MAX ==> at.after(span).nanos == at.nanos + span.nanos
            && at.after(span).since(at) == span,
        at.nanos + span.nanos > u128::MAX ==> at.after(span).nanos == u128::MAX,
        other.nanos <= at.nanos ==> at.since(other).nanos == at.nanos - other.nanos,
        at.nanos <= other.nanos ==> at.since(other).nanos == 0,
        m.unix.nanos / 1_000_000 <= i64::MAX ==> m.ms() == m.unix.nanos / 1_000_000,
        m.ms() >= 0,
{
}

} // verus!
