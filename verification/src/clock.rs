//! Points and spans of time as plain integers.
//!
//! `Instant` is a reading of a monotonic clock, `Duration` a span between two
//! readings, and `Timestamp` a point of civil time in UTC.

use vstd::prelude::*;

verus! {

/// A span of time, in nanoseconds.
#[derive(Clone, Copy, Debug, PartialEq, Eq, Structural)]
pub struct Duration {
    pub nanos: u128,
}

/// A reading of a monotonic clock, in nanoseconds since some fixed origin.
#[derive(Clone, Copy, Debug, PartialEq, Eq, Structural)]
pub struct Instant {
    pub nanos: u128,
}

impl Duration {
    /// Whole milliseconds in this span.
    pub open spec fn millis(self) -> nat {
        (self.nanos / 1_000_000) as nat
    }

    /// Whole microseconds in this span.
    pub open spec fn micros(self) -> nat {
        (self.nanos / 1_000) as nat
    }

    pub fn from_millis(millis: u64) -> (r: Duration)
        ensures
            r.nanos == millis * 1_000_000,
    {
        Duration { nanos: millis as u128 * 1_000_000 }
    }

    pub fn from_micros(micros: u64) -> (r: Duration)
        ensures
            r.nanos == micros * 1_000,
    {
        Duration { nanos: micros as u128 * 1_000 }
    }

    pub fn as_millis(&self) -> (r: u128)
        ensures
            r == self.millis(),
    {
        self.nanos / 1_000_000
    }

    pub fn as_micros(&self) -> (r: u128)
        ensures
            r == self.micros(),
    {
        self.nanos / 1_000
    }

    /// The distance between two spans, whichever is longer.
    pub fn abs_diff(self, other: Duration) -> (r: Duration)
        ensures
            r.nanos == distance(self.nanos as int, other.nanos as int),
    {
        if self.nanos > other.nanos {
            Duration { nanos: self.nanos - other.nanos }
        } else {
            Duration { nanos: other.nanos - self.nanos }
        }
    }

    /// This span less `other`, or no time at all when `other` is longer.
    pub fn saturating_sub(self, other: Duration) -> (r: Duration)
        ensures
            r.nanos == positive_part(self.nanos - other.nanos),
    {
        if self.nanos > other.nanos {
            Duration { nanos: self.nanos - other.nanos }
        } else {
            Duration { nanos: 0 }
        }
    }
}

impl Instant {
    /// The time from `earlier` to this reading, or no time when `earlier` is later.
    pub fn duration_since(self, earlier: Instant) -> (r: Duration)
        ensures
            r.nanos == positive_part(self.nanos - earlier.nanos),
    {
        if self.nanos > earlier.nanos {
            Duration { nanos: self.nanos - earlier.nanos }
        } else {
            Duration { nanos: 0 }
        }
    }

    /// The reading `d` after this one.
    pub fn plus(self, d: Duration) -> (r: Instant)
        requires
            self.nanos + d.nanos <= u128::MAX,
        ensures
            r.nanos == self.nanos + d.nanos,
    {
        Instant { nanos: self.nanos + d.nanos }
    }
}

/// `|a - b|`.
pub open spec fn distance(a: int, b: int) -> int {
    if a > b {
        a - b
    } else {
        b - a
    }
}

/// `n`, or zero when `n` is negative.
pub open spec fn positive_part(n: int) -> int {
    if n > 0 {
        n
    } else {
        0
    }
}

/// The quotient of `a` by a positive `b`, rounded toward zero.
pub open spec fn truncated_div(a: int, b: int) -> int {
    if a < 0 {
        -((-a) / b)
    } else {
        a / b
    }
}

/// A point of civil time in UTC: seconds since 1970-01-01T00:00:00Z, leap seconds
/// not counted, and nanoseconds into that second. During a leap second `nanos`
/// runs on past one second.
#[derive(Clone, Copy, Debug, PartialEq, Eq, Structural)]
pub struct Timestamp {
    pub secs: i64,
    pub nanos: u32,
}

/// First and last second of the calendar that timestamps reach.
pub const FIRST_SECOND: i64 = -8334601228800;
pub const LAST_SECOND: i64 = 8210266876799;

impl Timestamp {
    /// Whether this is a point of the calendar.
    pub open spec fn wf(self) -> bool {
        &&& FIRST_SECOND <= self.secs <= LAST_SECOND
        &&& self.nanos < 1_000_000_000 || (self.nanos < 2_000_000_000 && self.secs % 60 == 59)
    }

    /// Whether this point falls into the years 0 to 9999.
    pub open spec fn four_digit_year(self) -> bool {
        -62167219200 <= self.secs <= 253402300799
    }
}

/// Whole milliseconds from `earlier` to `later`, rounded toward zero. Leap seconds
/// count only as far as one of the two points lies inside one.
pub open spec fn millis_between(later: Timestamp, earlier: Timestamp) -> int {
    let leap: int = if later.secs as int % 86400 > earlier.secs as int % 86400 && earlier.nanos
        >= 1_000_000_000 {
        1
    } else if (later.secs as int % 86400) < earlier.secs as int % 86400 && later.nanos
        >= 1_000_000_000 {
        -1
    } else {
        0
    };
    truncated_div(
        (later.secs - earlier.secs + leap) * 1_000_000_000 + later.nanos - earlier.nanos,
        1_000_000,
    )
}

/// The text that chrono writes for the UTC time at `secs` and `nanos`.
pub uninterp spec fn rfc3339_text(secs: i64, nanos: u32) -> Seq<char>;

/// The UTC time, as seconds and nanoseconds, that chrono reads from an RFC 3339 text.
pub uninterp spec fn rfc3339_time(text: Seq<char>) -> Option<(i64, u32)>;

/// `chrono::DateTime::to_rfc3339` on the UTC time `t`. Trusted: the text depends on
/// `t` alone, and for years of four digits `parse_from_rfc3339` reads `t` back from it.
#[verifier::external_body]
pub(crate) fn format_rfc3339(t: Timestamp) -> (r: String)
    requires
        t.wf(),
    ensures
        r@ == rfc3339_text(t.secs, t.nanos),
        t.four_digit_year() ==> rfc3339_time(r@) == Some((t.secs, t.nanos)),
{
    chrono::DateTime::from_timestamp(t.secs, t.nanos).unwrap().to_rfc3339()
}

/// `chrono::DateTime::parse_from_rfc3339`, the result moved to UTC. Trusted: the
/// outcome depends on the text alone and is a point of the calendar.
#[verifier::external_body]
pub(crate) fn parse_rfc3339(text: &str) -> (r: Option<Timestamp>)
    ensures
        match r {
            Some(t) => t.wf() && rfc3339_time(text@) == Some((t.secs, t.nanos)),
            None => rfc3339_time(text@) is None,
        },
{
    match chrono::DateTime::parse_from_rfc3339(text) {
        Ok(dt) => Some(Timestamp { secs: dt.timestamp(), nanos: dt.timestamp_subsec_nanos() }),
        Err(_) => None,
    }
}

/// `chrono::DateTime::signed_duration_since` in whole milliseconds. Trusted: the
/// difference is `millis_between`.
#[verifier::external_body]
pub(crate) fn elapsed_millis(later: Timestamp, earlier: Timestamp) -> (r: i64)
    requires
        later.wf(),
        earlier.wf(),
    ensures
        r == millis_between(later, earlier),
{
    let from = chrono::DateTime::from_timestamp(earlier.secs, earlier.nanos).unwrap();
    let to = chrono::DateTime::from_timestamp(later.secs, later.nanos).unwrap();
    to.signed_duration_since(from).num_milliseconds()
}

/// The end-to-end delay at `now` of something stamped `stamp`, in milliseconds: none
/// when the stamp is missing or lies in the future.
pub fn delay_since(stamp: Option<Timestamp>, now: Timestamp) -> (r: u64)
    requires
        now.wf(),
        stamp matches Some(t) ==> t.wf(),
    ensures
        r == match stamp {
            Some(t) => positive_part(millis_between(now, t)),
            None => 0,
        },
{
    match stamp {
        Some(t) => {
            let ms: i64 = elapsed_millis(now, t);
            if ms > 0 {
                ms as u64
            } else {
                0
            }
        },
        None => 0,
    }
}

/// A positive part is never negative, never below its number, and is that number or nothing.
pub proof fn law_positive_part(n: int)
    ensures
        positive_part(n) >= 0,
        positive_part(n) >= n,
        positive_part(n) == n || positive_part(n) == 0,
{
}

/// A distance is never negative, is one of the two differences, and does not depend on the
/// order; only a number and itself have none between them.
pub proof fn law_distance(a: int, b: int)
    ensures
        distance(a, b) >= 0,
        distance(a, b) == a - b || distance(a, b) == b - a,
        distance(a, b) == distance(b, a),
        distance(a, b) == 0 <==> a == b,
{
}

/// A truncated quotient times the divisor is nearer to nothing than the dividend, by less than
/// one divisor.
pub proof fn law_truncated_div(a: int, b: int)
    requires
        b > 0,
    ensures
        a >= 0 ==> truncated_div(a, b) * b <= a < truncated_div(a, b) * b + b,
        a <= 0 ==> truncated_div(a, b) * b >= a > truncated_div(a, b) * b - b,
{
    let q = truncated_div(a, b);
    if a >= 0 {
        assert(q * b <= a < q * b + b) by (nonlinear_arith)
            requires
                q == a / b,
                b > 0,
        ;
    } else {
        let n = -a;
        let p = n / b;
        assert(p * b <= n < p * b + b) by (nonlinear_arith)
            requires
                p == n / b,
                b > 0,
        ;
        assert(q * b == -(p * b)) by (nonlinear_arith)
            requires
                q == -p,
        ;
    }
}

/// A span holds its whole milliseconds and microseconds, and no more of them would fit.
pub proof fn law_whole_units(d: Duration)
    ensures
        1_000_000 * d.millis() <= d.nanos < 1_000_000 * (d.millis() + 1),
        1_000 * d.micros() <= d.nanos < 1_000 * (d.micros() + 1),
{
}

/// Outside leap seconds the milliseconds between two points are the difference of their
/// nanoseconds without the broken one, and change sign with the order.
pub proof fn law_millis_between(later: Timestamp, earlier: Timestamp)
    requires
        later.nanos < 1_000_000_000,
        earlier.nanos < 1_000_000_000,
    ensures
        ({
            let ms = millis_between(later, earlier);
            let span = (later.secs - earlier.secs) * 1_000_000_000 + (later.nanos
                - earlier.nanos);
            &&& span >= 0 ==> 1_000_000 * ms <= span < 1_000_000 * ms + 1_000_000
            &&& span <= 0 ==> 1_000_000 * ms >= span > 1_000_000 * ms - 1_000_000
            &&& millis_between(earlier, later) == -ms
        }),
{
}

/// A point inside a leap second is later than the second after which it is counted: when the
/// other point has a later second of its day, one more second lies between the two. Otherwise
/// nothing is added, and in every case the sign changes with the order.
pub proof fn law_millis_around_leap_seconds(later: Timestamp, earlier: Timestamp)
    ensures
        ({
            let ms = millis_between(later, earlier);
            let span = (later.secs - earlier.secs) * 1_000_000_000 + (later.nanos
                - earlier.nanos);
            let days_apart = later.secs as int / 86400 - earlier.secs as int / 86400;
            let ahead = later.secs - earlier.secs - 86400 * days_apart;
            let counted = if ahead > 0 && earlier.nanos >= 1_000_000_000 {
                span + 1_000_000_000
            } else if ahead < 0 && later.nanos >= 1_000_000_000 {
                span - 1_000_000_000
            } else {
                span
            };
            &&& counted >= 0 ==> 1_000_000 * ms <= counted < 1_000_000 * ms + 1_000_000
            &&& counted <= 0 ==> 1_000_000 * ms >= counted > 1_000_000 * ms - 1_000_000
            &&& millis_between(earlier, later) == -ms
        }),
{
}

/// The calendar has a leap second only at the end of a minute, and its years 0 to 9999 are those
/// whose seconds lie in one range without a gap.
pub proof fn law_points_of_the_calendar(t: Timestamp)
    ensures
        t.wf() ==> t.nanos < 2_000_000_000,
        t.wf() && t.nanos >= 1_000_000_000 ==> t.secs % 60 == 59,
        t.four_digit_year() <==> 0 <= t.secs + 62_167_219_200 < 315_569_520_000,
{
}

} // verus!
