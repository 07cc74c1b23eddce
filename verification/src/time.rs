//! Points in time and the whole days between them.

use vstd::prelude::*;

verus! {

/// The earliest second that a [`Timestamp`] holds, the first of the year -262143.
pub const FIRST_SECOND: i64 = -8_334_601_228_800;

/// The latest second that a [`Timestamp`] holds, the last of the year 262142.
pub const LAST_SECOND: i64 = 8_210_266_876_799;

/// A point in time, in seconds since the start of 1970 (UTC) and nanoseconds within the
/// second. Within a leap second, which the last second of a minute stands for too, the
/// nanoseconds run from 1,000,000,000 up to 2,000,000,000.
#[derive(Debug, Clone, Copy)]
pub struct Timestamp {
    secs: i64,
    nanos: u32,
}

/// The mathematical value of a [`Timestamp`].
pub struct Instant {
    pub secs: int,
    pub nanos: int,
}

/// The seconds and nanoseconds that make a point in time.
pub open spec fn is_instant(secs: int, nanos: int) -> bool {
    &&& FIRST_SECOND <= secs <= LAST_SECOND
    &&& 0 <= nanos < 2_000_000_000
    &&& nanos >= 1_000_000_000 ==> secs % 60 == 59
}

/// `a` is earlier than `b`.
pub open spec fn earlier(a: Instant, b: Instant) -> bool {
    a.secs < b.secs || (a.secs == b.secs && a.nanos < b.nanos)
}

/// The second that a leap second at one of the two points adds between them. Only the times
/// of day decide whether it lies between them.
pub open spec fn leap_between(a: Instant, b: Instant) -> int {
    let day: int = 86_400;
    if a.secs % day > b.secs % day && b.nanos >= 1_000_000_000 {
        1
    } else if a.secs % day < b.secs % day && a.nanos >= 1_000_000_000 {
        -1
    } else {
        0
    }
}

/// The nanoseconds from `b` to `a`.
pub open spec fn nanos_since(a: Instant, b: Instant) -> int {
    (a.secs - b.secs + leap_between(a, b)) * 1_000_000_000 + a.nanos - b.nanos
}

/// The nanoseconds of a day.
pub open spec fn nanos_per_day() -> int {
    86_400_000_000_000
}

/// The whole days of a span; a part of a day is dropped, forward and backward alike.
pub open spec fn whole_days_in(nanos: int) -> int {
    if nanos >= 0 {
        nanos / nanos_per_day()
    } else {
        -((-nanos) / nanos_per_day())
    }
}

/// The whole days from `b` to `a`.
pub open spec fn whole_days_since(a: Instant, b: Instant) -> int {
    whole_days_in(nanos_since(a, b))
}

/// The text that `to_rfc3339` of chrono's `DateTime<Utc>` gives for a point in time.
pub uninterp spec fn rfc3339_form(secs: int, nanos: int) -> Seq<char>;

/// Subtracts two points in time as chrono's `DateTime<Utc>` values, made of the numbers by
/// `DateTime::from_timestamp`, and counts the whole days of the difference with
/// `TimeDelta::num_days`. The difference is exact to the nanosecond, counts a leap second at
/// either point, and is cut off toward zero.
#[verifier::external_body]
fn chrono_days(a_secs: i64, a_nanos: u32, b_secs: i64, b_nanos: u32) -> (days: i64)
    requires
        is_instant(a_secs as int, a_nanos as int),
        is_instant(b_secs as int, b_nanos as int),
    ensures
        days == whole_days_since(
            Instant { secs: a_secs as int, nanos: a_nanos as int },
            Instant { secs: b_secs as int, nanos: b_nanos as int },
        ),
{
    let a = chrono::DateTime::<chrono::Utc>::from_timestamp(a_secs, a_nanos).unwrap();
    let b = chrono::DateTime::<chrono::Utc>::from_timestamp(b_secs, b_nanos).unwrap();
    (a - b).num_days()
}

/// Writes a point in time, made by `DateTime::from_timestamp`, with `DateTime::to_rfc3339`.
/// The text is a function of the two numbers alone.
#[verifier::external_body]
fn chrono_rfc3339(secs: i64, nanos: u32) -> (text: String)
    requires
        is_instant(secs as int, nanos as int),
    ensures
        text@ == rfc3339_form(secs as int, nanos as int),
{
    chrono::DateTime::<chrono::Utc>::from_timestamp(secs, nanos).unwrap().to_rfc3339()
}

impl View for Timestamp {
    type V = Instant;

    closed spec fn view(&self) -> Instant {
        Instant { secs: self.secs as int, nanos: self.nanos as int }
    }
}

impl Timestamp {
    #[verifier::type_invariant]
    closed spec fn in_range(self) -> bool {
        is_instant(self.secs as int, self.nanos as int)
    }

    /// The point in time with the given seconds and nanoseconds, if they make one.
    pub fn new(secs: i64, nanos: u32) -> (time: Option<Timestamp>)
        ensures
            match time {
                Some(t) => is_instant(secs as int, nanos as int) && t@ == (Instant {
                    secs: secs as int,
                    nanos: nanos as int,
                }),
                None => !is_instant(secs as int, nanos as int),
            },
    {
        if secs < FIRST_SECOND || secs > LAST_SECOND || nanos >= 2_000_000_000 {
            return None;
        }
        // The remainder of a negative number counts down to the minute.
        let within: i64 = secs % 60;
        if nanos >= 1_000_000_000 && within != 59 && within != -1 {
            return None;
        }
        Some(Timestamp { secs, nanos })
    }

    /// Tests whether this point is earlier than `other`.
    pub fn is_before(&self, other: &Timestamp) -> (r: bool)
        ensures
            r == earlier(self@, other@),
    {
        self.secs < other.secs || (self.secs == other.secs && self.nanos < other.nanos)
    }

    /// The whole days from `other` to this point.
    pub fn days_since(&self, other: &Timestamp) -> (days: i64)
        ensures
            days == whole_days_since(self@, other@),
    {
        proof {
            use_type_invariant(self);
            use_type_invariant(other);
        }
        chrono_days(self.secs, self.nanos, other.secs, other.nanos)
    }

    /// This point in the form of RFC 3339.
    pub fn rfc3339(&self) -> (text: String)
        ensures
            text@ == rfc3339_form(self@.secs, self@.nanos),
    {
        proof {
            use_type_invariant(self);
        }
        chrono_rfc3339(self.secs, self.nanos)
    }
}

/// A point lies at least so many whole days back exactly if at least the time of so many days has
/// passed since. That holds of one day or more, and of points that are not ahead of `now`.
pub proof fn whole_days_are_time_passed(now: Instant, then: Instant, days: int)
    requires
        days >= 1 || nanos_since(now, then) >= 0,
    ensures
        whole_days_since(now, then) >= days <==> nanos_since(now, then) >= days * nanos_per_day(),
{
}

/// `now` lies in the leap second at the end of a day and `later` in the second after it, while
/// `then` lies in the first second of a day or in such a leap second, at a fraction of the second
/// between the two. As the leap second is counted and then left behind, the time since `then`
/// may fall back below a whole day.
pub open spec fn at_a_fold(now: Instant, later: Instant, then: Instant) -> bool {
    let second: int = 1_000_000_000;
    &&& now.nanos >= second
    &&& now.secs % 86_400 == 86_399
    &&& later.secs == now.secs + 1
    &&& then.secs % 86_400 == 0 || (then.secs % 86_400 == 86_399 && then.nanos >= second)
    &&& later.nanos <= then.nanos % second <= now.nanos % second
}

/// The second of the day.
spec fn second_of_day(at: Instant) -> int {
    at.secs % 86_400
}

/// The nanoseconds from the time of day of `b` to the time of day of `a`.
spec fn time_of_day_since(a: Instant, b: Instant) -> int {
    (second_of_day(a) - second_of_day(b) + leap_between(a, b)) * 1_000_000_000 + a.nanos - b.nanos
}

proof fn lemma_split_days(a: Instant, b: Instant)
    ensures
        nanos_since(a, b) == (a.secs / 86_400 - b.secs / 86_400) * nanos_per_day()
            + time_of_day_since(a, b),
{
}

/// The two spans lie between the same whole days, of which there are `days` before them.
proof fn lemma_same_days(x: int, y: int, days: int)
    requires
        days * nanos_per_day() < x < (days + 1) * nanos_per_day(),
        days * nanos_per_day() < y < (days + 1) * nanos_per_day(),
    ensures
        whole_days_in(x) == whole_days_in(y),
{
    if days >= 0 {
        assert(x / nanos_per_day() == days);
        assert(y / nanos_per_day() == days);
    } else {
        assert((-x) / nanos_per_day() == -days - 1);
        assert((-y) / nanos_per_day() == -days - 1);
    }
}

/// A leap second stands at the end of a minute of the day.
proof fn lemma_times_of_day(at: Instant)
    requires
        is_instant(at.secs, at.nanos),
    ensures
        0 <= second_of_day(at) < 86_400,
        at.nanos >= 1_000_000_000 ==> 59 <= second_of_day(at) && (second_of_day(at) <= 86_339
            || second_of_day(at) == 86_399),
        at.nanos >= 1_000_000_000 ==> second_of_day(at) % 60 == 59,
{
}

proof fn lemma_falls_within_a_day(now: Instant, later: Instant, then: Instant)
    requires
        is_instant(now.secs, now.nanos),
        is_instant(later.secs, later.nanos),
        is_instant(then.secs, then.nanos),
        !earlier(later, now),
        !at_a_fold(now, later, then),
        nanos_since(later, then) < nanos_since(now, then),
    ensures
        ({
            let d0 = now.secs / 86_400 - then.secs / 86_400;
            let d1 = later.secs / 86_400 - then.secs / 86_400;
            let r0 = time_of_day_since(now, then);
            let r1 = time_of_day_since(later, then);
            ||| d0 == d1 && 0 < r0 < nanos_per_day() && 0 < r1 < nanos_per_day()
            ||| d0 == d1 && -nanos_per_day() < r0 < 0 && -nanos_per_day() < r1 < 0
            ||| d1 == d0 + 1 && 0 < r0 < nanos_per_day() && -nanos_per_day() < r1 < 0
            ||| d1 == d0 + 1 && nanos_per_day() < r0 < 2 * nanos_per_day() && 0 < r1 < nanos_per_day()
            ||| d1 == d0 + 1 && -nanos_per_day() < r0 < 0 && -2 * nanos_per_day() < r1
                < -nanos_per_day()
        }),
{
    lemma_split_days(now, then);
    lemma_split_days(later, then);
    lemma_times_of_day(now);
    lemma_times_of_day(later);
    lemma_times_of_day(then);
    let d0 = now.secs / 86_400;
    let d1 = later.secs / 86_400;
    let t0 = second_of_day(now);
    let t1 = second_of_day(later);
    let t = second_of_day(then);
    assert(now.secs == 86_400 * d0 + t0);
    assert(later.secs == 86_400 * d1 + t1);
    assert(d0 <= d1);
    assert(-1 <= leap_between(now, then) <= 1);
    assert(-1 <= leap_between(later, then) <= 1);
    assert(d1 <= d0 + 1);
    if d1 == d0 {
        assert(t0 <= t1);
    } else {
        assert(t1 <= 3 && t0 >= 86_396);
    }
}

/// The whole days since a point never become fewer as time goes on, but right after a leap second
/// at the end of a day.
pub proof fn whole_days_never_fall(now: Instant, later: Instant, then: Instant)
    requires
        is_instant(now.secs, now.nanos),
        is_instant(later.secs, later.nanos),
        is_instant(then.secs, then.nanos),
        !earlier(later, now),
        !at_a_fold(now, later, then),
    ensures
        whole_days_since(later, then) >= whole_days_since(now, then),
{
    let x = nanos_since(now, then);
    let y = nanos_since(later, then);
    if y < x {
        lemma_falls_within_a_day(now, later, then);
        lemma_split_days(now, then);
        lemma_split_days(later, then);
        let days = now.secs / 86_400 - then.secs / 86_400;
        if time_of_day_since(now, then) > nanos_per_day() {
            lemma_same_days(x, y, days + 1);
        } else if time_of_day_since(now, then) > 0 {
            lemma_same_days(x, y, days);
        } else {
            lemma_same_days(x, y, days - 1);
        }
    }
}

/// The points in time are those of the calendar from the year -262143 to the year 262142, to the
/// nanosecond, and the leap seconds at the end of a minute.
pub proof fn the_calendar_is_covered(secs: int, nanos: int)
    ensures
        is_instant(secs, nanos) <==> {
            &&& -8_334_601_228_800 <= secs && secs <= 8_210_266_876_799
            &&& 0 <= nanos && nanos < 2_000_000_000
            &&& nanos < 1_000_000_000 || (secs - 59) % 60 == 0
        },
{
}

/// Of two points the one in the earlier second is earlier, and within a second the one with fewer
/// nanoseconds.
pub proof fn seconds_decide_before_nanoseconds(a: Instant, b: Instant)
    ensures
        a.secs < b.secs ==> earlier(a, b),
        a.secs > b.secs ==> !earlier(a, b),
        a.secs == b.secs ==> (earlier(a, b) <==> b.nanos - a.nanos > 0),
{
}

/// Where no leap second comes in, a point is earlier than another exactly if time passes from it
/// to the other.
pub proof fn earlier_means_that_time_passes(a: Instant, b: Instant)
    requires
        is_instant(a.secs, a.nanos),
        is_instant(b.secs, b.nanos),
        a.nanos < 1_000_000_000,
        b.nanos < 1_000_000_000,
    ensures
        earlier(a, b) <==> nanos_since(b, a) > 0,
        nanos_since(b, a) == (b.secs - a.secs) * 1_000_000_000 + (b.nanos - a.nanos),
{
}

/// Where no leap second comes in, a point lies at least so many whole days back, one or more,
/// exactly if so many times 86,400 seconds have passed.
pub proof fn a_day_has_86400_seconds(now: Instant, then: Instant, days: int)
    requires
        now.nanos < 1_000_000_000,
        then.nanos < 1_000_000_000,
        days >= 1,
    ensures
        whole_days_since(now, then) >= days <==> (now.secs - then.secs - days * 86_400)
            * 1_000_000_000 + (now.nanos - then.nanos) >= 0,
        whole_days_since(then, now) <= -days <==> (now.secs - then.secs - days * 86_400)
            * 1_000_000_000 + (now.nanos - then.nanos) >= 0,
{
}

} // verus!
