//! Points in time, in UTC.

use vstd::prelude::*;
use vstd::string::*;

verus! {

/// A point in time: seconds since 1970-01-01 00:00:00 UTC and nanoseconds within the second.
/// Nanoseconds from one second on stand for a leap second.
#[derive(Debug, Clone, Copy, PartialEq, Eq, Structural)]
pub struct Timestamp {
    pub secs: i64,
    pub nanos: u32,
}

/// The calendar holds this point: the years from -262143 to 262142, and leap seconds only at
/// the end of a minute.
pub open spec fn in_calendar(secs: int, nanos: int) -> bool {
    &&& -8_334_601_228_800 <= secs <= 8_210_266_876_799
    &&& 0 <= nanos < 2_000_000_000
    &&& nanos >= 1_000_000_000 ==> secs % 60 == 59
}

/// The quotient rounded toward zero.
pub open spec fn toward_zero(a: int, b: int) -> int {
    if a >= 0 {
        a / b
    } else {
        -((-a) / b)
    }
}

/// The leap second that lies between two points of which one is in it: 1 where `b` is in a leap
/// second and `a` later in the day, -1 where `a` is and `b` is later in the day.
pub open spec fn leap_between(a: Timestamp, b: Timestamp) -> int {
    if a.secs as int % 86_400 > b.secs as int % 86_400 && b.nanos >= 1_000_000_000 {
        1
    } else if (a.secs as int % 86_400) < b.secs as int % 86_400 && a.nanos >= 1_000_000_000 {
        -1
    } else {
        0
    }
}

/// The nanoseconds from `b` to `a`.
pub open spec fn nanos_between(a: Timestamp, b: Timestamp) -> int {
    (a.secs - b.secs + leap_between(a, b)) * 1_000_000_000 + (a.nanos - b.nanos)
}

/// The whole minutes from `b` to `a`.
pub open spec fn whole_minutes(a: Timestamp, b: Timestamp) -> int {
    toward_zero(toward_zero(nanos_between(a, b), 1_000_000_000), 60)
}

/// The text of a point in time under a `strftime` pattern, as `chrono` writes it.
pub uninterp spec fn written_time(secs: int, nanos: int, pattern: Seq<char>) -> Seq<char>;

/// The point in time that a text holds under a `strftime` pattern, as `chrono` reads it.
pub uninterp spec fn read_time(s: Seq<char>, pattern: Seq<char>) -> Option<(int, int)>;

impl Timestamp {
    /// The calendar holds this point.
    pub open spec fn valid(self) -> bool {
        in_calendar(self.secs as int, self.nanos as int)
    }

    /// 1970-01-01 00:00:00 UTC.
    pub open spec fn start() -> Timestamp {
        Timestamp { secs: 0, nanos: 0 }
    }
}

/// The point in time with these parts, where the calendar holds it.
///
/// Calls `chrono::DateTime::from_timestamp`. Claimed: there is a result exactly for the seconds
/// of the years from -262143 to 262142 with nanoseconds below two seconds, from one second on
/// only in the last second of a minute, and the result has the parts that went in.
#[verifier::external_body]
fn calendar_time(secs: i64, nanos: u32) -> (r: Option<Timestamp>)
    ensures
        r == if in_calendar(secs as int, nanos as int) {
            Some(Timestamp { secs, nanos })
        } else {
            None
        },
{
    chrono::DateTime::from_timestamp(secs, nanos).map(
        |t| Timestamp { secs: t.timestamp(), nanos: t.timestamp_subsec_nanos() },
    )
}

/// The point in time with these parts, and the start of time counting where there is none.
pub fn from_unix(secs: i64, nanos: u32) -> (r: Timestamp)
    ensures
        r == if in_calendar(secs as int, nanos as int) {
            (Timestamp { secs, nanos })
        } else {
            Timestamp::start()
        },
        r.valid(),
{
    match calendar_time(secs, nanos) {
        Some(t) => t,
        None => Timestamp { secs: 0, nanos: 0 },
    }
}

/// Reads a point in time.
///
/// Calls `chrono::NaiveDateTime::parse_from_str` and takes what it gives as UTC. Claimed: the
/// result is a function of the text and the pattern, and the calendar holds it.
#[verifier::external_body]
pub(crate) fn read_as(s: &str, pattern: &str) -> (r: Option<Timestamp>)
    ensures
        match r {
            Some(t) => read_time(s@, pattern@) == Some((t.secs as int, t.nanos as int)) && t.valid(),
            None => read_time(s@, pattern@) is None,
        },
{
    chrono::NaiveDateTime::parse_from_str(s, pattern).ok().map(
        |t| Timestamp { secs: t.and_utc().timestamp(), nanos: t.and_utc().timestamp_subsec_nanos() },
    )
}

/// Writes a point in time.
///
/// Calls `chrono::NaiveDateTime::format`. Claimed: the result is a function of the point and
/// the pattern. Only patterns that it knows are admitted: on others it panics.
#[verifier::external_body]
pub(crate) fn write_as(t: &Timestamp, pattern: &str) -> (r: String)
    requires
        t.valid(),
        pattern@ == "%Y-%m-%d %H:%M:%S"@ || pattern@ == "%Y-%m-%dT%H:%M:%S"@,
    ensures
        r@ == written_time(t.secs as int, t.nanos as int, pattern@),
{
    chrono::DateTime::from_timestamp(t.secs, t.nanos).unwrap().naive_utc().format(pattern).to_string()
}

/// The whole minutes from `b` to `a`.
///
/// Calls `chrono::NaiveDateTime::signed_duration_since` and `chrono::TimeDelta::num_minutes`.
/// Claimed: the difference is taken to the nanosecond, counts a leap second that lies between
/// the times of day, and is rounded toward zero to seconds and then to minutes.
#[verifier::external_body]
pub(crate) fn minutes_between(a: &Timestamp, b: &Timestamp) -> (r: i64)
    requires
        a.valid(),
        b.valid(),
    ensures
        r == whole_minutes(*a, *b),
{
    let later = chrono::DateTime::from_timestamp(a.secs, a.nanos).unwrap().naive_utc();
    let earlier = chrono::DateTime::from_timestamp(b.secs, b.nanos).unwrap().naive_utc();
    later.signed_duration_since(earlier).num_minutes()
}

impl Timestamp {
    /// The point as `YYYY-MM-DD HH:MM:SS`.
    pub fn to_text(&self) -> (r: String)
        requires
            self.valid(),
        ensures
            r@ == written_time(self.secs as int, self.nanos as int, "%Y-%m-%d %H:%M:%S"@),
    {
        write_as(self, "%Y-%m-%d %H:%M:%S")
    }
}

} // verus!
