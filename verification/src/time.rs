//! Points in time, to the millisecond, and their clock and duration texts.

use crate::text::{decimal, decimal_text, digit, signed_decimal, signed_text};
use chrono::{DateTime, NaiveDateTime};
use vstd::prelude::*;

verus! {

/// The earliest second that a timestamp can hold: the beginning of the year -262143, in UTC.
pub const MIN_SECS: i64 = -8_334_601_228_800;

/// The latest second that a timestamp can hold: the last one of the year 262142, in UTC.
pub const MAX_SECS: i64 = 8_210_266_876_799;

/// How a time is written in a log line.
pub const LOG_TIME_FORMAT: &'static str = "%Y-%m-%d %H:%M:%S%.3f";

/// How a time of day is written in a report.
pub const CLOCK_FORMAT: &'static str = "%H:%M:%S%.3f";

// ---- Moments ----
/// A second since the beginning of 1970 and the milliseconds in it, as one number that orders as
/// time does. Each second has room for two thousand milliseconds: those from a thousand on are the
/// milliseconds of a leap second that follows it.
pub open spec fn moment(secs: int, millis: int) -> int {
    secs * 2000 + millis
}

/// The second of a moment.
pub open spec fn second_of(t: int) -> int {
    t / 2000
}

/// The milliseconds of a moment, from a thousand on those of a leap second.
pub open spec fn millis_of(t: int) -> int {
    t % 2000
}

/// Whether a second and milliseconds give a time: only the last second of a minute can be followed
/// by a leap second.
pub open spec fn is_time(secs: int, millis: int) -> bool {
    &&& MIN_SECS <= secs <= MAX_SECS
    &&& 0 <= millis < 1000 || (secs % 60 == 59 && 1000 <= millis < 2000)
}

/// The milliseconds from one moment to another, negative where the other is earlier. A leap second
/// counts where it lies between the two and is one of their own, by the time of day.
pub open spec fn elapsed(from: int, to: int) -> int {
    let from_day = second_of(from) % 86_400;
    let to_day = second_of(to) % 86_400;
    let leap: int = if to_day > from_day && millis_of(from) >= 1000 {
        1
    } else if to_day < from_day && millis_of(to) >= 1000 {
        -1
    } else {
        0
    };
    (second_of(to) - second_of(from) + leap) * 1000 + millis_of(to) - millis_of(from)
}

/// Without leap seconds, the time that elapses is the difference of the two times in milliseconds.
pub proof fn elapsed_is_difference(a: int, b: int)
    requires
        millis_of(a) < 1000,
        millis_of(b) < 1000,
    ensures
        elapsed(a, b) == (second_of(b) * 1000 + millis_of(b)) - (second_of(a) * 1000 + millis_of(
            a,
        )),
{
}

/// There and back again, the times cancel out.
pub proof fn elapsed_is_antisymmetric(a: int, b: int)
    ensures
        elapsed(a, b) == -elapsed(b, a),
{
}

/// The second of the day.
fn second_of_day(secs: i64) -> (second: i64)
    requires
        MIN_SECS <= secs <= MAX_SECS,
    ensures
        second == secs as int % 86_400,
{
    (secs - MIN_SECS) % 86_400
}

/// A point in time in UTC, to the millisecond.
#[derive(Clone, Copy, Debug, PartialEq, Eq, Structural)]
pub struct Timestamp {
    /// Seconds since the beginning of 1970.
    secs: i64,
    /// Milliseconds in the second; from a thousand on, those of the leap second that follows.
    millis: u32,
}

impl View for Timestamp {
    type V = int;

    closed spec fn view(&self) -> int {
        moment(self.secs as int, self.millis as int)
    }
}

impl Timestamp {
    #[verifier::type_invariant]
    spec fn valid(self) -> bool {
        is_time(self.secs as int, self.millis as int)
    }

    /// The time `millis` milliseconds after the beginning of second `secs` since the beginning of
    /// 1970; `None` where there is no such time.
    pub fn from_parts(secs: i64, millis: u32) -> (time: Option<Timestamp>)
        ensures
            time is Some <==> is_time(secs as int, millis as int),
            time matches Some(t) ==> t@ == moment(secs as int, millis as int),
    {
        if secs < MIN_SECS || secs > MAX_SECS {
            return None;
        }
        if millis < 1000 || (millis < 2000 && (secs - MIN_SECS) % 60 == 59) {
            Some(Timestamp { secs, millis })
        } else {
            None
        }
    }

    /// The time at `millis` milliseconds since the beginning of 1970, leap seconds not counted;
    /// `None` out of range.
    pub fn from_millis(millis: i64) -> (time: Option<Timestamp>)
        ensures
            time is Some <==> MIN_SECS <= millis as int / 1000 <= MAX_SECS,
            time matches Some(t) ==> t@ == moment(millis as int / 1000, millis as int % 1000),
    {
        let least: i64 = MIN_SECS * 1000;
        if millis < least || millis > MAX_SECS * 1000 + 999 {
            return None;
        }
        let past = millis - least;
        Timestamp::from_parts(MIN_SECS + past / 1000, (past % 1000) as u32)
    }

    /// The beginning of 1970.
    pub fn epoch() -> (time: Timestamp)
        ensures
            time@ == moment(0, 0),
    {
        Timestamp { secs: 0, millis: 0 }
    }

    /// Seconds since the beginning of 1970; of a leap second, those of the second before it.
    pub fn seconds(&self) -> (secs: i64)
        ensures
            secs == second_of(self@),
            MIN_SECS <= secs <= MAX_SECS,
    {
        proof {
            use_type_invariant(&*self);
        }
        self.secs
    }

    /// The milliseconds in the second, from a thousand on those of a leap second.
    pub fn sub_millis(&self) -> (millis: u32)
        ensures
            millis == millis_of(self@),
            is_time(second_of(self@), millis as int),
    {
        proof {
            use_type_invariant(&*self);
        }
        self.millis
    }

    /// The number by which times are ordered.
    pub fn rank(&self) -> (rank: i64)
        ensures
            rank == self@,
    {
        self.seconds() * 2000 + self.sub_millis() as i64
    }

    /// Milliseconds from `earlier` to this time; negative where `earlier` is later.
    pub fn since(&self, earlier: &Timestamp) -> (millis: i64)
        ensures
            millis == elapsed(earlier@, self@),
            -0x4000_0000_0000_0000 < millis < 0x4000_0000_0000_0000,
    {
        let (from, to) = (earlier.seconds(), self.seconds());
        let (from_millis, to_millis) = (earlier.sub_millis(), self.sub_millis());
        let (from_day, to_day) = (second_of_day(from), second_of_day(to));
        let leap: i64 = if to_day > from_day && from_millis >= 1000 {
            1
        } else if to_day < from_day && to_millis >= 1000 {
            -1
        } else {
            0
        };
        (to - from + leap) * 1000 + to_millis as i64 - from_millis as i64
    }

    /// Milliseconds between this and another time, whichever comes first.
    pub fn apart(&self, other: &Timestamp) -> (millis: u64)
        ensures
            millis == if elapsed(other@, self@) < 0 {
                -elapsed(other@, self@)
            } else {
                elapsed(other@, self@)
            },
    {
        let d = self.since(other);
        if d < 0 {
            (0 - d) as u64
        } else {
            d as u64
        }
    }

    /// The time of day, such as `13:04:59.250`.
    pub fn clock(&self) -> (text: String)
        ensures
            text@ == clock_text(self@),
    {
        format_time(self.seconds(), self.sub_millis() * 1_000_000, CLOCK_FORMAT)
    }
}

/// The earlier of two times.
pub fn earlier_of(a: Timestamp, b: Timestamp) -> (t: Timestamp)
    ensures
        t@ == if a@ <= b@ {
            a@
        } else {
            b@
        },
{
    if a.rank() <= b.rank() {
        a
    } else {
        b
    }
}

/// The later of two times.
pub fn later_of(a: Timestamp, b: Timestamp) -> (t: Timestamp)
    ensures
        t@ == if a@ >= b@ {
            a@
        } else {
            b@
        },
{
    if a.rank() >= b.rank() {
        a
    } else {
        b
    }
}

// ---- Texts ----
/// What chrono reads as a date and time in UTC from a text in a given format: seconds since the
/// beginning of 1970 and the nanoseconds in the second, from a billion on those of a leap second.
pub uninterp spec fn chrono_time(text: Seq<char>, format: Seq<char>) -> Option<(i64, u32)>;

/// `NaiveDateTime::parse_from_str`, with the result taken as UTC and given in seconds and
/// nanoseconds. The contract names the result: a function of the text and the format.
#[verifier::external_body]
fn parse_time(text: &str, format: &str) -> (time: Option<(i64, u32)>)
    ensures
        time == chrono_time(text@, format@),
{
    let time = NaiveDateTime::parse_from_str(text, format).ok()?.and_utc();
    Some((time.timestamp(), time.timestamp_subsec_nanos()))
}

/// The time that a text in the logs' own format gives.
pub open spec fn log_time(text: Seq<char>) -> Option<int> {
    time_in_range(chrono_time(text, LOG_TIME_FORMAT@))
}

/// A time read, to the millisecond, where there is one and a timestamp can hold it.
pub open spec fn time_in_range(time: Option<(i64, u32)>) -> Option<int> {
    match time {
        Some((secs, nanos)) if is_time(secs as int, nanos as int / 1_000_000) => Some(
            moment(secs as int, nanos as int / 1_000_000),
        ),
        _ => None,
    }
}

/// The timestamp for what was read as a time.
pub fn timestamp_of(time: Option<(i64, u32)>) -> (stamp: Option<Timestamp>)
    ensures
        match stamp {
            Some(t) => time_in_range(time) == Some(t@),
            None => time_in_range(time) is None,
        },
{
    match time {
        Some((secs, nanos)) => Timestamp::from_parts(secs, nanos / 1_000_000),
        None => None,
    }
}

/// The time that a text in the logs' own format gives.
pub fn read_log_time(text: &str) -> (time: Option<Timestamp>)
    ensures
        match time {
            Some(t) => log_time(text@) == Some(t@),
            None => log_time(text@) is None,
        },
{
    timestamp_of(parse_time(text, LOG_TIME_FORMAT))
}

/// A number below a hundred, in two digits.
pub open spec fn two_digits(n: nat) -> Seq<char> {
    seq![digit(n / 10), digit(n % 10)]
}

/// A number below a thousand, in three digits.
pub open spec fn three_digits(n: nat) -> Seq<char> {
    seq![digit(n / 100), digit(n / 10 % 10), digit(n % 10)]
}

/// The time of day at a moment, to the millisecond: hours, minutes and seconds in two digits each
/// and the milliseconds in three. A leap second is second 60.
pub open spec fn clock_text(t: int) -> Seq<char> {
    let day = second_of(t) % 86_400;
    let second = day % 60 + millis_of(t) / 1000;
    two_digits((day / 3600) as nat) + seq![':'] + two_digits((day / 60 % 60) as nat) + seq![':']
        + two_digits(second as nat) + seq!['.'] + three_digits((millis_of(t) % 1000) as nat)
}

/// `DateTime::from_timestamp` and `DateTime::format` with hours, minutes, seconds and milliseconds:
/// the time of day in UTC, zero-padded. The nanoseconds are from a billion on those of a leap
/// second, which only the last second of a minute can have, and which is shown as second 60.
#[verifier::external_body]
fn format_time(secs: i64, nanos: u32, format: &str) -> (text: String)
    requires
        is_time(secs as int, nanos as int / 1_000_000),
        format@ == CLOCK_FORMAT@,
    ensures
        text@ == clock_text(moment(secs as int, nanos as int / 1_000_000)),
{
    DateTime::from_timestamp(secs, nanos).unwrap().format(format).to_string()
}

// ---- Durations ----
/// Division that rounds toward zero.
pub open spec fn toward_zero(n: int, d: int) -> int {
    if n >= 0 {
        n / d
    } else {
        -((-n) / d)
    }
}

/// A duration in words, to the minute below a day and to the hour from there on.
pub open spec fn duration_text(millis: int) -> Seq<char> {
    let secs = toward_zero(millis, 1000);
    if secs < 3600 {
        signed_decimal(toward_zero(secs, 60)) + " minute"@
    } else if secs < 86_400 {
        let hours = decimal((secs / 3600) as nat);
        let minutes = secs % 3600 / 60;
        if minutes > 0 {
            hours + " hour "@ + decimal(minutes as nat) + " minute"@
        } else {
            hours + " hour"@
        }
    } else {
        let days = decimal((secs / 86_400) as nat);
        let hours = secs % 86_400 / 3600;
        if hours > 0 {
            days + " day "@ + decimal(hours as nat) + " hour"@
        } else {
            days + " day"@
        }
    }
}

/// Division that rounds toward zero.
pub fn divide_toward_zero(n: i64, d: i64) -> (q: i64)
    requires
        d > 0,
        n > i64::MIN,
    ensures
        q == toward_zero(n as int, d as int),
{
    if n >= 0 {
        n / d
    } else {
        let m = 0 - n;
        assert(m / d <= m) by (nonlinear_arith)
            requires
                m >= 0,
                d > 0,
        ;
        assert(m / d >= 0) by (nonlinear_arith)
            requires
                m >= 0,
                d > 0,
        ;
        0 - m / d
    }
}

/// A duration of `millis` milliseconds in words.
pub fn format_duration(millis: i64) -> (text: String)
    requires
        millis > i64::MIN,
    ensures
        text@ == duration_text(millis as int),
{
    let secs = divide_toward_zero(millis, 1000);
    if secs < 3600 {
        let mut text = signed_text(divide_toward_zero(secs, 60) as i128);
        text.append(" minute");
        text
    } else if secs < 86_400 {
        let mut text = decimal_text((secs / 3600) as u128);
        let minutes = secs % 3600 / 60;
        if minutes > 0 {
            text.append(" hour ");
            text.append(decimal_text(minutes as u128).as_str());
            text.append(" minute");
        } else {
            text.append(" hour");
        }
        text
    } else {
        let mut text = decimal_text((secs / 86_400) as u128);
        let hours = secs % 86_400 / 3600;
        if hours > 0 {
            text.append(" day ");
            text.append(decimal_text(hours as u128).as_str());
            text.append(" hour");
        } else {
            text.append(" day");
        }
        text
    }
}

} // verus!
