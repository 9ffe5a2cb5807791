//! What holds of times and durations as they are shown.

use crate::text::decimal;
use crate::time::{
    clock_text, duration_text, elapsed, moment, three_digits, toward_zero, two_digits,
};
use vstd::prelude::*;

verus! {

/// A number, and a word behind it.
pub open spec fn counted(n: nat, word: Seq<char>) -> Seq<char> {
    decimal(n) + word
}

/// A duration of days, hours and minutes is shown by the days and the hours from one day on, by the
/// hours and the minutes from one hour on, and else by the minutes; what is zero behind the first is
/// left out, and so are seconds and milliseconds.
pub proof fn duration_is_shown(days: nat, hours: nat, minutes: nat, seconds: nat, millis: nat)
    requires
        hours < 24,
        minutes < 60,
        seconds < 60,
        millis < 1000,
    ensures
        ({
            let secs = ((days * 24 + hours) * 60 + minutes) * 60 + seconds;
            duration_text((secs * 1000 + millis) as int) == if days > 0 {
                if hours > 0 {
                    counted(days, " day "@) + counted(hours, " hour"@)
                } else {
                    counted(days, " day"@)
                }
            } else if hours > 0 {
                if minutes > 0 {
                    counted(hours, " hour "@) + counted(minutes, " minute"@)
                } else {
                    counted(hours, " hour"@)
                }
            } else {
                counted(minutes, " minute"@)
            }
        }),
{
    let secs = (((days * 24 + hours) * 60 + minutes) * 60 + seconds) as int;
    let total = secs * 1000 + millis;
    assert(total / 1000 == secs);
    assert(toward_zero(total, 1000) == secs);
    if days > 0 {
        assert(secs / 86_400 == days);
        assert(secs % 86_400 / 3600 == hours);
        assert(secs >= 86_400);
        assert(decimal(days) + " day "@ + decimal(hours) + " hour"@ =~= (decimal(days) + " day "@)
            + (decimal(hours) + " hour"@));
    } else if hours > 0 {
        assert(secs / 3600 == hours);
        assert(secs % 3600 / 60 == minutes);
        assert(3600 <= secs < 86_400);
        assert(decimal(hours) + " hour "@ + decimal(minutes) + " minute"@ =~= (decimal(hours)
            + " hour "@) + (decimal(minutes) + " minute"@));
    } else {
        assert(secs < 3600);
        assert(secs / 60 == minutes);
        assert(toward_zero(secs, 60) == minutes);
    }
}

/// A number below a hundred in two digits is its decimal text, behind a zero where it has one digit;
/// likewise in three digits.
pub proof fn digits_are_filled_up(n: nat)
    ensures
        n < 10 ==> two_digits(n) == seq!['0'] + decimal(n),
        10 <= n < 100 ==> two_digits(n) == decimal(n),
        n < 10 ==> three_digits(n) == seq!['0', '0'] + decimal(n),
        10 <= n < 100 ==> three_digits(n) == seq!['0'] + decimal(n),
        100 <= n < 1000 ==> three_digits(n) == decimal(n),
{
    reveal_with_fuel(decimal, 3);
    if n < 10 {
        assert(two_digits(n) =~= seq!['0'] + decimal(n));
        assert(three_digits(n) =~= seq!['0', '0'] + decimal(n));
    } else if n < 100 {
        assert(n / 10 < 10);
        assert(two_digits(n) =~= decimal(n));
        assert(three_digits(n) =~= seq!['0'] + decimal(n));
    } else if n < 1000 {
        assert(n / 10 / 10 == n / 100);
        assert(n / 10 / 10 < 10);
        assert(three_digits(n) =~= decimal(n));
    }
}

/// A time of day is shown by its hours, minutes, seconds and milliseconds, on any day.
pub proof fn time_of_day_is_shown(day: int, hours: nat, minutes: nat, seconds: nat, millis: nat)
    requires
        hours < 24,
        minutes < 60,
        seconds < 60,
        millis < 1000,
    ensures
        ({
            let secs = ((day * 24 + hours) * 60 + minutes) * 60 + seconds;
            clock_text(moment(secs, millis as int)) == two_digits(hours) + seq![':'] + two_digits(
                minutes,
            ) + seq![':'] + two_digits(seconds) + seq!['.'] + three_digits(millis)
        }),
{
    let secs = ((day * 24 + hours) * 60 + minutes) * 60 + seconds;
    let t = moment(secs, millis as int);
    let s = (hours * 60 + minutes) * 60 + seconds;
    assert(t / 2000 == secs && t % 2000 == millis);
    assert(secs == day * 86_400 + s);
    assert(secs % 86_400 == s);
    assert(s / 3600 == hours);
    assert(s / 60 % 60 == minutes);
    assert(s % 60 == seconds);
}

/// A leap second lasts a second: what is left of it passes before any later time of the day.
pub proof fn leap_second_passes(secs: int, millis: int, later: int, rest: int)
    requires
        1000 <= millis < 2000,
        0 <= rest < 1000,
        secs < later,
        later / 86_400 == secs / 86_400,
    ensures
        elapsed(moment(secs, millis), moment(later, rest)) == (2000 - millis) + (later - secs - 1)
            * 1000 + rest,
{
    let (a, b) = (moment(secs, millis), moment(later, rest));
    assert(a / 2000 == secs && a % 2000 == millis);
    assert(b / 2000 == later && b % 2000 == rest);
    assert(later % 86_400 > secs % 86_400);
}

/// Division rounds toward zero: what is left has the sign of the number, and is less than the
/// divisor.
pub proof fn division_rounds_toward_zero(n: int, d: int)
    requires
        d > 0,
    ensures
        n >= 0 ==> 0 <= n - d * toward_zero(n, d) < d,
        n < 0 ==> -d < n - d * toward_zero(n, d) <= 0,
{
    let m = if n < 0 {
        -n
    } else {
        n
    };
    assert(0 <= m - d * (m / d) < d) by (nonlinear_arith)
        requires
            d > 0,
            m >= 0,
    ;
    assert(d * (-(m / d)) == -(d * (m / d))) by (nonlinear_arith);
}

/// Moments are in the order of their seconds and, within a second, of their milliseconds.
pub proof fn moments_are_in_order(a: int, x: int, b: int, y: int)
    requires
        0 <= x < 2000,
        0 <= y < 2000,
    ensures
        moment(a, x) < moment(b, y) <==> a < b || (a == b && x < y),
        moment(a, x) == moment(b, y) <==> a == b && x == y,
{
}

} // verus!
