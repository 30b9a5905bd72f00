//! What holds of the conversions and queries as a whole: the civil calendar
//! as the conversions understand it, and the laws that tie them together.

use crate::calendar::{calendar_on, leap_year_on, Calendar, CalendarDate};
use crate::arithmetic::lemma_fits_within;
use crate::decimal::UNIT;
use crate::julian_day::{
    civil_day_units, civil_month, civil_year, counted_month, counted_year, day_fraction,
    day_number, days_into_year, julian_count, julian_day_at, lemma_date_in_range,
    lemma_julian_day_in_room, reform_correction, shifted_month, shifted_year, JulianDay,
};
use crate::queries::day_of_year_at;
use vstd::arithmetic::div_mod::{lemma_fundamental_div_mod, lemma_fundamental_div_mod_converse};
use vstd::prelude::*;

verus! {

/// Whether February of the year has a 29th day: every fourth year up to
/// 1582, on the Julian calendar; from 1583 on, on the Gregorian calendar,
/// every fourth year but the hundreds that 400 does not divide.
pub open spec fn has_leap_day(year: int) -> bool {
    if year < 1583 {
        year % 4 == 0
    } else {
        year % 4 == 0 && (year % 100 != 0 || year % 400 == 0)
    }
}

/// The number of days of a month.
pub open spec fn month_length(year: int, month: int) -> int {
    if month == 2 {
        if has_leap_day(year) {
            29
        } else {
            28
        }
    } else if month == 4 || month == 6 || month == 9 || month == 11 {
        30
    } else {
        31
    }
}

/// Whether year, month and day name an instant of the civil calendar that
/// the Julian Day count reaches: the month is one of the twelve, the day is
/// one that the month has, it is none of the ten days from 5 to 14 October
/// 1582 that the reform left out, and the instant is not before Julian Day 0.
pub open spec fn is_civil_date(year: int, month: int, day_units: int) -> bool {
    &&& 1 <= month <= 12
    &&& UNIT <= day_units < (month_length(year, month) + 1) * UNIT
    &&& !(year == 1582 && month == 10 && 5 * UNIT <= day_units < 15 * UNIT)
    &&& julian_day_at(year, month, day_units) >= 0
}

/// The days before the counted month `m`, plus 122: `floor(30.6001 * (m + 1))`.
pub open spec fn days_before_month(m: int) -> int {
    if m == 3 {
        122
    } else if m == 4 {
        153
    } else if m == 5 {
        183
    } else if m == 6 {
        214
    } else if m == 7 {
        244
    } else if m == 8 {
        275
    } else if m == 9 {
        306
    } else if m == 10 {
        336
    } else if m == 11 {
        367
    } else if m == 12 {
        397
    } else if m == 13 {
        428
    } else {
        459
    }
}

/// `floor(30.6001 * (m + 1))` for each counted month.
proof fn lemma_month_days(m: int)
    requires
        3 <= m <= 14,
    ensures
        (306001 * (m + 1)) / 10000 == days_before_month(m),
{
    if m == 3 {
        assert((306001 * 4) / 10000 == 122);
    } else if m == 4 {
        assert((306001 * 5) / 10000 == 153);
    } else if m == 5 {
        assert((306001 * 6) / 10000 == 183);
    } else if m == 6 {
        assert((306001 * 7) / 10000 == 214);
    } else if m == 7 {
        assert((306001 * 8) / 10000 == 244);
    } else if m == 8 {
        assert((306001 * 9) / 10000 == 275);
    } else if m == 9 {
        assert((306001 * 10) / 10000 == 306);
    } else if m == 10 {
        assert((306001 * 11) / 10000 == 336);
    } else if m == 11 {
        assert((306001 * 12) / 10000 == 367);
    } else if m == 12 {
        assert((306001 * 13) / 10000 == 397);
    } else if m == 13 {
        assert((306001 * 14) / 10000 == 428);
    } else {
        assert((306001 * 15) / 10000 == 459);
    }
}

/// `floor(365.25 * c)` is 365 days for each year and one more for every
/// fourth.
proof fn lemma_year_days(c: int)
    ensures
        (36525 * c) / 100 == 365 * c + c / 4,
        (36525 * c) % 100 == 25 * (c % 4),
{
    lemma_fundamental_div_mod(c, 4);
    let q = c / 4;
    let r = c % 4;
    assert(c == 4 * q + r);
    assert(36525 * c == 100 * (1461 * q + 365 * r) + 25 * r);
    lemma_fundamental_div_mod_converse(36525 * c, 100, 1461 * q + 365 * r, 25 * r);
}

/// The number of days of the counted month `m`, February being month 14.
pub open spec fn counted_month_length(m: int, leap: bool) -> int {
    if m == 14 {
        if leap {
            29
        } else {
            28
        }
    } else if m == 4 || m == 6 || m == 9 || m == 11 {
        30
    } else {
        31
    }
}

/// From the count of days `a` of day `n` of the counted month `m` in the
/// counted year `c - 4716`, the steps of the conversion find `c`, `m + 1`
/// and `n` again.
proof fn lemma_date_of_count(c: int, m: int, n: int, a: int)
    requires
        3 <= m <= 14,
        1 <= n <= counted_month_length(m, c % 4 == 3),
        a == (36525 * c) / 100 + (306001 * (m + 1)) / 10000 + n - 1524,
    ensures
        (100 * (a + 1524) - 12210) / 36525 == c,
        a + 1524 - (36525 * c) / 100 == days_before_month(m) + n,
        (10000 * (days_before_month(m) + n)) / 306001 == m + 1,
        (306001 * (m + 1)) / 10000 == days_before_month(m),
{
    lemma_month_days(m);
    lemma_year_days(c);
    let into = days_before_month(m) + n;
    assert(123 <= into <= 488);
    assert(into == 488 ==> c % 4 == 3);
    let x = 100 * (a + 1524) - 12210;
    let rest = 100 * into - 12210 - 25 * (c % 4);
    lemma_fundamental_div_mod(36525 * c, 100);
    assert(x == 36525 * c + rest);
    assert(0 <= rest < 36525);
    lemma_fundamental_div_mod_converse(x, 36525, c, rest);
    let y = 10000 * into;
    let over = y - 306001 * (m + 1);
    assert(0 <= over < 306001);
    lemma_fundamental_div_mod_converse(y, 306001, m + 1, over);
}

/// On a Gregorian date the day number is at least 2299161, and the steps of
/// the conversion find the century of the counted year in it, so that the
/// days they add are those that the reform correction took away.
proof fn lemma_gregorian_count(y: int, m: int, n: int, z: int)
    requires
        3 <= m <= 14,
        1 <= n <= counted_month_length(m, y % 4 == 3),
        (m == 14 && n == 29) ==> ((y + 1) % 100 != 0 || (y + 1) % 400 == 0),
        y > 1582 || (y == 1582 && (m > 10 || (m == 10 && n >= 15))),
        z == (36525 * (y + 4716)) / 100 + (306001 * (m + 1)) / 10000 + n - 1524 + (2 - y / 100 + (y
            / 100) / 4),
    ensures
        z >= 2299161,
        (100 * z - 186721625) / 3652425 == y / 100 - 4,
        z + 1 + (y / 100 - 4) - (y / 100 - 4) / 4 == (36525 * (y + 4716)) / 100 + (306001 * (m
            + 1)) / 10000 + n - 1524,
{
    lemma_month_days(m);
    lemma_year_days(y + 4716);
    let a = y / 100;
    let r = y % 100;
    let q4 = a / 4;
    let r4 = a % 4;
    lemma_fundamental_div_mod(y, 100);
    lemma_fundamental_div_mod(a, 4);
    assert(y == 100 * a + r);
    assert(a == 4 * q4 + r4);
    // the quarter days of the counted year
    let rq = r / 4;
    lemma_fundamental_div_mod(r, 4);
    assert(y + 4716 == 4 * (25 * a + 1179 + rq) + r % 4);
    lemma_fundamental_div_mod_converse(y + 4716, 4, 25 * a + 1179 + rq, r % 4);
    assert((y + 4716) / 4 == 25 * a + 1179 + rq);
    let w = 365 * r + rq + days_before_month(m) + n;
    assert(z == 36524 * a + q4 + 1720997 + w);
    assert(123 <= w <= 36647);
    if w == 36647 {
        assert(r == 99 && m == 14 && n == 29);
        assert(y + 1 == 100 * (a + 1));
        assert((y + 1) % 100 == 0);
        assert((y + 1) % 400 == 0);
        assert(r4 == 3);
    }
    let rest = 100 * w - 12225 - 25 * r4;
    assert(100 * z - 186721625 == 3652425 * (a - 4) + rest);
    assert(0 <= rest < 3652425);
    lemma_fundamental_div_mod_converse(100 * z - 186721625, 3652425, a - 4, rest);
    // the quarter of the century count that the conversion finds
    assert(a - 4 == 4 * (q4 - 1) + r4);
    lemma_fundamental_div_mod_converse(a - 4, 4, q4 - 1, r4);
    assert((a - 4) / 4 == q4 - 1);
    // the first Gregorian day
    assert(a >= 15);
    if a == 15 {
        assert(r >= 82);
        assert(q4 == 3);
        if r == 82 {
            assert(rq == 20);
            assert(days_before_month(m) + n >= 351);
        }
    }
}

/// On a Julian date that the calendar has, the day number is below 2299161.
proof fn lemma_julian_count(y: int, m: int, n: int, z: int)
    requires
        3 <= m <= 14,
        1 <= n <= 31,
        y < 1582 || (y == 1582 && (m < 10 || (m == 10 && n <= 4))),
        z == (36525 * (y + 4716)) / 100 + (306001 * (m + 1)) / 10000 + n - 1524,
    ensures
        z < 2299161,
{
    lemma_month_days(m);
    lemma_year_days(y + 4716);
    if y == 1582 {
        assert((y + 4716) / 4 == 1574);
    } else {
        assert(y + 4716 <= 6297);
        assert((y + 4716) / 4 <= 1574);
    }
}

/// Going from a date of the civil calendar to its Julian Day and back gives
/// the year, the month and the day that one started from.
pub proof fn lemma_round_trip(year: int, month: int, day_units: int)
    requires
        is_civil_date(year, month, day_units),
    ensures
        civil_year(julian_day_at(year, month, day_units)) == year,
        civil_month(julian_day_at(year, month, day_units)) == month,
        civil_day_units(julian_day_at(year, month, day_units)) == day_units,
{
    let u = UNIT as int;
    let y = counted_year(year, month);
    let m = counted_month(month);
    let n = day_units / u;
    let frac = day_units % u;
    let correction = reform_correction(year, month, day_units);
    let days = (36525 * (y + 4716)) / 100 + (306001 * (m + 1)) / 10000;
    let j = julian_day_at(year, month, day_units);
    lemma_fundamental_div_mod(day_units, u);
    assert(day_units == u * n + frac);
    assert(1 <= n <= month_length(year, month));
    let z = days + correction - 1524 + n;
    assert(j + UNIT / 2 == u * z + frac);
    lemma_fundamental_div_mod_converse(j + UNIT / 2, u, z, frac);
    assert(day_number(j) == z);
    assert(day_fraction(j) == frac);
    assert(n <= counted_month_length(m, y % 4 == 3));
    let a = days + n - 1524;
    match calendar_on(year, month, day_units) {
        Calendar::Julian => {
            lemma_julian_count(y, m, n, z);
            assert(julian_count(j) == a);
        },
        Calendar::Gregorian => {
            lemma_gregorian_count(y, m, n, z);
            assert(julian_count(j) == a);
        },
    }
    lemma_date_of_count(y + 4716, m, n, a);
    assert(shifted_year(j) == y + 4716);
    assert(days_into_year(j) == days_before_month(m) + n);
    assert(shifted_month(j) == m + 1);
}

impl CalendarDate {
    /// Whether the date is one of the civil calendar that the Julian Day
    /// count reaches, see [`is_civil_date`].
    pub open spec fn is_civil_date(self) -> bool {
        is_civil_date(self.year(), self.month(), self.day().units())
    }
}

/// The Julian Day of a date of the civil calendar, converted back, is that
/// date: the same year, the same month and the same day with the same time
/// of day.
pub proof fn law_round_trip(date: CalendarDate)
    requires
        date.is_civil_date(),
    ensures
        civil_year(date.julian_day_units()) == date.year(),
        civil_month(date.julian_day_units()) == date.month(),
        civil_day_units(date.julian_day_units()) == date.day().units(),
{
    lemma_round_trip(date.year(), date.month(), date.day().units());
}

/// The way back is open wherever the way out was: a Julian Day that
/// [`JulianDay::from`] gave for a date of the civil calendar is not negative
/// and has a date that can be computed without rounding, which is what
/// [`CalendarDate::try_from`] asks for.
pub proof fn law_round_trip_in_reach(date: CalendarDate, jd: JulianDay)
    requires
        date.day().wf(),
        jd.day.wf(),
        date.is_civil_date(),
        date.has_exact_julian_day(),
        jd.day.units() == date.julian_day_units(),
        jd.day.spec_scale() <= date.julian_day_scale(),
    ensures
        jd.day.units() >= 0,
        jd.has_exact_date(),
{
    law_round_trip(date);
    date.lemma_field_ranges();
    lemma_julian_day_in_room(date.year(), date.month(), date.day().units());
    let room = date.julian_day_room();
    lemma_fits_within(jd.day.units() + UNIT / 2, room, jd.date_scale(), date.julian_day_scale());
    lemma_fits_within(date.day().units(), room, jd.date_scale(), date.julian_day_scale());
}

/// A date before October 1582 is Julian and a date after it is Gregorian,
/// whatever its day.
pub proof fn law_calendar_outside_october_1582(date: CalendarDate)
    ensures
        (date.year() < 1582 || (date.year() == 1582 && date.month() < 10)) ==> date.calendar()
            == Calendar::Julian,
        (date.year() > 1582 || (date.year() == 1582 && date.month() > 10)) ==> date.calendar()
            == Calendar::Gregorian,
{
}

/// The days from `b` to `a` are the days from `a` to `b` with the sign
/// turned.
pub proof fn law_difference_antisymmetric(a: CalendarDate, b: CalendarDate)
    ensures
        CalendarDate::difference_units(a, b) == -CalendarDate::difference_units(b, a),
{
}

/// The days between two dates do not depend on which of them comes first.
pub proof fn law_days_between_symmetric(a: CalendarDate, b: CalendarDate)
    ensures
        CalendarDate::days_between_units(a, b) == CalendarDate::days_between_units(b, a),
{
}

/// The number of a date of the civil calendar within its year is at least 1
/// and at most 366.
pub proof fn law_day_of_year_in_range(date: CalendarDate)
    requires
        date.is_civil_date(),
    ensures
        1 <= day_of_year_at(date.year(), date.month(), date.day().units()) <= 366,
{
    let m = date.month();
    let d = date.day().units();
    let n = d / (UNIT as int);
    lemma_fundamental_div_mod(d, UNIT as int);
    assert(1 <= n <= 31);
    assert(m == 2 ==> n <= 29);
    let k: int = if leap_year_on(date.year(), m, d) {
        1
    } else {
        2
    };
    let months = (275 * m) / 9 - k * ((m + 9) / 12) - 30;
    assert(months == if m == 1 {
        0
    } else if m == 2 {
        31
    } else if m == 3 {
        61 - k
    } else if m == 4 {
        92 - k
    } else if m == 5 {
        122 - k
    } else if m == 6 {
        153 - k
    } else if m == 7 {
        183 - k
    } else if m == 8 {
        214 - k
    } else if m == 9 {
        245 - k
    } else if m == 10 {
        275 - k
    } else if m == 11 {
        306 - k
    } else {
        336 - k
    }) by {
        assert(0 <= (m + 9) / 12 <= 1);
        assert(m <= 2 ==> (m + 9) / 12 == 0);
        assert(m > 2 ==> (m + 9) / 12 == 1);
    }
    assert(months * UNIT + d == UNIT * (months + n) + d % (UNIT as int));
    lemma_fundamental_div_mod_converse(
        months * UNIT + d,
        UNIT as int,
        months + n,
        d % (UNIT as int),
    );
}

/// Two dates of the civil calendar with the same Julian Day are the same
/// date.
pub proof fn law_julian_day_tells_dates_apart(a: CalendarDate, b: CalendarDate)
    requires
        a.is_civil_date(),
        b.is_civil_date(),
        a.julian_day_units() == b.julian_day_units(),
    ensures
        a.year() == b.year(),
        a.month() == b.month(),
        a.day().units() == b.day().units(),
{
    law_round_trip(a);
    law_round_trip(b);
}

/// The date of a Julian Day that is not negative has a month from 1 to 12
/// and a day from 1 up to, but not reaching, 32.
pub proof fn law_date_of_julian_day_in_range(units: int)
    requires
        units >= 0,
    ensures
        1 <= civil_month(units) <= 12,
        UNIT <= civil_day_units(units) < 32 * UNIT,
{
    lemma_date_in_range(units);
}

} // verus!
