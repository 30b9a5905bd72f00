//! Civil dates, and the calendar that governs each of them.

use crate::decimal::{Decimal, UNIT};
use vstd::prelude::*;
use vstd::std_specs::cmp::PartialEqSpecImpl;

verus! {

/// The two calendars of civil history.
#[derive(Debug, Clone, Copy, PartialEq, Eq, Structural)]
pub enum Calendar {
    Gregorian,
    Julian,
}

/// Why a Julian Day has no civil date.
#[derive(Debug, Clone, Copy, PartialEq, Eq, Structural)]
pub enum CalendarDateError {
    /// The Julian Day is negative.
    InvalidJulianDay,
}

/// The calendar in force on the day `day_units / 10^28` of the given month
/// and year: the Julian calendar before 15 October 1582, the Gregorian
/// calendar from that day on. The ten days before it, which the reform left
/// out, count as Julian.
pub open spec fn calendar_on(year: int, month: int, day_units: int) -> Calendar {
    if year < 1582 || (year == 1582 && month < 10) || (year == 1582 && month == 10 && day_units
        < 15 * UNIT) {
        Calendar::Julian
    } else {
        Calendar::Gregorian
    }
}

/// Whether the year of a date counts as a leap year: on a Gregorian date a
/// year divisible by 4; on a Julian date a year divisible by 4 that is not
/// divisible by 100 unless it is divisible by 400.
///
/// The two rules stand exchanged with respect to civil usage, which drops
/// the hundreds on the Gregorian calendar and not on the Julian one: the
/// years with a 29 February are those of [`crate::laws::has_leap_day`].
pub open spec fn leap_year_on(year: int, month: int, day_units: int) -> bool {
    match calendar_on(year, month, day_units) {
        Calendar::Gregorian => year % 4 == 0,
        Calendar::Julian => year % 4 == 0 && (year % 100 != 0 || year % 400 == 0),
    }
}

/// A civil date: a year in astronomical numbering (the year before year 1 is
/// year 0), a month, and a day of the month whose fraction is the time of
/// day.
///
/// Nothing is checked when a date is made. The operations on a date state
/// what they need of it; for a month outside 1 to 12 or a day that the month
/// does not have they compute what their formulas give.
#[derive(Debug, Clone, Copy)]
pub struct CalendarDate {
    y: i32,
    m: u8,
    d: Decimal,
}

impl CalendarDate {
    /// The year.
    pub closed spec fn year(self) -> int {
        self.y as int
    }

    /// The month.
    pub closed spec fn month(self) -> int {
        self.m as int
    }

    /// The day of the month, with the time of day as its fraction.
    pub closed spec fn day(self) -> Decimal {
        self.d
    }

    /// The calendar in force on this date.
    pub open spec fn calendar(self) -> Calendar {
        calendar_on(self.year(), self.month(), self.day().units())
    }

    /// Whether the date falls in a leap year, by the rule of the calendar in
    /// force on it.
    pub open spec fn in_leap_year(self) -> bool {
        leap_year_on(self.year(), self.month(), self.day().units())
    }

    /// The year and the month are those of a 32-bit and an 8-bit number.
    pub proof fn lemma_field_ranges(self)
        ensures
            i32::MIN <= self.year() <= i32::MAX,
            0 <= self.month() <= u8::MAX,
    {
    }

    /// The date with the given year, month and day. No validation takes
    /// place: whether the three make a date of the civil calendar is left to
    /// the caller.
    pub fn new(y: i32, m: u8, d: Decimal) -> (date: CalendarDate)
        ensures
            date.year() == y,
            date.month() == m,
            date.day() == d,
    {
        CalendarDate { y, m, d }
    }

    /// The year.
    pub fn get_year(&self) -> (y: i32)
        ensures
            y == self.year(),
    {
        self.y
    }

    /// The month.
    pub fn get_month(&self) -> (m: u8)
        ensures
            m == self.month(),
    {
        self.m
    }

    /// The day of the month.
    pub fn get_day(&self) -> (d: Decimal)
        ensures
            d == self.day(),
    {
        self.d
    }

    /// The calendar in force on this date.
    pub fn get_calendar(&self) -> (c: Calendar)
        ensures
            c == self.calendar(),
    {
        let reform_day = Decimal::new(150, 1);
        let year_is_julian = self.y < 1582;
        let month_is_julian = self.y == 1582 && self.m < 10;
        let day_is_julian = self.y == 1582 && self.m == 10 && self.d.less_than(&reform_day);
        if year_is_julian || month_is_julian || day_is_julian {
            Calendar::Julian
        } else {
            Calendar::Gregorian
        }
    }

    /// Whether the date falls in a leap year, by the rule of the calendar in
    /// force on it.
    pub fn leap_year(&self) -> (leap: bool)
        ensures
            leap == self.in_leap_year(),
    {
        let by_4 = self.y % 4 == 0;
        let by_100 = self.y % 100 == 0;
        let by_400 = self.y % 400 == 0;
        assert(by_4 == (self.year() % 4 == 0));
        assert(by_100 == (self.year() % 100 == 0));
        assert(by_400 == (self.year() % 400 == 0));
        match self.get_calendar() {
            Calendar::Gregorian => by_4,
            Calendar::Julian => by_4 && (!by_100 || by_400),
        }
    }
}

/// Two dates are equal when year and month agree and the days are the same
/// number.
impl PartialEq for CalendarDate {
    fn eq(&self, other: &CalendarDate) -> (r: bool) {
        self.y == other.y && self.m == other.m && self.d == other.d
    }
}

impl PartialEqSpecImpl for CalendarDate {
    open spec fn obeys_eq_spec() -> bool {
        true
    }

    open spec fn eq_spec(&self, other: &CalendarDate) -> bool {
        &&& self.year() == other.year()
        &&& self.month() == other.month()
        &&& self.day().units() == other.day().units()
    }
}

} // verus!
