//! The moderate range: days and counts for which every operation is exact,
//! and the checks that find them.
//!
//! The operations of this library ask that their sums fit into a mantissa of
//! 96 bits. What that comes to depends on the year and on the number of
//! decimal places. A caller who cannot prove it of a value can test here
//! whether the value lies in a range that is safe for every year.

use crate::arithmetic::{lemma_fits_with_room, lemma_floor_bracket, magnitude};
use crate::calendar::CalendarDate;
use crate::decimal::{round_half_even, Decimal, UNIT};
use crate::julian_day::{
    civil_day_units, civil_year, day_number, days_into_year, julian_count, julian_day_room,
    lemma_date_in_range, lemma_day_number_bounds, lemma_julian_day_in_room, shifted_month,
    shifted_year, JulianDay,
};
use vstd::arithmetic::div_mod::lemma_fundamental_div_mod;
use vstd::prelude::*;

verus! {

/// The day number of 1 January of the first year that 32 bits do not hold.
pub const YEAR_LIMIT_DAY_NUMBER: i64 = 784_354_017_365;

/// The year of a Julian Day that is not negative fits in 32 bits exactly when
/// its day number lies before 1 January of the year `2^31`.
pub proof fn lemma_year_limit(units: int)
    requires
        units >= 0,
    ensures
        civil_year(units) <= i32::MAX <==> day_number(units) < YEAR_LIMIT_DAY_NUMBER,
{
    let z = day_number(units);
    let a = julian_count(units);
    let c = shifted_year(units);
    let into = days_into_year(units);
    let e = shifted_month(units);
    // the last day of the year 2^31 - 1 has count 784370123489, its year is
    // 2147488363 - 4716 and it lies 428 days into the counted year
    let last: int = 784_370_123_489;
    let top: int = 2_147_488_363;
    assert((36525 * top) / 100 == 784_370_124_585);
    lemma_day_number_bounds(units);
    lemma_fundamental_div_mod(100 * (a + 1524) - 12210, 36525);
    lemma_fundamental_div_mod(10000 * into, 306001);
    if z < YEAR_LIMIT_DAY_NUMBER {
        if z >= 2299161 {
            let alpha = (100 * z - 186721625) / 3652425;
            assert(alpha <= 21_474_832);
            assert(alpha - alpha / 4 <= 16_106_124);
        }
        assert(a <= last);
        assert(c <= top);
        if c == top {
            assert(into <= 428);
            assert(e <= 13);
        }
    } else {
        let alpha = (100 * z - 186721625) / 3652425;
        assert(alpha >= 21_474_832);
        assert(alpha - alpha / 4 >= 16_106_124);
        assert(a >= last + 1);
        assert(c >= top);
        if c == top {
            assert(into >= 429);
            assert(e >= 14);
        }
    }
}

impl CalendarDate {
    /// Whether the day is moderate: not negative, at most one thousand
    /// million, with at most 16 decimal places. Beside the day counts that a
    /// 32-bit year gives, a mantissa of 96 bits has room for as much.
    pub open spec fn has_moderate_day(self) -> bool {
        &&& 0 <= self.day().units() <= 1_000_000_000 * UNIT
        &&& self.day().spec_scale() <= 16
    }

    /// The Julian Day of a date with a moderate day, its day of the year and
    /// the Julian Day of its nearest midnight can be computed without
    /// rounding.
    pub proof fn lemma_moderate_day_is_exact(self)
        requires
            self.day().wf(),
            self.has_moderate_day(),
        ensures
            self.has_exact_julian_day(),
            self.has_exact_day_of_year(),
            self.has_exact_midnight(),
            self.julian_day_room() < 800_000_000_000 * UNIT,
    {
        self.lemma_field_ranges();
        lemma_fits_with_room(self.julian_day_room(), self.julian_day_scale());
        lemma_fits_with_room(8000 * UNIT + self.day().units(), self.day().spec_scale());
        let rounded = round_half_even(self.day().units());
        lemma_fundamental_div_mod(self.day().units(), UNIT as int);
        assert(0 <= rounded <= 1_000_000_000);
        lemma_fits_with_room(
            julian_day_room(self.year(), self.month(), rounded * UNIT) + 2 * UNIT,
            1,
        );
    }

    /// The difference of two dates with moderate days can be computed
    /// without rounding.
    pub proof fn lemma_moderate_days_have_difference(lhs: CalendarDate, rhs: CalendarDate)
        requires
            lhs.day().wf(),
            rhs.day().wf(),
            lhs.has_moderate_day(),
            rhs.has_moderate_day(),
        ensures
            Self::have_exact_difference(lhs, rhs),
    {
        lhs.lemma_moderate_day_is_exact();
        rhs.lemma_moderate_day_is_exact();
        lemma_julian_day_in_room(lhs.year(), lhs.month(), lhs.day().units());
        lemma_julian_day_in_room(rhs.year(), rhs.month(), rhs.day().units());
        lemma_fits_with_room(
            magnitude(lhs.julian_day_units()) + magnitude(rhs.julian_day_units()),
            Self::difference_scale(lhs, rhs),
        );
    }

    /// Whether the day is moderate, so that the Julian Day of the date, its
    /// day of the year and the Julian Day of its nearest midnight can be
    /// computed without rounding.
    pub fn is_day_moderate(&self) -> (r: bool)
        ensures
            r == self.has_moderate_day(),
            r ==> self.has_exact_julian_day() && self.has_exact_day_of_year()
                && self.has_exact_midnight(),
    {
        let d = self.get_day();
        proof {
            use_type_invariant(&d);
            if self.has_moderate_day() {
                self.lemma_moderate_day_is_exact();
            }
        }
        !d.less_than(&Decimal::zero()) && !Decimal::new(1_000_000_000, 0).less_than(&d)
            && d.scale() <= 16
    }

    /// Whether the days of both dates are moderate, so that the difference
    /// of the two can be computed without rounding.
    pub fn have_moderate_days(lhs: &CalendarDate, rhs: &CalendarDate) -> (r: bool)
        ensures
            r == (lhs.has_moderate_day() && rhs.has_moderate_day()),
            r ==> Self::have_exact_difference(*lhs, *rhs),
    {
        let both = lhs.is_day_moderate() && rhs.is_day_moderate();
        let (l, r) = (lhs.get_day(), rhs.get_day());
        proof {
            use_type_invariant(&l);
            use_type_invariant(&r);
            if both {
                Self::lemma_moderate_days_have_difference(*lhs, *rhs);
            }
        }
        both
    }
}

impl JulianDay {
    /// Whether the count is moderate: it has at most 16 decimal places, and
    /// the year of its date fits in 32 bits.
    pub open spec fn has_moderate_count(self) -> bool {
        &&& self.day.spec_scale() <= 16
        &&& civil_year(self.day.units()) <= i32::MAX
    }

    /// The date of a moderate count that is not negative can be computed
    /// without rounding.
    pub proof fn lemma_moderate_count_is_exact(self)
        requires
            self.day.wf(),
            self.day.units() >= 0,
            self.has_moderate_count(),
        ensures
            self.has_exact_date(),
    {
        let u = self.day.units();
        lemma_day_number_bounds(u);
        lemma_date_in_range(u);
        lemma_fundamental_div_mod(u + UNIT / 2, UNIT as int);
        assert(day_number(u) < 790_000_000_000);
        lemma_fits_with_room(u + UNIT / 2, self.date_scale());
        lemma_fits_with_room(civil_day_units(u), self.date_scale());
    }

    /// Whether the count, which is not negative, is moderate, so that its
    /// date can be computed without rounding: it has at most 16 decimal
    /// places and lies before the midnight that begins the year `2^31`.
    pub fn is_count_moderate(&self) -> (r: bool)
        ensures
            self.day.units() >= 0 ==> r == self.has_moderate_count(),
            self.day.units() >= 0 && r ==> self.has_exact_date(),
    {
        proof {
            use_type_invariant(&self.day);
            if self.day.units() >= 0 {
                lemma_year_limit(self.day.units());
                lemma_floor_bracket(
                    self.day.units() + UNIT / 2,
                    UNIT as int,
                    YEAR_LIMIT_DAY_NUMBER - 1,
                );
                if self.has_moderate_count() {
                    self.lemma_moderate_count_is_exact();
                }
            }
        }
        self.day.scale() <= 16 && self.day.less_than(&Decimal::new(7_843_540_173_645, 1))
    }
}

} // verus!
