//! What follows from the Julian Day of a date: the interval between two
//! dates, the day of the week and the day of the year.

use crate::calendar::{leap_year_on, CalendarDate};
use crate::arithmetic::{lemma_fits_within, lemma_scaled_quotient, magnitude};
use crate::decimal::{fits, round_half_even, whole_part, wider, Decimal, UNIT};
use crate::julian_day::{
    julian_day_at, julian_day_room, lemma_julian_day_in_room, whole_days_at, JulianDay,
};
use crate::weekday::WeekDay;
use vstd::arithmetic::div_mod::{lemma_fundamental_div_mod_converse, lemma_truncate_middle};
use vstd::prelude::*;

verus! {

/// The Julian Day of the midnight nearest to a date, in steps of `10^-28`
/// day: that of the date with its day rounded to a whole number, a time of
/// exactly noon going to the even day.
pub open spec fn midnight_julian_day_at(year: int, month: int, day_units: int) -> int {
    julian_day_at(year, month, round_half_even(day_units) * UNIT)
}

/// The days from Julian Day -1.5, which began a Sunday, to the midnight
/// nearest to a date.
pub open spec fn weekday_number_base(year: int, month: int, day_units: int) -> int {
    (midnight_julian_day_at(year, month, day_units) + 15 * (UNIT / 10)) / (UNIT as int)
}

/// The number of the day of the week of a date whose nearest midnight is not
/// before Julian Day -1.5: 0 for Sunday up to 6 for Saturday. It is the
/// Julian Day of that midnight plus 1.5, modulo 7.
pub open spec fn weekday_number_at(year: int, month: int, day_units: int) -> int {
    weekday_number_base(year, month, day_units) % 7
}

/// The number of a date within its year:
/// `floor(275 * month / 9) - k * floor((month + 9) / 12) + day - 30`, with
/// `k = 1` in a leap year and `k = 2` in any other, the fraction cut off.
pub open spec fn day_of_year_at(year: int, month: int, day_units: int) -> int {
    whole_part((days_of_months_before(year, month, day_units) - 30) * UNIT + day_units)
}

/// The whole days that the months before a date bring to its number within
/// the year, less 30: `floor(275 * month / 9) - k * floor((month + 9) / 12)`.
pub open spec fn days_of_months_before(year: int, month: int, day_units: int) -> int {
    let k: int = if leap_year_on(year, month, day_units) {
        1
    } else {
        2
    };
    (275 * month) / 9 - k * ((month + 9) / 12)
}

impl CalendarDate {
    /// The Julian Day of the midnight nearest to the date, in steps of
    /// `10^-28` day.
    pub open spec fn midnight_julian_day_units(self) -> int {
        midnight_julian_day_at(self.year(), self.month(), self.day().units())
    }

    /// The days from `rhs` to `lhs`, in steps of `10^-28` day: the Julian
    /// Day of `lhs` less that of `rhs`.
    pub open spec fn difference_units(lhs: CalendarDate, rhs: CalendarDate) -> int {
        lhs.julian_day_units() - rhs.julian_day_units()
    }

    /// The days between two dates, in steps of `10^-28` day: the size of
    /// their difference.
    pub open spec fn days_between_units(lhs: CalendarDate, rhs: CalendarDate) -> int {
        magnitude(Self::difference_units(lhs, rhs))
    }

    /// The number of decimal places that the difference of two dates is
    /// written with at most: those of the day that has more, and one at
    /// least.
    pub open spec fn difference_scale(lhs: CalendarDate, rhs: CalendarDate) -> int {
        wider(lhs.julian_day_scale(), rhs.julian_day_scale())
    }

    /// Whether the difference of two dates can be computed without rounding:
    /// either Julian Day can, and the two, each taken without its sign, can
    /// be written together with the decimal places of the difference in a
    /// mantissa of 96 bits.
    pub open spec fn have_exact_difference(lhs: CalendarDate, rhs: CalendarDate) -> bool {
        &&& lhs.has_exact_julian_day()
        &&& rhs.has_exact_julian_day()
        &&& fits(
            magnitude(lhs.julian_day_units()) + magnitude(rhs.julian_day_units()),
            Self::difference_scale(lhs, rhs),
        )
    }

    /// Whether the nearest midnight of the date has a Julian Day that can be
    /// computed without rounding, with room for two days beside it.
    pub open spec fn has_exact_midnight(self) -> bool {
        fits(
            julian_day_room(
                self.year(),
                self.month(),
                round_half_even(self.day().units()) * UNIT,
            ) + 2 * UNIT,
            1,
        )
    }

    /// Whether the day of the week of the date can be computed: the nearest
    /// midnight has a Julian Day that can be computed without rounding, and
    /// it is not before Julian Day -1.5.
    pub open spec fn has_exact_weekday(self) -> bool {
        &&& self.has_exact_midnight()
        &&& self.midnight_julian_day_units() + 15 * (UNIT / 10) >= 0
    }

    /// Whether the number of the date within its year can be computed
    /// without rounding and held: 8000 days and the day, taken without its
    /// sign, can be written together with the decimal places of the day in a
    /// mantissa of 96 bits, and the number fits in 32 bits.
    pub open spec fn has_exact_day_of_year(self) -> bool {
        &&& fits(8000 * UNIT + magnitude(self.day().units()), self.day().spec_scale())
        &&& i32::MIN <= day_of_year_at(self.year(), self.month(), self.day().units()) <= i32::MAX
    }

    /// The days from `rhs` to `lhs`: the Julian Day of `lhs` less that of
    /// `rhs`.
    pub fn difference(lhs: &CalendarDate, rhs: &CalendarDate) -> (days: Decimal)
        requires
            Self::have_exact_difference(*lhs, *rhs),
        ensures
            days.units() == Self::difference_units(*lhs, *rhs),
            days.spec_scale() <= Self::difference_scale(*lhs, *rhs),
    {
        let lhs_jd = JulianDay::from(lhs);
        let rhs_jd = JulianDay::from(rhs);
        let ghost scale = Self::difference_scale(*lhs, *rhs);
        proof {
            let sum = magnitude(lhs_jd.day.units()) + magnitude(rhs_jd.day.units());
            lemma_fits_within(lhs_jd.day.units(), sum, scale, scale);
            lemma_fits_within(rhs_jd.day.units(), sum, scale, scale);
            lemma_fits_within(lhs_jd.day.units() - rhs_jd.day.units(), sum, scale, scale);
        }
        lhs_jd.day.minus_at(&rhs_jd.day, Ghost(scale))
    }

    /// The days between two dates, whichever comes first: the size of their
    /// difference.
    pub fn days_between(lhs: &CalendarDate, rhs: &CalendarDate) -> (days: Decimal)
        requires
            Self::have_exact_difference(*lhs, *rhs),
        ensures
            days.units() == Self::days_between_units(*lhs, *rhs),
            days.spec_scale() <= Self::difference_scale(*lhs, *rhs),
    {
        let signed = Self::difference(lhs, rhs);
        proof {
            use_type_invariant(&signed);
        }
        signed.abs()
    }

    /// The date with its day rounded to the nearest midnight.
    fn at_nearest_midnight(&self) -> (midnight: CalendarDate)
        ensures
            midnight.year() == self.year(),
            midnight.month() == self.month(),
            midnight.day().units() == round_half_even(self.day().units()) * UNIT,
            midnight.day().spec_scale() == 0,
    {
        CalendarDate::new(self.get_year(), self.get_month(), self.get_day().round())
    }

    /// Whether the date has a day of the week that
    /// [`CalendarDate::day_of_the_week`] finds: its nearest midnight is not
    /// before Julian Day -1.5.
    pub fn has_weekday(&self) -> (r: bool)
        requires
            self.has_exact_midnight(),
        ensures
            r == self.has_exact_weekday(),
    {
        let midnight = self.at_nearest_midnight();
        let ghost room = midnight.julian_day_room() + 2 * UNIT;
        proof {
            lemma_fits_within(midnight.julian_day_room(), room, 1, 1);
        }
        let jd = JulianDay::from(&midnight);
        !jd.day.less_than(&Decimal::new(-15, 1))
    }

    /// The day of the week that the date falls on. The reform of the
    /// calendar left the week as it was: Thursday 4 October 1582 was
    /// followed by Friday 15 October.
    pub fn day_of_the_week(&self) -> (day: WeekDay)
        requires
            self.has_exact_weekday(),
        ensures
            day.ordinal() == weekday_number_at(self.year(), self.month(), self.day().units()),
    {
        let midnight = self.at_nearest_midnight();
        let ghost room = midnight.julian_day_room() + 2 * UNIT;
        proof {
            lemma_fits_within(midnight.julian_day_room(), room, 1, 1);
        }
        let jd = JulianDay::from(&midnight);
        let ghost whole = whole_days_at(
            midnight.year(),
            midnight.month(),
            midnight.day().units(),
        ) + round_half_even(self.day().units()) - 1523;
        let shift = Decimal::new(15, 1);
        proof {
            use_type_invariant(&jd.day);
            lemma_julian_day_in_room(midnight.year(), midnight.month(), midnight.day().units());
            assert(jd.day.units() + 15 * (UNIT / 10) == whole * UNIT);
            lemma_fundamental_div_mod_converse(whole * UNIT, UNIT as int, whole, 0);
            assert(whole == weekday_number_base(self.year(), self.month(), self.day().units()));
            lemma_fits_within(jd.day.units(), room, 1, 1);
            lemma_fits_within(shift.units(), room, 1, 1);
            lemma_fits_within(jd.day.units() + shift.units(), room, 1, 1);
        }
        let since_sunday = jd.day.plus_at(&shift, Ghost(1));
        let week = Decimal::new(7, 0);
        proof {
            use_type_invariant(&since_sunday);
            lemma_truncate_middle(whole, UNIT as int, 7);
            assert(week.units() == UNIT * 7);
            assert(since_sunday.units() % week.units() == UNIT * (whole % 7));
            let s = wider(since_sunday.spec_scale(), 0);
            lemma_fits_within(since_sunday.units(), room, s, 1);
            lemma_fits_within(week.units(), week.units(), s, 1);
        }
        let number = since_sunday.modulo(&week);
        assert(number.units() == (whole % 7) * UNIT && 0 <= whole % 7 < 7);
        WeekDay::try_from(number).unwrap()
    }

    /// The number of the date within its year: 1 for 1 January, up to 365
    /// for 31 December, or 366 where [`CalendarDate::leap_year`] holds.
    pub fn day_of_the_year(&self) -> (n: i32)
        requires
            self.has_exact_day_of_year(),
        ensures
            n == day_of_year_at(self.year(), self.month(), self.day().units()),
    {
        let m = self.get_month();
        let day = self.get_day();
        let month = Decimal::from_i64(m as i64);
        proof {
            lemma_scaled_quotient(275 * m, 9, UNIT as int);
            lemma_scaled_quotient(m + 9, 12, UNIT as int);
        }
        let months = Decimal::multiple(275, 0, &month).floor_quotient_small(&Decimal::new(9, 0));
        let after_february = month.plus_small(&Decimal::new(9, 0)).floor_quotient_small(
            &Decimal::new(12, 0),
        );
        let skipped = match self.leap_year() {
            true => Decimal::multiple(1, 0, &after_february),
            false => Decimal::multiple(2, 0, &after_february),
        };
        let before = months.minus_small(&skipped);
        let thirty = Decimal::new(30, 0);
        let ghost scale = day.spec_scale();
        let ghost room = 8000 * UNIT + magnitude(day.units());
        proof {
            use_type_invariant(&day);
            use_type_invariant(&before);
            assert(before.units() == days_of_months_before(
                self.year(),
                self.month(),
                self.day().units(),
            ) * UNIT);
            lemma_fits_within(before.units(), room, scale, scale);
            lemma_fits_within(day.units(), room, scale, scale);
            lemma_fits_within(before.units() + day.units(), room, scale, scale);
            lemma_fits_within(thirty.units(), room, scale, scale);
            lemma_fits_within(before.units() + day.units() - thirty.units(), room, scale, scale);
        }
        let n = before.plus_at(&day, Ghost(scale)).minus_at(&thirty, Ghost(scale));
        n.to_i32().unwrap()
    }
}

} // verus!
