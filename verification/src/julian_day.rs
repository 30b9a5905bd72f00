//! The Julian Day: a continuous count of days, and the conversion between
//! it and civil dates.

use crate::calendar::{calendar_on, Calendar, CalendarDate, CalendarDateError};
use crate::arithmetic::{lemma_fits_within, lemma_scaled_quotient, magnitude};
use crate::decimal::{fits, wider, Decimal, HUNDREDTH, TEN_THOUSANDTH, UNIT};
use vstd::arithmetic::div_mod::lemma_fundamental_div_mod;
use vstd::prelude::*;
use vstd::std_specs::cmp::PartialEqSpecImpl;

verus! {

/// A count of days since noon of 1 January -4712 on the Julian calendar. A
/// whole count plus one half falls on midnight.
#[derive(Debug, Clone, Copy)]
pub struct JulianDay {
    pub day: Decimal,
}

impl JulianDay {
    /// The Julian Day with the given count.
    pub fn new(day: Decimal) -> (jd: JulianDay)
        ensures
            jd.day == day,
    {
        JulianDay { day }
    }
}

/// The year as the conversion counts it: January and February belong to the
/// year before.
pub open spec fn counted_year(year: int, month: int) -> int {
    if month == 1 || month == 2 {
        year - 1
    } else {
        year
    }
}

/// The month as the conversion counts it: January and February are months 13
/// and 14.
pub open spec fn counted_month(month: int) -> int {
    if month == 1 || month == 2 {
        month + 12
    } else {
        month
    }
}

/// The days by which the Gregorian calendar is ahead of the Julian one in the
/// date's century, counted from minus two: `2 - a + floor(a / 4)` for
/// `a = floor(counted_year / 100)` on a Gregorian date, 0 on a Julian one.
/// The calendar is that of the date itself, not of the counted year and
/// month.
pub open spec fn reform_correction(year: int, month: int, day_units: int) -> int {
    match calendar_on(year, month, day_units) {
        Calendar::Gregorian => {
            let a = counted_year(year, month) / 100;
            2 - a + a / 4
        },
        Calendar::Julian => 0,
    }
}

/// The days that the counted year `y` and the counted month `m` bring to
/// the Julian Day: `floor(365.25 * (y + 4716)) + floor(30.6001 * (m + 1))`.
pub open spec fn year_and_month_days(year: int, month: int) -> int {
    (36525 * (counted_year(year, month) + 4716)) / 100 + (306001 * (counted_month(month) + 1))
        / 10000
}

/// The whole days that year and month contribute to the Julian Day of a
/// date: those of year and month with the reform correction.
pub open spec fn whole_days_at(year: int, month: int, day_units: int) -> int {
    year_and_month_days(year, month) + reform_correction(year, month, day_units)
}

/// The Julian Day of a date, in steps of `10^-28` day:
/// `floor(365.25 * (y + 4716)) + floor(30.6001 * (m + 1)) + day + b - 1524.5`
/// for the counted year `y`, the counted month `m` and the reform correction
/// `b`.
pub open spec fn julian_day_at(year: int, month: int, day_units: int) -> int {
    whole_days_at(year, month, day_units) * UNIT + day_units - 15245 * (UNIT / 10)
}

/// The size that the sums on the way to the Julian Day of a date can reach,
/// in steps of `10^-28` day: the terms of the formula, each taken without
/// its sign.
pub open spec fn julian_day_room(year: int, month: int, day_units: int) -> int {
    (magnitude(year_and_month_days(year, month)) + magnitude(
        reform_correction(year, month, day_units),
    ) + 1525) * UNIT + magnitude(day_units)
}

/// The Julian Day of a date is no larger in size than the room of its sums.
pub proof fn lemma_julian_day_in_room(year: int, month: int, day_units: int)
    ensures
        magnitude(julian_day_at(year, month, day_units)) <= julian_day_room(year, month, day_units),
{
}

impl CalendarDate {
    /// The Julian Day of the date, in steps of `10^-28` day.
    pub open spec fn julian_day_units(self) -> int {
        julian_day_at(self.year(), self.month(), self.day().units())
    }

    /// The number of decimal places that the Julian Day of the date is
    /// written with at most: those of the day, and one at least.
    pub open spec fn julian_day_scale(self) -> int {
        wider(self.day().spec_scale(), 1)
    }

    /// The room of the sums on the way to the Julian Day of the date, see
    /// [`julian_day_room`].
    pub open spec fn julian_day_room(self) -> int {
        julian_day_room(self.year(), self.month(), self.day().units())
    }

    /// Whether the Julian Day of the date can be computed without rounding:
    /// the sums on the way to it can be written with the decimal places of
    /// the day in a mantissa of 96 bits.
    pub open spec fn has_exact_julian_day(self) -> bool {
        fits(self.julian_day_room(), self.julian_day_scale())
    }

}

impl JulianDay {
    /// The Julian Day of a civil date.
    pub fn from(cd: &CalendarDate) -> (jd: JulianDay)
        requires
            cd.has_exact_julian_day(),
        ensures
            jd.day.units() == cd.julian_day_units(),
            jd.day.spec_scale() <= cd.julian_day_scale(),
    {
        let mut y: i64 = cd.get_year() as i64;
        let mut m: i64 = cd.get_month() as i64;
        let d = cd.get_day();
        if m == 1 || m == 2 {
            y = y - 1;
            m = m + 12;
        }
        let year = Decimal::from_i64(y);
        let b = match cd.get_calendar() {
            Calendar::Gregorian => {
                proof {
                    lemma_scaled_quotient(y as int, 100, UNIT as int);
                }
                let a = year.floor_quotient_small(&Decimal::new(1000, 1));
                proof {
                    lemma_scaled_quotient(a.spec_mantissa(), 4, UNIT as int);
                }
                let leap_centuries = a.floor_quotient_small(&Decimal::new(40, 1));
                Decimal::new(20, 1).minus_small(&a).plus_small(&leap_centuries)
            },
            Calendar::Julian => Decimal::new(0, 1),
        };
        assert(b.units() == reform_correction(cd.year(), cd.month(), cd.day().units()) * UNIT);
        let year_days = Decimal::multiple(36525, 2, &year.plus_small(&Decimal::new(47160, 1)));
        proof {
            lemma_scaled_quotient(36525 * (y + 4716), 100, HUNDREDTH as int);
        }
        let month_days = Decimal::multiple(
            306001,
            4,
            &Decimal::from_i64(m).plus_small(&Decimal::new(10, 1)),
        );
        proof {
            lemma_scaled_quotient(306001 * (m + 1), 10000, TEN_THOUSANDTH as int);
        }
        let whole = year_days.floor().plus_small(&month_days.floor());
        let offset = Decimal::new(15245, 1);
        let ghost room = cd.julian_day_room();
        let ghost scale = cd.julian_day_scale();
        proof {
            use_type_invariant(&d);
            use_type_invariant(&b);
            assert(whole.units() == year_and_month_days(cd.year(), cd.month()) * UNIT);
            lemma_fits_within(whole.units(), room, scale, scale);
            lemma_fits_within(d.units(), room, scale, scale);
            lemma_fits_within(whole.units() + d.units(), room, scale, scale);
            lemma_fits_within(b.units(), room, scale, scale);
            lemma_fits_within(whole.units() + d.units() + b.units(), room, scale, scale);
            lemma_fits_within(offset.units(), room, scale, scale);
            lemma_fits_within(
                whole.units() + d.units() + b.units() - offset.units(),
                room,
                scale,
                scale,
            );
        }
        let with_day = whole.plus_at(&d, Ghost(scale));
        let corrected = with_day.plus_at(&b, Ghost(scale));
        JulianDay::new(corrected.minus_at(&offset, Ghost(scale)))
    }
}

/// The number of the civil day that a Julian Day of `units` steps falls on:
/// the whole part of the count plus one half, since civil days begin at
/// midnight.
pub open spec fn day_number(units: int) -> int {
    (units + UNIT / 2) / (UNIT as int)
}

/// The time of day since midnight, in steps of `10^-28` day.
pub open spec fn day_fraction(units: int) -> int {
    (units + UNIT / 2) % (UNIT as int)
}

/// The day number with the days added that the Gregorian calendar left out:
/// for a day number `z` from 2299161 on, `z + 1 + alpha - floor(alpha / 4)`
/// with `alpha = floor((z - 1867216.25) / 36524.25)`; `z` itself before.
pub open spec fn julian_count(units: int) -> int {
    let z = day_number(units);
    if z < 2299161 {
        z
    } else {
        let alpha = (100 * z - 186721625) / 3652425;
        z + 1 + alpha - alpha / 4
    }
}

/// The counted year plus 4716: `floor((b - 122.1) / 365.25)` for
/// `b = julian_count + 1524`.
pub open spec fn shifted_year(units: int) -> int {
    (100 * (julian_count(units) + 1524) - 12210) / 36525
}

/// The days from the start of the counted year, plus 122:
/// `b - floor(365.25 * c)` for the shifted year `c`.
pub open spec fn days_into_year(units: int) -> int {
    julian_count(units) + 1524 - (36525 * shifted_year(units)) / 100
}

/// The counted month plus one: the days into the year divided by 30.6001,
/// rounded down.
pub open spec fn shifted_month(units: int) -> int {
    (10000 * days_into_year(units)) / 306001
}

/// The month of the civil date of a Julian Day of `units` steps.
pub open spec fn civil_month(units: int) -> int {
    if shifted_month(units) < 14 {
        shifted_month(units) - 1
    } else {
        shifted_month(units) - 13
    }
}

/// The year of the civil date of a Julian Day of `units` steps.
pub open spec fn civil_year(units: int) -> int {
    if civil_month(units) > 2 {
        shifted_year(units) - 4716
    } else {
        shifted_year(units) - 4715
    }
}

/// The day of the month with the time of day, in steps of `10^-28` day, of
/// the civil date of a Julian Day of `units` steps.
pub open spec fn civil_day_units(units: int) -> int {
    (days_into_year(units) - (306001 * shifted_month(units)) / 10000) * UNIT + day_fraction(units)
}

/// For a Julian Day that is not negative, the day number is not negative and
/// at most the Julian count, and the shifted year is the floor that its
/// definition says.
pub proof fn lemma_day_number_bounds(units: int)
    requires
        units >= 0,
    ensures
        0 <= day_number(units) <= julian_count(units),
        shifted_year(units) >= 3,
        100 * (julian_count(units) + 1524) - 12210 < 36525 * (shifted_year(units) + 1),
        36525 * shifted_year(units) <= 100 * (julian_count(units) + 1524) - 12210,
{
}

/// The date of a Julian Day that is not negative has a month from 1 to 12
/// and a day from 1 up to, but not reaching, 32.
pub proof fn lemma_date_in_range(units: int)
    requires
        units >= 0,
    ensures
        1 <= civil_month(units) <= 12,
        UNIT <= civil_day_units(units) < 32 * UNIT,
        0 <= day_fraction(units) < UNIT,
        civil_day_units(units) - day_fraction(units) >= UNIT,
{
    let a = julian_count(units);
    let c = shifted_year(units);
    let into = days_into_year(units);
    let e = shifted_month(units);
    lemma_day_number_bounds(units);
    lemma_fundamental_div_mod(units + UNIT / 2, UNIT as int);
    lemma_fundamental_div_mod(36525 * c, 100);
    assert(123 <= into <= 488);
    lemma_fundamental_div_mod(10000 * into, 306001);
    assert(4 <= e <= 15);
    lemma_fundamental_div_mod(306001 * e, 10000);
    let before = (306001 * e) / 10000;
    assert(1 <= into - before <= 31);
}

impl JulianDay {
    /// The number of decimal places that the day of the civil date is
    /// written with at most: those of the count, and one at least.
    pub open spec fn date_scale(self) -> int {
        wider(self.day.spec_scale(), 1)
    }

    /// Whether the civil date of this Julian Day can be computed without
    /// rounding and held: the year fits in 32 bits, and the count moved to
    /// midnight and the day of the month can be written with the decimal
    /// places of the count in a mantissa of 96 bits.
    pub open spec fn has_exact_date(self) -> bool {
        &&& civil_year(self.day.units()) <= i32::MAX
        &&& fits(self.day.units() + UNIT / 2, self.date_scale())
        &&& fits(civil_day_units(self.day.units()), self.date_scale())
    }

}

impl CalendarDate {
    /// The civil date of a Julian Day, which must not be negative.
    pub fn try_from(j: JulianDay) -> (r: Result<CalendarDate, CalendarDateError>)
        requires
            j.day.units() >= 0 ==> j.has_exact_date(),
        ensures
            j.day.units() < 0 ==> r == Err::<CalendarDate, CalendarDateError>(
                CalendarDateError::InvalidJulianDay,
            ),
            j.day.units() >= 0 ==> r is Ok,
            r is Ok ==> {
                &&& r.unwrap().year() == civil_year(j.day.units())
                &&& r.unwrap().month() == civil_month(j.day.units())
                &&& r.unwrap().day().units() == civil_day_units(j.day.units())
                &&& r.unwrap().day().spec_scale() <= j.date_scale()
            },
    {
        if j.day.less_than(&Decimal::zero()) {
            return Err(CalendarDateError::InvalidJulianDay);
        }
        let ghost ju = j.day.units();
        let ghost zn = day_number(ju);
        let ghost an = julian_count(ju);
        let ghost cn = shifted_year(ju);
        let ghost en = shifted_month(ju);
        let ghost scale = j.date_scale();
        let half = Decimal::new(5, 1);
        proof {
            use_type_invariant(&j.day);
            lemma_day_number_bounds(ju);
            lemma_date_in_range(ju);
            lemma_fundamental_div_mod(ju + UNIT / 2, UNIT as int);
            assert(cn <= 2_147_483_647 + 4716);
            assert(0 <= zn <= an < 790_000_000_000);
            lemma_fits_within(ju, ju + UNIT / 2, scale, scale);
            lemma_fits_within(half.units(), ju + UNIT / 2, scale, scale);
        }
        let jd = j.day.plus_at(&half, Ghost(scale));
        let z = jd.floor();
        proof {
            assert(z.units() == zn * UNIT);
            lemma_fits_within(z.units(), ju + UNIT / 2, scale, scale);
            lemma_fits_within(jd.units() - z.units(), ju + UNIT / 2, scale, scale);
        }
        let f = jd.minus_at(&z, Ghost(scale));
        assert(f.units() == day_fraction(ju));
        let a = if z.less_than(&Decimal::new(22991610, 1)) {
            z
        } else {
            let since = z.minus_small(&Decimal::new(186721625, 2));
            proof {
                assert(since.units() == (100 * zn - 186721625) * HUNDREDTH);
                lemma_scaled_quotient(100 * zn - 186721625, 3652425, HUNDREDTH as int);
            }
            let alpha = since.floor_quotient_small(&Decimal::new(3652425, 2));
            proof {
                lemma_scaled_quotient(alpha.spec_mantissa(), 4, UNIT as int);
            }
            let leap_centuries = alpha.floor_quotient_small(&Decimal::new(40, 1));
            z.plus_small(&Decimal::new(10, 1)).plus_small(&alpha).minus_small(&leap_centuries)
        };
        assert(a.units() == an * UNIT);
        let b = a.plus_small(&Decimal::new(15240, 1));
        let since_march = b.minus_small(&Decimal::new(1221, 1));
        proof {
            assert(since_march.units() == (100 * (an + 1524) - 12210) * HUNDREDTH);
            lemma_scaled_quotient(100 * (an + 1524) - 12210, 36525, HUNDREDTH as int);
        }
        let c = since_march.floor_quotient_small(&Decimal::new(36525, 2));
        assert(c.spec_mantissa() == cn);
        let year_days = Decimal::multiple(36525, 2, &c);
        proof {
            lemma_scaled_quotient(36525 * cn, 100, HUNDREDTH as int);
        }
        let d = year_days.floor();
        let into_year = b.minus_small(&d);
        proof {
            assert(into_year.units() == days_into_year(ju) * UNIT);
            assert(123 <= days_into_year(ju) <= 488);
            assert(into_year.units() == (10000 * days_into_year(ju)) * TEN_THOUSANDTH);
            lemma_scaled_quotient(10000 * days_into_year(ju), 306001, TEN_THOUSANDTH as int);
        }
        let e = into_year.floor_quotient_small(&Decimal::new(306001, 4));
        proof {
            assert(e.spec_mantissa() == en);
            assert(4 <= en <= 15);
        }
        let month_days = Decimal::multiple(306001, 4, &e);
        proof {
            lemma_scaled_quotient(306001 * en, 10000, TEN_THOUSANDTH as int);
        }
        let whole_day = into_year.minus_small(&month_days.floor());
        proof {
            use_type_invariant(&f);
            let day_units = civil_day_units(ju);
            assert(whole_day.units() + f.units() == day_units);
            lemma_fits_within(whole_day.units(), day_units, scale, scale);
            lemma_fits_within(f.units(), day_units, scale, scale);
        }
        let day = whole_day.plus_at(&f, Ghost(scale));
        let month = if e.less_than(&Decimal::new(140, 1)) {
            e.minus_small(&Decimal::new(10, 1))
        } else {
            e.minus_small(&Decimal::new(130, 1))
        };
        let year = if Decimal::new(20, 1).less_than(&month) {
            c.minus_small(&Decimal::new(47160, 1))
        } else {
            c.minus_small(&Decimal::new(47150, 1))
        };
        proof {
            assert(month.units() == civil_month(ju) * UNIT);
            assert(year.units() == civil_year(ju) * UNIT);
        }
        Ok(CalendarDate::new(year.to_i32().unwrap(), month.to_u8().unwrap(), day))
    }
}

/// Two Julian Days are equal when their counts are the same number.
impl PartialEq for JulianDay {
    fn eq(&self, other: &JulianDay) -> (r: bool) {
        self.day == other.day
    }
}

impl PartialEqSpecImpl for JulianDay {
    open spec fn obeys_eq_spec() -> bool {
        true
    }

    open spec fn eq_spec(&self, other: &JulianDay) -> bool {
        self.day.units() == other.day.units()
    }
}

} // verus!
