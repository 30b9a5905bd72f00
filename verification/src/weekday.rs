//! The days of the week.

use crate::decimal::{Decimal, UNIT};
use vstd::prelude::*;

verus! {

/// A day of the week, counted from Sunday.
#[derive(Clone, Copy, Debug, PartialEq, Eq, PartialOrd, Structural)]
pub enum WeekDay {
    Sunday,
    Monday,
    Tuesday,
    Wednesday,
    Thursday,
    Friday,
    Saturday,
}

/// Why a decimal names no day of the week.
#[derive(Debug, Clone, Copy, PartialEq, Eq, Structural)]
pub enum WeekDayError {
    /// A whole number, but none of 0 to 6.
    InvalidDayNumber,
    /// Not a whole number that a `u8` holds: it has a fraction, is negative
    /// or lies above 255.
    NonIntegerDecimal,
}

impl WeekDay {
    /// The number of the day: 0 for Sunday up to 6 for Saturday.
    pub open spec fn ordinal(self) -> int {
        match self {
            WeekDay::Sunday => 0,
            WeekDay::Monday => 1,
            WeekDay::Tuesday => 2,
            WeekDay::Wednesday => 3,
            WeekDay::Thursday => 4,
            WeekDay::Friday => 5,
            WeekDay::Saturday => 6,
        }
    }

    /// What a decimal of `units` steps stands for: the day whose number it
    /// is where it is a whole number from 0 to 6, `InvalidDayNumber` for a
    /// whole number from 7 to 255, `NonIntegerDecimal` for anything else.
    pub open spec fn of_units(units: int) -> Result<WeekDay, WeekDayError> {
        if units % (UNIT as int) != 0 || units < 0 || units >= 256 * UNIT {
            Err(WeekDayError::NonIntegerDecimal)
        } else if units == 0 {
            Ok(WeekDay::Sunday)
        } else if units == UNIT {
            Ok(WeekDay::Monday)
        } else if units == 2 * UNIT {
            Ok(WeekDay::Tuesday)
        } else if units == 3 * UNIT {
            Ok(WeekDay::Wednesday)
        } else if units == 4 * UNIT {
            Ok(WeekDay::Thursday)
        } else if units == 5 * UNIT {
            Ok(WeekDay::Friday)
        } else if units == 6 * UNIT {
            Ok(WeekDay::Saturday)
        } else {
            Err(WeekDayError::InvalidDayNumber)
        }
    }

    /// The number of the day: 0 for Sunday up to 6 for Saturday.
    pub fn to_ordinal(&self) -> (n: u8)
        ensures
            n == self.ordinal(),
    {
        match self {
            WeekDay::Sunday => 0,
            WeekDay::Monday => 1,
            WeekDay::Tuesday => 2,
            WeekDay::Wednesday => 3,
            WeekDay::Thursday => 4,
            WeekDay::Friday => 5,
            WeekDay::Saturday => 6,
        }
    }

    /// The day of the week whose number `d` is.
    pub fn try_from(d: Decimal) -> (r: Result<WeekDay, WeekDayError>)
        ensures
            r == WeekDay::of_units(d.units()),
            r is Ok ==> r.unwrap().ordinal() * UNIT == d.units(),
    {
        if !d.floor().same_as(&d) {
            return Err(WeekDayError::NonIntegerDecimal);
        }
        let day = match d.to_u8() {
            Some(day) => day,
            None => {
                return Err(WeekDayError::NonIntegerDecimal);
            },
        };
        match day {
            1 => Ok(WeekDay::Monday),
            2 => Ok(WeekDay::Tuesday),
            3 => Ok(WeekDay::Wednesday),
            4 => Ok(WeekDay::Thursday),
            5 => Ok(WeekDay::Friday),
            6 => Ok(WeekDay::Saturday),
            0 => Ok(WeekDay::Sunday),
            _ => Err(WeekDayError::InvalidDayNumber),
        }
    }
}

} // verus!
