//! Conversion between civil calendar dates and Julian Days, in exact decimal
//! arithmetic, with the queries built on it: calendar in force, leap year,
//! day of the week, day of the year and the interval between two dates.
//!
//! A [`Decimal`] is a whole number of steps of `10^-28`; the contracts speak
//! of that number, [`Decimal::units`]. The arithmetic itself is done by
//! `rust_decimal`, behind the operations of [`decimal`]. Each of them is
//! called only where its result is exact, and the one whose rounding cannot
//! be stated in a few lines, the division, serves as an estimate that exact
//! multiplication settles ([`Decimal::settle_floor`]).
//!
//! Every operation on dates states the value it returns as a formula over
//! year, month and day, and what it needs for that value to fit into a
//! decimal. [`moderate`] holds a range of days and of Julian Days that meets
//! every such need, with the tests that recognise it. [`laws`] states what
//! ties the operations together: a date of the civil calendar, converted to
//! its Julian Day and back, is the same date.

pub mod arithmetic;
pub mod calendar;
pub mod decimal;
pub mod julian_day;
pub mod laws;
pub mod moderate;
pub mod queries;
pub mod weekday;

pub use calendar::{Calendar, CalendarDate, CalendarDateError};
pub use decimal::Decimal;
pub use julian_day::JulianDay;
pub use weekday::{WeekDay, WeekDayError};
