//! A decimal number as a signed integer mantissa and a count of decimal
//! places, with the arithmetic on it carried out by `rust_decimal`.

use vstd::prelude::*;
use vstd::std_specs::cmp::PartialEqSpecImpl;

verus! {

/// The largest number of decimal places a [`Decimal`] can carry.
pub const MAX_SCALE: u32 = 28;

/// One whole, counted in steps of `10^-28`: the finest step a [`Decimal`] can
/// hold. Every decimal is a whole number of such steps, see [`Decimal::units`].
pub const UNIT: i128 = 10_000_000_000_000_000_000_000_000_000;

/// One hundredth, counted in steps of `10^-28`.
pub const HUNDREDTH: i128 = 100_000_000_000_000_000_000_000_000;

/// One ten-thousandth, counted in steps of `10^-28`.
pub const TEN_THOUSANDTH: i128 = 1_000_000_000_000_000_000_000_000;

/// Mantissas lie strictly between `-2^96` and `2^96`.
pub const MANTISSA_LIMIT: i128 = 79_228_162_514_264_337_593_543_950_336;

/// `m * 10^places` for `0 <= places <= 28`, and `m` for any other `places`.
pub open spec fn shift(m: int, places: int) -> int {
    if places == 1 {
        m * 10
    } else if places == 2 {
        m * 100
    } else if places == 3 {
        m * 1_000
    } else if places == 4 {
        m * 10_000
    } else if places == 5 {
        m * 100_000
    } else if places == 6 {
        m * 1_000_000
    } else if places == 7 {
        m * 10_000_000
    } else if places == 8 {
        m * 100_000_000
    } else if places == 9 {
        m * 1_000_000_000
    } else if places == 10 {
        m * 10_000_000_000
    } else if places == 11 {
        m * 100_000_000_000
    } else if places == 12 {
        m * 1_000_000_000_000
    } else if places == 13 {
        m * 10_000_000_000_000
    } else if places == 14 {
        m * 100_000_000_000_000
    } else if places == 15 {
        m * 1_000_000_000_000_000
    } else if places == 16 {
        m * 10_000_000_000_000_000
    } else if places == 17 {
        m * 100_000_000_000_000_000
    } else if places == 18 {
        m * 1_000_000_000_000_000_000
    } else if places == 19 {
        m * 10_000_000_000_000_000_000
    } else if places == 20 {
        m * 100_000_000_000_000_000_000
    } else if places == 21 {
        m * 1_000_000_000_000_000_000_000
    } else if places == 22 {
        m * 10_000_000_000_000_000_000_000
    } else if places == 23 {
        m * 100_000_000_000_000_000_000_000
    } else if places == 24 {
        m * 1_000_000_000_000_000_000_000_000
    } else if places == 25 {
        m * 10_000_000_000_000_000_000_000_000
    } else if places == 26 {
        m * 100_000_000_000_000_000_000_000_000
    } else if places == 27 {
        m * 1_000_000_000_000_000_000_000_000_000
    } else if places == 28 {
        m * 10_000_000_000_000_000_000_000_000_000
    } else {
        m
    }
}

/// A decimal number `mantissa / 10^scale`.
#[derive(Clone, Copy, Debug)]
pub struct Decimal {
    mantissa: i128,
    scale: u32,
}

impl Decimal {
    /// The mantissa as a mathematical integer.
    pub closed spec fn spec_mantissa(self) -> int {
        self.mantissa as int
    }

    /// The number of decimal places.
    pub closed spec fn spec_scale(self) -> int {
        self.scale as int
    }

    /// Every decimal has at most 28 decimal places and a mantissa of less
    /// than 96 bits.
    #[verifier::type_invariant]
    pub open spec fn wf(self) -> bool {
        &&& 0 <= self.spec_scale() <= MAX_SCALE
        &&& -MANTISSA_LIMIT < self.spec_mantissa() < MANTISSA_LIMIT
    }

    /// The value of the decimal, counted in steps of `10^-28`. Two decimals
    /// are the same number exactly when their `units` agree.
    pub open spec fn units(self) -> int {
        shift(self.spec_mantissa(), MAX_SCALE - self.spec_scale())
    }

    /// The decimal `num / 10^scale`.
    pub fn new(num: i64, scale: u32) -> (r: Decimal)
        requires
            scale <= MAX_SCALE,
        ensures
            r.spec_mantissa() == num,
            r.spec_scale() == scale,
    {
        Decimal { mantissa: num as i128, scale }
    }

    /// The decimal `mantissa / 10^scale`, where there is one: for a scale of
    /// at most 28 and a mantissa strictly between `-2^96` and `2^96`.
    pub fn try_new(mantissa: i128, scale: u32) -> (r: Option<Decimal>)
        ensures
            r is Some <==> scale <= MAX_SCALE && -MANTISSA_LIMIT < mantissa < MANTISSA_LIMIT,
            r is Some ==> r.unwrap().spec_mantissa() == mantissa && r.unwrap().spec_scale()
                == scale,
    {
        if scale <= MAX_SCALE && -MANTISSA_LIMIT < mantissa && mantissa < MANTISSA_LIMIT {
            Some(Decimal { mantissa, scale })
        } else {
            None
        }
    }

    /// The number zero.
    pub fn zero() -> (r: Decimal)
        ensures
            r.spec_mantissa() == 0,
            r.spec_scale() == 0,
    {
        Decimal { mantissa: 0, scale: 0 }
    }

    /// The mantissa: the decimal's digits as a signed integer.
    pub fn mantissa(&self) -> (m: i128)
        ensures
            m == self.spec_mantissa(),
    {
        self.mantissa
    }

    /// The number of decimal places.
    pub fn scale(&self) -> (s: u32)
        ensures
            s == self.spec_scale(),
    {
        self.scale
    }
}

/// Whether a value of `units` steps can be written with `scale` decimal
/// places and a mantissa of less than 96 bits.
pub open spec fn fits(units: int, scale: int) -> bool {
    -shift(MANTISSA_LIMIT as int, MAX_SCALE - scale) < units < shift(
        MANTISSA_LIMIT as int,
        MAX_SCALE - scale,
    )
}

/// The larger of two scales.
pub open spec fn wider(s: int, t: int) -> int {
    if s >= t {
        s
    } else {
        t
    }
}

/// The whole number nearest to a value of `units` steps; a value halfway
/// between two whole numbers goes to the even one.
pub open spec fn round_half_even(units: int) -> int {
    let below = units / (UNIT as int);
    let rest = units % (UNIT as int);
    if 2 * rest < UNIT {
        below
    } else if 2 * rest > UNIT {
        below + 1
    } else if below % 2 == 0 {
        below
    } else {
        below + 1
    }
}

/// The whole part of a value of `units` steps, the fraction cut off towards
/// zero.
pub open spec fn whole_part(units: int) -> int {
    if units >= 0 {
        units / (UNIT as int)
    } else {
        -((-units) / (UNIT as int))
    }
}

impl Decimal {
    /// `rust_decimal::Decimal::from(n)`: the whole number `n`, with no
    /// decimal places.
    #[verifier::external_body]
    pub(crate) fn from_i64(n: i64) -> (r: Decimal)
        ensures
            r.spec_mantissa() == n,
            r.spec_scale() == 0,
    {
        let x = rust_decimal::Decimal::from(n);
        Decimal { mantissa: x.mantissa(), scale: x.scale() }
    }

    /// `rust_decimal`'s `+`. Where both terms and their exact sum can be
    /// written with the larger of the two scales, the result is that sum,
    /// with no more decimal places than that; only then is it called.
    #[verifier::external_body]
    pub(crate) fn plus(&self, other: &Decimal) -> (r: Decimal)
        requires
            fits(self.units(), wider(self.spec_scale(), other.spec_scale())),
            fits(other.units(), wider(self.spec_scale(), other.spec_scale())),
            fits(self.units() + other.units(), wider(self.spec_scale(), other.spec_scale())),
        ensures
            r.units() == self.units() + other.units(),
            r.spec_scale() <= wider(self.spec_scale(), other.spec_scale()),
    {
        let x = rust_decimal::Decimal::from_i128_with_scale(self.mantissa, self.scale)
            + rust_decimal::Decimal::from_i128_with_scale(other.mantissa, other.scale);
        Decimal { mantissa: x.mantissa(), scale: x.scale() }
    }

    /// `rust_decimal`'s `-`. Where both terms and their exact difference can
    /// be written with the larger of the two scales, the result is that
    /// difference, with no more decimal places than that; only then is it
    /// called.
    #[verifier::external_body]
    pub(crate) fn minus(&self, other: &Decimal) -> (r: Decimal)
        requires
            fits(self.units(), wider(self.spec_scale(), other.spec_scale())),
            fits(other.units(), wider(self.spec_scale(), other.spec_scale())),
            fits(self.units() - other.units(), wider(self.spec_scale(), other.spec_scale())),
        ensures
            r.units() == self.units() - other.units(),
            r.spec_scale() <= wider(self.spec_scale(), other.spec_scale()),
    {
        let x = rust_decimal::Decimal::from_i128_with_scale(self.mantissa, self.scale)
            - rust_decimal::Decimal::from_i128_with_scale(other.mantissa, other.scale);
        Decimal { mantissa: x.mantissa(), scale: x.scale() }
    }

    /// `rust_decimal`'s `*`. Where the two scales add up to at most 28 and
    /// the product of the mantissas stays below 96 bits, the result is the
    /// exact product, with no more decimal places than the two scales
    /// together; only then is it called.
    #[verifier::external_body]
    pub(crate) fn times(&self, other: &Decimal) -> (r: Decimal)
        requires
            self.spec_scale() + other.spec_scale() <= MAX_SCALE,
            -MANTISSA_LIMIT < self.spec_mantissa() * other.spec_mantissa() < MANTISSA_LIMIT,
        ensures
            r.units() * UNIT == self.units() * other.units(),
            r.spec_scale() <= self.spec_scale() + other.spec_scale(),
    {
        let x = rust_decimal::Decimal::from_i128_with_scale(self.mantissa, self.scale)
            * rust_decimal::Decimal::from_i128_with_scale(other.mantissa, other.scale);
        Decimal { mantissa: x.mantissa(), scale: x.scale() }
    }

    /// `rust_decimal::Decimal::checked_div`: `None` for a zero divisor or a
    /// quotient too large to hold; otherwise the quotient, rounded where it
    /// has more digits than a decimal holds. Nothing is claimed of the
    /// result: [`Decimal::floor_quotient`] takes it as an estimate and
    /// settles it by exact arithmetic.
    #[verifier::external_body]
    pub(crate) fn quotient_estimate(&self, divisor: &Decimal) -> (r: Option<Decimal>) {
        let x = rust_decimal::Decimal::from_i128_with_scale(self.mantissa, self.scale).checked_div(
            rust_decimal::Decimal::from_i128_with_scale(divisor.mantissa, divisor.scale),
        );
        match x {
            Some(q) => Some(Decimal { mantissa: q.mantissa(), scale: q.scale() }),
            None => None,
        }
    }

    /// `rust_decimal`'s `%` on a dividend that is not negative and a
    /// divisor above zero, both of which can be written with the larger of
    /// the two scales: the exact remainder, with no more decimal places than
    /// that.
    #[verifier::external_body]
    pub(crate) fn modulo(&self, divisor: &Decimal) -> (r: Decimal)
        requires
            self.units() >= 0,
            divisor.units() > 0,
            fits(self.units(), wider(self.spec_scale(), divisor.spec_scale())),
            fits(divisor.units(), wider(self.spec_scale(), divisor.spec_scale())),
        ensures
            r.units() == self.units() % divisor.units(),
            r.spec_scale() <= wider(self.spec_scale(), divisor.spec_scale()),
    {
        let x = rust_decimal::Decimal::from_i128_with_scale(self.mantissa, self.scale)
            % rust_decimal::Decimal::from_i128_with_scale(divisor.mantissa, divisor.scale);
        Decimal { mantissa: x.mantissa(), scale: x.scale() }
    }

    /// `rust_decimal::Decimal::floor`: the largest whole number not above
    /// `self`, with no decimal places.
    #[verifier::external_body]
    pub(crate) fn floor(&self) -> (r: Decimal)
        ensures
            r.spec_mantissa() == self.units() / (UNIT as int),
            r.spec_scale() == 0,
    {
        let x = rust_decimal::Decimal::from_i128_with_scale(self.mantissa, self.scale).floor();
        Decimal { mantissa: x.mantissa(), scale: x.scale() }
    }

    /// `rust_decimal::Decimal::round`: the nearest whole number, a tie going
    /// to the even one, with no decimal places.
    #[verifier::external_body]
    pub(crate) fn round(&self) -> (r: Decimal)
        ensures
            r.spec_mantissa() == round_half_even(self.units()),
            r.spec_scale() == 0,
    {
        let x = rust_decimal::Decimal::from_i128_with_scale(self.mantissa, self.scale).round();
        Decimal { mantissa: x.mantissa(), scale: x.scale() }
    }

    /// `rust_decimal::Decimal::abs`: the same digits without the sign.
    #[verifier::external_body]
    pub(crate) fn abs(&self) -> (r: Decimal)
        ensures
            r.spec_mantissa() == if self.spec_mantissa() < 0 {
                -self.spec_mantissa()
            } else {
                self.spec_mantissa()
            },
            r.spec_scale() == self.spec_scale(),
    {
        let x = rust_decimal::Decimal::from_i128_with_scale(self.mantissa, self.scale).abs();
        Decimal { mantissa: x.mantissa(), scale: x.scale() }
    }

    /// `rust_decimal`'s `<`, which compares the two numbers by value.
    #[verifier::external_body]
    pub(crate) fn less_than(&self, other: &Decimal) -> (r: bool)
        ensures
            r == (self.units() < other.units()),
    {
        rust_decimal::Decimal::from_i128_with_scale(self.mantissa, self.scale)
            < rust_decimal::Decimal::from_i128_with_scale(other.mantissa, other.scale)
    }

    /// `rust_decimal`'s `==`, which compares the two numbers by value:
    /// trailing zeros make no difference.
    #[verifier::external_body]
    pub(crate) fn same_as(&self, other: &Decimal) -> (r: bool)
        ensures
            r == (self.units() == other.units()),
    {
        rust_decimal::Decimal::from_i128_with_scale(self.mantissa, self.scale)
            == rust_decimal::Decimal::from_i128_with_scale(other.mantissa, other.scale)
    }

    /// `to_u8` of `num_traits::ToPrimitive` as `rust_decimal` implements it:
    /// the whole part of a number that is not negative, where it is at most
    /// 255; `None` for every other number.
    #[verifier::external_body]
    pub(crate) fn to_u8(&self) -> (r: Option<u8>)
        ensures
            r.is_some() <==> 0 <= self.units() < 256 * UNIT,
            r.is_some() ==> r.unwrap() == self.units() / (UNIT as int),
    {
        rust_decimal::prelude::ToPrimitive::to_u8(
            &rust_decimal::Decimal::from_i128_with_scale(self.mantissa, self.scale),
        )
    }

    /// `to_i32` of `num_traits::ToPrimitive` as `rust_decimal` implements it:
    /// the whole part, where it lies in the range of `i32`; `None` where it
    /// does not.
    #[verifier::external_body]
    pub(crate) fn to_i32(&self) -> (r: Option<i32>)
        ensures
            r.is_some() <==> i32::MIN <= whole_part(self.units()) <= i32::MAX,
            r.is_some() ==> r.unwrap() == whole_part(self.units()),
    {
        rust_decimal::prelude::ToPrimitive::to_i32(
            &rust_decimal::Decimal::from_i128_with_scale(self.mantissa, self.scale),
        )
    }
}

/// Two decimals are equal when they are the same number, however many
/// trailing zeros each is written with.
impl PartialEq for Decimal {
    fn eq(&self, other: &Decimal) -> (r: bool) {
        self.same_as(other)
    }
}

impl PartialEqSpecImpl for Decimal {
    open spec fn obeys_eq_spec() -> bool {
        true
    }

    open spec fn eq_spec(&self, other: &Decimal) -> bool {
        self.units() == other.units()
    }
}

} // verus!
