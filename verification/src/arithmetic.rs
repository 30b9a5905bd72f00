//! Exact arithmetic on decimals: sums, differences and multiples that are
//! proved not to round, and the floor of a quotient.

use crate::decimal::{fits, shift, wider, Decimal, MANTISSA_LIMIT, MAX_SCALE, UNIT};
use vstd::arithmetic::div_mod::lemma_fundamental_div_mod;
use vstd::prelude::*;

verus! {

/// The size of `x` without its sign.
pub open spec fn magnitude(x: int) -> int {
    if x < 0 {
        -x
    } else {
        x
    }
}

/// For a positive divisor, `f` is at most the floor of `a / d` exactly when
/// `f * d <= a`, and at least that floor exactly when `a < (f + 1) * d`.
pub proof fn lemma_floor_bracket(a: int, d: int, f: int)
    requires
        d > 0,
    ensures
        (f * d <= a) <==> (f <= a / d),
        (a < (f + 1) * d) <==> (a / d <= f),
{
    lemma_fundamental_div_mod(a, d);
    let q = a / d;
    let r = a % d;
    assert(0 <= r < d);
    assert(a == d * q + r);
    assert((f * d <= a) <==> (f <= q)) by (nonlinear_arith)
        requires
            d > 0,
            0 <= r < d,
            a == d * q + r,
    {
        if f <= q {
            assert(f * d <= q * d);
        } else {
            assert(f * d >= (q + 1) * d);
        }
    }
    assert((a < (f + 1) * d) <==> (q <= f)) by (nonlinear_arith)
        requires
            d > 0,
            0 <= r < d,
            a == d * q + r,
    {
        if q <= f {
            assert((f + 1) * d >= (q + 1) * d);
        } else {
            assert((f + 1) * d <= q * d);
        }
    }
}

/// The floor of `a / d` is no larger in size than `a` counted in whole
/// units, where `d` is at least one unit.
pub proof fn lemma_quotient_bound(a: int, d: int)
    requires
        d >= UNIT,
    ensures
        -(magnitude(a) / (UNIT as int)) - 1 <= a / d <= magnitude(a) / (UNIT as int),
{
    let u = UNIT as int;
    let t = magnitude(a) / u;
    lemma_fundamental_div_mod(magnitude(a), u);
    assert(t * u <= magnitude(a) < (t + 1) * u) by (nonlinear_arith)
        requires
            magnitude(a) == u * t + magnitude(a) % u,
            0 <= magnitude(a) % u < u,
    ;
    // a < (t + 1) * d, hence a / d <= t
    assert(a < (t + 1) * d) by (nonlinear_arith)
        requires
            a <= magnitude(a),
            magnitude(a) < (t + 1) * u,
            d >= u,
            t >= 0,
    ;
    lemma_floor_bracket(a, d, t);
    // (-t - 1) * d <= a, hence -t - 1 <= a / d
    assert((-t - 1) * d <= a) by (nonlinear_arith)
        requires
            -magnitude(a) <= a,
            magnitude(a) < (t + 1) * u,
            d >= u,
            t >= 0,
    ;
    lemma_floor_bracket(a, d, -t - 1);
}

/// Multiplying dividend and divisor by the same positive number leaves the
/// floor of the quotient as it is.
pub proof fn lemma_scaled_quotient(k: int, n: int, c: int)
    requires
        n > 0,
        c > 0,
    ensures
        (k * c) / (n * c) == k / n,
{
    let q = k / n;
    lemma_floor_bracket(k, n, q);
    lemma_floor_bracket(k, n, q + 1);
    assert(n * c > 0) by (nonlinear_arith)
        requires
            n > 0,
            c > 0,
    ;
    assert(q * (n * c) <= k * c < (q + 1) * (n * c)) by (nonlinear_arith)
        requires
            q * n <= k,
            k < (q + 1) * n,
            c > 0,
    ;
    lemma_floor_bracket(k * c, n * c, q);
    lemma_floor_bracket(k * c, n * c, q + 1);
}

/// The room that [`Decimal::floor_quotient`] asks for, from a bound on the
/// dividend's size in whole units and one on the divisor's mantissa.
pub proof fn lemma_quotient_in_reach(a: int, dm: int, size: int, dmax: int)
    requires
        magnitude(a) <= size * UNIT,
        1 <= dm <= dmax,
        (size + 2) * dmax < MANTISSA_LIMIT,
    ensures
        (magnitude(a) / (UNIT as int) + 2) * dm < MANTISSA_LIMIT,
{
    let t = magnitude(a) / (UNIT as int);
    assert(0 <= t <= size);
    assert((t + 2) * dm < MANTISSA_LIMIT) by (nonlinear_arith)
        requires
            0 <= t <= size,
            1 <= dm <= dmax,
            (size + 2) * dmax < MANTISSA_LIMIT,
    {
        assert((t + 2) * dm <= (size + 2) * dm);
        assert((size + 2) * dm <= (size + 2) * dmax);
    }
}

/// A value of fewer than `7 * 10^12` units in size can be written with any
/// scale up to 16.
pub proof fn lemma_fits_with_room(units: int, scale: int)
    requires
        0 <= scale <= 16,
        -7_000_000_000_000 * UNIT < units < 7_000_000_000_000 * UNIT,
    ensures
        fits(units, scale),
{
}

/// A value that can be written with some scale can be written with every
/// smaller one, as far as the size of the mantissa goes.
pub proof fn lemma_fits_coarser(units: int, s: int, scale: int)
    requires
        0 <= s <= scale <= MAX_SCALE,
        fits(units, scale),
    ensures
        fits(units, s),
{
    let limit = MANTISSA_LIMIT as int;
    assert(shift(limit, MAX_SCALE - scale) <= shift(limit, MAX_SCALE - s));
}

/// A value no larger in size than one that can be written with some scale
/// can be written with it, and with every smaller one, as far as the size
/// of the mantissa goes.
pub proof fn lemma_fits_within(x: int, bound: int, s: int, scale: int)
    requires
        0 <= s <= scale <= MAX_SCALE,
        magnitude(x) <= bound,
        fits(bound, scale),
    ensures
        fits(x, s),
{
    assert(fits(x, scale));
    lemma_fits_coarser(x, s, scale);
}

impl Decimal {
    /// `self + other`, where both and their sum can be written with `scale`
    /// decimal places, which neither has more of.
    pub(crate) fn plus_at(&self, other: &Decimal, Ghost(scale): Ghost<int>) -> (r: Decimal)
        requires
            self.spec_scale() <= scale <= MAX_SCALE,
            other.spec_scale() <= scale,
            fits(self.units(), scale),
            fits(other.units(), scale),
            fits(self.units() + other.units(), scale),
        ensures
            r.units() == self.units() + other.units(),
            r.spec_scale() <= wider(self.spec_scale(), other.spec_scale()),
    {
        proof {
            use_type_invariant(self);
            use_type_invariant(other);
            let s = wider(self.spec_scale(), other.spec_scale());
            lemma_fits_coarser(self.units(), s, scale);
            lemma_fits_coarser(other.units(), s, scale);
            lemma_fits_coarser(self.units() + other.units(), s, scale);
        }
        self.plus(other)
    }

    /// `self - other`, where both and their difference can be written with
    /// `scale` decimal places, which neither has more of.
    pub(crate) fn minus_at(&self, other: &Decimal, Ghost(scale): Ghost<int>) -> (r: Decimal)
        requires
            self.spec_scale() <= scale <= MAX_SCALE,
            other.spec_scale() <= scale,
            fits(self.units(), scale),
            fits(other.units(), scale),
            fits(self.units() - other.units(), scale),
        ensures
            r.units() == self.units() - other.units(),
            r.spec_scale() <= wider(self.spec_scale(), other.spec_scale()),
    {
        proof {
            use_type_invariant(self);
            use_type_invariant(other);
            let s = wider(self.spec_scale(), other.spec_scale());
            lemma_fits_coarser(self.units(), s, scale);
            lemma_fits_coarser(other.units(), s, scale);
            lemma_fits_coarser(self.units() - other.units(), s, scale);
        }
        self.minus(other)
    }
}

impl Decimal {
    /// Whether the decimal is small and coarse enough for sums and
    /// differences of two such decimals to be exact: below `3 * 10^12` in
    /// size, with at most 16 decimal places.
    pub open spec fn is_small(self) -> bool {
        &&& -3_000_000_000_000 * UNIT < self.units() < 3_000_000_000_000 * UNIT
        &&& self.spec_scale() <= 16
    }

    /// `self + other`, for two small decimals.
    pub(crate) fn plus_small(&self, other: &Decimal) -> (r: Decimal)
        requires
            self.is_small(),
            other.is_small(),
        ensures
            r.units() == self.units() + other.units(),
            r.spec_scale() <= wider(self.spec_scale(), other.spec_scale()),
    {
        proof {
            use_type_invariant(self);
            use_type_invariant(other);
            let s = wider(self.spec_scale(), other.spec_scale());
            lemma_fits_with_room(self.units(), s);
            lemma_fits_with_room(other.units(), s);
            lemma_fits_with_room(self.units() + other.units(), s);
        }
        self.plus(other)
    }

    /// `self - other`, for two small decimals.
    pub(crate) fn minus_small(&self, other: &Decimal) -> (r: Decimal)
        requires
            self.is_small(),
            other.is_small(),
        ensures
            r.units() == self.units() - other.units(),
            r.spec_scale() <= wider(self.spec_scale(), other.spec_scale()),
    {
        proof {
            use_type_invariant(self);
            use_type_invariant(other);
            let s = wider(self.spec_scale(), other.spec_scale());
            lemma_fits_with_room(self.units(), s);
            lemma_fits_with_room(other.units(), s);
            lemma_fits_with_room(self.units() - other.units(), s);
        }
        self.minus(other)
    }

    /// `num / 10^scale` times `whole`, for a number of at most `10^9` in size
    /// and a small whole number `whole` written with at most one decimal
    /// place.
    pub(crate) fn multiple(num: i64, scale: u32, whole: &Decimal) -> (r: Decimal)
        requires
            -1_000_000_000 <= num <= 1_000_000_000,
            scale <= 27,
            whole.is_small(),
            whole.spec_scale() <= 1,
            whole.units() % (UNIT as int) == 0,
        ensures
            r.units() == shift(num * (whole.units() / (UNIT as int)), MAX_SCALE - scale),
            r.spec_scale() <= scale + whole.spec_scale(),
    {
        let factor = Decimal::new(num, scale);
        proof {
            use_type_invariant(whole);
            let wm = whole.spec_mantissa();
            assert(-30_000_000_000_000 <= wm <= 30_000_000_000_000);
            assert(-MANTISSA_LIMIT < num * wm < MANTISSA_LIMIT) by (nonlinear_arith)
                requires
                    -1_000_000_000 <= num <= 1_000_000_000,
                    -30_000_000_000_000 <= wm <= 30_000_000_000_000,
                    MANTISSA_LIMIT == 79_228_162_514_264_337_593_543_950_336int,
            {
                assert(num * wm <= 1_000_000_000 * 30_000_000_000_000);
                assert(num * wm >= -(1_000_000_000 * 30_000_000_000_000));
            }
        }
        let r = factor.times(whole);
        proof {
            let k = whole.units() / (UNIT as int);
            assert(whole.units() == k * UNIT);
            assert(r.units() == factor.units() * k) by (nonlinear_arith)
                requires
                    r.units() * UNIT == factor.units() * whole.units(),
                    whole.units() == k * UNIT,
                    UNIT == 10_000_000_000_000_000_000_000_000_000int,
            ;
            lemma_shift_product(num as int, k, MAX_SCALE - scale);
        }
        r
    }
}

/// Shifting a product is shifting one of its factors.
pub proof fn lemma_shift_product(m: int, k: int, places: int)
    ensures
        shift(m * k, places) == shift(m, places) * k,
{
    let c = shift(1, places);
    assert(shift(m * k, places) == (m * k) * c);
    assert(shift(m, places) == m * c);
    assert((m * k) * c == (m * c) * k) by (nonlinear_arith);
}

impl Decimal {
    /// The largest whole number not above `self / divisor`, for a divisor of
    /// at least one. The quotient that `rust_decimal` computes serves as a
    /// first estimate; [`Decimal::settle_floor`] makes it exact, so the
    /// result does not depend on how that quotient was rounded.
    pub fn floor_quotient(&self, divisor: &Decimal) -> (r: Decimal)
        requires
            divisor.units() >= UNIT,
            (magnitude(self.units()) / (UNIT as int) + 2) * divisor.spec_mantissa()
                < MANTISSA_LIMIT,
        ensures
            r.spec_scale() == 0,
            r.spec_mantissa() == self.units() / divisor.units(),
    {
        let estimate = match self.quotient_estimate(divisor) {
            Some(estimate) => estimate,
            None => Decimal::zero(),
        };
        self.settle_floor(divisor, estimate)
    }

    /// The largest whole number not above `self / divisor`, for a small
    /// dividend and a divisor of at least one with a mantissa of at most
    /// `10^9`.
    pub(crate) fn floor_quotient_small(&self, divisor: &Decimal) -> (r: Decimal)
        requires
            self.is_small(),
            divisor.units() >= UNIT,
            divisor.spec_mantissa() <= 1_000_000_000,
        ensures
            r.spec_scale() == 0,
            r.spec_mantissa() == self.units() / divisor.units(),
    {
        proof {
            use_type_invariant(divisor);
            lemma_quotient_in_reach(
                self.units(),
                divisor.spec_mantissa(),
                3_000_000_000_000,
                1_000_000_000,
            );
        }
        self.floor_quotient(divisor)
    }

    /// The largest whole number not above `self / divisor`, for a divisor of
    /// at least one, whatever `estimate` is. The search starts at the floor
    /// of `estimate`, or at zero where that lies further from zero than the
    /// quotient can, and moves by one until
    /// `r * divisor <= self < (r + 1) * divisor`.
    #[verifier::loop_isolation(false)]
    pub fn settle_floor(&self, divisor: &Decimal, estimate: Decimal) -> (r: Decimal)
        requires
            divisor.units() >= UNIT,
            (magnitude(self.units()) / (UNIT as int) + 2) * divisor.spec_mantissa()
                < MANTISSA_LIMIT,
        ensures
            r.spec_scale() == 0,
            r.spec_mantissa() == self.units() / divisor.units(),
    {
        let ghost a = self.units();
        let ghost d = divisor.units();
        let ghost dm = divisor.spec_mantissa();
        let ghost t = magnitude(a) / (UNIT as int);
        proof {
            use_type_invariant(self);
            use_type_invariant(divisor);
            assert(t + 2 < MANTISSA_LIMIT) by (nonlinear_arith)
                requires
                    (t + 2) * dm < MANTISSA_LIMIT,
                    dm >= 1,
                    t >= 0,
            ;
            lemma_quotient_bound(a, d);
        }
        let one = Decimal::new(1, 0);
        let size = self.abs();
        proof {
            use_type_invariant(&size);
        }
        let top = size.floor().plus(&one);
        let bottom = Decimal::zero().minus(&top);
        assert(top.units() == (t + 1) * UNIT && bottom.units() == (-t - 1) * UNIT);
        let mut low = estimate.floor();
        if low.less_than(&bottom) || top.less_than(&low) {
            low = Decimal::zero();
        }
        while self.below_multiple(&low, divisor, Ghost(t))
            invariant
                low.spec_scale() == 0,
                -t - 1 <= low.spec_mantissa() <= t + 1,
            decreases low.spec_mantissa() + t + 1,
        {
            proof {
                lemma_floor_bracket(a, d, low.spec_mantissa());
            }
            low = low.minus(&one);
            proof {
                use_type_invariant(&low);
            }
        }
        proof {
            lemma_floor_bracket(a, d, low.spec_mantissa());
        }
        let mut high = low.plus(&one);
        proof {
            use_type_invariant(&high);
        }
        while !self.below_multiple(&high, divisor, Ghost(t))
            invariant
                high.spec_scale() == 0,
                -t <= high.spec_mantissa() <= a / d + 1,
            decreases a / d + 1 - high.spec_mantissa(),
        {
            proof {
                lemma_floor_bracket(a, d, high.spec_mantissa());
            }
            high = high.plus(&one);
            proof {
                use_type_invariant(&high);
            }
        }
        let floor = high.minus(&one);
        proof {
            use_type_invariant(&floor);
            lemma_floor_bracket(a, d, floor.spec_mantissa());
        }
        floor
    }

    /// Whether `self` lies below `whole * divisor`, for a whole number of
    /// size at most `t + 1`.
    fn below_multiple(&self, whole: &Decimal, divisor: &Decimal, Ghost(t): Ghost<int>) -> (r: bool)
        requires
            t >= 0,
            whole.spec_scale() == 0,
            -t - 1 <= whole.spec_mantissa() <= t + 1,
            divisor.spec_mantissa() >= 1,
            (t + 2) * divisor.spec_mantissa() < MANTISSA_LIMIT,
        ensures
            r == (self.units() < whole.spec_mantissa() * divisor.units()),
    {
        proof {
            use_type_invariant(divisor);
            Self::lemma_times_whole_fits(whole.spec_mantissa(), divisor.spec_mantissa(), t);
        }
        let product = whole.times(divisor);
        proof {
            Self::lemma_times_whole(
                whole.spec_mantissa(),
                whole.units(),
                divisor.units(),
                product.units(),
            );
        }
        self.less_than(&product)
    }

    /// A whole number of size at most `t + 1` times a positive mantissa `dm`
    /// stays below the mantissa limit where `(t + 2) * dm` does.
    proof fn lemma_times_whole_fits(f: int, dm: int, t: int)
        requires
            -t - 1 <= f <= t + 1,
            dm >= 1,
            t >= 0,
            (t + 2) * dm < MANTISSA_LIMIT,
        ensures
            -MANTISSA_LIMIT < f * dm < MANTISSA_LIMIT,
    {
        assert(-MANTISSA_LIMIT < f * dm < MANTISSA_LIMIT) by (nonlinear_arith)
            requires
                -t - 1 <= f <= t + 1,
                dm >= 1,
                t >= 0,
                (t + 2) * dm < MANTISSA_LIMIT,
        {
            assert(f * dm <= (t + 1) * dm);
            assert(f * dm >= (-t - 1) * dm);
            assert((t + 1) * dm < (t + 2) * dm);
        }
    }

    /// The product of the whole number `f` and a decimal of `d` steps has
    /// `f * d` steps.
    proof fn lemma_times_whole(f: int, f_units: int, d: int, p: int)
        requires
            f_units == f * UNIT,
            p * UNIT == f_units * d,
        ensures
            p == f * d,
    {
        assert(p == f * d) by (nonlinear_arith)
            requires
                f_units == f * UNIT,
                p * UNIT == f_units * d,
                UNIT == 10_000_000_000_000_000_000_000_000_000int,
        ;
    }
}

} // verus!
