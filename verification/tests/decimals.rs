use julian::Decimal;

fn dec(num: i64, scale: u32) -> Decimal {
    Decimal::new(num, scale)
}

#[test]
fn decimal_parts() {
    let d = dec(-481, 2);
    assert_eq!(d.mantissa(), -481);
    assert_eq!(d.scale(), 2);
    assert_eq!(Decimal::zero().mantissa(), 0);
    assert_eq!(Decimal::zero().scale(), 0);
}

#[test]
fn decimal_equality_is_by_value() {
    assert_eq!(dec(10, 1), dec(1, 0));
    assert_eq!(dec(1000, 3), dec(10, 1));
    assert_eq!(dec(0, 5), Decimal::zero());
    assert!(dec(10, 1) != dec(10, 2));
    assert!(dec(1, 0) != dec(-1, 0));
}

#[test]
fn floor_quotient_rounds_towards_minus_infinity() {
    assert_eq!(dec(7, 0).floor_quotient(&dec(2, 0)), dec(3, 0));
    assert_eq!(dec(-7, 0).floor_quotient(&dec(2, 0)), dec(-4, 0));
    assert_eq!(dec(8, 0).floor_quotient(&dec(2, 0)), dec(4, 0));
    assert_eq!(dec(-8, 0).floor_quotient(&dec(2, 0)), dec(-4, 0));
    assert_eq!(dec(0, 0).floor_quotient(&dec(30_6001, 4)), dec(0, 0));
    assert_eq!(dec(1, 0).floor_quotient(&dec(3, 0)), dec(0, 0));
    assert_eq!(dec(-1, 0).floor_quotient(&dec(3, 0)), dec(-1, 0));
    let r = dec(7, 0).floor_quotient(&dec(2, 0));
    assert_eq!(r.scale(), 0);
    assert_eq!(r.mantissa(), 3);
}

#[test]
fn floor_quotient_of_decimals_with_fractions() {
    // (2436116 - 1867216.25) / 36524.25 = 15.57...
    assert_eq!(dec(56889975, 2).floor_quotient(&dec(3652425, 2)), dec(15, 0));
    // 365.25 / 365.25 = 1
    assert_eq!(dec(36525, 2).floor_quotient(&dec(36525, 2)), dec(1, 0));
    // 365.24 / 365.25 < 1
    assert_eq!(dec(36524, 2).floor_quotient(&dec(36525, 2)), dec(0, 0));
    // 153 / 30.6001 = 4.99998...
    assert_eq!(dec(153, 0).floor_quotient(&dec(306001, 4)), dec(4, 0));
    // 153.0005 / 30.6001 = 5
    assert_eq!(dec(1530005, 4).floor_quotient(&dec(306001, 4)), dec(5, 0));
}

#[test]
fn floor_quotient_where_the_quotient_ends_in_nines() {
    // 1 / 1.0000000000000000000000000001 is below one by less than a decimal
    // can show.
    let divisor = Decimal::try_new(10_000_000_000_000_000_000_000_000_001, 28).unwrap();
    assert_eq!(dec(1, 0).floor_quotient(&divisor), dec(0, 0));
    assert_eq!(divisor.floor_quotient(&divisor), dec(1, 0));
}

#[test]
fn settle_floor_corrects_any_estimate() {
    let seven = dec(7, 0);
    let two = dec(2, 0);
    assert_eq!(seven.settle_floor(&two, dec(3, 0)), dec(3, 0));
    assert_eq!(seven.settle_floor(&two, dec(35, 1)), dec(3, 0));
    assert_eq!(seven.settle_floor(&two, dec(4, 0)), dec(3, 0));
    assert_eq!(seven.settle_floor(&two, dec(2, 0)), dec(3, 0));
    assert_eq!(seven.settle_floor(&two, dec(8, 0)), dec(3, 0));
    assert_eq!(seven.settle_floor(&two, dec(-8, 0)), dec(3, 0));
    assert_eq!(seven.settle_floor(&two, dec(1000, 0)), dec(3, 0));
    assert_eq!(seven.settle_floor(&two, dec(-1000, 0)), dec(3, 0));
    assert_eq!(seven.settle_floor(&two, dec(0, 0)), dec(3, 0));
    let minus_seven = dec(-7, 0);
    assert_eq!(minus_seven.settle_floor(&two, dec(-35, 1)), dec(-4, 0));
    assert_eq!(minus_seven.settle_floor(&two, dec(-3, 0)), dec(-4, 0));
    assert_eq!(minus_seven.settle_floor(&two, dec(5, 0)), dec(-4, 0));
    assert_eq!(minus_seven.settle_floor(&two, dec(-8, 0)), dec(-4, 0));
}

#[test]
fn try_new_checks_the_limits() {
    assert!(Decimal::try_new(0, 28).is_some());
    assert!(Decimal::try_new(0, 29).is_none());
    let limit: i128 = 79_228_162_514_264_337_593_543_950_336;
    assert!(Decimal::try_new(limit - 1, 0).is_some());
    assert!(Decimal::try_new(limit, 0).is_none());
    assert!(Decimal::try_new(1 - limit, 28).is_some());
    assert!(Decimal::try_new(-limit, 0).is_none());
    let d = Decimal::try_new(-12345, 3).unwrap();
    assert_eq!(d.mantissa(), -12345);
    assert_eq!(d.scale(), 3);
    assert_eq!(d, dec(-12345, 3));
}

/// A sequence of numbers that looks random and is the same on every run.
fn scramble(state: &mut u64) -> u64 {
    *state = state.wrapping_mul(6364136223846793005).wrapping_add(1442695040888963407);
    *state >> 17
}

#[test]
fn floor_quotient_agrees_with_integer_division() {
    let divisors: [(i64, u32); 10] = [
        (1000, 1),
        (40, 1),
        (3652425, 2),
        (36525, 2),
        (306001, 4),
        (9, 0),
        (12, 0),
        (7, 0),
        (1, 0),
        (10_000_001, 7),
    ];
    let mut state = 20_260_101u64;
    for round in 0..3000usize {
        let (dm, ds) = divisors[round % divisors.len()];
        let scale = (scramble(&mut state) % 7) as u32;
        let size = 10i64.pow(1 + (scramble(&mut state) % 15) as u32);
        let mantissa = (scramble(&mut state) % (2 * size as u64)) as i64 - size;
        let dividend = dec(mantissa, scale);
        let expected =
            (i128::from(mantissa) * 10i128.pow(ds)).div_euclid(i128::from(dm) * 10i128.pow(scale));
        let found = dividend.floor_quotient(&dec(dm, ds));
        assert_eq!(found.mantissa(), expected, "{mantissa}e-{scale} / {dm}e-{ds}");
        assert_eq!(found.scale(), 0);
        if expected.abs() < 2000 {
            let estimate = dec((scramble(&mut state) % 2001) as i64 - 1000, (round % 3) as u32);
            let settled = dividend.settle_floor(&dec(dm, ds), estimate);
            assert_eq!(settled.mantissa(), expected, "{mantissa}e-{scale} / {dm}e-{ds}");
        }
    }
}
