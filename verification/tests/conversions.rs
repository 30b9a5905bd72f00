use julian::{Calendar, CalendarDate, CalendarDateError, Decimal, JulianDay, WeekDay};

fn dec(num: i64, scale: u32) -> Decimal {
    Decimal::new(num, scale)
}

#[test]
fn get_calendar_test() {
    let date = CalendarDate::new(1957, 10, dec(481, 2));
    assert_eq!(date.get_calendar(), Calendar::Gregorian);

    let date = CalendarDate::new(333, 1, dec(275, 1));
    assert_eq!(date.get_calendar(), Calendar::Julian);

    let date = CalendarDate::new(1582, 10, dec(149, 1));
    assert_eq!(date.get_calendar(), Calendar::Julian);

    let date = CalendarDate::new(1582, 10, dec(150, 1));
    assert_eq!(date.get_calendar(), Calendar::Gregorian);
}

#[test]
fn julian_day_test() {
    let date = CalendarDate::new(1957, 10, dec(481, 2));
    assert_eq!(JulianDay::from(&date).day, dec(243611631, 2));

    let date = CalendarDate::new(333, 1, dec(275, 1));
    assert_eq!(JulianDay::from(&date).day, dec(18427130, 1));

    // Gregorian dates
    let g1 = CalendarDate::new(2000, 1, dec(15, 1));
    let g2 = CalendarDate::new(1999, 1, dec(10, 1));
    let g3 = CalendarDate::new(1987, 1, dec(270, 1));
    let g4 = CalendarDate::new(1600, 12, dec(310, 1));

    assert_eq!(JulianDay::from(&g1).day, dec(24515450, 1));
    assert_eq!(JulianDay::from(&g2).day, dec(24511795, 1));
    assert_eq!(JulianDay::from(&g3).day, dec(24468225, 1));
    assert_eq!(JulianDay::from(&g4).day, dec(23058125, 1));

    // Julian dates
    let j1 = CalendarDate::new(837, 4, dec(103, 1));
    let j2 = CalendarDate::new(-123, 12, dec(310, 1));
    let j3 = CalendarDate::new(-1000, 7, dec(125, 1));
    let j4 = CalendarDate::new(-4712, 1, dec(15, 1));

    assert_eq!(JulianDay::from(&j1).day, dec(20268718, 1));
    assert_eq!(JulianDay::from(&j2).day, dec(16764965, 1));
    assert_eq!(JulianDay::from(&j3).day, dec(13560010, 1));
    assert_eq!(JulianDay::from(&j4).day, dec(0, 1));
}

#[test]
fn test_get_calendar_date() {
    let jd = JulianDay::new(dec(243611631, 2));
    let cd = CalendarDate::try_from(jd).unwrap();

    assert_eq!(cd, CalendarDate::new(1957, 10, dec(481, 2)));
}

#[test]
fn test_interval_between() {
    let first = CalendarDate::new(1910, 4, dec(20, 0));
    let second = CalendarDate::new(1986, 2, dec(9, 0));

    assert_eq!(CalendarDate::days_between(&first, &second), dec(27689, 0));
}

#[test]
fn test_day_of_the_week() {
    let date = CalendarDate::new(1954, 6, dec(30, 0));
    assert_eq!(date.day_of_the_week(), WeekDay::Wednesday);
}

#[test]
fn test_day_of_the_year() {
    let date1 = CalendarDate::new(1978, 11, dec(14, 0));
    let date2 = CalendarDate::new(1988, 4, dec(22, 0));

    assert_eq!(date1.day_of_the_year(), 318);
    assert_eq!(date2.day_of_the_year(), 113);
}

#[test]
fn calendar_changes_on_15_october_1582() {
    assert_eq!(CalendarDate::new(1582, 9, dec(300, 1)).get_calendar(), Calendar::Julian);
    assert_eq!(CalendarDate::new(1582, 9, dec(1, 0)).get_calendar(), Calendar::Julian);
    assert_eq!(CalendarDate::new(1583, 1, dec(1, 0)).get_calendar(), Calendar::Gregorian);
    assert_eq!(CalendarDate::new(1583, 1, dec(315, 1)).get_calendar(), Calendar::Gregorian);
    assert_eq!(CalendarDate::new(1582, 10, dec(5, 0)).get_calendar(), Calendar::Julian);
    assert_eq!(CalendarDate::new(1582, 11, dec(1, 0)).get_calendar(), Calendar::Gregorian);
    assert_eq!(CalendarDate::new(1581, 12, dec(31, 0)).get_calendar(), Calendar::Julian);
    assert_eq!(CalendarDate::new(1582, 10, dec(14_999_999, 6)).get_calendar(), Calendar::Julian);
}

#[test]
fn negative_julian_day_has_no_date() {
    let r = CalendarDate::try_from(JulianDay::new(dec(-1, 0)));
    assert_eq!(r, Err(CalendarDateError::InvalidJulianDay));
    let r = CalendarDate::try_from(JulianDay::new(dec(-1, 28)));
    assert_eq!(r, Err(CalendarDateError::InvalidJulianDay));
}

#[test]
fn julian_day_zero_is_noon_of_the_first_day() {
    let cd = CalendarDate::try_from(JulianDay::new(dec(0, 0))).unwrap();
    assert_eq!(cd, CalendarDate::new(-4712, 1, dec(15, 1)));
    assert_eq!(cd.get_year(), -4712);
    assert_eq!(cd.get_month(), 1);
    assert_eq!(cd.get_day(), dec(15, 1));
}

#[test]
fn dates_from_julian_days() {
    let cases: [(i64, u32, i32, u8, i64, u32); 8] = [
        (18427130, 1, 333, 1, 275, 1),
        (150790013, 2, -584, 5, 2863, 2),
        (24515450, 1, 2000, 1, 15, 1),
        (23058125, 1, 1600, 12, 310, 1),
        (22991605, 1, 1582, 10, 15, 0),
        (22991595, 1, 1582, 10, 4, 0),
        (24000005, 1, 1858, 11, 17, 0),
        (13560010, 1, -1000, 7, 125, 1),
    ];
    for (jd, jd_scale, y, m, d, d_scale) in cases {
        let cd = CalendarDate::try_from(JulianDay::new(dec(jd, jd_scale))).unwrap();
        assert_eq!(cd, CalendarDate::new(y, m, dec(d, d_scale)));
    }
}

#[test]
fn date_and_julian_day_round_trip() {
    let dates: [(i32, u8, i64, u32); 12] = [
        (1957, 10, 481, 2),
        (333, 1, 275, 1),
        (2000, 2, 29, 0),
        (1900, 2, 28, 0),
        (1900, 3, 1, 0),
        (1600, 2, 29, 0),
        (1582, 10, 4, 0),
        (1582, 10, 15, 0),
        (-4712, 1, 15, 1),
        (-1, 12, 3199, 2),
        (0, 1, 1, 0),
        (2_000_000_000, 12, 3175, 2),
    ];
    for (y, m, d, scale) in dates {
        let date = CalendarDate::new(y, m, dec(d, scale));
        let back = CalendarDate::try_from(JulianDay::from(&date)).unwrap();
        assert_eq!(back, date);
    }
}

#[test]
fn round_trip_keeps_sixteen_decimal_places() {
    let date = CalendarDate::new(1957, 10, dec(48_100_000_000_000_001, 16));
    let jd = JulianDay::from(&date);
    assert_eq!(jd.day.scale(), 16);
    assert_eq!(jd.day.mantissa(), 24_361_163_100_000_000_000_001);
    assert_eq!(CalendarDate::try_from(jd).unwrap(), date);
}

#[test]
fn reform_gap_moves_ten_days_forward() {
    let date = CalendarDate::new(1582, 10, dec(10, 0));
    let back = CalendarDate::try_from(JulianDay::from(&date)).unwrap();
    assert_eq!(back, CalendarDate::new(1582, 10, dec(20, 0)));
}

#[test]
fn julian_day_equality_is_by_value() {
    assert_eq!(JulianDay::new(dec(15, 1)), JulianDay::new(dec(1500, 3)));
    assert!(JulianDay::new(dec(15, 1)) != JulianDay::new(dec(16, 1)));
    assert!(CalendarDate::new(1, 1, dec(1, 0)) != CalendarDate::new(1, 2, dec(1, 0)));
    assert!(CalendarDate::new(1, 1, dec(1, 0)) != CalendarDate::new(2, 1, dec(1, 0)));
    assert!(CalendarDate::new(1, 1, dec(1, 0)) != CalendarDate::new(1, 1, dec(2, 0)));
}

#[test]
fn moderate_days_are_recognised() {
    assert!(CalendarDate::new(1957, 10, dec(481, 2)).is_day_moderate());
    assert!(CalendarDate::new(1957, 10, dec(0, 0)).is_day_moderate());
    assert!(CalendarDate::new(1957, 10, dec(1_000_000_000, 0)).is_day_moderate());
    assert!(CalendarDate::new(1957, 10, dec(48_100_000_000_000_001, 16)).is_day_moderate());
    assert!(!CalendarDate::new(1957, 10, dec(1_000_000_001, 0)).is_day_moderate());
    assert!(!CalendarDate::new(1957, 10, dec(-1, 1)).is_day_moderate());
    assert!(!CalendarDate::new(1957, 10, dec(481_000_000_000_000_001, 17)).is_day_moderate());
}

#[test]
fn moderate_julian_days_are_recognised() {
    assert!(JulianDay::new(dec(0, 0)).is_count_moderate());
    assert!(JulianDay::new(dec(243611631, 2)).is_count_moderate());
    // the last instant of the year 2^31 - 1 that one decimal place shows
    let last = JulianDay::new(dec(7_843_540_173_644, 1));
    assert!(last.is_count_moderate());
    let cd = CalendarDate::try_from(last).unwrap();
    assert_eq!(cd, CalendarDate::new(2_147_483_647, 12, dec(319, 1)));
    // midnight of 1 January of the year 2^31
    assert!(!JulianDay::new(dec(7_843_540_173_645, 1)).is_count_moderate());
    assert!(!JulianDay::new(dec(1, 17)).is_count_moderate());
}

#[test]
fn last_date_of_a_32_bit_year_round_trips() {
    let date = CalendarDate::new(2_147_483_647, 12, dec(319, 1));
    let jd = JulianDay::from(&date);
    assert_eq!(jd.day, dec(7_843_540_173_644, 1));
    let first = CalendarDate::new(-2_147_483_648, 1, dec(1, 0));
    assert_eq!(JulianDay::from(&first).day, dec(-7_843_666_813_745, 1));
}

fn big(mantissa: i128, scale: u32) -> Decimal {
    Decimal::try_new(mantissa, scale).unwrap()
}

#[test]
fn julian_day_keeps_twenty_two_decimal_places() {
    let date = CalendarDate::new(2000, 1, big(15_000_000_000_000_000_000_001, 22));
    let jd = JulianDay::from(&date);
    assert_eq!(jd.day.mantissa(), 24_515_450_000_000_000_000_000_000_001);
    assert_eq!(jd.day.scale(), 22);
    let back = CalendarDate::try_from(jd).unwrap();
    assert_eq!(back.get_year(), 2000);
    assert_eq!(back.get_month(), 1);
    assert_eq!(back.get_day().mantissa(), 15_000_000_000_000_000_000_001);
    assert_eq!(back.get_day().scale(), 22);
}

#[test]
fn julian_day_of_an_early_date_keeps_twenty_four_decimal_places() {
    // 17 January -4707, a little after five in the morning
    let date = CalendarDate::new(-4707, 1, big(17_213_000_000_000_000_000_000_009, 24));
    let jd = JulianDay::from(&date);
    assert_eq!(jd.day.mantissa(), 1_842_713_000_000_000_000_000_000_009);
    assert_eq!(jd.day.scale(), 24);
    let back = CalendarDate::try_from(jd).unwrap();
    assert_eq!(back, date);
    assert_eq!(back.get_day().mantissa(), 17_213_000_000_000_000_000_000_009);
}

#[test]
fn date_of_a_small_julian_day_keeps_twenty_seven_decimal_places() {
    let jd = JulianDay::new(big(250_000_000_000_000_000_000_000_001, 27));
    let cd = CalendarDate::try_from(jd).unwrap();
    assert_eq!(cd.get_year(), -4712);
    assert_eq!(cd.get_month(), 1);
    assert_eq!(cd.get_day().mantissa(), 1_750_000_000_000_000_000_000_000_001);
    assert_eq!(cd.get_day().scale(), 27);
}

#[test]
fn days_beyond_the_moderate_ones_convert_exactly() {
    // ten thousand million days and a half after the start of January 2000
    let date = CalendarDate::new(2000, 1, Decimal::new(10_000_000_000_5, 1));
    assert!(!date.is_day_moderate());
    assert_eq!(JulianDay::from(&date).day, Decimal::new(100_024_515_440, 1));
    // a negative day counts back from the start of the month
    let date = CalendarDate::new(2000, 1, Decimal::new(-5, 1));
    assert!(!date.is_day_moderate());
    assert_eq!(JulianDay::from(&date).day, Decimal::new(2_451_543, 0));
}
