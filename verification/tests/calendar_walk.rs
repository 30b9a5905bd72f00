use julian::{CalendarDate, Decimal, JulianDay, WeekDay};

fn has_leap_day(y: i32) -> bool {
    if y < 1583 {
        y.rem_euclid(4) == 0
    } else {
        y % 4 == 0 && (y % 100 != 0 || y % 400 == 0)
    }
}

fn month_length(y: i32, m: u8) -> u8 {
    match m {
        2 => {
            if has_leap_day(y) {
                29
            } else {
                28
            }
        }
        4 | 6 | 9 | 11 => 30,
        _ => 31,
    }
}

fn day_after(y: i32, m: u8, d: u8) -> (i32, u8, u8) {
    if (y, m, d) == (1582, 10, 4) {
        (1582, 10, 15)
    } else if d < month_length(y, m) {
        (y, m, d + 1)
    } else if m < 12 {
        (y, m + 1, 1)
    } else {
        (y + 1, 1, 1)
    }
}

fn weekday_after(day: WeekDay) -> WeekDay {
    match day {
        WeekDay::Sunday => WeekDay::Monday,
        WeekDay::Monday => WeekDay::Tuesday,
        WeekDay::Tuesday => WeekDay::Wednesday,
        WeekDay::Wednesday => WeekDay::Thursday,
        WeekDay::Thursday => WeekDay::Friday,
        WeekDay::Friday => WeekDay::Saturday,
        WeekDay::Saturday => WeekDay::Sunday,
    }
}

/// Walks the calendar day by day from 1 January of `first` to 1 January of
/// `last`, at the time of day `hundredths / 100`.
fn walk(first: i32, last: i32, hundredths: i64) {
    let (mut y, mut m, mut d) = (first, 1u8, 1u8);
    let at = |y: i32, m: u8, d: u8| {
        CalendarDate::new(y, m, Decimal::new(i64::from(d) * 100 + hundredths, 2))
    };
    let mut jd = JulianDay::from(&at(y, m, d)).day;
    let mut weekday = at(y, m, d).day_of_the_week();
    while y < last {
        let (ny, nm, nd) = day_after(y, m, d);
        let date = at(ny, nm, nd);
        let next = JulianDay::from(&date);
        assert_eq!(
            next.day,
            Decimal::try_new(jd.mantissa() + 100, 2).unwrap(),
            "{ny}-{nm}-{nd}"
        );
        assert_eq!(next.day.scale(), 2);
        assert_eq!(CalendarDate::try_from(next).unwrap(), date, "{ny}-{nm}-{nd}");
        let next_weekday = date.day_of_the_week();
        assert_eq!(next_weekday, weekday_after(weekday), "{ny}-{nm}-{nd}");
        jd = next.day;
        weekday = next_weekday;
        (y, m, d) = (ny, nm, nd);
    }
}

#[test]
fn days_around_the_reform_follow_each_other() {
    walk(1578, 1588, 25);
}

#[test]
fn days_at_the_start_of_the_count_follow_each_other() {
    walk(-4711, -4701, 49);
}

#[test]
fn days_around_the_year_zero_follow_each_other() {
    walk(-5, 6, 0);
}

#[test]
fn days_around_1900_follow_each_other() {
    walk(1896, 1906, 75);
}

#[test]
fn days_around_2000_follow_each_other() {
    walk(1995, 2005, 99);
}

#[test]
fn days_around_2100_follow_each_other() {
    walk(2096, 2104, 1);
}

#[test]
fn days_of_a_distant_year_follow_each_other() {
    walk(2_147_483_000, 2_147_483_004, 31);
}
