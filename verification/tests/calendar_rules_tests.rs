use journal_pages::date_utils::{DateRange, Day, Month, Navigation, Weekday};

fn is_leap_year(year: i32) -> bool {
    year.rem_euclid(4) == 0 && (year.rem_euclid(100) != 0 || year.rem_euclid(400) == 0)
}

fn days_in_month(year: i32, month: u32) -> u32 {
    match month {
        2 => {
            if is_leap_year(year) {
                29
            } else {
                28
            }
        }
        4 | 6 | 9 | 11 => 30,
        _ => 31,
    }
}

fn is_date(year: i32, month: u32, day: u32) -> bool {
    (-262143..=262142).contains(&year)
        && (1..=12).contains(&month)
        && 1 <= day
        && day <= days_in_month(year, month)
}

fn next_day(year: i32, month: u32, day: u32) -> (i32, u32, u32) {
    if day < days_in_month(year, month) {
        (year, month, day + 1)
    } else if month < 12 {
        (year, month + 1, 1)
    } else {
        (year + 1, 1, 1)
    }
}

fn parts(day: Day) -> (i32, u32, u32) {
    (day.year(), day.month(), day.day())
}

#[test]
fn days_exist_where_the_calendar_has_them() {
    for year in [-262144, -262143, -401, -400, -100, -4, -1, 0, 1, 4, 100, 1900, 2000, 2023, 2024, 262142, 262143] {
        for month in 0..=14 {
            for day in 0..=33 {
                let made = Day::from_ymd_opt(year, month, day);
                assert_eq!(made.is_some(), is_date(year, month, day), "{year}-{month}-{day}");
                if let Some(d) = made {
                    assert_eq!(parts(d), (year, month, day));
                }
            }
        }
    }
}

#[test]
fn each_day_is_followed_by_the_next() {
    for start in [(-262143, 1, 1), (-401, 12, 1), (-1, 1, 1), (1899, 12, 1), (1999, 1, 1), (262140, 1, 1)] {
        let mut day = Day::from_ymd_opt(start.0, start.1, start.2).unwrap();
        for _ in 0..1100 {
            if day.is_max() {
                break;
            }
            let (y, m, d) = parts(day);
            let next = day.next();
            assert_eq!(parts(next), next_day(y, m, d));
            assert_eq!(next.prev(), day);
            assert!(day.is_before(&next));
            assert!(!next.is_before(&day));
            assert!(day < next);
            day = next;
        }
    }
    assert!(Day::from_ymd_opt(262142, 12, 30).unwrap().next().is_max());
    assert!(Day::from_ymd_opt(-262143, 1, 2).unwrap().prev().is_min());
}

#[test]
fn weekdays_follow_one_another() {
    let order = [
        Weekday::Mon,
        Weekday::Tue,
        Weekday::Wed,
        Weekday::Thu,
        Weekday::Fri,
        Weekday::Sat,
        Weekday::Sun,
    ];
    // The first of January 2024 was a Monday.
    let mut day = Day::from_ymd_opt(2024, 1, 1).unwrap();
    for i in 0..800 {
        assert_eq!(day.weekday(), order[i % 7]);
        day = day.next();
    }
}

#[test]
fn months_follow_one_another() {
    for year in [-262143, -1, 0, 1900, 2023, 2024, 262142] {
        for month in 1..=12 {
            let this = Month::new(year, month).unwrap();
            assert_eq!(parts(this.first()), (year, month, 1));
            assert_eq!(parts(this.last()), (year, month, days_in_month(year, month)));
            assert_eq!(Month::from(this.first()), this);
            assert_eq!(Month::from(this.last()), this);
            if !(year == 262142 && month == 12) {
                let next = this.next();
                let expected = if month < 12 { (year, month + 1) } else { (year + 1, 1) };
                assert_eq!((next.year, next.month), expected);
                assert_eq!(next.prev(), this);
                assert_eq!(this.last().next(), next.first());
            }
            if !(year == -262143 && month == 1) {
                let prev = this.prev();
                let expected = if month > 1 { (year, month - 1) } else { (year - 1, 12) };
                assert_eq!((prev.year, prev.month), expected);
            }
        }
    }
}

#[test]
fn weeks_are_seven_days_from_monday_to_sunday() {
    let mut day = Day::from_ymd_opt(2019, 12, 1).unwrap();
    for _ in 0..900 {
        let week = day.iso_week();
        let days = week.days().unwrap();
        assert_eq!(days.len(), 7);
        assert_eq!(days[0], week.first());
        assert_eq!(days[6], week.last());
        assert_eq!(days[0].weekday(), Weekday::Mon);
        assert_eq!(days[6].weekday(), Weekday::Sun);
        assert!(days.contains(&day));
        for d in &days {
            assert_eq!(d.iso_week(), week);
        }
        assert_eq!(week.next().prev(), week);
        assert_eq!(week.prev().next(), week);
        assert_eq!(week.next().first(), week.last().next());
        day = day.next();
    }
}
