use journal_pages::date_utils::{DateRange, Day, Month, Navigation, Week, Weekday, Year};

fn ymd(year: i32, month: u32, day: u32) -> Day {
    Day::from_ymd_opt(year, month, day).unwrap()
}

#[test]
fn date() {
    let date = Day::from_ymd_opt(2024, 9, 1).unwrap();
    assert_eq!(date.next(), Day::from_ymd_opt(2024, 9, 2).unwrap());
    assert_eq!(date.prev(), Day::from_ymd_opt(2024, 8, 31).unwrap());
}

#[test]
fn week() {
    let week = Day::from_ymd_opt(2024, 12, 31).unwrap().iso_week();
    let prev = week.prev();
    assert_eq!(52, prev.week());
    assert_eq!(2024, prev.year());

    let next = week.next();
    assert_eq!(2, next.week());
    assert_eq!(2025, next.year());
}

#[test]
fn month() {
    let month = Month::from(Day::from_ymd_opt(2024, 12, 1).unwrap());

    assert_eq!(
        Month {
            year: 2024,
            month: 11
        },
        month.prev()
    );
    assert_eq!(
        Month {
            year: 2025,
            month: 1
        },
        month.next()
    );
}

#[test]
fn year() {
    let year = Year::from(2024);
    assert_eq!(Year::from(2023), year.prev());
    assert_eq!(Year::from(2025), year.next());
}

#[test]
fn date_utils_week() {
    let week = Day::from_ymd_opt(2024, 9, 24).unwrap().iso_week();
    assert_eq!(week.first(), Day::from_ymd_opt(2024, 9, 23).unwrap());
    assert_eq!(week.last(), Day::from_ymd_opt(2024, 9, 29).unwrap());
}

#[test]
fn date_utils_month() {
    let month = Month::from(Day::from_ymd_opt(2024, 2, 5).unwrap());
    assert_eq!(month.first(), Day::from_ymd_opt(2024, 2, 1).unwrap());
    assert_eq!(month.last(), Day::from_ymd_opt(2024, 2, 29).unwrap());
}

#[test]
fn date_utils_year() {
    let year = Year::from(2024);
    assert_eq!(
        year.first(),
        Day::from_ymd_opt(2024, 1, 1).unwrap().into()
    );
    assert_eq!(
        year.last(),
        Day::from_ymd_opt(2024, 12, 1).unwrap().into()
    );
}

#[test]
fn week_of_the_last_day_of_2024_belongs_to_2025() {
    let week = ymd(2024, 12, 31).iso_week();
    assert_eq!((week.year(), week.week()), (2025, 1));
    assert_eq!(week.first(), ymd(2024, 12, 30));
    assert_eq!(week.last(), ymd(2025, 1, 5));
    assert_eq!(week.prev_opt(), Some(ymd(2024, 12, 29).iso_week()));
    assert_eq!(week.next_opt(), Some(ymd(2025, 1, 6).iso_week()));
}

#[test]
fn leap_february() {
    let month = Month::new(2024, 2).unwrap();
    assert_eq!(month.last(), ymd(2024, 2, 29));
    assert_eq!(month.next(), Month { year: 2024, month: 3 });
    assert_eq!(month.prev(), Month { year: 2024, month: 1 });
    assert_eq!(Month::new(2023, 2).unwrap().last(), ymd(2023, 2, 28));
    assert_eq!(Month::new(1900, 2).unwrap().last(), ymd(1900, 2, 28));
    assert_eq!(Month::new(2000, 2).unwrap().last(), ymd(2000, 2, 29));
}

#[test]
fn every_month_has_its_length() {
    let lengths = [31, 28, 31, 30, 31, 30, 31, 31, 30, 31, 30, 31];
    for (i, len) in lengths.iter().enumerate() {
        let month = Month::new(2023, i as u32 + 1).unwrap();
        assert_eq!(month.first(), ymd(2023, i as u32 + 1, 1));
        assert_eq!(month.last(), ymd(2023, i as u32 + 1, *len));
        assert_eq!(month.days().len(), *len as usize);
    }
}

#[test]
fn days_that_do_not_exist() {
    assert_eq!(Day::from_ymd_opt(2023, 2, 29), None);
    assert_eq!(Day::from_ymd_opt(2023, 4, 31), None);
    assert_eq!(Day::from_ymd_opt(2023, 0, 1), None);
    assert_eq!(Day::from_ymd_opt(2023, 13, 1), None);
    assert_eq!(Day::from_ymd_opt(2023, 1, 0), None);
    assert_eq!(Day::from_ymd_opt(262143, 1, 1), None);
    assert_eq!(Day::from_ymd_opt(-262144, 12, 31), None);
    assert!(Day::from_ymd_opt(262142, 12, 31).unwrap().is_max());
    assert!(Day::from_ymd_opt(-262143, 1, 1).unwrap().is_min());
    assert_eq!(Month::new(2023, 0), None);
    assert_eq!(Month::new(2023, 13), None);
    assert_eq!(Month::new(262143, 1), None);
}

#[test]
fn day_steps_cross_months_and_years() {
    assert_eq!(ymd(2024, 2, 28).next(), ymd(2024, 2, 29));
    assert_eq!(ymd(2024, 2, 29).next(), ymd(2024, 3, 1));
    assert_eq!(ymd(2023, 2, 28).next(), ymd(2023, 3, 1));
    assert_eq!(ymd(2024, 12, 31).next(), ymd(2025, 1, 1));
    assert_eq!(ymd(2025, 1, 1).prev(), ymd(2024, 12, 31));
    assert_eq!(ymd(2024, 3, 1).prev(), ymd(2024, 2, 29));
    assert_eq!(ymd(2024, 5, 1).prev(), ymd(2024, 4, 30));
}

#[test]
fn month_steps_cross_years() {
    assert_eq!(Month::new(2024, 12).unwrap().next(), Month { year: 2025, month: 1 });
    assert_eq!(Month::new(2024, 1).unwrap().prev(), Month { year: 2023, month: 12 });
    assert_eq!(Month::new(262142, 12).unwrap().last(), ymd(262142, 12, 31));
}

#[test]
fn names() {
    assert_eq!(Month::new(2024, 9).unwrap().name(), "September");
    assert_eq!(Month::new(2024, 1).unwrap().name(), "January");
    assert_eq!(Month::new(2024, 12).unwrap().name(), "December");
    assert_eq!(Month::new(2024, 9).unwrap().year(), Year(2024));
    assert_eq!(ymd(2024, 9, 1).weekday(), Weekday::Sun);
    assert_eq!(ymd(2024, 9, 2).weekday(), Weekday::Mon);
    assert_eq!(Weekday::Sun.name(), "Sunday");
    assert_eq!(Weekday::Wed.name(), "Wednesday");
}

#[test]
fn week_days() {
    let week = ymd(2024, 9, 24).iso_week();
    let days = week.days().unwrap();
    assert_eq!(days.len(), 7);
    assert_eq!(days[0], ymd(2024, 9, 23));
    assert_eq!(days[6], ymd(2024, 9, 29));
    assert_eq!(days[3].weekday(), Weekday::Thu);
}

#[test]
fn weeks_at_the_ends_of_the_calendar() {
    let last: Week = ymd(262142, 12, 31).iso_week();
    assert_eq!(last.next_opt(), None);
    let first: Week = ymd(-262143, 1, 1).iso_week();
    assert_eq!(first.prev_opt(), None);
}

#[test]
fn order_of_days() {
    assert!(ymd(2024, 9, 1).is_before(&ymd(2024, 9, 2)));
    assert!(ymd(2024, 9, 30).is_before(&ymd(2024, 10, 1)));
    assert!(ymd(2024, 12, 31).is_before(&ymd(2025, 1, 1)));
    assert!(!ymd(2024, 9, 2).is_before(&ymd(2024, 9, 2)));
    assert!(!ymd(2025, 1, 1).is_before(&ymd(2024, 12, 31)));
}

#[test]
fn defaults() {
    assert_eq!(Year::default(), Year(0));
    assert_eq!(Month::default(), Month { year: 0, month: 0 });
}
