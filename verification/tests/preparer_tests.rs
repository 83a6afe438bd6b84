use journal_pages::date_utils::{Day, Month, Navigation, Week, Weekday, Year};
use journal_pages::preparer::{
    day_page, day_plan, month_page, month_plan, week_page, week_plan, Preparer, Unit,
};

fn ymd(year: i32, month: u32, day: u32) -> Day {
    Day::from_ymd_opt(year, month, day).unwrap()
}

fn week_of(year: i32, month: u32, day: u32) -> Week {
    ymd(year, month, day).iso_week()
}

#[test]
fn run_over_september() {
    let units = (Preparer { from: ymd(2024, 9, 1), to: ymd(2024, 10, 1) }).run();

    let days: Vec<Day> = units
        .iter()
        .filter_map(|u| match u {
            Unit::Day(d) => Some(*d),
            _ => None,
        })
        .collect();
    assert_eq!(days.len(), 31);
    assert_eq!(days[0], ymd(2024, 9, 1));
    assert_eq!(days[29], ymd(2024, 9, 30));
    assert_eq!(days[30], ymd(2024, 10, 1));
    for pair in days.windows(2) {
        assert_eq!(pair[0].next(), pair[1]);
    }

    let months: Vec<Month> = units
        .iter()
        .filter_map(|u| match u {
            Unit::Month(m) => Some(*m),
            _ => None,
        })
        .collect();
    assert_eq!(
        months,
        vec![Month { year: 2024, month: 9 }, Month { year: 2024, month: 10 }]
    );

    let weeks: Vec<(i32, u32)> = units
        .iter()
        .filter_map(|u| match u {
            Unit::Week(w) => Some((w.year(), w.week())),
            _ => None,
        })
        .collect();
    assert_eq!(
        weeks,
        vec![(2024, 35), (2024, 36), (2024, 37), (2024, 38), (2024, 39), (2024, 40)]
    );

    let years: Vec<&Unit> = units.iter().filter(|u| matches!(u, Unit::Year(_))).collect();
    assert_eq!(years, vec![&Unit::Year(Year(2024))]);
    assert_eq!(units.len(), 40);
}

#[test]
fn run_orders_the_pages_of_a_step() {
    let units = (Preparer { from: ymd(2024, 12, 29), to: ymd(2025, 1, 1) }).run();
    assert_eq!(
        units,
        vec![
            Unit::Day(ymd(2024, 12, 29)),
            Unit::Week(week_of(2024, 12, 29)),
            Unit::Month(Month { year: 2024, month: 12 }),
            Unit::Year(Year(2024)),
            Unit::Day(ymd(2024, 12, 30)),
            Unit::Week(week_of(2024, 12, 30)),
            Unit::Day(ymd(2024, 12, 31)),
            Unit::Day(ymd(2025, 1, 1)),
            Unit::Year(Year(2025)),
            Unit::Month(Month { year: 2025, month: 1 }),
        ]
    );
}

#[test]
fn run_always_steps_once() {
    let expected = vec![
        Unit::Day(ymd(2024, 9, 1)),
        Unit::Week(week_of(2024, 9, 1)),
        Unit::Month(Month { year: 2024, month: 9 }),
        Unit::Year(Year(2024)),
        Unit::Day(ymd(2024, 9, 2)),
        Unit::Week(week_of(2024, 9, 2)),
    ];
    assert_eq!((Preparer { from: ymd(2024, 9, 1), to: ymd(2024, 9, 2) }).run(), expected);
    assert_eq!((Preparer { from: ymd(2024, 9, 1), to: ymd(2024, 9, 1) }).run(), expected);
    assert_eq!((Preparer { from: ymd(2024, 9, 1), to: ymd(2020, 1, 1) }).run(), expected);
}

#[test]
fn plan_of_a_day() {
    let plan = day_plan(ymd(2024, 12, 31));
    assert_eq!(plan.weekday, Weekday::Tue);
    assert_eq!((plan.week.year(), plan.week.week()), (2025, 1));
    assert_eq!(plan.month, Month { year: 2024, month: 12 });
}

#[test]
fn plan_of_a_week() {
    let plan = week_plan(week_of(2024, 10, 2)).unwrap();
    assert_eq!(plan.month, Month { year: 2024, month: 9 });
    assert_eq!((plan.next.year(), plan.next.week()), (2024, 41));
    assert_eq!((plan.prev.year(), plan.prev.week()), (2024, 39));
    assert_eq!(
        plan.days,
        vec![
            ymd(2024, 9, 30),
            ymd(2024, 10, 1),
            ymd(2024, 10, 2),
            ymd(2024, 10, 3),
            ymd(2024, 10, 4),
            ymd(2024, 10, 5),
            ymd(2024, 10, 6),
        ]
    );
}

#[test]
fn plan_of_a_month() {
    let plan = month_plan(Month::new(2024, 2).unwrap()).unwrap();
    assert_eq!(plan.next, Month { year: 2024, month: 3 });
    assert_eq!(plan.prev, Month { year: 2024, month: 1 });
    assert_eq!(plan.days.len(), 29);
    assert_eq!(plan.days[0], ymd(2024, 2, 1));
    assert_eq!(plan.days[28], ymd(2024, 2, 29));
}

#[test]
fn no_plan_at_the_ends_of_the_calendar() {
    assert_eq!(month_plan(Month::new(262142, 12).unwrap()), None);
    assert_eq!(month_plan(Month::new(-262143, 1).unwrap()), None);
    assert!(month_plan(Month::new(262142, 11).unwrap()).is_some());
    assert_eq!(week_plan(week_of(262142, 12, 31)), None);
    assert_eq!(week_plan(week_of(-262143, 1, 1)), None);
}

#[test]
fn page_of_a_day() {
    let page = day_page("journals/2024_09_01.md", "2024/Week 35", "2024/September", Weekday::Sun);
    assert_eq!(page.path(), "journals/2024_09_01.md");
    assert_eq!(
        page.to_string(),
        "filters:: {\"2024/Week 35\" false, \"2024/September\" false}\nday:: Sunday\nweek:: [[2024/Week 35]]\n\n"
    );
}

#[test]
fn page_of_a_week() {
    let days = vec!["2024-09-30".to_string(), "2024-10-01".to_string()];
    let page = week_page(
        "pages/w.md",
        "2024/September",
        "2024/Week 41",
        "2024/Week 39",
        &days,
    );
    assert_eq!(page.path(), "pages/w.md");
    assert_eq!(
        page.to_string(),
        "filters:: {\"week\" false, \"month\" false}\nmonth:: [[2024/September]]\nnext:: [[2024/Week 41]]\nprev:: [[2024/Week 39]]\n\n-\n- {{embed [[2024-09-30]]}}\n- {{embed [[2024-10-01]]}}\n"
    );
}

#[test]
fn page_of_a_month() {
    let days = vec!["2024-02-01".to_string()];
    let page = month_page("pages/m.md", "2024/March", "2024/January", &days);
    assert_eq!(
        page.to_string(),
        "filters:: {\"month\" false}\nnext:: [[2024/March]]\nprev:: [[2024/January]]\n\n-\n- {{embed [[2024-02-01]]}}\n"
    );
    let empty = month_page("pages/m.md", "n", "p", &Vec::new());
    assert_eq!(
        empty.to_string(),
        "filters:: {\"month\" false}\nnext:: [[n]]\nprev:: [[p]]\n\n"
    );
}

#[test]
fn computed_page_of_a_day() {
    let page = journal_pages::preparer::page_of_day("journals/2024_09_01.md", ymd(2024, 9, 1));
    assert_eq!(page.path(), "journals/2024_09_01.md");
    assert_eq!(
        page.to_string(),
        "filters:: {\"2024/Week 35\" false, \"2024/September\" false}\nday:: Sunday\nweek:: [[2024/Week 35]]\n\n"
    );
}

#[test]
fn computed_page_of_a_week() {
    let page = journal_pages::preparer::page_of_week("w.md", week_of(2024, 12, 31)).unwrap();
    assert_eq!(
        page.to_string(),
        "filters:: {\"week\" false, \"month\" false}\n\
         month:: [[2024/December]]\n\
         next:: [[2025/Week 02]]\n\
         prev:: [[2024/Week 52]]\n\
         \n\
         -\n\
         - {{embed [[2024-12-30]]}}\n\
         - {{embed [[2024-12-31]]}}\n\
         - {{embed [[2025-01-01]]}}\n\
         - {{embed [[2025-01-02]]}}\n\
         - {{embed [[2025-01-03]]}}\n\
         - {{embed [[2025-01-04]]}}\n\
         - {{embed [[2025-01-05]]}}\n"
    );
    assert_eq!(journal_pages::preparer::page_of_week("w.md", week_of(262142, 12, 31)), None);
}

#[test]
fn computed_page_of_a_month() {
    let page =
        journal_pages::preparer::page_of_month("m.md", Month::new(2023, 2).unwrap()).unwrap();
    let text = page.to_string();
    let lines: Vec<&str> = text.lines().collect();
    assert_eq!(
        &lines[..6],
        &[
            "filters:: {\"month\" false}",
            "next:: [[2023/March]]",
            "prev:: [[2023/January]]",
            "",
            "-",
            "- {{embed [[2023-02-01]]}}",
        ]
    );
    assert_eq!(lines.len(), 5 + 28);
    assert_eq!(lines[32], "- {{embed [[2023-02-28]]}}");
    assert_eq!(
        journal_pages::preparer::page_of_month("m.md", Month::new(-262143, 1).unwrap()),
        None
    );
}

#[test]
fn preparing_twice_changes_nothing() {
    let fresh = journal_pages::preparer::page_of_week("w.md", week_of(2024, 9, 24)).unwrap();
    let written = fresh.to_string();
    let again = fresh.clone().onto_existing(Some(&written)).unwrap();
    assert_eq!(again.to_string(), written);
    let with_notes = format!("{}- my own note\n  with a second line\n", written);
    let kept = fresh.onto_existing(Some(&with_notes)).unwrap();
    assert_eq!(kept.to_string(), with_notes);
}
