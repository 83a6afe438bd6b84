use journal_pages::date_utils::{Day, Month, Year};
use journal_pages::journal_name::{file_name_of, to_link, JournalName};
use journal_pages::metadata::Link;
use journal_pages::text::format_number;

fn ymd(year: i32, month: u32, day: u32) -> Day {
    Day::from_ymd_opt(year, month, day).unwrap()
}

#[test]
fn numbers_as_text() {
    assert_eq!(format_number(2024, 4), "2024");
    assert_eq!(format_number(7, 4), "0007");
    assert_eq!(format_number(0, 4), "0000");
    assert_eq!(format_number(0, 0), "0");
    assert_eq!(format_number(12345, 4), "12345");
    assert_eq!(format_number(-5, 4), "-005");
    assert_eq!(format_number(-12345, 4), "-12345");
    assert_eq!(format_number(-1, 1), "-1");
    assert_eq!(format_number(9, 2), "09");
    assert_eq!(format_number(10, 2), "10");
    assert_eq!(format_number(i64::MAX, 1), "9223372036854775807");
    assert_eq!(format_number(i64::MIN, 1), "-9223372036854775808");
}

#[test]
fn numbers_as_std_writes_them() {
    for value in [0i64, 1, 9, 10, 99, 100, 999, 1000, 9999, 10000, -1, -9, -10, -999, -1000, -262143, 262142] {
        assert_eq!(format_number(value, 4), format!("{:04}", value));
        assert_eq!(format_number(value, 2), format!("{:02}", value));
        assert_eq!(format_number(value, 0), format!("{}", value));
    }
}

#[test]
fn year_as_text() {
    assert_eq!(Year(2024).to_string(), "2024");
    assert_eq!(Year(33).to_string(), "0033");
    assert_eq!(Year(-44).to_string(), "-044");
    assert_eq!(Year(i32::MIN).to_string(), "-2147483648");
    assert_eq!(Year(2024).to_journal_name(), "2024");
    assert_eq!(Year(2024).to_journal_path_name(), "2024.md");
}

#[test]
fn month_names() {
    let month = Month::new(2024, 9).unwrap();
    assert_eq!(month.to_journal_name(), "2024/September");
    assert_eq!(month.to_journal_path_name(), "2024___September.md");
    assert_eq!(Month::new(987, 5).unwrap().to_journal_name(), "0987/May");
}

#[test]
fn week_names() {
    let week = ymd(2024, 12, 31).iso_week();
    assert_eq!(week.to_journal_name(), "2025/Week 01");
    assert_eq!(week.to_journal_path_name(), "2025___Week 01.md");
    assert_eq!(ymd(2024, 9, 24).iso_week().to_journal_name(), "2024/Week 39");
}

#[test]
fn day_names() {
    let day = ymd(2024, 9, 1);
    assert_eq!(day.to_journal_name(), "2024-09-01");
    assert_eq!(day.to_journal_path_name(), "2024_09_01.md");
    assert_eq!(ymd(2024, 12, 31).to_journal_name(), "2024-12-31");
    assert_eq!(ymd(-1, 1, 2).to_journal_name(), "-001-01-02");
}

#[test]
fn file_names() {
    assert_eq!(file_name_of(""), ".md");
    assert_eq!(file_name_of("a"), "a.md");
    assert_eq!(file_name_of("a/b/c"), "a___b___c.md");
    assert_eq!(file_name_of("/"), "___.md");
    assert_eq!(file_name_of("a_b"), "a_b.md");
}

#[test]
fn links_to_units() {
    assert_eq!(to_link(&Month::new(2024, 9).unwrap()), Link::new("2024/September"));
    assert_eq!(to_link(&ymd(2024, 9, 1)).to_string(), "[[2024-09-01]]");
    assert_eq!(
        to_link(&Year(2024)).into_embedded().to_string(),
        "{{embed [[2024]]}}"
    );
}
