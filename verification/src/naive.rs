//! The calls into `chrono`, and what this library takes for granted of them.
//!
//! Nothing here is proved. Each function is one call of `chrono`, with what
//! turns a `Day` into a `NaiveDate` and back around it, and its contract
//! states what the documentation and the source of `chrono` say of that call.
//! Where the result is the outcome of `chrono`'s ISO week arithmetic, the
//! contract gives it a name and says no more.

use crate::date_utils::{
    clamped, is_date, max_date, min_date, month_after, month_before, month_name, next_day,
    prev_day, Date, Day, Week, Weekday, MAX_YEAR, MIN_YEAR,
};
use chrono::{Datelike, Days, Months, NaiveDate};
use vstd::prelude::*;

verus! {

/// The ISO week that holds the given day, as ISO year and week number: what
/// `chrono`'s `Datelike::iso_week` returns for the `NaiveDate` of that day.
pub uninterp spec fn iso_week_of(year: int, month: int, day: int) -> (int, int);

/// The day with the given weekday (0 for Monday to 6 for Sunday) in the given
/// ISO week, as year, month and day: what `chrono`'s `NaiveDate::from_isoywd_opt`
/// returns; `None` where it returns none.
pub uninterp spec fn iso_week_day(year: int, week: int, weekday: int) -> Option<(int, int, int)>;

/// The weekday of the given day, as the number of days since Monday: what
/// `chrono`'s `Datelike::weekday` returns for the `NaiveDate` of that day.
pub uninterp spec fn weekday_of(year: int, month: int, day: int) -> int;

/// Trusted: `chrono::NaiveDate::from_ymd_opt`, which returns a date exactly
/// where the day exists in the calendar and the year is one that `NaiveDate`
/// can hold, and whose date has the year, month and day it was given.
#[verifier::external_body]
pub(crate) fn naive_from_ymd(year: i32, month: u32, day: u32) -> (r: Option<Day>)
    ensures
        r is Some <==> is_date(Date { year: year as int, month: month as int, day: day as int }),
        r matches Some(d) ==> d@ == (Date {
            year: year as int,
            month: month as int,
            day: day as int,
        }),
{
    match NaiveDate::from_ymd_opt(year, month, day) {
        Some(n) => Some(Day { year: n.year(), month: n.month(), day: n.day() }),
        None => None,
    }
}

/// Trusted: `NaiveDate + Days::new(1)` of `chrono`, the day after a date. It
/// panics where the result is out of range, which `requires` leaves out.
#[verifier::external_body]
pub(crate) fn naive_next_day(d: Day) -> (r: Day)
    requires
        is_date(d@),
        d@ != max_date(),
    ensures
        r@ == next_day(d@),
{
    let n = NaiveDate::from_ymd_opt(d.year, d.month, d.day).unwrap() + Days::new(1);
    Day { year: n.year(), month: n.month(), day: n.day() }
}

/// Trusted: `NaiveDate - Days::new(1)` of `chrono`, the day before a date. It
/// panics where the result is out of range, which `requires` leaves out.
#[verifier::external_body]
pub(crate) fn naive_prev_day(d: Day) -> (r: Day)
    requires
        is_date(d@),
        d@ != min_date(),
    ensures
        r@ == prev_day(d@),
{
    let n = NaiveDate::from_ymd_opt(d.year, d.month, d.day).unwrap() - Days::new(1);
    Day { year: n.year(), month: n.month(), day: n.day() }
}

/// Trusted: `NaiveDate + Months::new(1)` of `chrono`: the same day of the next
/// month, or that month's last day where it is shorter. It panics where the
/// result is out of range, which `requires` leaves out.
#[verifier::external_body]
pub(crate) fn naive_next_month(d: Day) -> (r: Day)
    requires
        is_date(d@),
        month_after(d@.year, d@.month).0 <= MAX_YEAR,
    ensures
        r@ == clamped(
            month_after(d@.year, d@.month).0,
            month_after(d@.year, d@.month).1,
            d@.day,
        ),
{
    let n = NaiveDate::from_ymd_opt(d.year, d.month, d.day).unwrap() + Months::new(1);
    Day { year: n.year(), month: n.month(), day: n.day() }
}

/// Trusted: `NaiveDate - Months::new(1)` of `chrono`: the same day of the
/// month before, or that month's last day where it is shorter. It panics where
/// the result is out of range, which `requires` leaves out.
#[verifier::external_body]
pub(crate) fn naive_prev_month(d: Day) -> (r: Day)
    requires
        is_date(d@),
        month_before(d@.year, d@.month).0 >= MIN_YEAR,
    ensures
        r@ == clamped(
            month_before(d@.year, d@.month).0,
            month_before(d@.year, d@.month).1,
            d@.day,
        ),
{
    let n = NaiveDate::from_ymd_opt(d.year, d.month, d.day).unwrap() - Months::new(1);
    Day { year: n.year(), month: n.month(), day: n.day() }
}

/// Trusted: `chrono`'s `Datelike::iso_week` on a `NaiveDate`, with `IsoWeek::year`
/// and `IsoWeek::week` to read the result. The contract gives the result its
/// name. It claims besides that the ISO year is the year of the date or the
/// one before or after it, and the number one of 1 to 53.
#[verifier::external_body]
pub(crate) fn naive_iso_week(d: Day) -> (w: Week)
    requires
        is_date(d@),
    ensures
        (w@.year, w@.week) == iso_week_of(d@.year, d@.month, d@.day),
        d@.year - 1 <= w@.year <= d@.year + 1,
        1 <= w@.week <= 53,
{
    let n = NaiveDate::from_ymd_opt(d.year, d.month, d.day).unwrap().iso_week();
    Week { year: n.year(), week: n.week() }
}

/// Trusted: `chrono`'s `NaiveDate::from_isoywd_opt`. The contract gives the
/// result its name; a date that comes back is a day of the calendar, as every
/// `NaiveDate` is. The function looks at the years before and after `year`, so
/// `requires` leaves out the two years that have none.
#[verifier::external_body]
pub(crate) fn naive_from_isoywd(year: i32, week: u32, weekday: Weekday) -> (r: Option<Day>)
    requires
        i32::MIN < year < i32::MAX,
    ensures
        match r {
            Some(d) => is_date(d@) && iso_week_day(year as int, week as int, weekday.number())
                == Some((d@.year, d@.month, d@.day)),
            None => iso_week_day(year as int, week as int, weekday.number()) is None,
        },
{
    let wd = match weekday {
        Weekday::Mon => chrono::Weekday::Mon,
        Weekday::Tue => chrono::Weekday::Tue,
        Weekday::Wed => chrono::Weekday::Wed,
        Weekday::Thu => chrono::Weekday::Thu,
        Weekday::Fri => chrono::Weekday::Fri,
        Weekday::Sat => chrono::Weekday::Sat,
        Weekday::Sun => chrono::Weekday::Sun,
    };
    match NaiveDate::from_isoywd_opt(year, week, wd) {
        Some(n) => Some(Day { year: n.year(), month: n.month(), day: n.day() }),
        None => None,
    }
}

/// Trusted: `chrono`'s `Datelike::weekday` on a `NaiveDate`. The contract gives
/// the result its name and claims nothing else of it.
#[verifier::external_body]
pub(crate) fn naive_weekday(d: Day) -> (w: Weekday)
    requires
        is_date(d@),
    ensures
        w.number() == weekday_of(d@.year, d@.month, d@.day),
{
    match NaiveDate::from_ymd_opt(d.year, d.month, d.day).unwrap().weekday() {
        chrono::Weekday::Mon => Weekday::Mon,
        chrono::Weekday::Tue => Weekday::Tue,
        chrono::Weekday::Wed => Weekday::Wed,
        chrono::Weekday::Thu => Weekday::Thu,
        chrono::Weekday::Fri => Weekday::Fri,
        chrono::Weekday::Sat => Weekday::Sat,
        chrono::Weekday::Sun => Weekday::Sun,
    }
}

/// Trusted: `chrono::Month::try_from(u8)`, which takes 1 to 12, and
/// `chrono::Month::name`, the English name of the month.
#[verifier::external_body]
pub(crate) fn naive_month_name(month: u8) -> (s: &'static str)
    requires
        1 <= month <= 12,
    ensures
        s@ == month_name(month as int),
{
    chrono::Month::try_from(month).unwrap().name()
}

} // verus!
