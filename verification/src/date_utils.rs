//! Calendar units: days, ISO weeks, months and years, with the step to the
//! unit before and after, and the first and last finer unit of each.
//!
//! The calendar is the proleptic Gregorian one, over the years that `chrono`
//! can hold. Day arithmetic and ISO weeks are `chrono`'s: the calls, and what
//! is taken for granted of each, stand in `crate::naive`.

use crate::naive::{
    iso_week_day, iso_week_of, naive_from_isoywd, naive_from_ymd, naive_iso_week,
    naive_month_name, naive_next_day, naive_next_month, naive_prev_day, naive_prev_month,
    naive_weekday, weekday_of,
};
use vstd::prelude::*;

verus! {

// ----------------------------------------------------------------------------
// The calendar
// ----------------------------------------------------------------------------

/// The first year of the calendar.
pub const MIN_YEAR: i32 = -262143;

/// The last year of the calendar.
pub const MAX_YEAR: i32 = 262142;

/// A year, a month of the year from 1 and a day of the month from 1.
pub struct Date {
    pub year: int,
    pub month: int,
    pub day: int,
}

/// Whether `year` has a 29th of February.
pub open spec fn is_leap_year(year: int) -> bool {
    year % 4 == 0 && (year % 100 != 0 || year % 400 == 0)
}

/// The number of days of month `month` of `year`.
pub open spec fn days_in_month(year: int, month: int) -> int {
    if month == 2 {
        if is_leap_year(year) {
            29
        } else {
            28
        }
    } else if month == 4 || month == 6 || month == 9 || month == 11 {
        30
    } else {
        31
    }
}

/// Whether `d` is a day of the calendar.
pub open spec fn is_date(d: Date) -> bool {
    &&& MIN_YEAR <= d.year <= MAX_YEAR
    &&& 1 <= d.month <= 12
    &&& 1 <= d.day <= days_in_month(d.year, d.month)
}

/// The first day of the calendar.
pub open spec fn min_date() -> Date {
    Date { year: MIN_YEAR as int, month: 1, day: 1 }
}

/// The last day of the calendar.
pub open spec fn max_date() -> Date {
    Date { year: MAX_YEAR as int, month: 12, day: 31 }
}

/// The day after `d`.
pub open spec fn next_day(d: Date) -> Date {
    if d.day < days_in_month(d.year, d.month) {
        Date { year: d.year, month: d.month, day: d.day + 1 }
    } else if d.month < 12 {
        Date { year: d.year, month: d.month + 1, day: 1 }
    } else {
        Date { year: d.year + 1, month: 1, day: 1 }
    }
}

/// The day before `d`.
pub open spec fn prev_day(d: Date) -> Date {
    if d.day > 1 {
        Date { year: d.year, month: d.month, day: d.day - 1 }
    } else if d.month > 1 {
        Date { year: d.year, month: d.month - 1, day: days_in_month(d.year, d.month - 1) }
    } else {
        Date { year: d.year - 1, month: 12, day: 31 }
    }
}

/// The year and month after month `month` of `year`.
pub open spec fn month_after(year: int, month: int) -> (int, int) {
    if month < 12 {
        (year, month + 1)
    } else {
        (year + 1, 1)
    }
}

/// The year and month before month `month` of `year`.
pub open spec fn month_before(year: int, month: int) -> (int, int) {
    if month > 1 {
        (year, month - 1)
    } else {
        (year - 1, 12)
    }
}

/// Day `day` of month `month` of `year`, or the last day of that month where
/// the month is shorter.
pub open spec fn clamped(year: int, month: int, day: int) -> Date {
    Date {
        year,
        month,
        day: if day <= days_in_month(year, month) {
            day
        } else {
            days_in_month(year, month)
        },
    }
}

/// Whether `a` is an earlier day than `b`.
pub open spec fn date_lt(a: Date, b: Date) -> bool {
    ||| a.year < b.year
    ||| a.year == b.year && a.month < b.month
    ||| a.year == b.year && a.month == b.month && a.day < b.day
}

/// A number that grows with the date: for days of the calendar, the earlier
/// day has the smaller number.
pub open spec fn ordinal(d: Date) -> int {
    (d.year * 12 + d.month) * 31 + d.day
}

/// The days from `first` to `last`, both included; `first` alone where `last`
/// is not later.
pub open spec fn days_from(first: Date, last: Date) -> Seq<Date>
    decreases ordinal(last) - ordinal(first),
{
    if is_date(first) && is_date(last) && date_lt(first, last) {
        seq![first] + days_from(next_day(first), last)
    } else {
        seq![first]
    }
}

// ----------------------------------------------------------------------------
// Weeks, months and years of a date
// ----------------------------------------------------------------------------

/// An ISO year and the number of a week in it.
pub struct WeekId {
    pub year: int,
    pub week: int,
}

/// Whether `w` can be the ISO week of a day of the calendar: its ISO year is a
/// year of the calendar or the year before or after them, and its number is
/// one of 1 to 53.
pub open spec fn is_week(w: WeekId) -> bool {
    MIN_YEAR - 1 <= w.year <= MAX_YEAR + 1 && 1 <= w.week <= 53
}

/// The ISO week that holds `d`.
pub open spec fn week_of(d: Date) -> WeekId {
    WeekId {
        year: iso_week_of(d.year, d.month, d.day).0,
        week: iso_week_of(d.year, d.month, d.day).1,
    }
}

/// The day of week `w` with the weekday `weekday`, where the calendar has it.
pub open spec fn day_of_week(w: WeekId, weekday: Weekday) -> Option<Date> {
    match iso_week_day(w.year, w.week, weekday.number()) {
        Some(t) => Some(Date { year: t.0, month: t.1, day: t.2 }),
        None => None,
    }
}

/// The English name of month `month`, counted from 1.
pub open spec fn month_name(month: int) -> Seq<char> {
    if month == 1 {
        "January"@
    } else if month == 2 {
        "February"@
    } else if month == 3 {
        "March"@
    } else if month == 4 {
        "April"@
    } else if month == 5 {
        "May"@
    } else if month == 6 {
        "June"@
    } else if month == 7 {
        "July"@
    } else if month == 8 {
        "August"@
    } else if month == 9 {
        "September"@
    } else if month == 10 {
        "October"@
    } else if month == 11 {
        "November"@
    } else {
        "December"@
    }
}

/// The month that holds `d`.
pub open spec fn month_of(d: Date) -> Month {
    Month { year: d.year as i32, month: d.month as u32 }
}

/// The first day of month `m`.
pub open spec fn first_of_month(m: Month) -> Date {
    Date { year: m.year as int, month: m.month as int, day: 1 }
}

/// The last day of month `m`.
pub open spec fn last_of_month(m: Month) -> Date {
    Date {
        year: m.year as int,
        month: m.month as int,
        day: days_in_month(m.year as int, m.month as int),
    }
}

/// The month after `m`.
pub open spec fn next_month(m: Month) -> Month {
    Month {
        year: month_after(m.year as int, m.month as int).0 as i32,
        month: month_after(m.year as int, m.month as int).1 as u32,
    }
}

/// The month before `m`.
pub open spec fn prev_month(m: Month) -> Month {
    Month {
        year: month_before(m.year as int, m.month as int).0 as i32,
        month: month_before(m.year as int, m.month as int).1 as u32,
    }
}

// ----------------------------------------------------------------------------
// The units
// ----------------------------------------------------------------------------

/// A day of the calendar.
#[derive(Debug, Clone, Copy, PartialEq, Eq, PartialOrd, Ord, Hash, Structural)]
pub struct Day {
    pub(crate) year: i32,
    pub(crate) month: u32,
    pub(crate) day: u32,
}

impl View for Day {
    type V = Date;

    closed spec fn view(&self) -> Date {
        Date { year: self.year as int, month: self.month as int, day: self.day as int }
    }
}

impl Day {
    /// Every `Day` is a day of the calendar.
    #[verifier::type_invariant]
    pub open spec fn is_valid(self) -> bool {
        is_date(self@)
    }
}

/// A day of the week.
#[derive(Debug, Clone, Copy, PartialEq, Eq, Hash, Structural)]
pub enum Weekday {
    Mon,
    Tue,
    Wed,
    Thu,
    Fri,
    Sat,
    Sun,
}

/// An ISO week: a week from Monday to Sunday, counted in the ISO year that holds
/// its Thursday.
#[derive(Debug, Clone, Copy, PartialEq, Eq, PartialOrd, Ord, Hash, Structural)]
pub struct Week {
    pub(crate) year: i32,
    pub(crate) week: u32,
}

impl View for Week {
    type V = WeekId;

    closed spec fn view(&self) -> WeekId {
        WeekId { year: self.year as int, week: self.week as int }
    }
}

impl Week {
    /// Every `Week` has an ISO year and a number that a week of the calendar
    /// can have.
    #[verifier::type_invariant]
    pub open spec fn is_valid(self) -> bool {
        is_week(self@)
    }
}

/// A month of a year.
#[derive(Debug, Clone, Copy, PartialEq, Eq, PartialOrd, Ord, Hash, Structural)]
pub struct Month {
    pub year: i32,
    pub month: u32,
}

/// A year.
#[derive(Debug, Clone, Copy, PartialEq, Eq, PartialOrd, Ord, Hash, Structural)]
pub struct Year(pub i32);

/// A unit that is made of finer ones: its first and its last.
pub trait DateRange {
    type Element;

    /// Whether the calendar has the first element of this unit.
    spec fn has_first(&self) -> bool;

    /// Whether the calendar has the last element of this unit.
    spec fn has_last(&self) -> bool;

    /// Whether `e` is the first element of this unit.
    spec fn is_first(&self, e: Self::Element) -> bool;

    /// Whether `e` is the last element of this unit.
    spec fn is_last(&self, e: Self::Element) -> bool;

    /// The first element of this unit.
    fn first(&self) -> (e: Self::Element)
        requires
            self.has_first(),
        ensures
            self.is_first(e),
    ;

    /// The last element of this unit.
    fn last(&self) -> (e: Self::Element)
        requires
            self.has_last(),
        ensures
            self.is_last(e),
    ;
}

/// A unit with a unit of its kind before and after it.
pub trait Navigation: Sized {
    /// Whether the calendar has the unit after this one.
    spec fn has_next(&self) -> bool;

    /// Whether the calendar has the unit before this one.
    spec fn has_prev(&self) -> bool;

    /// Whether `r` is the unit after this one.
    spec fn is_next(&self, r: Self) -> bool;

    /// Whether `r` is the unit before this one.
    spec fn is_prev(&self, r: Self) -> bool;

    /// The unit after this one.
    fn next(&self) -> (r: Self)
        requires
            self.has_next(),
        ensures
            self.is_next(r),
    ;

    /// The unit before this one.
    fn prev(&self) -> (r: Self)
        requires
            self.has_prev(),
        ensures
            self.is_prev(r),
    ;
}

// ----------------------------------------------------------------------------
// Days
// ----------------------------------------------------------------------------

impl Day {
    /// The day `day` of month `month` of `year`, where the calendar has it.
    pub fn from_ymd_opt(year: i32, month: u32, day: u32) -> (r: Option<Day>)
        ensures
            r is Some <==> is_date(
                Date { year: year as int, month: month as int, day: day as int },
            ),
            r matches Some(d) ==> d@ == (Date {
                year: year as int,
                month: month as int,
                day: day as int,
            }),
    {
        naive_from_ymd(year, month, day)
    }

    /// The year of this day.
    pub fn year(&self) -> (y: i32)
        ensures
            y == self@.year,
            is_date(self@),
    {
        proof {
            use_type_invariant(self);
        }
        self.year
    }

    /// The month of this day, from 1.
    pub fn month(&self) -> (m: u32)
        ensures
            m == self@.month,
            is_date(self@),
    {
        proof {
            use_type_invariant(self);
        }
        self.month
    }

    /// The day of the month, from 1.
    pub fn day(&self) -> (d: u32)
        ensures
            d == self@.day,
            is_date(self@),
    {
        proof {
            use_type_invariant(self);
        }
        self.day
    }

    /// Whether this is the last day of the calendar.
    pub fn is_max(&self) -> (b: bool)
        ensures
            b == (self@ == max_date()),
    {
        self.year == MAX_YEAR && self.month == 12 && self.day == 31
    }

    /// Whether this is the first day of the calendar.
    pub fn is_min(&self) -> (b: bool)
        ensures
            b == (self@ == min_date()),
    {
        self.year == MIN_YEAR && self.month == 1 && self.day == 1
    }

    /// Whether this day is earlier than `other`.
    pub fn is_before(&self, other: &Day) -> (b: bool)
        ensures
            b == date_lt(self@, other@),
    {
        self.year < other.year || (self.year == other.year && self.month < other.month) || (
        self.year == other.year && self.month == other.month && self.day < other.day)
    }

    /// The ISO week that holds this day.
    pub fn iso_week(&self) -> (w: Week)
        ensures
            w@ == week_of(self@),
    {
        proof {
            use_type_invariant(self);
        }
        naive_iso_week(*self)
    }

    /// The day of the week of this day.
    pub fn weekday(&self) -> (w: Weekday)
        ensures
            w.number() == weekday_of(self@.year, self@.month, self@.day),
    {
        proof {
            use_type_invariant(self);
        }
        naive_weekday(*self)
    }
}

impl Navigation for Day {
    open spec fn has_next(&self) -> bool {
        self@ != max_date()
    }

    open spec fn has_prev(&self) -> bool {
        self@ != min_date()
    }

    open spec fn is_next(&self, r: Day) -> bool {
        r@ == next_day(self@)
    }

    open spec fn is_prev(&self, r: Day) -> bool {
        r@ == prev_day(self@)
    }

    fn next(&self) -> (r: Day) {
        proof {
            use_type_invariant(self);
        }
        naive_next_day(*self)
    }

    fn prev(&self) -> (r: Day) {
        proof {
            use_type_invariant(self);
        }
        naive_prev_day(*self)
    }
}

impl Weekday {
    /// The number of days since Monday: 0 for Monday, 6 for Sunday.
    pub open spec fn number(self) -> int {
        match self {
            Weekday::Mon => 0,
            Weekday::Tue => 1,
            Weekday::Wed => 2,
            Weekday::Thu => 3,
            Weekday::Fri => 4,
            Weekday::Sat => 5,
            Weekday::Sun => 6,
        }
    }

    /// The day of the week `number` days after Monday; Sunday for every number
    /// that is none of 0 to 5.
    pub open spec fn from_number(number: int) -> Weekday {
        if number == 0 {
            Weekday::Mon
        } else if number == 1 {
            Weekday::Tue
        } else if number == 2 {
            Weekday::Wed
        } else if number == 3 {
            Weekday::Thu
        } else if number == 4 {
            Weekday::Fri
        } else if number == 5 {
            Weekday::Sat
        } else {
            Weekday::Sun
        }
    }

    /// The English name of the day.
    pub open spec fn name_text(self) -> Seq<char> {
        match self {
            Weekday::Mon => "Monday"@,
            Weekday::Tue => "Tuesday"@,
            Weekday::Wed => "Wednesday"@,
            Weekday::Thu => "Thursday"@,
            Weekday::Fri => "Friday"@,
            Weekday::Sat => "Saturday"@,
            Weekday::Sun => "Sunday"@,
        }
    }

    /// The English name of the day.
    pub fn name(&self) -> (s: &'static str)
        ensures
            s@ == self.name_text(),
    {
        match self {
            Weekday::Mon => "Monday",
            Weekday::Tue => "Tuesday",
            Weekday::Wed => "Wednesday",
            Weekday::Thu => "Thursday",
            Weekday::Fri => "Friday",
            Weekday::Sat => "Saturday",
            Weekday::Sun => "Sunday",
        }
    }
}

/// The dates of the days of `v`, in order.
pub open spec fn dates_of(v: Seq<Day>) -> Seq<Date> {
    Seq::new(v.len(), |i: int| v[i]@)
}

/// The days from `first` to `last`, both included; `first` alone where `last`
/// is not later.
pub fn days_through(first: Day, last: Day) -> (days: Vec<Day>)
    ensures
        dates_of(days@) == days_from(first@, last@),
{
    let mut days: Vec<Day> = Vec::new();
    let mut date = first;
    proof {
        use_type_invariant(first);
        use_type_invariant(last);
        assert(dates_of(days@) =~= Seq::empty());
    }
    loop
        invariant_except_break
            is_date(date@),
            is_date(last@),
            days_from(first@, last@) == dates_of(days@) + days_from(date@, last@),
        ensures
            dates_of(days@) == days_from(first@, last@),
        decreases
            if date_lt(date@, last@) {
                ordinal(last@) - ordinal(date@)
            } else {
                0
            },
    {
        let ghost before = dates_of(days@);
        days.push(date);
        assert(dates_of(days@) =~= before.push(date@));
        if !date.is_before(&last) {
            assert(days_from(date@, last@) =~= seq![date@]);
            assert(dates_of(days@) =~= before + seq![date@]);
            break;
        }
        proof {
            lemma_ordinal(date@, last@);
            lemma_ordinal(next_day(date@), last@);
            lemma_ordinal(date@, next_day(date@));
            assert(dates_of(days@) + days_from(next_day(date@), last@) =~= before + days_from(
                date@,
                last@,
            ));
        }
        date = date.next();
        proof {
            use_type_invariant(date);
        }
    }
    days
}

// ----------------------------------------------------------------------------
// Weeks
// ----------------------------------------------------------------------------

impl Week {
    /// The ISO year of the week.
    pub fn year(&self) -> (y: i32)
        ensures
            y == self@.year,
            is_week(self@),
    {
        proof {
            use_type_invariant(self);
        }
        self.year
    }

    /// The number of the week in its ISO year, from 1.
    pub fn week(&self) -> (w: u32)
        ensures
            w == self@.week,
            is_week(self@),
    {
        proof {
            use_type_invariant(self);
        }
        self.week
    }

    /// The Monday of the week, where the calendar has it.
    pub fn first_opt(&self) -> (r: Option<Day>)
        ensures
            r is Some <==> self.has_first(),
            r matches Some(d) ==> self.is_first(d),
    {
        proof {
            use_type_invariant(self);
        }
        if naive_from_isoywd(self.year, self.week, Weekday::Mon).is_some() {
            Some(self.first())
        } else {
            None
        }
    }

    /// The Sunday of the week, where the calendar has it.
    pub fn last_opt(&self) -> (r: Option<Day>)
        ensures
            r is Some <==> self.has_last(),
            r matches Some(d) ==> self.is_last(d),
    {
        proof {
            use_type_invariant(self);
        }
        if naive_from_isoywd(self.year, self.week, Weekday::Sun).is_some() {
            Some(self.last())
        } else {
            None
        }
    }

    /// The week after this one, where the calendar has this week's Sunday and
    /// the day after it.
    pub fn next_opt(&self) -> (r: Option<Week>)
        ensures
            r is Some <==> self.has_next(),
            r matches Some(w) ==> self.is_next(w),
    {
        proof {
            use_type_invariant(self);
        }
        match naive_from_isoywd(self.year, self.week, Weekday::Sun) {
            Some(last) => if last.is_max() {
                None
            } else {
                Some(self.next())
            },
            None => None,
        }
    }

    /// The week before this one, where the calendar has this week's Monday and
    /// the day before it.
    pub fn prev_opt(&self) -> (r: Option<Week>)
        ensures
            r is Some <==> self.has_prev(),
            r matches Some(w) ==> self.is_prev(w),
    {
        proof {
            use_type_invariant(self);
        }
        match naive_from_isoywd(self.year, self.week, Weekday::Mon) {
            Some(first) => if first.is_min() {
                None
            } else {
                Some(self.prev())
            },
            None => None,
        }
    }

    /// The days of the week, from its Monday to its Sunday, where the calendar
    /// has both.
    pub fn days(&self) -> (r: Option<Vec<Day>>)
        ensures
            r is Some <==> self.has_first() && self.has_last(),
            r matches Some(days) ==> dates_of(days@) == days_from(
                day_of_week(self@, Weekday::Mon)->0,
                day_of_week(self@, Weekday::Sun)->0,
            ),
    {
        match (self.first_opt(), self.last_opt()) {
            (Some(first), Some(last)) => Some(days_through(first, last)),
            _ => None,
        }
    }
}

impl DateRange for Week {
    type Element = Day;

    open spec fn has_first(&self) -> bool {
        day_of_week(self@, Weekday::Mon) is Some
    }

    open spec fn has_last(&self) -> bool {
        day_of_week(self@, Weekday::Sun) is Some
    }

    open spec fn is_first(&self, e: Day) -> bool {
        day_of_week(self@, Weekday::Mon) == Some(e@)
    }

    open spec fn is_last(&self, e: Day) -> bool {
        day_of_week(self@, Weekday::Sun) == Some(e@)
    }

    fn first(&self) -> (e: Day) {
        proof {
            use_type_invariant(self);
        }
        naive_from_isoywd(self.year, self.week, Weekday::Mon).unwrap()
    }

    fn last(&self) -> (e: Day) {
        proof {
            use_type_invariant(self);
        }
        naive_from_isoywd(self.year, self.week, Weekday::Sun).unwrap()
    }
}

impl Navigation for Week {
    open spec fn has_next(&self) -> bool {
        day_of_week(self@, Weekday::Sun) is Some && day_of_week(self@, Weekday::Sun) != Some(
            max_date(),
        )
    }

    open spec fn has_prev(&self) -> bool {
        day_of_week(self@, Weekday::Mon) is Some && day_of_week(self@, Weekday::Mon) != Some(
            min_date(),
        )
    }

    open spec fn is_next(&self, r: Week) -> bool {
        r@ == week_of(next_day(day_of_week(self@, Weekday::Sun)->0))
    }

    open spec fn is_prev(&self, r: Week) -> bool {
        r@ == week_of(prev_day(day_of_week(self@, Weekday::Mon)->0))
    }

    fn next(&self) -> (r: Week) {
        let last = self.last();
        last.next().iso_week()
    }

    fn prev(&self) -> (r: Week) {
        let first = self.first();
        first.prev().iso_week()
    }
}

// ----------------------------------------------------------------------------
// Months
// ----------------------------------------------------------------------------

impl Default for Month {
    /// Year 0 and month 0: no month of the calendar.
    fn default() -> (m: Month)
        ensures
            m == (Month { year: 0, month: 0 }),
    {
        Month { year: 0, month: 0 }
    }
}

impl From<Day> for Month {
    fn from(date: Day) -> (m: Month) {
        Month { year: date.year(), month: date.month() }
    }
}

impl vstd::std_specs::convert::FromSpecImpl<Day> for Month {
    open spec fn obeys_from_spec() -> bool {
        true
    }

    open spec fn from_spec(date: Day) -> Month {
        month_of(date@)
    }
}

impl Month {
    /// Whether this is a month of the calendar.
    pub open spec fn wf(&self) -> bool {
        MIN_YEAR <= self.year <= MAX_YEAR && 1 <= self.month <= 12
    }

    /// The month `month`, from 1, of `year`, where the calendar has it.
    pub fn new(year: i32, month: u32) -> (r: Option<Month>)
        ensures
            r == if (Month { year, month }).wf() {
                Some(Month { year, month })
            } else {
                None
            },
    {
        if MIN_YEAR <= year && year <= MAX_YEAR && 1 <= month && month <= 12 {
            Some(Month { year, month })
        } else {
            None
        }
    }

    /// The English name of the month.
    pub fn name(&self) -> (s: &'static str)
        requires
            1 <= self.month <= 12,
        ensures
            s@ == month_name(self.month as int),
    {
        naive_month_name(self.month as u8)
    }

    /// The year of the month.
    pub fn year(&self) -> (y: Year)
        ensures
            y == Year(self.year),
    {
        Year::from(self.year)
    }

    /// The days of the month, in order.
    pub fn days(&self) -> (days: Vec<Day>)
        requires
            self.wf(),
        ensures
            dates_of(days@) == days_from(first_of_month(*self), last_of_month(*self)),
    {
        days_through(self.first(), self.last())
    }
}

impl DateRange for Month {
    type Element = Day;

    open spec fn has_first(&self) -> bool {
        self.wf()
    }

    open spec fn has_last(&self) -> bool {
        self.wf()
    }

    open spec fn is_first(&self, e: Day) -> bool {
        e@ == first_of_month(*self)
    }

    open spec fn is_last(&self, e: Day) -> bool {
        e@ == last_of_month(*self)
    }

    fn first(&self) -> (e: Day) {
        naive_from_ymd(self.year, self.month, 1).unwrap()
    }

    fn last(&self) -> (e: Day) {
        if self.year == MAX_YEAR && self.month == 12 {
            naive_from_ymd(self.year, 12, 31).unwrap()
        } else {
            let first = self.first();
            let after = naive_next_month(first);
            naive_prev_day(after)
        }
    }
}

impl Navigation for Month {
    open spec fn has_next(&self) -> bool {
        self.wf() && !(self.year == MAX_YEAR && self.month == 12)
    }

    open spec fn has_prev(&self) -> bool {
        self.wf() && !(self.year == MIN_YEAR && self.month == 1)
    }

    open spec fn is_next(&self, r: Month) -> bool {
        r == next_month(*self)
    }

    open spec fn is_prev(&self, r: Month) -> bool {
        r == prev_month(*self)
    }

    fn next(&self) -> (r: Month) {
        Month::from(naive_next_month(self.first()))
    }

    fn prev(&self) -> (r: Month) {
        Month::from(naive_prev_month(self.first()))
    }
}

// ----------------------------------------------------------------------------
// Years
// ----------------------------------------------------------------------------

impl Default for Year {
    fn default() -> (y: Year)
        ensures
            y == Year(0),
    {
        Year(0)
    }
}

impl From<i32> for Year {
    fn from(year: i32) -> (y: Year) {
        Year(year)
    }
}

impl vstd::std_specs::convert::FromSpecImpl<i32> for Year {
    open spec fn obeys_from_spec() -> bool {
        true
    }

    open spec fn from_spec(year: i32) -> Year {
        Year(year)
    }
}

impl DateRange for Year {
    type Element = Month;

    open spec fn has_first(&self) -> bool {
        true
    }

    open spec fn has_last(&self) -> bool {
        true
    }

    open spec fn is_first(&self, e: Month) -> bool {
        e == (Month { year: self.0, month: 1 })
    }

    open spec fn is_last(&self, e: Month) -> bool {
        e == (Month { year: self.0, month: 12 })
    }

    fn first(&self) -> (e: Month) {
        Month { year: self.0, month: 1 }
    }

    fn last(&self) -> (e: Month) {
        Month { year: self.0, month: 12 }
    }
}

impl Navigation for Year {
    open spec fn has_next(&self) -> bool {
        self.0 < i32::MAX
    }

    open spec fn has_prev(&self) -> bool {
        self.0 > i32::MIN
    }

    open spec fn is_next(&self, r: Year) -> bool {
        r.0 == self.0 + 1
    }

    open spec fn is_prev(&self, r: Year) -> bool {
        r.0 == self.0 - 1
    }

    fn next(&self) -> (r: Year) {
        Year(self.0 + 1)
    }

    fn prev(&self) -> (r: Year) {
        Year(self.0 - 1)
    }
}

// ----------------------------------------------------------------------------
// What holds of days and weeks
// ----------------------------------------------------------------------------

/// The next day is a day of the calendar, but after the last.
pub proof fn lemma_next_day_is_date(d: Date)
    requires
        is_date(d),
        d != max_date(),
    ensures
        is_date(next_day(d)),
        date_lt(d, next_day(d)),
{
}

/// The day before is a day of the calendar, but before the first.
pub proof fn lemma_prev_day_is_date(d: Date)
    requires
        is_date(d),
        d != min_date(),
    ensures
        is_date(prev_day(d)),
        date_lt(prev_day(d), d),
{
}

/// Stepping a day forward and back, or back and forward, changes nothing.
pub proof fn lemma_next_prev_day(d: Date)
    requires
        is_date(d),
    ensures
        d != max_date() ==> prev_day(next_day(d)) == d,
        d != min_date() ==> next_day(prev_day(d)) == d,
{
}

/// The month of a day holds the day: the day is neither before the first day
/// of that month nor after its last, and the month is one of the calendar.
pub proof fn lemma_month_holds_day(d: Date)
    requires
        is_date(d),
    ensures
        month_of(d).wf(),
        !date_lt(d, first_of_month(month_of(d))),
        !date_lt(last_of_month(month_of(d)), d),
        is_date(first_of_month(month_of(d))),
        is_date(last_of_month(month_of(d))),
{
}

/// The months after and before a month are a month apart from it: stepping
/// forward and back, or back and forward, changes nothing.
pub proof fn lemma_next_prev_month(m: Month)
    requires
        m.wf(),
    ensures
        m.has_next() ==> next_month(m).wf() && prev_month(next_month(m)) == m,
        m.has_prev() ==> prev_month(m).wf() && next_month(prev_month(m)) == m,
        m.has_next() ==> next_day(last_of_month(m)) == first_of_month(next_month(m)),
{
}

/// `ordinal` orders the days of the calendar as `date_lt` does.
pub proof fn lemma_ordinal(a: Date, b: Date)
    requires
        is_date(a),
        is_date(b),
    ensures
        date_lt(a, b) <==> ordinal(a) < ordinal(b),
        a == b <==> ordinal(a) == ordinal(b),
{
}

/// Two days with the same date are the same day.
pub proof fn lemma_day_by_date(a: Day, b: Day)
    ensures
        a@ == b@ <==> a == b,
{
}

/// Two weeks with the same ISO year and number are the same week.
pub proof fn lemma_week_by_id(a: Week, b: Week)
    ensures
        a@ == b@ <==> a == b,
{
}

} // verus!
