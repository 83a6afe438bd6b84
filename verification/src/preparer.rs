//! What to prepare for a range of days: which pages, in which order, and what
//! each page holds before it meets the file that is there already.
//!
//! A page is computed in two steps. The plan of a unit says which other units
//! its page refers to: `day_plan`, `week_plan`, `month_plan`. The page is then
//! made from the names of the pages of those units: `day_page`, `week_page`,
//! `month_page`. `page_of_day`, `page_of_week` and `page_of_month` do both,
//! with the names that `journal_name` gives.

use crate::date_utils::{
    date_lt, dates_of, day_of_week, days_from, days_through, first_of_month, is_date,
    last_of_month, lemma_ordinal, lemma_week_by_id, max_date, month_of, next_day, next_month,
    ordinal, prev_day, prev_month, week_of, Date, DateRange, Day, Month, Navigation, Week, WeekId,
    Weekday, Year, MAX_YEAR, MIN_YEAR,
};
use crate::journal_name::{day_page_name, month_page_name, week_page_name, JournalName};
use crate::merge_laws::unique_keys;
use crate::metadata::{
    embed_text, filters_key, filters_text, link_text, Entry, Filters, Link, Metadata,
};
use crate::naive::weekday_of;
use crate::page::{bullet_marker, Document, Page, PageView};
use vstd::prelude::*;

verus! {

/// A calendar unit that has a page.
#[derive(Debug, Clone, Copy, PartialEq, Eq, Hash)]
pub enum Unit {
    Day(Day),
    Week(Week),
    Month(Month),
    Year(Year),
}

/// What a unit is: the kind and the date, ISO week, month or year it stands for.
pub enum UnitId {
    Day(Date),
    Week(WeekId),
    Month(Month),
    Year(Year),
}

impl View for Unit {
    type V = UnitId;

    open spec fn view(&self) -> UnitId {
        match self {
            Unit::Day(d) => UnitId::Day(d@),
            Unit::Week(w) => UnitId::Week(w@),
            Unit::Month(m) => UnitId::Month(*m),
            Unit::Year(y) => UnitId::Year(*y),
        }
    }
}

/// What the units of `v` are, in order.
pub open spec fn unit_ids(v: Seq<Unit>) -> Seq<UnitId> {
    Seq::new(v.len(), |i: int| v[i]@)
}

/// The year that holds `d`.
pub open spec fn year_of(d: Date) -> Year {
    Year(d.year as i32)
}

/// The pages of the day a run starts with: the day, then its week, its month
/// and its year.
pub open spec fn units_at_start(d: Date) -> Seq<UnitId> {
    seq![
        UnitId::Day(d),
        UnitId::Week(week_of(d)),
        UnitId::Month(month_of(d)),
        UnitId::Year(year_of(d)),
    ]
}

/// The pages of the step from `prev` to the next day `d`: the day `d`, then its
/// week, its year and its month, each only where it is not that of `prev`.
pub open spec fn units_of_step(prev: Date, d: Date) -> Seq<UnitId> {
    seq![UnitId::Day(d)] + (if week_of(d) != week_of(prev) {
        seq![UnitId::Week(week_of(d))]
    } else {
        Seq::empty()
    }) + (if year_of(d) != year_of(prev) {
        seq![UnitId::Year(year_of(d))]
    } else {
        Seq::empty()
    }) + (if month_of(d) != month_of(prev) {
        seq![UnitId::Month(month_of(d))]
    } else {
        Seq::empty()
    })
}

/// The pages of the days after `prev`: the step to the next day is always
/// made, and another follows as long as the day reached is earlier than `to`.
pub open spec fn units_after(prev: Date, to: Date) -> Seq<UnitId>
    decreases ordinal(to) - ordinal(prev),
{
    let d = next_day(prev);
    if is_date(prev) && prev != max_date() && is_date(to) && date_lt(d, to) {
        units_of_step(prev, d) + units_after(d, to)
    } else {
        units_of_step(prev, d)
    }
}

/// The pages of a run from `from` to `to`, in the order in which they are
/// prepared. The days run from `from` to `to`, both included, and to the day
/// after `from` where `to` is not later than that.
pub open spec fn plan(from: Date, to: Date) -> Seq<UnitId> {
    units_at_start(from) + units_after(from, to)
}

/// A run over the days from `from` to `to`.
#[derive(Debug, Clone, Copy, PartialEq, Eq)]
pub struct Preparer {
    pub from: Day,
    pub to: Day,
}

impl Preparer {
    /// The pages to prepare, in order.
    ///
    /// The day after `from` is always part of the run, so `from` is not the
    /// last day of the calendar.
    pub fn run(&self) -> (units: Vec<Unit>)
        requires
            self.from@ != max_date(),
        ensures
            unit_ids(units@) == plan(self.from@, self.to@),
    {
        let mut date = self.from;
        let mut year = Year::from(date.year());
        let mut month = Month::from(date);
        let mut week = date.iso_week();
        let mut units: Vec<Unit> = Vec::new();
        units.push(Unit::Day(date));
        units.push(Unit::Week(week));
        units.push(Unit::Month(month));
        units.push(Unit::Year(year));
        proof {
            use_type_invariant(self.to);
            assert(unit_ids(units@) =~= units_at_start(self.from@));
        }
        loop
            invariant_except_break
                is_date(date@),
                is_date(self.to@),
                date@ != max_date(),
                week@ == week_of(date@),
                month == month_of(date@),
                year == year_of(date@),
                plan(self.from@, self.to@) == unit_ids(units@) + units_after(date@, self.to@),
            ensures
                unit_ids(units@) == plan(self.from@, self.to@),
            decreases
                if date_lt(date@, self.to@) {
                    ordinal(self.to@) - ordinal(date@)
                } else {
                    0
                },
        {
            let ghost prev = date@;
            let ghost before = unit_ids(units@);
            date = date.next();
            units.push(Unit::Day(date));
            let ghost mut step = seq![UnitId::Day(date@)];
            proof {
                use_type_invariant(date);
                assert(unit_ids(units@) =~= before + step);
            }
            let new_week = date.iso_week();
            proof {
                lemma_week_by_id(week, new_week);
            }
            if week != new_week {
                units.push(Unit::Week(new_week));
                week = new_week;
                proof {
                    step = step + seq![UnitId::Week(new_week@)];
                    assert(unit_ids(units@) =~= before + step);
                }
            }
            let new_year = Year::from(date.year());
            if year != new_year {
                units.push(Unit::Year(new_year));
                year = new_year;
                proof {
                    step = step + seq![UnitId::Year(new_year)];
                    assert(unit_ids(units@) =~= before + step);
                }
            }
            let new_month = Month::from(date);
            if month != new_month {
                units.push(Unit::Month(new_month));
                month = new_month;
                proof {
                    step = step + seq![UnitId::Month(new_month)];
                    assert(unit_ids(units@) =~= before + step);
                }
            }
            proof {
                assert(step =~= units_of_step(prev, date@));
                lemma_ordinal(prev, date@);
                lemma_ordinal(prev, self.to@);
                lemma_ordinal(date@, self.to@);
            }
            if !date.is_before(&self.to) {
                proof {
                    assert(units_after(prev, self.to@) =~= units_of_step(prev, date@));
                }
                break;
            }
            proof {
                assert(units_after(prev, self.to@) =~= units_of_step(prev, date@) + units_after(
                    date@,
                    self.to@,
                ));
                assert(unit_ids(units@) + units_after(date@, self.to@) =~= before + units_after(
                    prev,
                    self.to@,
                ));
            }
        }
        units
    }
}

/// What the page of a day is made from.
#[derive(Debug, Clone, Copy, PartialEq, Eq)]
pub struct DayPlan {
    pub weekday: Weekday,
    pub week: Week,
    pub month: Month,
}

/// What the page of a week is made from.
#[derive(Debug, Clone, PartialEq, Eq)]
pub struct WeekPlan {
    /// The month that holds the week's Monday.
    pub month: Month,
    pub next: Week,
    pub prev: Week,
    /// The days of the week, from Monday to Sunday.
    pub days: Vec<Day>,
}

/// What the page of a month is made from.
#[derive(Debug, Clone, PartialEq, Eq)]
pub struct MonthPlan {
    pub next: Month,
    pub prev: Month,
    /// The days of the month, in order.
    pub days: Vec<Day>,
}

/// What the page of `day` is made from: its weekday, its week and its month.
pub fn day_plan(day: Day) -> (p: DayPlan)
    ensures
        p.weekday.number() == weekday_of(day@.year, day@.month, day@.day),
        p.week@ == week_of(day@),
        p.month == month_of(day@),
{
    DayPlan { weekday: day.weekday(), week: day.iso_week(), month: Month::from(day) }
}

/// What the page of `week` is made from: the month of its Monday, the weeks
/// after and before it, and its days. `None` where the calendar lacks the day
/// before its Monday or the day after its Sunday.
pub fn week_plan(week: Week) -> (r: Option<WeekPlan>)
    ensures
        r is Some <==> week.has_prev() && week.has_next(),
        r matches Some(p) ==> {
            &&& p.month == month_of(day_of_week(week@, Weekday::Mon)->0)
            &&& week.is_next(p.next)
            &&& week.is_prev(p.prev)
            &&& dates_of(p.days@) == days_from(
                day_of_week(week@, Weekday::Mon)->0,
                day_of_week(week@, Weekday::Sun)->0,
            )
        },
{
    let prev = match week.prev_opt() {
        Some(w) => w,
        None => {
            return None;
        },
    };
    let next = match week.next_opt() {
        Some(w) => w,
        None => {
            return None;
        },
    };
    let first = week.first();
    let last = week.last();
    Some(
        WeekPlan {
            month: Month::from(first),
            next,
            prev,
            days: days_through(first, last),
        },
    )
}

/// What the page of `month` is made from: the months after and before it, and
/// its days. `None` for the first and for the last month of the calendar.
pub fn month_plan(month: Month) -> (r: Option<MonthPlan>)
    requires
        month.wf(),
    ensures
        r is Some <==> month.has_prev() && month.has_next(),
        r matches Some(p) ==> {
            &&& month.is_next(p.next)
            &&& month.is_prev(p.prev)
            &&& dates_of(p.days@) == days_from(
                first_of_month(month),
                last_of_month(month),
            )
        },
{
    if (month.year == MAX_YEAR && month.month == 12) || (month.year
        == MIN_YEAR && month.month == 1) {
        None
    } else {
        Some(MonthPlan { next: month.next(), prev: month.prev(), days: month.days() })
    }
}

/// One outline entry for each name: the bullet marker, then the embedding of
/// the page of that name.
pub open spec fn embedded_entries(names: Seq<Seq<char>>) -> Seq<Seq<char>> {
    Seq::new(names.len(), |i: int| bullet_marker() + embed_text(names[i]))
}

/// The views of the strings of `v`, in order.
pub open spec fn names_of(v: Seq<String>) -> Seq<Seq<char>> {
    Seq::new(v.len(), |i: int| v[i]@)
}

/// The entry `key` whose value is the link to the page called `name`.
pub open spec fn link_entry(key: Seq<char>, name: Seq<char>) -> Entry {
    Entry { key, value: link_text(name) }
}

/// The entry that holds the given filters.
pub open spec fn filters_entry(filters: Seq<(Seq<char>, bool)>) -> Entry {
    Entry { key: filters_key(), value: filters_text(filters) }
}

/// The page of a day as computed: filters that hide the pages of its week and
/// its month, the name of its weekday, and a link to its week. No outline.
pub open spec fn day_document(week_name: Seq<char>, month_name: Seq<char>, weekday: Weekday) -> Document {
    Document {
        metadata: seq![
            filters_entry(seq![(week_name, false), (month_name, false)]),
            Entry { key: "day"@, value: weekday.name_text() },
            link_entry("week"@, week_name),
        ],
        outline: Seq::empty(),
    }
}

/// The page of a week as computed: filters, links to its month and to the weeks
/// after and before it, and its days embedded.
pub open spec fn week_document(
    month_name: Seq<char>,
    next_name: Seq<char>,
    prev_name: Seq<char>,
    day_names: Seq<Seq<char>>,
) -> Document {
    Document {
        metadata: seq![
            filters_entry(seq![("week"@, false), ("month"@, false)]),
            link_entry("month"@, month_name),
            link_entry("next"@, next_name),
            link_entry("prev"@, prev_name),
        ],
        outline: embedded_entries(day_names),
    }
}

/// The page of a month as computed: a filter, links to the months after and
/// before it, and its days embedded.
pub open spec fn month_document(
    next_name: Seq<char>,
    prev_name: Seq<char>,
    day_names: Seq<Seq<char>>,
) -> Document {
    Document {
        metadata: seq![
            filters_entry(seq![("month"@, false)]),
            link_entry("next"@, next_name),
            link_entry("prev"@, prev_name),
        ],
        outline: embedded_entries(day_names),
    }
}

/// Adds to `page` one outline entry for each name: the embedding of the page of
/// that name.
fn push_embedded(page: &mut Page, names: &Vec<String>)
    ensures
        final(page)@.path == old(page)@.path,
        final(page)@.content.metadata == old(page)@.content.metadata,
        final(page)@.content.outline == old(page)@.content.outline + embedded_entries(
            names_of(names@),
        ),
{
    let mut i: usize = 0;
    assert(embedded_entries(names_of(names@).take(0)) =~= Seq::empty());
    assert(old(page)@.content.outline + Seq::<Seq<char>>::empty() =~= old(page)@.content.outline);
    while i < names.len()
        invariant
            i <= names.len(),
            page@.path == old(page)@.path,
            page@.content.metadata == old(page)@.content.metadata,
            page@.content.outline == old(page)@.content.outline + embedded_entries(
                names_of(names@).take(i as int),
            ),
        decreases names.len() - i,
    {
        let ghost before = page@.content.outline;
        let embedded = Link::new(names[i].as_str()).into_embedded();
        let text = embedded.to_string();
        page.push_content(text.as_str());
        proof {
            let upto = names_of(names@).take(i + 1);
            assert(embedded_entries(upto) =~= embedded_entries(
                names_of(names@).take(i as int),
            ).push(bullet_marker() + embed_text(names@[i as int]@)));
        }
        i += 1;
    }
    assert(names_of(names@).take(names.len() as int) =~= names_of(names@));
}

/// The page of a day at `path`, as computed from the names of the pages of its
/// week and its month and from its weekday.
pub fn day_page(path: &str, week_name: &str, month_name: &str, weekday: Weekday) -> (p: Page)
    ensures
        p@ == (PageView {
            path: path@,
            content: day_document(week_name@, month_name@, weekday),
        }),
{
    let mut page = Page::new(path);
    let filters = Filters::new().push(week_name, false).push(month_name, false);
    assert(filters@ =~= seq![(week_name@, false), (month_name@, false)]);
    page.push_metadata(filters.to_metadata());
    page.push_metadata(Metadata::new("day", weekday.name()));
    page.push_metadata(Link::new(week_name).to_metadata("week"));
    assert(page@.content.metadata =~= day_document(week_name@, month_name@, weekday).metadata);
    page
}

/// The page of a week at `path`, as computed from the names of the pages of
/// its month, of the weeks after and before it, and of its days.
pub fn week_page(
    path: &str,
    month_name: &str,
    next_name: &str,
    prev_name: &str,
    day_names: &Vec<String>,
) -> (p: Page)
    ensures
        p@ == (PageView {
            path: path@,
            content: week_document(month_name@, next_name@, prev_name@, names_of(day_names@)),
        }),
{
    let mut page = Page::new(path);
    let filters = Filters::new().push("week", false).push("month", false);
    assert(filters@ =~= seq![("week"@, false), ("month"@, false)]);
    page.push_metadata(filters.to_metadata());
    page.push_metadata(Link::new(month_name).to_metadata("month"));
    page.push_metadata(Link::new(next_name).to_metadata("next"));
    page.push_metadata(Link::new(prev_name).to_metadata("prev"));
    push_embedded(&mut page, day_names);
    proof {
        let d = week_document(month_name@, next_name@, prev_name@, names_of(day_names@));
        assert(page@.content.metadata =~= d.metadata);
        assert(page@.content.outline =~= d.outline);
    }
    page
}

/// The page of a month at `path`, as computed from the names of the pages of
/// the months after and before it and of its days.
pub fn month_page(path: &str, next_name: &str, prev_name: &str, day_names: &Vec<String>) -> (p:
    Page)
    ensures
        p@ == (PageView {
            path: path@,
            content: month_document(next_name@, prev_name@, names_of(day_names@)),
        }),
{
    let mut page = Page::new(path);
    let filters = Filters::new().push("month", false);
    assert(filters@ =~= seq![("month"@, false)]);
    page.push_metadata(filters.to_metadata());
    page.push_metadata(Link::new(next_name).to_metadata("next"));
    page.push_metadata(Link::new(prev_name).to_metadata("prev"));
    push_embedded(&mut page, day_names);
    proof {
        let d = month_document(next_name@, prev_name@, names_of(day_names@));
        assert(page@.content.metadata =~= d.metadata);
        assert(page@.content.outline =~= d.outline);
    }
    page
}

/// The names of the pages of the given days, in order.
pub open spec fn day_names(days: Seq<Date>) -> Seq<Seq<char>> {
    Seq::new(days.len(), |i: int| day_page_name(days[i]))
}

/// The names of the pages of the given days, in order.
fn names_of_days(days: &Vec<Day>) -> (names: Vec<String>)
    ensures
        names_of(names@) == day_names(dates_of(days@)),
{
    let mut names: Vec<String> = Vec::new();
    let mut i: usize = 0;
    while i < days.len()
        invariant
            i <= days.len(),
            names.len() == i,
            forall|k: int| 0 <= k < i ==> (#[trigger] names@[k])@ == day_page_name(days@[k]@),
        decreases days.len() - i,
    {
        names.push(days[i].to_journal_name());
        i += 1;
    }
    assert(names_of(names@) =~= day_names(dates_of(days@)));
    names
}

/// The page of `day` at `path`, as computed: filters that hide the pages of its
/// week and its month, the name of its weekday, and a link to its week.
pub fn page_of_day(path: &str, day: Day) -> (p: Page)
    ensures
        p@ == (PageView {
            path: path@,
            content: day_document(
                week_page_name(week_of(day@)),
                month_page_name(month_of(day@)),
                Weekday::from_number(weekday_of(day@.year, day@.month, day@.day)),
            ),
        }),
{
    let plan = day_plan(day);
    proof {
        use_type_invariant(day);
    }
    day_page(
        path,
        plan.week.to_journal_name().as_str(),
        plan.month.to_journal_name().as_str(),
        plan.weekday,
    )
}

/// The page of `week` at `path`, as computed: filters, links to the month of
/// its Monday and to the weeks after and before it, and its days embedded.
/// `None` where the calendar lacks the day before its Monday or the day after
/// its Sunday.
pub fn page_of_week(path: &str, week: Week) -> (r: Option<Page>)
    ensures
        r is Some <==> week.has_prev() && week.has_next(),
        r matches Some(p) ==> p@ == (PageView {
            path: path@,
            content: week_document(
                month_page_name(month_of(day_of_week(week@, Weekday::Mon)->0)),
                week_page_name(week_of(next_day(day_of_week(week@, Weekday::Sun)->0))),
                week_page_name(week_of(prev_day(day_of_week(week@, Weekday::Mon)->0))),
                day_names(
                    days_from(
                        day_of_week(week@, Weekday::Mon)->0,
                        day_of_week(week@, Weekday::Sun)->0,
                    ),
                ),
            ),
        }),
{
    match week_plan(week) {
        Some(plan) => {
            let first = week.first();
            proof {
                use_type_invariant(first);
            }
            let days = names_of_days(&plan.days);
            Some(
                week_page(
                    path,
                    plan.month.to_journal_name().as_str(),
                    plan.next.to_journal_name().as_str(),
                    plan.prev.to_journal_name().as_str(),
                    &days,
                ),
            )
        },
        None => None,
    }
}

/// The page of `month` at `path`, as computed: a filter, links to the months
/// after and before it, and its days embedded. `None` for the first and for
/// the last month of the calendar.
pub fn page_of_month(path: &str, month: Month) -> (r: Option<Page>)
    requires
        month.wf(),
    ensures
        r is Some <==> month.has_prev() && month.has_next(),
        r matches Some(p) ==> p@ == (PageView {
            path: path@,
            content: month_document(
                month_page_name(next_month(month)),
                month_page_name(prev_month(month)),
                day_names(days_from(first_of_month(month), last_of_month(month))),
            ),
        }),
{
    match month_plan(month) {
        Some(plan) => {
            let days = names_of_days(&plan.days);
            Some(
                month_page(
                    path,
                    plan.next.to_journal_name().as_str(),
                    plan.prev.to_journal_name().as_str(),
                    &days,
                ),
            )
        },
        None => None,
    }
}

/// No two metadata entries of a computed page have the same key, so that
/// combining the page with itself, or with what was written of it, changes
/// nothing.
pub proof fn lemma_computed_keys_differ(
    week_name: Seq<char>,
    month_name: Seq<char>,
    next_name: Seq<char>,
    prev_name: Seq<char>,
    day_names: Seq<Seq<char>>,
    weekday: Weekday,
)
    ensures
        unique_keys(day_document(week_name, month_name, weekday).metadata),
        unique_keys(week_document(month_name, next_name, prev_name, day_names).metadata),
        unique_keys(month_document(next_name, prev_name, day_names).metadata),
{
    reveal_strlit("day");
    reveal_strlit("week");
    reveal_strlit("month");
    reveal_strlit("next");
    reveal_strlit("prev");
    assert(filters_key().len() == 7);
    assert("week"@[0] == 'w' && "next"@[0] == 'n' && "prev"@[0] == 'p');
}

} // verus!
