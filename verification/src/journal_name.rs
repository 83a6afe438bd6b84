//! The names of the pages of calendar units, and of the files that hold them.
//!
//! A year is called by its number in at least four digits, a month by its year
//! and its English name, a week by its ISO year and its number, a day by year,
//! month and day. The levels of a name are parted by a slash; in the name of
//! the file three underscores stand for each slash.

use crate::date_utils::{month_name, Date, Day, Month, Week, WeekId, Year};
use crate::metadata::Link;
use crate::text::{chars_of, format_number, number_text, push_char};
use vstd::prelude::*;
use vstd::string::StringExecFns;

verus! {

/// The name of the page of year `year`.
pub open spec fn year_name(year: int) -> Seq<char> {
    number_text(year, 4)
}

/// The name of the page of month `m`: `2024/September`.
pub open spec fn month_page_name(m: Month) -> Seq<char> {
    year_name(m.year as int) + seq!['/'] + month_name(m.month as int)
}

/// The name of the page of week `w`: `2024/Week 39`.
pub open spec fn week_page_name(w: WeekId) -> Seq<char> {
    year_name(w.year) + seq!['/', 'W', 'e', 'e', 'k', ' '] + number_text(w.week, 2)
}

/// The name of the page of day `d`: `2024-09-01`.
pub open spec fn day_page_name(d: Date) -> Seq<char> {
    year_name(d.year) + seq!['-'] + number_text(d.month, 2) + seq!['-'] + number_text(d.day, 2)
}

/// The name of the file of the journal of day `d`: `2024_09_01.md`.
pub open spec fn day_file_name(d: Date) -> Seq<char> {
    year_name(d.year) + seq!['_'] + number_text(d.month, 2) + seq!['_'] + number_text(d.day, 2)
        + extension()
}

/// What ends the name of every file of a page.
pub open spec fn extension() -> Seq<char> {
    seq!['.', 'm', 'd']
}

/// `name` with three underscores in place of each slash.
pub open spec fn flattened(name: Seq<char>) -> Seq<char>
    decreases name.len(),
{
    if name.len() == 0 {
        Seq::empty()
    } else if name.last() == '/' {
        flattened(name.drop_last()) + seq!['_', '_', '_']
    } else {
        flattened(name.drop_last()).push(name.last())
    }
}

/// The name of the file of the page called `name`.
pub open spec fn file_name(name: Seq<char>) -> Seq<char> {
    flattened(name) + extension()
}

/// The name of the file of the page called `name`.
pub fn file_name_of(name: &str) -> (s: String)
    ensures
        s@ == file_name(name@),
{
    let chars = chars_of(name);
    let mut s = String::new();
    let mut i: usize = 0;
    assert(chars@.take(0) =~= Seq::empty());
    while i < chars.len()
        invariant
            i <= chars.len(),
            s@ == flattened(chars@.take(i as int)),
        decreases chars.len() - i,
    {
        proof {
            let upto = chars@.take(i + 1);
            assert(upto.drop_last() =~= chars@.take(i as int));
            assert(upto.last() == chars@[i as int]);
        }
        if chars[i] == '/' {
            push_char(&mut s, '_');
            push_char(&mut s, '_');
            push_char(&mut s, '_');
            assert(s@ =~= flattened(chars@.take(i as int)) + seq!['_', '_', '_']);
        } else {
            push_char(&mut s, chars[i]);
        }
        i += 1;
    }
    assert(chars@.take(chars.len() as int) =~= chars@);
    s.append(".md");
    proof {
        reveal_strlit(".md");
        assert(s@ =~= file_name(name@));
    }
    s
}

/// A calendar unit that has a page with a name.
pub trait JournalName {
    /// Whether the unit has a name: a month has one where it is one of the
    /// twelve.
    spec fn has_name(&self) -> bool;

    /// The name of the page of the unit.
    spec fn name_text(&self) -> Seq<char>;

    /// The name of the file of the page of the unit.
    spec fn path_name_text(&self) -> Seq<char>;

    /// The name of the page of the unit.
    fn to_journal_name(&self) -> (s: String)
        requires
            self.has_name(),
        ensures
            s@ == self.name_text(),
    ;

    /// The name of the file of the page of the unit.
    fn to_journal_path_name(&self) -> (s: String)
        requires
            self.has_name(),
        ensures
            s@ == self.path_name_text(),
    ;
}

/// The link to the page of `unit`.
pub fn to_link<T: JournalName>(unit: &T) -> (l: Link)
    requires
        unit.has_name(),
    ensures
        l.name@ == unit.name_text(),
{
    Link { name: unit.to_journal_name() }
}

impl Year {
    /// The year in decimal digits, at least four of them, with a minus sign in
    /// place of the first where the year is negative.
    pub fn to_string(&self) -> (s: String)
        ensures
            s@ == year_name(self.0 as int),
    {
        format_number(self.0 as i64, 4)
    }
}

impl JournalName for Year {
    open spec fn has_name(&self) -> bool {
        true
    }

    open spec fn name_text(&self) -> Seq<char> {
        year_name(self.0 as int)
    }

    open spec fn path_name_text(&self) -> Seq<char> {
        file_name(year_name(self.0 as int))
    }

    fn to_journal_name(&self) -> (s: String) {
        self.to_string()
    }

    fn to_journal_path_name(&self) -> (s: String) {
        file_name_of(self.to_string().as_str())
    }
}

impl JournalName for Month {
    open spec fn has_name(&self) -> bool {
        1 <= self.month <= 12
    }

    open spec fn name_text(&self) -> Seq<char> {
        month_page_name(*self)
    }

    open spec fn path_name_text(&self) -> Seq<char> {
        file_name(month_page_name(*self))
    }

    fn to_journal_name(&self) -> (s: String) {
        let mut s = self.year().to_string();
        s.append("/");
        s.append(self.name());
        proof {
            reveal_strlit("/");
            assert(s@ =~= month_page_name(*self));
        }
        s
    }

    fn to_journal_path_name(&self) -> (s: String) {
        file_name_of(self.to_journal_name().as_str())
    }
}

impl JournalName for Week {
    open spec fn has_name(&self) -> bool {
        true
    }

    open spec fn name_text(&self) -> Seq<char> {
        week_page_name(self@)
    }

    open spec fn path_name_text(&self) -> Seq<char> {
        file_name(week_page_name(self@))
    }

    fn to_journal_name(&self) -> (s: String) {
        let mut s = format_number(self.year() as i64, 4);
        s.append("/Week ");
        s.append(format_number(self.week() as i64, 2).as_str());
        proof {
            reveal_strlit("/Week ");
            assert(s@ =~= week_page_name(self@));
        }
        s
    }

    fn to_journal_path_name(&self) -> (s: String) {
        file_name_of(self.to_journal_name().as_str())
    }
}

impl JournalName for Day {
    open spec fn has_name(&self) -> bool {
        true
    }

    open spec fn name_text(&self) -> Seq<char> {
        day_page_name(self@)
    }

    open spec fn path_name_text(&self) -> Seq<char> {
        day_file_name(self@)
    }

    fn to_journal_name(&self) -> (s: String) {
        let mut s = format_number(self.year() as i64, 4);
        s.append("-");
        s.append(format_number(self.month() as i64, 2).as_str());
        s.append("-");
        s.append(format_number(self.day() as i64, 2).as_str());
        proof {
            reveal_strlit("-");
            assert(s@ =~= day_page_name(self@));
        }
        s
    }

    fn to_journal_path_name(&self) -> (s: String) {
        let mut s = format_number(self.year() as i64, 4);
        s.append("_");
        s.append(format_number(self.month() as i64, 2).as_str());
        s.append("_");
        s.append(format_number(self.day() as i64, 2).as_str());
        s.append(".md");
        proof {
            reveal_strlit("_");
            reveal_strlit(".md");
            assert(s@ =~= day_file_name(self@));
        }
        s
    }
}

} // verus!
