//! Pages for the days, weeks, months and years of a journal kept as a graph of
//! outline files.
//!
//! - `text`: lines, patterns and numbers as text;
//! - `metadata`: the entries of a page's header, links and filters;
//! - `page`: reading a page from text, writing it, combining two pages;
//! - `merge_laws`, `round_trip`: what is proved of combining, and of reading
//!   again what was written;
//! - `date_utils`: days, ISO weeks, months and years;
//! - `naive`: the calls into `chrono` that the calendar rests on;
//! - `journal_name`: the names of the pages and of their files;
//! - `preparer`: which pages a run prepares, and what each of them holds.

pub mod date_utils;
pub mod journal_name;
pub mod merge_laws;
pub mod metadata;
pub mod naive;
pub mod page;
pub mod preparer;
pub mod round_trip;
pub mod text;
