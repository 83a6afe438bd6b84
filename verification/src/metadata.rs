//! Metadata entries: the `key:: value` lines that head a page, and the link
//! forms that their values and the outline entries hold.

use crate::text::{chars_of, find, find_first, string_of};
use vstd::prelude::*;
use vstd::string::StringExecFns;

verus! {

/// The token between the key and the value of a metadata line: `":: "`.
pub open spec fn separator() -> Seq<char> {
    seq![':', ':', ' ']
}

/// What a metadata entry holds: its key and its value, as characters.
pub struct Entry {
    pub key: Seq<char>,
    pub value: Seq<char>,
}

/// The line that stands for `e`: key, separator, value.
pub open spec fn entry_line(e: Entry) -> Seq<char> {
    e.key + separator() + e.value
}

/// The entry that `line` stands for: the key is what precedes the first
/// separator, the value what follows it. `None` where `line` holds no separator.
pub open spec fn split_entry(line: Seq<char>) -> Option<Entry> {
    match find(line, separator()) {
        Some(i) => Some(Entry { key: line.take(i), value: line.skip(i + separator().len()) }),
        None => None,
    }
}

/// One key/value pair of a page's header.
#[derive(Debug, Clone, PartialEq, Eq)]
pub struct Metadata {
    pub key: String,
    pub value: String,
}

/// Why a text is no page.
#[derive(Debug, Clone, PartialEq, Eq)]
pub enum ParseError {
    /// A line of the header that is neither empty nor a bullet holds no
    /// separator; `line` is that line.
    MalformedMetadataLine { line: String },
}

impl ParseError {
    /// The line that could not be read.
    pub open spec fn line(self) -> Seq<char> {
        match self {
            ParseError::MalformedMetadataLine { line } => line@,
        }
    }

    /// A sentence that names the error and quotes the line.
    pub fn message(&self) -> (s: String)
        ensures
            s@ == "metadata line without separator: "@ + self.line(),
    {
        match self {
            ParseError::MalformedMetadataLine { line } => {
                let mut s = String::from_str("metadata line without separator: ");
                s.append(line.as_str());
                s
            },
        }
    }
}

impl View for Metadata {
    type V = Entry;

    open spec fn view(&self) -> Entry {
        Entry { key: self.key@, value: self.value@ }
    }
}

/// The separator as a vector of characters.
pub(crate) fn separator_chars() -> (v: Vec<char>)
    ensures
        v@ == separator(),
{
    let v = chars_of(":: ");
    proof {
        reveal_strlit(":: ");
        assert(v@ =~= separator());
    }
    v
}

/// Reads one metadata line given as characters.
pub(crate) fn parse_entry(line: &Vec<char>) -> (r: Result<Metadata, ParseError>)
    ensures
        match r {
            Ok(m) => split_entry(line@) == Some(m@),
            Err(e) => split_entry(line@) is None && e.line() == line@,
        },
{
    let sep = separator_chars();
    match find_first(line, &sep) {
        Some(i) => {
            let key = string_of(line, 0, i);
            let value = string_of(line, i + 3, line.len());
            Ok(Metadata { key, value })
        },
        None => {
            let text = string_of(line, 0, line.len());
            assert(text@ =~= line@);
            Err(ParseError::MalformedMetadataLine { line: text })
        },
    }
}

impl Metadata {
    /// The entry with the given key and value.
    pub fn new(key: &str, value: &str) -> (m: Metadata)
        ensures
            m@ == (Entry { key: key@, value: value@ }),
    {
        Metadata { key: String::from_str(key), value: String::from_str(value) }
    }

    /// Reads a metadata line: splits it at its first separator.
    pub fn from_str(line: &str) -> (r: Result<Metadata, ParseError>)
        ensures
            match r {
                Ok(m) => split_entry(line@) == Some(m@),
                Err(e) => split_entry(line@) is None && e.line() == line@,
            },
    {
        let chars = chars_of(line);
        parse_entry(&chars)
    }

    /// The line that stands for this entry.
    pub fn to_string(&self) -> (s: String)
        ensures
            s@ == entry_line(self@),
    {
        let mut s = self.key.clone();
        s.append(":: ");
        proof {
            reveal_strlit(":: ");
            assert(":: "@ =~= separator());
        }
        s.append(self.value.as_str());
        s
    }

    /// Takes the value of `other`; the key stays.
    pub fn update(&mut self, other: Metadata)
        ensures
            final(self)@ == (Entry { key: old(self)@.key, value: other@.value }),
    {
        self.value = other.value;
    }
}

/// A reference to the page called `name`.
#[derive(Debug, Clone, PartialEq, Eq)]
pub struct Link {
    pub name: String,
}

/// The text of a link to the page called `name`: the name in double brackets.
pub open spec fn link_text(name: Seq<char>) -> Seq<char> {
    seq!['[', '['] + name + seq![']', ']']
}

/// The text that embeds the page called `name`: its link inside `{{embed ..}}`.
pub open spec fn embed_text(name: Seq<char>) -> Seq<char> {
    seq!['{', '{', 'e', 'm', 'b', 'e', 'd', ' '] + link_text(name) + seq!['}', '}']
}

impl Link {
    /// The link to the page called `name`.
    pub fn new(name: &str) -> (l: Link)
        ensures
            l.name@ == name@,
    {
        Link { name: String::from_str(name) }
    }

    /// The link as it stands in a page.
    pub fn to_string(&self) -> (s: String)
        ensures
            s@ == link_text(self.name@),
    {
        let mut s = String::from_str("[[");
        s.append(self.name.as_str());
        s.append("]]");
        proof {
            reveal_strlit("[[");
            reveal_strlit("]]");
            assert(s@ =~= link_text(self.name@));
        }
        s
    }

    /// The entry `key` whose value is this link.
    pub fn to_metadata(&self, key: &str) -> (m: Metadata)
        ensures
            m@ == (Entry { key: key@, value: link_text(self.name@) }),
    {
        Metadata { key: String::from_str(key), value: self.to_string() }
    }

    /// The embedding of the page this link refers to.
    pub fn into_embedded(self) -> (e: Embedded)
        ensures
            e.link == self,
    {
        Embedded { link: self }
    }
}

/// A page shown in place inside another: an embedded link.
#[derive(Debug, Clone, PartialEq, Eq)]
pub struct Embedded {
    pub link: Link,
}

impl Embedded {
    /// The embedding as it stands in a page.
    pub fn to_string(&self) -> (s: String)
        ensures
            s@ == embed_text(self.link.name@),
    {
        let mut s = String::from_str("{{embed ");
        let link = self.link.to_string();
        s.append(link.as_str());
        s.append("}}");
        proof {
            reveal_strlit("{{embed ");
            reveal_strlit("}}");
            assert(s@ =~= embed_text(self.link.name@));
        }
        s
    }
}

/// A filter as it stands in the value of the `filters` entry: the name in
/// double quotes, a space, and `true` or `false`.
pub open spec fn filter_text(name: Seq<char>, value: bool) -> Seq<char> {
    seq!['"'] + name + seq!['"', ' '] + if value {
        seq!['t', 'r', 'u', 'e']
    } else {
        seq!['f', 'a', 'l', 's', 'e']
    }
}

/// The filters of `filters` as text, in order, with a comma and a space between
/// one and the next.
pub open spec fn filters_list(filters: Seq<(Seq<char>, bool)>) -> Seq<char>
    decreases filters.len(),
{
    if filters.len() == 0 {
        Seq::empty()
    } else if filters.len() == 1 {
        filter_text(filters[0].0, filters[0].1)
    } else {
        filters_list(filters.drop_last()) + seq![',', ' '] + filter_text(
            filters.last().0,
            filters.last().1,
        )
    }
}

/// The value of the `filters` entry: the list of filters in braces.
pub open spec fn filters_text(filters: Seq<(Seq<char>, bool)>) -> Seq<char> {
    seq!['{'] + filters_list(filters) + seq!['}']
}

/// The key of the entry that holds a page's filters.
pub open spec fn filters_key() -> Seq<char> {
    seq!['f', 'i', 'l', 't', 'e', 'r', 's']
}

/// The filters of a page: names of pages, each shown or hidden.
#[derive(Debug, Clone, PartialEq, Eq)]
pub struct Filters {
    entries: Vec<(String, bool)>,
}

impl View for Filters {
    type V = Seq<(Seq<char>, bool)>;

    closed spec fn view(&self) -> Seq<(Seq<char>, bool)> {
        Seq::new(self.entries@.len(), |i: int| (self.entries@[i].0@, self.entries@[i].1))
    }
}

impl Filters {
    /// No filters.
    pub fn new() -> (f: Filters)
        ensures
            f@ == Seq::<(Seq<char>, bool)>::empty(),
    {
        let f = Filters { entries: Vec::new() };
        assert(f@ =~= Seq::empty());
        f
    }

    /// These filters and one more after them.
    pub fn push(self, name: &str, value: bool) -> (f: Filters)
        ensures
            f@ == self@.push((name@, value)),
    {
        let mut entries = self.entries;
        entries.push((String::from_str(name), value));
        let f = Filters { entries };
        assert(f@ =~= self@.push((name@, value)));
        f
    }

    /// The entry that holds these filters.
    pub fn to_metadata(&self) -> (m: Metadata)
        ensures
            m@ == (Entry { key: filters_key(), value: filters_text(self@) }),
    {
        let mut value = String::from_str("{");
        proof {
            reveal_strlit("{");
            reveal_strlit("}");
            reveal_strlit(", ");
            reveal_strlit("\"");
            reveal_strlit("\" ");
            reveal_strlit("true");
            reveal_strlit("false");
            reveal_strlit("filters");
            assert(self@.take(0) =~= Seq::empty());
            assert(value@ =~= seq!['{'] + filters_list(self@.take(0)));
        }
        let mut i: usize = 0;
        while i < self.entries.len()
            invariant
                i <= self.entries.len(),
                self@.len() == self.entries.len(),
                value@ == seq!['{'] + filters_list(self@.take(i as int)),
                ", "@ == seq![',', ' '],
                "\""@ == seq!['"'],
                "\" "@ == seq!['"', ' '],
                "true"@ == seq!['t', 'r', 'u', 'e'],
                "false"@ == seq!['f', 'a', 'l', 's', 'e'],
            decreases self.entries.len() - i,
        {
            let ghost before = value@;
            if i > 0 {
                value.append(", ");
            }
            value.append("\"");
            value.append(self.entries[i].0.as_str());
            value.append("\" ");
            if self.entries[i].1 {
                value.append("true");
            } else {
                value.append("false");
            }
            proof {
                let upto = self@.take(i + 1);
                assert(upto.drop_last() =~= self@.take(i as int));
                assert(upto.last() == self@[i as int]);
                let item = filter_text(self@[i as int].0, self@[i as int].1);
                if i > 0 {
                    assert(value@ =~= before + seq![',', ' '] + item);
                } else {
                    assert(value@ =~= before + item);
                    assert(filters_list(self@.take(0)) =~= Seq::empty());
                }
                assert(value@ =~= seq!['{'] + filters_list(upto));
            }
            i += 1;
        }
        assert(self@.take(self.entries.len() as int) =~= self@);
        value.append("}");
        let key = String::from_str("filters");
        proof {
            reveal_strlit("}");
            reveal_strlit("filters");
            assert(value@ =~= filters_text(self@));
            assert(key@ =~= filters_key());
        }
        Metadata { key, value }
    }
}

} // verus!
