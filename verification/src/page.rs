//! The document model: a page is a header of metadata entries, one blank line,
//! and an outline of bullets. This module reads a page from text, writes it
//! back, and combines a page found on disk with one freshly computed.

use crate::metadata::{entry_line, parse_entry, split_entry, Entry, Metadata, ParseError};
use crate::text::{lines, split_lines, starts_with, string_of, views};
use vstd::prelude::*;
use vstd::string::StringExecFns;

verus! {

/// What a page holds: its metadata entries and its outline entries, in order.
pub struct Document {
    pub metadata: Seq<Entry>,
    pub outline: Seq<Seq<char>>,
}

/// The bare bullet: the line that opens an outline, and the first character
/// of every line that opens the outline of a text.
pub open spec fn bullet() -> Seq<char> {
    seq!['-']
}

/// The bullet marker followed by a space: what a line begins with that opens a
/// new outline entry once the outline has begun.
pub open spec fn bullet_marker() -> Seq<char> {
    seq!['-', ' ']
}

/// The document without entries.
pub open spec fn empty_document() -> Document {
    Document { metadata: Seq::empty(), outline: Seq::empty() }
}

// ----------------------------------------------------------------------------
// Reading
// ----------------------------------------------------------------------------

/// Where the reader of a page stands after some lines.
pub enum Reader {
    /// No bullet was seen yet: `metadata` holds the entries read so far.
    BeforeOutline { metadata: Seq<Entry> },
    /// The outline has begun: `done` holds its finished entries and `current`
    /// the entry that the lines still extend.
    InOutline { metadata: Seq<Entry>, done: Seq<Seq<char>>, current: Seq<char> },
    /// `line` stood in the header and is no metadata entry.
    Failed { line: Seq<char> },
}

/// The reader's state after `line`, read in state `state`.
///
/// In the header an empty line is passed over, a line that begins with the
/// bullet opens the outline, and any other line is a metadata entry or a
/// failure. In the outline a line that begins with the bullet marker closes
/// the current entry and opens the next; any other line, empty ones too, is
/// added to the current entry after a line feed.
pub open spec fn read_line(state: Reader, line: Seq<char>) -> Reader {
    match state {
        Reader::BeforeOutline { metadata } => {
            if starts_with(line, bullet()) {
                Reader::InOutline { metadata, done: Seq::empty(), current: line }
            } else if line.len() == 0 {
                state
            } else {
                match split_entry(line) {
                    Some(e) => Reader::BeforeOutline { metadata: metadata.push(e) },
                    None => Reader::Failed { line },
                }
            }
        },
        Reader::InOutline { metadata, done, current } => {
            if starts_with(line, bullet_marker()) {
                Reader::InOutline { metadata, done: done.push(current), current: line }
            } else {
                Reader::InOutline { metadata, done, current: current + seq!['\n'] + line }
            }
        },
        Reader::Failed { line } => state,
    }
}

/// The reader's state after all of `lines`, read in order from `state`.
pub open spec fn read_lines(state: Reader, lines: Seq<Seq<char>>) -> Reader
    decreases lines.len(),
{
    if lines.len() == 0 {
        state
    } else {
        read_line(read_lines(state, lines.drop_last()), lines.last())
    }
}

/// What the reader has read when the text ends in `state`: the document, with
/// the current entry closed, or the line at which it failed.
pub open spec fn finish(state: Reader) -> Result<Document, Seq<char>> {
    match state {
        Reader::BeforeOutline { metadata } => Ok(Document { metadata, outline: Seq::empty() }),
        Reader::InOutline { metadata, done, current } => Ok(
            Document { metadata, outline: done.push(current) },
        ),
        Reader::Failed { line } => Err(line),
    }
}

/// The document that the given lines stand for, or the first header line that
/// is no metadata entry.
pub open spec fn parse_lines(lines: Seq<Seq<char>>) -> Result<Document, Seq<char>> {
    finish(read_lines(Reader::BeforeOutline { metadata: Seq::empty() }, lines))
}

/// The document that `text` stands for, or the first line of its header that
/// is no metadata entry.
pub open spec fn parse(text: Seq<char>) -> Result<Document, Seq<char>> {
    parse_lines(lines(text))
}

// ----------------------------------------------------------------------------
// Writing
// ----------------------------------------------------------------------------

/// The header lines of `metadata`, each ended by a line feed.
pub open spec fn render_metadata(metadata: Seq<Entry>) -> Seq<char>
    decreases metadata.len(),
{
    if metadata.len() == 0 {
        Seq::empty()
    } else {
        render_metadata(metadata.drop_last()) + entry_line(metadata.last()) + seq!['\n']
    }
}

/// The entries of `outline`, each ended by a line feed.
pub open spec fn render_entries(outline: Seq<Seq<char>>) -> Seq<char>
    decreases outline.len(),
{
    if outline.len() == 0 {
        Seq::empty()
    } else {
        render_entries(outline.drop_last()) + outline.last() + seq!['\n']
    }
}

/// Whether a bare bullet is written before `outline`: where it has a first
/// entry and that entry is not the bare bullet itself.
pub open spec fn needs_placeholder(outline: Seq<Seq<char>>) -> bool {
    outline.len() > 0 && outline[0] != bullet()
}

/// The outline as written: a bare bullet line first where one is needed, then
/// the entries.
pub open spec fn render_outline(outline: Seq<Seq<char>>) -> Seq<char> {
    if needs_placeholder(outline) {
        bullet() + seq!['\n'] + render_entries(outline)
    } else {
        render_entries(outline)
    }
}

/// The text of `d`: the header, one empty line, the outline.
pub open spec fn render(d: Document) -> Seq<char> {
    render_metadata(d.metadata) + seq!['\n'] + render_outline(d.outline)
}

// ----------------------------------------------------------------------------
// Combining
// ----------------------------------------------------------------------------

/// `i` is the first index of `metadata` that holds an entry with key `key`.
pub open spec fn is_first_with_key(metadata: Seq<Entry>, key: Seq<char>, i: int) -> bool {
    &&& 0 <= i < metadata.len()
    &&& metadata[i].key == key
    &&& forall|j: int| 0 <= j < i ==> metadata[j].key != key
}

/// Some entry of `metadata` has the key `key`.
pub open spec fn has_key(metadata: Seq<Entry>, key: Seq<char>) -> bool {
    exists|i: int| 0 <= i < metadata.len() && metadata[i].key == key
}

/// The first index of `metadata` that holds an entry with key `key`, if any.
pub open spec fn key_index(metadata: Seq<Entry>, key: Seq<char>) -> Option<int> {
    if exists|i: int| is_first_with_key(metadata, key, i) {
        Some(choose|i: int| is_first_with_key(metadata, key, i))
    } else {
        None
    }
}

/// `metadata` after `e` came in: `e` stands in place of the first entry with its
/// key, or at the end where no entry has its key.
pub open spec fn merge_entry(metadata: Seq<Entry>, e: Entry) -> Seq<Entry> {
    match key_index(metadata, e.key) {
        Some(i) => metadata.update(i, e),
        None => metadata.push(e),
    }
}

/// `base` after the entries of `incoming` came in, one by one and in order.
pub open spec fn merge_metadata(base: Seq<Entry>, incoming: Seq<Entry>) -> Seq<Entry>
    decreases incoming.len(),
{
    if incoming.len() == 0 {
        base
    } else {
        merge_entry(merge_metadata(base, incoming.drop_last()), incoming.last())
    }
}

/// `outline` after `entry` came in: added at the end unless it is there already.
pub open spec fn merge_bullet(outline: Seq<Seq<char>>, entry: Seq<char>) -> Seq<Seq<char>> {
    if outline.contains(entry) {
        outline
    } else {
        outline.push(entry)
    }
}

/// `base` after the entries of `incoming` came in, one by one and in order.
pub open spec fn merge_outline(base: Seq<Seq<char>>, incoming: Seq<Seq<char>>) -> Seq<Seq<char>>
    decreases incoming.len(),
{
    if incoming.len() == 0 {
        base
    } else {
        merge_bullet(merge_outline(base, incoming.drop_last()), incoming.last())
    }
}

/// `incoming` folded onto `base`: values of `incoming` win, the order of `base`
/// stays, and what is new comes after it.
pub open spec fn combine(base: Document, incoming: Document) -> Document {
    Document {
        metadata: merge_metadata(base.metadata, incoming.metadata),
        outline: merge_outline(base.outline, incoming.outline),
    }
}

/// The first index with a given key is what `key_index` returns.
pub proof fn lemma_key_index_some(metadata: Seq<Entry>, key: Seq<char>, i: int)
    requires
        is_first_with_key(metadata, key, i),
    ensures
        key_index(metadata, key) == Some(i),
{
    let k = choose|k: int| is_first_with_key(metadata, key, k);
    assert(is_first_with_key(metadata, key, k));
    if k < i {
        assert(metadata[k].key != key);
    }
    if i < k {
        assert(metadata[i].key != key);
    }
}

/// Where no entry has the key, `key_index` returns `None`.
pub proof fn lemma_key_index_none(metadata: Seq<Entry>, key: Seq<char>)
    requires
        !has_key(metadata, key),
    ensures
        key_index(metadata, key) is None,
{
    assert forall|i: int| !is_first_with_key(metadata, key, i) by {
        if is_first_with_key(metadata, key, i) {
            assert(0 <= i < metadata.len() && metadata[i].key == key);
        }
    }
}

// ----------------------------------------------------------------------------
// The executable types
// ----------------------------------------------------------------------------

/// The views of the entries of `v`, in order.
pub open spec fn entries_of(v: Seq<Metadata>) -> Seq<Entry> {
    Seq::new(v.len(), |i: int| v[i]@)
}

/// The views of the strings of `v`, in order.
pub open spec fn texts_of(v: Seq<String>) -> Seq<Seq<char>> {
    Seq::new(v.len(), |i: int| v[i]@)
}

/// The content of a page: metadata entries, then outline entries.
#[derive(Debug, Clone, PartialEq, Eq)]
pub struct Content {
    metadata: Vec<Metadata>,
    content: Vec<String>,
}

impl View for Content {
    type V = Document;

    closed spec fn view(&self) -> Document {
        Document { metadata: entries_of(self.metadata@), outline: texts_of(self.content@) }
    }
}

/// Adds the characters of `src` to the end of `dst`.
fn append_chars(dst: &mut Vec<char>, src: &Vec<char>)
    ensures
        final(dst)@ == old(dst)@ + src@,
{
    let mut i: usize = 0;
    while i < src.len()
        invariant
            i <= src.len(),
            dst@ == old(dst)@ + src@.take(i as int),
        decreases src.len() - i,
    {
        dst.push(src[i]);
        i += 1;
        assert(dst@ =~= old(dst)@ + src@.take(i as int));
    }
    assert(src@.take(src.len() as int) =~= src@);
}

/// Whether `line` begins with the bullet.
fn is_bullet_line(line: &Vec<char>) -> (r: bool)
    ensures
        r == starts_with(line@, bullet()),
{
    let r = line.len() >= 1 && line[0] == '-';
    proof {
        if r {
            assert(line@.subrange(0, 1) =~= bullet());
        } else if line.len() >= 1 {
            assert(line@.subrange(0, 1)[0] == line@[0]);
        }
    }
    r
}

/// Whether `line` begins with the bullet marker.
fn is_entry_line(line: &Vec<char>) -> (r: bool)
    ensures
        r == starts_with(line@, bullet_marker()),
{
    let r = line.len() >= 2 && line[0] == '-' && line[1] == ' ';
    proof {
        if r {
            assert(line@.subrange(0, 2) =~= bullet_marker());
        } else if line.len() >= 2 {
            assert(line@.subrange(0, 2)[0] == line@[0]);
            assert(line@.subrange(0, 2)[1] == line@[1]);
        }
    }
    r
}

impl Content {
    /// The content without entries.
    pub fn new() -> (c: Content)
        ensures
            c@ == empty_document(),
    {
        let c = Content { metadata: Vec::new(), content: Vec::new() };
        assert(c@.metadata =~= Seq::empty());
        assert(c@.outline =~= Seq::empty());
        c
    }

    /// The metadata entries, in order.
    pub fn metadata(&self) -> (m: &Vec<Metadata>)
        ensures
            entries_of(m@) == self@.metadata,
    {
        &self.metadata
    }

    /// The outline entries, in order.
    pub fn outline(&self) -> (o: &Vec<String>)
        ensures
            texts_of(o@) == self@.outline,
    {
        &self.content
    }

    /// Adds a metadata entry at the end of the header.
    pub fn push_metadata(&mut self, metadata: Metadata)
        ensures
            final(self)@.metadata == old(self)@.metadata.push(metadata@),
            final(self)@.outline == old(self)@.outline,
    {
        self.metadata.push(metadata);
        assert(self@.metadata =~= old(self)@.metadata.push(metadata@));
    }

    /// Adds an outline entry at the end of the outline.
    pub fn push_entry(&mut self, entry: String)
        ensures
            final(self)@.outline == old(self)@.outline.push(entry@),
            final(self)@.metadata == old(self)@.metadata,
    {
        self.content.push(entry);
        assert(self@.outline =~= old(self)@.outline.push(entry@));
    }

    /// Reads a page from its text.
    ///
    /// Succeeds unless a line of the header, neither empty nor a bullet, holds
    /// no separator; the error then carries the first such line.
    pub fn from_str(text: &str) -> (r: Result<Content, ParseError>)
        ensures
            match r {
                Ok(c) => parse(text@) == Ok::<Document, Seq<char>>(c@),
                Err(e) => parse(text@) == Err::<Document, Seq<char>>(e.line()),
            },
    {
        let all = split_lines(text);
        let mut metadata: Vec<Metadata> = Vec::new();
        let mut content: Vec<String> = Vec::new();
        let mut in_outline = false;
        let mut current: Vec<char> = Vec::new();
        let ghost start = Reader::BeforeOutline { metadata: Seq::empty() };
        let ghost mut state = start;
        let mut i: usize = 0;
        assert(views(all@).take(0) =~= Seq::empty());
        assert(entries_of(metadata@) =~= Seq::empty());
        while i < all.len()
            invariant
                i <= all.len(),
                views(all@) == lines(text@),
                start == (Reader::BeforeOutline { metadata: Seq::empty() }),
                state == read_lines(start, views(all@).take(i as int)),
                !in_outline ==> state == (Reader::BeforeOutline {
                    metadata: entries_of(metadata@),
                }) && content@.len() == 0,
                in_outline ==> state == (Reader::InOutline {
                    metadata: entries_of(metadata@),
                    done: texts_of(content@),
                    current: current@,
                }),
            decreases all.len() - i,
        {
            let line = &all[i];
            proof {
                let upto = views(all@).take(i + 1);
                assert(upto.drop_last() =~= views(all@).take(i as int));
                assert(upto.last() == line@);
                state = read_line(state, line@);
                assert(state == read_lines(start, upto));
            }
            if !in_outline {
                if is_bullet_line(line) {
                    in_outline = true;
                    current = Vec::new();
                    append_chars(&mut current, line);
                    assert(current@ =~= line@);
                    assert(texts_of(content@) =~= Seq::empty());
                } else if line.len() > 0 {
                    match parse_entry(line) {
                        Ok(m) => {
                            let ghost before = entries_of(metadata@);
                            metadata.push(m);
                            assert(entries_of(metadata@) =~= before.push(m@));
                        },
                        Err(e) => {
                            proof {
                                lemma_failed_stays(state, views(all@), i + 1);
                                assert(views(all@).take(all.len() as int) =~= views(all@));
                            }
                            return Err(e);
                        },
                    }
                }
            } else if is_entry_line(line) {
                let ghost before = texts_of(content@);
                let entry = string_of(&current, 0, current.len());
                assert(entry@ =~= current@);
                content.push(entry);
                assert(texts_of(content@) =~= before.push(current@));
                current = Vec::new();
                append_chars(&mut current, line);
                assert(current@ =~= line@);
            } else {
                let ghost before = current@;
                current.push('\n');
                append_chars(&mut current, line);
                assert(current@ =~= before + seq!['\n'] + line@);
            }
            i += 1;
        }
        assert(views(all@).take(all.len() as int) =~= views(all@));
        if in_outline {
            let ghost before = texts_of(content@);
            let entry = string_of(&current, 0, current.len());
            assert(entry@ =~= current@);
            content.push(entry);
            assert(texts_of(content@) =~= before.push(current@));
        } else {
            assert(texts_of(content@) =~= Seq::empty());
        }
        Ok(Content { metadata, content })
    }

    /// Writes the page as text.
    pub fn to_string(&self) -> (s: String)
        ensures
            s@ == render(self@),
    {
        let mut s = String::new();
        let mut i: usize = 0;
        assert(entries_of(self.metadata@).take(0) =~= Seq::empty());
        while i < self.metadata.len()
            invariant
                i <= self.metadata.len(),
                s@ == render_metadata(entries_of(self.metadata@).take(i as int)),
            decreases self.metadata.len() - i,
        {
            let line = self.metadata[i].to_string();
            proof {
                let upto = entries_of(self.metadata@).take(i + 1);
                assert(upto.drop_last() =~= entries_of(self.metadata@).take(i as int));
                assert(upto.last() == self.metadata@[i as int]@);
                reveal_strlit("\n");
                assert("\n"@ =~= seq!['\n']);
            }
            s.append(line.as_str());
            s.append("\n");
            i += 1;
        }
        assert(entries_of(self.metadata@).take(self.metadata.len() as int) =~= entries_of(
            self.metadata@,
        ));
        proof {
            reveal_strlit("\n");
            reveal_strlit("-");
            assert("\n"@ =~= seq!['\n']);
            assert("-"@ =~= bullet());
        }
        s.append("\n");
        let dash = String::from_str("-");
        if self.content.len() > 0 && self.content[0] != dash {
            s.append("-");
            s.append("\n");
        }
        let ghost head = s@;
        let mut k: usize = 0;
        assert(texts_of(self.content@).take(0) =~= Seq::empty());
        while k < self.content.len()
            invariant
                k <= self.content.len(),
                s@ == head + render_entries(texts_of(self.content@).take(k as int)),
                "\n"@ == seq!['\n'],
            decreases self.content.len() - k,
        {
            proof {
                let upto = texts_of(self.content@).take(k + 1);
                assert(upto.drop_last() =~= texts_of(self.content@).take(k as int));
                assert(upto.last() == self.content@[k as int]@);
            }
            s.append(self.content[k].as_str());
            s.append("\n");
            k += 1;
        }
        assert(texts_of(self.content@).take(self.content.len() as int) =~= texts_of(
            self.content@,
        ));
        assert(s@ =~= render(self@));
        s
    }

    /// Folds `incoming` onto this content.
    ///
    /// An entry of `incoming` whose key the header has already takes the place
    /// of the first entry with that key; one with a new key is added at the
    /// end. An outline entry of `incoming` is added at the end unless the
    /// outline holds the same text already.
    pub fn combine(self, incoming: Content) -> (r: Content)
        ensures
            r@ == combine(self@, incoming@),
    {
        let mut metadata = self.metadata;
        let mut content = self.content;
        let ghost base = self@;
        let ghost inc = incoming@;
        let mut i: usize = 0;
        assert(inc.metadata.take(0) =~= Seq::empty());
        while i < incoming.metadata.len()
            invariant
                i <= incoming.metadata.len(),
                inc == incoming@,
                entries_of(metadata@) == merge_metadata(base.metadata, inc.metadata.take(i as int)),
            decreases incoming.metadata.len() - i,
        {
            let key = incoming.metadata[i].key.clone();
            let value = incoming.metadata[i].value.clone();
            let entry = Metadata { key, value };
            proof {
                let upto = inc.metadata.take(i + 1);
                assert(upto.drop_last() =~= inc.metadata.take(i as int));
                assert(upto.last() == entry@);
            }
            let ghost before = entries_of(metadata@);
            let mut j: usize = 0;
            while j < metadata.len() && metadata[j].key != entry.key
                invariant
                    j <= metadata.len(),
                    before == entries_of(metadata@),
                    forall|k: int| 0 <= k < j ==> before[k].key != entry@.key,
                decreases metadata.len() - j,
            {
                j += 1;
            }
            if j < metadata.len() {
                proof {
                    assert(before[j as int].key == entry@.key);
                    lemma_key_index_some(before, entry@.key, j as int);
                }
                metadata.set(j, entry);
                assert(entries_of(metadata@) =~= before.update(j as int, entry@));
            } else {
                proof {
                    lemma_key_index_none(before, entry@.key);
                }
                metadata.push(entry);
                assert(entries_of(metadata@) =~= before.push(entry@));
            }
            i += 1;
        }
        assert(inc.metadata.take(incoming.metadata.len() as int) =~= inc.metadata);
        let mut i: usize = 0;
        assert(inc.outline.take(0) =~= Seq::empty());
        while i < incoming.content.len()
            invariant
                i <= incoming.content.len(),
                inc == incoming@,
                texts_of(content@) == merge_outline(base.outline, inc.outline.take(i as int)),
            decreases incoming.content.len() - i,
        {
            let entry = incoming.content[i].clone();
            proof {
                let upto = inc.outline.take(i + 1);
                assert(upto.drop_last() =~= inc.outline.take(i as int));
                assert(upto.last() == entry@);
            }
            let ghost before = texts_of(content@);
            let mut j: usize = 0;
            while j < content.len() && content[j] != entry
                invariant
                    j <= content.len(),
                    before == texts_of(content@),
                    forall|k: int| 0 <= k < j ==> before[k] != entry@,
                decreases content.len() - j,
            {
                j += 1;
            }
            if j < content.len() {
                assert(before[j as int] == entry@);
                assert(before.contains(entry@));
            } else {
                content.push(entry);
                assert(texts_of(content@) =~= before.push(entry@));
            }
            i += 1;
        }
        assert(inc.outline.take(incoming.content.len() as int) =~= inc.outline);
        Content { metadata, content }
    }
}

/// What a page is: the path of its file and its content.
pub struct PageView {
    pub path: Seq<char>,
    pub content: Document,
}

/// A document bound to the path of its file.
#[derive(Debug, Clone, PartialEq, Eq)]
pub struct Page {
    path: String,
    content: Content,
}

impl View for Page {
    type V = PageView;

    closed spec fn view(&self) -> PageView {
        PageView { path: self.path@, content: self.content@ }
    }
}

impl Page {
    /// The page at `path`, without entries.
    pub fn new(path: &str) -> (p: Page)
        ensures
            p@ == (PageView { path: path@, content: empty_document() }),
    {
        Page { path: String::from_str(path), content: Content::new() }
    }

    /// The path of the page's file.
    pub fn path(&self) -> (p: &str)
        ensures
            p@ == self@.path,
    {
        self.path.as_str()
    }

    /// The content of the page.
    pub fn content(&self) -> (c: &Content)
        ensures
            c@ == self@.content,
    {
        &self.content
    }

    /// Adds `content` to the outline as a bullet of its own: the bullet marker,
    /// then `content`.
    pub fn push_content(&mut self, content: &str)
        ensures
            final(self)@.path == old(self)@.path,
            final(self)@.content.metadata == old(self)@.content.metadata,
            final(self)@.content.outline == old(self)@.content.outline.push(
                bullet_marker() + content@,
            ),
    {
        let mut entry = String::from_str("- ");
        entry.append(content);
        proof {
            reveal_strlit("- ");
            assert(entry@ =~= bullet_marker() + content@);
        }
        self.content.push_entry(entry);
    }

    /// Adds `metadata` at the end of the header.
    pub fn push_metadata(&mut self, metadata: Metadata)
        ensures
            final(self)@.path == old(self)@.path,
            final(self)@.content.metadata == old(self)@.content.metadata.push(metadata@),
            final(self)@.content.outline == old(self)@.content.outline,
    {
        self.content.push_metadata(metadata);
    }

    /// The page at `path` whose content is read from `text`, the text of its
    /// file. Fails as `Content::from_str` does.
    pub fn from_text(path: &str, text: &str) -> (r: Result<Page, ParseError>)
        ensures
            match r {
                Ok(p) => parse(text@) == Ok::<Document, Seq<char>>(p@.content) && p@.path == path@,
                Err(e) => parse(text@) == Err::<Document, Seq<char>>(e.line()),
            },
    {
        match Content::from_str(text) {
            Ok(content) => Ok(Page { path: String::from_str(path), content }),
            Err(e) => Err(e),
        }
    }

    /// The text to write to the page's file.
    pub fn to_string(&self) -> (s: String)
        ensures
            s@ == render(self@.content),
    {
        self.content.to_string()
    }

    /// This page with the content of `incoming` folded onto its own.
    pub fn combine(self, incoming: Page) -> (r: Page)
        ensures
            r@ == (PageView {
                path: self@.path,
                content: combine(self@.content, incoming@.content),
            }),
    {
        Page { path: self.path, content: self.content.combine(incoming.content) }
    }

    /// The page to write, given what its file holds now: this page as it is
    /// where there is no file, and else this page folded onto the page read from
    /// the file's text. A file that cannot be read as a page is an error, and
    /// nothing is to be written then.
    pub fn onto_existing(self, existing: Option<&str>) -> (r: Result<Page, ParseError>)
        ensures
            match existing {
                None => r == Ok::<Page, ParseError>(self),
                Some(text) => match parse(text@) {
                    Ok(found) => r is Ok && r->Ok_0@ == (PageView {
                        path: self@.path,
                        content: combine(found, self@.content),
                    }),
                    Err(line) => r is Err && r->Err_0.line() == line,
                },
            },
    {
        match existing {
            None => Ok(self),
            Some(text) => match Content::from_str(text) {
                Ok(found) => Ok(Page { path: self.path, content: found.combine(self.content) }),
                Err(e) => Err(e),
            },
        }
    }
}

impl core::ops::Add for Content {
    type Output = Content;

    /// `self + incoming` is `self.combine(incoming)`.
    fn add(self, incoming: Content) -> (r: Content)
        ensures
            r@ == combine(self@, incoming@),
    {
        self.combine(incoming)
    }
}

impl vstd::std_specs::ops::AddSpecImpl for Content {
    open spec fn obeys_add_spec() -> bool {
        false
    }

    open spec fn add_req(self, incoming: Content) -> bool {
        true
    }

    open spec fn add_spec(self, incoming: Content) -> Content {
        self
    }
}

impl core::ops::Add for Page {
    type Output = Page;

    /// `self + incoming` is `self.combine(incoming)`.
    fn add(self, incoming: Page) -> (r: Page)
        ensures
            r@ == (PageView {
                path: self@.path,
                content: combine(self@.content, incoming@.content),
            }),
    {
        self.combine(incoming)
    }
}

impl vstd::std_specs::ops::AddSpecImpl for Page {
    open spec fn obeys_add_spec() -> bool {
        false
    }

    open spec fn add_req(self, incoming: Page) -> bool {
        true
    }

    open spec fn add_spec(self, incoming: Page) -> Page {
        self
    }
}

/// Once the reader has failed at a line, it stays failed at that line.
proof fn lemma_failed_stays(state: Reader, lines: Seq<Seq<char>>, n: int)
    requires
        0 <= n <= lines.len(),
        state is Failed,
        state == read_lines(Reader::BeforeOutline { metadata: Seq::empty() }, lines.take(n)),
    ensures
        read_lines(Reader::BeforeOutline { metadata: Seq::empty() }, lines) == state,
    decreases lines.len() - n,
{
    if n < lines.len() {
        let upto = lines.take(n + 1);
        assert(upto.drop_last() =~= lines.take(n));
        lemma_failed_stays(state, lines, n + 1);
    } else {
        assert(lines.take(n) =~= lines);
    }
}

/// `line` stands in a header and is no metadata entry: it is not empty, does
/// not begin with the bullet, and holds no separator.
pub open spec fn is_malformed(line: Seq<char>) -> bool {
    line.len() > 0 && !starts_with(line, bullet()) && split_entry(line) is None
}

/// The lines before index `i` are header lines that can be read: none of them
/// begins with the bullet and none is malformed.
pub open spec fn is_header_until(lines: Seq<Seq<char>>, i: int) -> bool {
    forall|j: int|
        0 <= j < i ==> !starts_with(#[trigger] lines[j], bullet()) && !is_malformed(lines[j])
}

/// Where the reader stands after `lines`, said by the first line that is
/// malformed or begins with the bullet: with no such line it is still in the
/// header, with a bullet it is in the outline, and with a malformed line it
/// has failed at that line.
pub proof fn lemma_reader_state(lines: Seq<Seq<char>>)
    ensures
        match read_lines(Reader::BeforeOutline { metadata: Seq::empty() }, lines) {
            Reader::BeforeOutline { metadata } => is_header_until(lines, lines.len() as int),
            Reader::InOutline { metadata, done, current } => exists|i: int|
                0 <= i < lines.len() && is_header_until(lines, i) && starts_with(
                    #[trigger] lines[i],
                    bullet(),
                ),
            Reader::Failed { line } => exists|i: int|
                0 <= i < lines.len() && is_header_until(lines, i) && is_malformed(
                    #[trigger] lines[i],
                ) && lines[i] == line,
        },
    decreases lines.len(),
{
    if lines.len() > 0 {
        let head = lines.drop_last();
        let last = lines.len() - 1;
        lemma_reader_state(head);
        assert forall|i: int| 0 <= i <= head.len() && is_header_until(head, i) implies is_header_until(
            lines,
            i,
        ) by {
            assert forall|j: int| 0 <= j < i implies !starts_with(#[trigger] lines[j], bullet())
                && !is_malformed(lines[j]) by {
                assert(head[j] == lines[j]);
            }
        }
        match read_lines(Reader::BeforeOutline { metadata: Seq::empty() }, head) {
            Reader::BeforeOutline { metadata } => {
                assert(is_header_until(lines, last));
                if !starts_with(lines[last], bullet()) && !is_malformed(lines[last]) {
                    assert forall|j: int| 0 <= j < lines.len() implies !starts_with(
                        #[trigger] lines[j],
                        bullet(),
                    ) && !is_malformed(lines[j]) by {
                        if j < last {
                            assert(head[j] == lines[j]);
                        }
                    }
                }
            },
            Reader::InOutline { metadata, done, current } => {
                let i = choose|i: int|
                    0 <= i < head.len() && is_header_until(head, i) && starts_with(
                        #[trigger] head[i],
                        bullet(),
                    );
                assert(lines[i] == head[i]);
            },
            Reader::Failed { line } => {
                let i = choose|i: int|
                    0 <= i < head.len() && is_header_until(head, i) && is_malformed(
                        #[trigger] head[i],
                    ) && head[i] == line;
                assert(lines[i] == head[i]);
            },
        }
    }
}

/// A text is no page exactly where the first of its lines that is malformed
/// or begins with the bullet is malformed, and that line is the error.
pub proof fn lemma_parse_fails(text: Seq<char>, line: Seq<char>)
    ensures
        parse(text) == Err::<Document, Seq<char>>(line) <==> exists|i: int|
            0 <= i < lines(text).len() && is_header_until(lines(text), i) && is_malformed(
                #[trigger] lines(text)[i],
            ) && lines(text)[i] == line,
{
    let ls = lines(text);
    lemma_reader_state(ls);
    let state = read_lines(Reader::BeforeOutline { metadata: Seq::empty() }, ls);
    if exists|i: int|
        0 <= i < ls.len() && is_header_until(ls, i) && is_malformed(#[trigger] ls[i]) && ls[i]
            == line {
        let i = choose|i: int|
            0 <= i < ls.len() && is_header_until(ls, i) && is_malformed(#[trigger] ls[i])
                && ls[i] == line;
        // The first line that decides is one line: `i`.
        match state {
            Reader::BeforeOutline { metadata } => {
                assert(!is_malformed(ls[i]));
            },
            Reader::InOutline { metadata, done, current } => {
                let k = choose|k: int|
                    0 <= k < ls.len() && is_header_until(ls, k) && starts_with(
                        #[trigger] ls[k],
                        bullet(),
                    );
                if k < i {
                    assert(!starts_with(ls[k], bullet()));
                }
                if i < k {
                    assert(!is_malformed(ls[i]));
                }
            },
            Reader::Failed { line: at } => {
                let k = choose|k: int|
                    0 <= k < ls.len() && is_header_until(ls, k) && is_malformed(#[trigger] ls[k])
                        && ls[k] == at;
                if k < i {
                    assert(!is_malformed(ls[k]));
                }
                if i < k {
                    assert(!is_malformed(ls[i]));
                }
            },
        }
    }
}

} // verus!
