//! Reading back what was written: the text of a document that was read from a
//! text stands for the same document, but for the bare bullet that writing
//! puts before an outline that lacks it.

use crate::merge_laws::{is_settled, lemma_combine_absorbs};
use crate::metadata::{entry_line, separator, split_entry, Entry};
use crate::page::{
    bullet, bullet_marker, combine, finish, needs_placeholder, parse, read_line, read_lines,
    render, render_entries, render_metadata, render_outline, Document, Reader,
};
use crate::text::{
    find, is_line_end, lemma_find_is_first, lemma_line_end, lemma_line_end_is, line_end, lines,
    starts_with, strip_cr,
};
use vstd::prelude::*;

verus! {

/// `l` ends in a carriage return.
pub open spec fn ends_with_cr(l: Seq<char>) -> bool {
    l.len() > 0 && l.last() == '\r'
}

/// `l` holds no line feed.
pub open spec fn has_no_line_feed(l: Seq<char>) -> bool {
    forall|i: int| 0 <= i < l.len() ==> l[i] != '\n'
}

/// No line of `ls` ends in a carriage return.
pub open spec fn no_trailing_cr(ls: Seq<Seq<char>>) -> bool {
    forall|i: int| 0 <= i < ls.len() ==> !ends_with_cr(#[trigger] ls[i])
}

/// The lines of a text that ends with a line feed, followed by the lines of
/// another text, are the lines of the two texts joined.
pub proof fn lemma_lines_concat(a: Seq<char>, b: Seq<char>)
    requires
        a.len() == 0 || a.last() == '\n',
    ensures
        lines(a + b) == lines(a) + lines(b),
    decreases a.len(),
{
    if a.len() == 0 {
        assert(a + b =~= b);
        assert(lines(a) + lines(b) =~= lines(b));
    } else {
        let s = a + b;
        lemma_line_end_is(a);
        let e = line_end(a);
        assert(e < a.len()) by {
            if e == a.len() {
                assert(a[a.len() - 1] != '\n');
            }
        }
        assert(is_line_end(s, e)) by {
            assert forall|j: int| 0 <= j < e implies s[j] != '\n' by {
                assert(s[j] == a[j]);
            }
            assert(s[e] == a[e]);
        }
        lemma_line_end(s, e);
        assert(s.take(e) =~= a.take(e));
        let rest = a.skip(e + 1);
        assert(s.skip(e + 1) =~= rest + b);
        if rest.len() > 0 {
            assert(rest.last() == a.last());
        }
        lemma_lines_concat(rest, b);
        assert(lines(s) =~= lines(a) + lines(b));
    }
}

/// A line without line feed that does not end in a carriage return, followed
/// by a line feed, is a text of that one line.
pub proof fn lemma_lines_single(l: Seq<char>)
    requires
        has_no_line_feed(l),
        !ends_with_cr(l),
    ensures
        lines(l + seq!['\n']) == seq![l],
{
    let s = l + seq!['\n'];
    let e = l.len() as int;
    assert(is_line_end(s, e)) by {
        assert forall|j: int| 0 <= j < e implies s[j] != '\n' by {
            assert(s[j] == l[j]);
        }
    }
    lemma_line_end(s, e);
    assert(s.take(e) =~= l);
    assert(s.skip(e + 1) =~= Seq::<char>::empty());
    assert(lines(s.skip(e + 1)) =~= Seq::<Seq<char>>::empty());
    assert(lines(s) =~= seq![l]);
}

/// No line of a text holds a line feed.
pub proof fn lemma_lines_hold_no_line_feed(s: Seq<char>)
    ensures
        forall|i: int| 0 <= i < lines(s).len() ==> has_no_line_feed(#[trigger] lines(s)[i]),
    decreases s.len(),
{
    if s.len() > 0 {
        lemma_line_end_is(s);
        let e = line_end(s);
        if e < s.len() {
            let first = strip_cr(s.take(e));
            assert(has_no_line_feed(first)) by {
                assert forall|j: int| 0 <= j < first.len() implies first[j] != '\n' by {
                    assert(first[j] == s[j]);
                }
            }
            lemma_lines_hold_no_line_feed(s.skip(e + 1));
            let rest = lines(s.skip(e + 1));
            assert forall|i: int| 0 <= i < lines(s).len() implies has_no_line_feed(
                #[trigger] lines(s)[i],
            ) by {
                if i > 0 {
                    assert(lines(s)[i] == rest[i - 1]);
                }
            }
        } else {
            assert(has_no_line_feed(s));
        }
    }
}

/// Reading lines one text after another is reading them all in order.
pub proof fn lemma_read_lines_concat(state: Reader, a: Seq<Seq<char>>, b: Seq<Seq<char>>)
    ensures
        read_lines(state, a + b) == read_lines(read_lines(state, a), b),
    decreases b.len(),
{
    if b.len() == 0 {
        assert(a + b =~= a);
    } else {
        assert((a + b).drop_last() =~= a + b.drop_last());
        assert((a + b).last() == b.last());
        lemma_read_lines_concat(state, a, b.drop_last());
    }
}

/// The line of `e` is read again as `e`: it holds no line feed, does not end
/// in a carriage return, does not begin with the bullet, and splits into the
/// key and the value of `e`.
pub open spec fn entry_reads_back(e: Entry) -> bool {
    &&& has_no_line_feed(entry_line(e))
    &&& !ends_with_cr(entry_line(e))
    &&& !starts_with(entry_line(e), bullet())
    &&& split_entry(entry_line(e)) == Some(e)
}

/// The outline entry `e`, written with a line feed after it, is read again as
/// one entry, whatever the outline holds before it.
pub open spec fn bullet_reads_back(e: Seq<char>) -> bool {
    forall|metadata: Seq<Entry>, done: Seq<Seq<char>>, current: Seq<char>|
        #[trigger] read_lines(
            Reader::InOutline { metadata, done, current },
            lines(e + seq!['\n']),
        ) == (Reader::InOutline { metadata, done: done.push(current), current: e })
}

/// Every entry of `metadata` is read again as it is.
pub open spec fn metadata_reads_back(metadata: Seq<Entry>) -> bool {
    forall|i: int| 0 <= i < metadata.len() ==> entry_reads_back(#[trigger] metadata[i])
}

/// Every entry of `outline` but the first begins with the bullet marker, and
/// every entry that begins with it is read again as it is.
pub open spec fn outline_reads_back(outline: Seq<Seq<char>>) -> bool {
    &&& forall|i: int|
        0 <= i < outline.len() && starts_with(#[trigger] outline[i], bullet_marker())
            ==> bullet_reads_back(outline[i])
    &&& forall|i: int| 1 <= i < outline.len() ==> starts_with(#[trigger] outline[i], bullet_marker())
}

/// What the reader has read so far is read again as it is.
pub open spec fn reader_reads_back(state: Reader) -> bool {
    match state {
        Reader::BeforeOutline { metadata } => metadata_reads_back(metadata),
        Reader::InOutline { metadata, done, current } => metadata_reads_back(metadata)
            && outline_reads_back(done.push(current)),
        Reader::Failed { line } => true,
    }
}

/// A line that begins with the bullet marker is an outline entry that is read
/// again as it is.
proof fn lemma_entry_line_reads_back(l: Seq<char>)
    requires
        has_no_line_feed(l),
        !ends_with_cr(l),
        starts_with(l, bullet_marker()),
    ensures
        bullet_reads_back(l),
{
    lemma_lines_single(l);
    assert forall|metadata: Seq<Entry>, done: Seq<Seq<char>>, current: Seq<char>|
        #[trigger] read_lines(
            Reader::InOutline { metadata, done, current },
            lines(l + seq!['\n']),
        ) == (Reader::InOutline { metadata, done: done.push(current), current: l }) by {
        let s = Reader::InOutline { metadata, done, current };
        let ls = seq![l];
        assert(ls.drop_last() =~= Seq::<Seq<char>>::empty());
        assert(ls.last() == l);
        assert(read_lines(s, ls.drop_last()) == s);
        assert(read_lines(s, ls) == read_line(s, l));
    }
}

/// An outline entry that is read again as it is stays so when a line that
/// does not begin with the bullet marker is added to it.
proof fn lemma_longer_entry_reads_back(e: Seq<char>, l: Seq<char>)
    requires
        bullet_reads_back(e),
        has_no_line_feed(l),
        !ends_with_cr(l),
        !starts_with(l, bullet_marker()),
    ensures
        bullet_reads_back(e + seq!['\n'] + l),
{
    let longer = e + seq!['\n'] + l;
    let head = e + seq!['\n'];
    assert(longer + seq!['\n'] =~= head + (l + seq!['\n']));
    lemma_lines_concat(head, l + seq!['\n']);
    lemma_lines_single(l);
    assert forall|metadata: Seq<Entry>, done: Seq<Seq<char>>, current: Seq<char>|
        #[trigger] read_lines(
            Reader::InOutline { metadata, done, current },
            lines(longer + seq!['\n']),
        ) == (Reader::InOutline { metadata, done: done.push(current), current: longer }) by {
        let s = Reader::InOutline { metadata, done, current };
        let mid = read_lines(s, lines(head));
        assert(mid == (Reader::InOutline { metadata, done: done.push(current), current: e }));
        lemma_read_lines_concat(s, lines(head), seq![l]);
        let ls = seq![l];
        assert(ls.drop_last() =~= Seq::<Seq<char>>::empty());
        assert(ls.last() == l);
        assert(read_lines(mid, ls.drop_last()) == mid);
        assert(read_lines(mid, ls) == read_line(mid, l));
    }
}

/// A line that splits into an entry is the line of that entry.
proof fn lemma_split_entry_line(l: Seq<char>)
    requires
        split_entry(l) is Some,
    ensures
        entry_line(split_entry(l)->0) == l,
{
    lemma_find_is_first(l, separator());
    let i = find(l, separator())->0;
    let e = split_entry(l)->0;
    assert(l.subrange(i, i + separator().len()) == separator());
    assert(entry_line(e) =~= l);
}

/// Reading one more line that holds no line feed and does not end in a
/// carriage return keeps what was read so far readable again.
proof fn lemma_read_line_reads_back(state: Reader, l: Seq<char>)
    requires
        reader_reads_back(state),
        has_no_line_feed(l),
        !ends_with_cr(l),
    ensures
        reader_reads_back(read_line(state, l)),
{
    match state {
        Reader::BeforeOutline { metadata } => {
            if starts_with(l, bullet()) {
                let o = Seq::<Seq<char>>::empty().push(l);
                if starts_with(l, bullet_marker()) {
                    lemma_entry_line_reads_back(l);
                }
                assert(outline_reads_back(o));
            } else if l.len() == 0 {
            } else {
                match split_entry(l) {
                    Some(e) => {
                        lemma_split_entry_line(l);
                        assert(entry_reads_back(e));
                        let m2 = metadata.push(e);
                        assert forall|i: int| 0 <= i < m2.len() implies entry_reads_back(
                            #[trigger] m2[i],
                        ) by {
                            if i < metadata.len() {
                                assert(m2[i] == metadata[i]);
                            }
                        }
                    },
                    None => {},
                }
            }
        },
        Reader::InOutline { metadata, done, current } => {
            let before = done.push(current);
            if starts_with(l, bullet_marker()) {
                lemma_entry_line_reads_back(l);
                let o = before.push(l);
                assert forall|i: int|
                    0 <= i < o.len() && starts_with(
                        #[trigger] o[i],
                        bullet_marker(),
                    ) implies bullet_reads_back(o[i]) by {
                    if i < before.len() {
                        assert(o[i] == before[i]);
                    }
                }
                assert forall|i: int| 1 <= i < o.len() implies starts_with(
                    #[trigger] o[i],
                    bullet_marker(),
                ) by {
                    if i < before.len() {
                        assert(o[i] == before[i]);
                    }
                }
            } else {
                let longer = current + seq!['\n'] + l;
                let o = done.push(longer);
                let last = done.len() as int;
                assert(before[last] == current);
                if starts_with(longer, bullet_marker()) {
                    assert(starts_with(current, bullet_marker())) by {
                        let head = longer.subrange(0, 2);
                        assert(head[0] == longer[0]);
                        assert(head[1] == longer[1]);
                        assert(current.len() >= 2) by {
                            if current.len() == 1 {
                                assert(longer[1] == '\n');
                            }
                            if current.len() == 0 {
                                assert(longer[0] == '\n');
                            }
                        }
                        assert(current.subrange(0, 2) =~= head);
                    }
                    lemma_longer_entry_reads_back(current, l);
                }
                if last >= 1 {
                    assert(starts_with(before[last], bullet_marker()));
                    assert(longer.subrange(0, 2) =~= current.subrange(0, 2));
                }
                assert forall|i: int|
                    0 <= i < o.len() && starts_with(
                        #[trigger] o[i],
                        bullet_marker(),
                    ) implies bullet_reads_back(o[i]) by {
                    if i < last {
                        assert(o[i] == before[i]);
                    }
                }
                assert forall|i: int| 1 <= i < o.len() implies starts_with(
                    #[trigger] o[i],
                    bullet_marker(),
                ) by {
                    if i < last {
                        assert(o[i] == before[i]);
                    }
                }
            }
        },
        Reader::Failed { line } => {},
    }
}

/// Reading lines that hold no line feed and do not end in a carriage return
/// keeps what was read so far readable again.
proof fn lemma_read_lines_reads_back(state: Reader, ls: Seq<Seq<char>>)
    requires
        reader_reads_back(state),
        no_trailing_cr(ls),
        forall|i: int| 0 <= i < ls.len() ==> has_no_line_feed(#[trigger] ls[i]),
    ensures
        reader_reads_back(read_lines(state, ls)),
    decreases ls.len(),
{
    if ls.len() > 0 {
        let head = ls.drop_last();
        assert forall|i: int| 0 <= i < head.len() implies has_no_line_feed(
            #[trigger] head[i],
        ) && !ends_with_cr(head[i]) by {
            assert(head[i] == ls[i]);
        }
        lemma_read_lines_reads_back(state, head);
        assert(ls.last() == ls[ls.len() - 1]);
        lemma_read_line_reads_back(read_lines(state, head), ls.last());
    }
}

/// A text is closed where it is empty or ends with a line feed: what follows
/// it begins a line of its own.
pub open spec fn is_closed(s: Seq<char>) -> bool {
    s.len() == 0 || s.last() == '\n'
}

/// The header as written is read again, after whatever entries were read
/// before it.
proof fn lemma_read_metadata(before: Seq<Entry>, metadata: Seq<Entry>)
    requires
        metadata_reads_back(metadata),
    ensures
        is_closed(render_metadata(metadata)),
        read_lines(
            Reader::BeforeOutline { metadata: before },
            lines(render_metadata(metadata)),
        ) == (Reader::BeforeOutline { metadata: before + metadata }),
    decreases metadata.len(),
{
    let start = Reader::BeforeOutline { metadata: before };
    if metadata.len() == 0 {
        assert(before + metadata =~= before);
        assert(lines(render_metadata(metadata)) =~= Seq::<Seq<char>>::empty());
    } else {
        let head = metadata.drop_last();
        let e = metadata.last();
        let l = entry_line(e);
        assert forall|i: int| 0 <= i < head.len() implies entry_reads_back(#[trigger] head[i]) by {
            assert(head[i] == metadata[i]);
        }
        assert(entry_reads_back(e)) by {
            assert(e == metadata[metadata.len() - 1]);
        }
        lemma_read_metadata(before, head);
        let written = render_metadata(head);
        assert(render_metadata(metadata) =~= written + (l + seq!['\n']));
        lemma_lines_concat(written, l + seq!['\n']);
        lemma_lines_single(l);
        lemma_read_lines_concat(start, lines(written), seq![l]);
        let mid = Reader::BeforeOutline { metadata: before + head };
        let ls = seq![l];
        assert(ls.drop_last() =~= Seq::<Seq<char>>::empty());
        assert(ls.last() == l);
        assert(read_lines(mid, ls.drop_last()) == mid);
        assert(read_lines(mid, ls) == read_line(mid, l));
        lemma_find_is_first(l, separator());
        assert(l.len() > 0);
        assert((before + head).push(e) =~= before + metadata);
    }
}

/// Outline entries as written, each of them read again as it is, are read
/// again as they are, after whatever the outline held before them.
proof fn lemma_read_entries(
    metadata: Seq<Entry>,
    done: Seq<Seq<char>>,
    current: Seq<char>,
    entries: Seq<Seq<char>>,
)
    requires
        forall|i: int| 0 <= i < entries.len() ==> bullet_reads_back(#[trigger] entries[i]),
    ensures
        is_closed(render_entries(entries)),
        finish(
            read_lines(
                Reader::InOutline { metadata, done, current },
                lines(render_entries(entries)),
            ),
        ) == Ok::<Document, Seq<char>>(
            Document { metadata, outline: done.push(current) + entries },
        ),
        read_lines(
            Reader::InOutline { metadata, done, current },
            lines(render_entries(entries)),
        ) is InOutline,
    decreases entries.len(),
{
    let start = Reader::InOutline { metadata, done, current };
    if entries.len() == 0 {
        assert(done.push(current) + entries =~= done.push(current));
        assert(lines(render_entries(entries)) =~= Seq::<Seq<char>>::empty());
    } else {
        let head = entries.drop_last();
        let e = entries.last();
        assert forall|i: int| 0 <= i < head.len() implies bullet_reads_back(#[trigger] head[i]) by {
            assert(head[i] == entries[i]);
        }
        assert(bullet_reads_back(e)) by {
            assert(e == entries[entries.len() - 1]);
        }
        lemma_read_entries(metadata, done, current, head);
        let written = render_entries(head);
        assert(render_entries(entries) =~= written + (e + seq!['\n']));
        lemma_lines_concat(written, e + seq!['\n']);
        lemma_read_lines_concat(start, lines(written), lines(e + seq!['\n']));
        let mid = read_lines(start, lines(written));
        match mid {
            Reader::InOutline { metadata: m, done: d, current: c } => {
                assert(read_lines(mid, lines(e + seq!['\n'])) == (Reader::InOutline {
                    metadata: m,
                    done: d.push(c),
                    current: e,
                }));
                assert(d.push(c) =~= done.push(current) + head);
                assert(d.push(c).push(e) =~= done.push(current) + entries);
            },
            _ => {},
        }
    }
}

/// The entries of two outlines, written one after the other, are the entries
/// of the two outlines joined, written.
proof fn lemma_render_entries_concat(a: Seq<Seq<char>>, b: Seq<Seq<char>>)
    ensures
        render_entries(a + b) == render_entries(a) + render_entries(b),
    decreases b.len(),
{
    if b.len() == 0 {
        assert(a + b =~= a);
        assert(render_entries(a) + render_entries(b) =~= render_entries(a));
    } else {
        assert((a + b).drop_last() =~= a + b.drop_last());
        assert((a + b).last() == b.last());
        lemma_render_entries_concat(a, b.drop_last());
        assert(render_entries(a + b) =~= render_entries(a) + render_entries(b));
    }
}

/// The outline with the bare bullet that writing puts before it where it is
/// needed.
pub open spec fn with_placeholder(outline: Seq<Seq<char>>) -> Seq<Seq<char>> {
    if needs_placeholder(outline) {
        seq![bullet()] + outline
    } else {
        outline
    }
}

/// The document as it is read again after it was written: its outline opens
/// with the bare bullet.
pub open spec fn normalized(d: Document) -> Document {
    Document { metadata: d.metadata, outline: with_placeholder(d.outline) }
}

/// The first entry of `outline`, if there is one, is the bare bullet or begins
/// with the bullet marker.
pub open spec fn opens_with_marker(outline: Seq<Seq<char>>) -> bool {
    outline.len() > 0 ==> outline[0] == bullet() || starts_with(outline[0], bullet_marker())
}

/// A document whose entries are read again as they are is read again from its
/// text: with the same metadata, and the same outline after the bare bullet
/// that opens it.
pub proof fn lemma_written_reads_back(d: Document)
    requires
        metadata_reads_back(d.metadata),
        outline_reads_back(d.outline),
        opens_with_marker(d.outline),
    ensures
        parse(render(d)) == Ok::<Document, Seq<char>>(normalized(d)),
{
    let m = d.metadata;
    let o = d.outline;
    let start = Reader::BeforeOutline { metadata: Seq::<Entry>::empty() };
    let header = render_metadata(m);
    let feed = seq!['\n'];
    let body = render_outline(o);
    let blank = Seq::<char>::empty();
    // The header, then one empty line.
    lemma_read_metadata(Seq::empty(), m);
    assert(Seq::<Entry>::empty() + m =~= m);
    let s1 = Reader::BeforeOutline { metadata: m };
    assert(render(d) =~= header + (feed + body));
    lemma_lines_concat(header, feed + body);
    lemma_lines_concat(feed, body);
    assert(blank + feed =~= feed);
    lemma_lines_single(blank);
    assert(lines(render(d)) =~= lines(header) + (seq![blank] + lines(body)));
    lemma_read_lines_concat(start, lines(header), seq![blank] + lines(body));
    lemma_read_lines_concat(s1, seq![blank], lines(body));
    let one = seq![blank];
    assert(one.drop_last() =~= Seq::<Seq<char>>::empty());
    assert(one.last() == blank);
    assert(read_lines(s1, one.drop_last()) == s1);
    assert(read_lines(s1, one) == read_line(s1, blank));
    assert(read_line(s1, blank) == s1) by {
        assert(!starts_with(blank, bullet()));
    }
    assert(read_lines(start, lines(render(d))) == read_lines(s1, lines(body)));
    // The outline.
    if o.len() == 0 {
        assert(body =~= Seq::<char>::empty());
        assert(lines(body) =~= Seq::<Seq<char>>::empty());
        assert(normalized(d) == d);
        assert(o =~= Seq::<Seq<char>>::empty());
    } else {
        let dash = bullet();
        let opened = Reader::InOutline {
            metadata: m,
            done: Seq::<Seq<char>>::empty(),
            current: dash,
        };
        assert(has_no_line_feed(dash));
        assert(!ends_with_cr(dash));
        lemma_lines_single(dash);
        let first = seq![dash];
        assert(first.drop_last() =~= Seq::<Seq<char>>::empty());
        assert(first.last() == dash);
        assert(read_lines(s1, first.drop_last()) == s1);
        assert(read_lines(s1, first) == read_line(s1, dash));
        assert(starts_with(dash, bullet())) by {
            assert(dash.subrange(0, 1) =~= bullet());
        }
        assert(read_line(s1, dash) == opened);
        let rest = if needs_placeholder(o) {
            o
        } else {
            o.skip(1)
        };
        if needs_placeholder(o) {
            assert(body =~= (dash + feed) + render_entries(rest));
        } else {
            assert(o =~= seq![dash] + rest);
            lemma_render_entries_concat(seq![dash], rest);
            let single = seq![dash];
            assert(single.drop_last() =~= Seq::<Seq<char>>::empty());
            assert(render_entries(single.drop_last()) =~= Seq::<char>::empty());
            assert(render_entries(single) =~= dash + feed);
            assert(body =~= (dash + feed) + render_entries(rest));
        }
        assert forall|i: int| 0 <= i < rest.len() implies bullet_reads_back(
            #[trigger] rest[i],
        ) by {
            if needs_placeholder(o) {
                assert(starts_with(o[i], bullet_marker()));
            } else {
                assert(rest[i] == o[i + 1]);
                assert(starts_with(o[i + 1], bullet_marker()));
            }
        }
        lemma_lines_concat(dash + feed, render_entries(rest));
        lemma_read_lines_concat(s1, first, lines(render_entries(rest)));
        lemma_read_entries(m, Seq::empty(), dash, rest);
        assert(Seq::<Seq<char>>::empty().push(dash) + rest =~= with_placeholder(o));
    }
}

/// Reading a text and writing what was read gives a text that is read as the
/// same document: the same metadata entries, and the same outline entries
/// after the bare bullet that opens the outline.
///
/// This holds of texts in which no line ends in a carriage return and whose
/// outline, if they have one, opens with the bare bullet alone or with a line
/// that begins with the bullet marker.
pub proof fn lemma_round_trip(text: Seq<char>)
    requires
        parse(text) is Ok,
        no_trailing_cr(lines(text)),
        opens_with_marker(parse(text)->Ok_0.outline),
    ensures
        parse(render(parse(text)->Ok_0)) == Ok::<Document, Seq<char>>(
            normalized(parse(text)->Ok_0),
        ),
{
    let start = Reader::BeforeOutline { metadata: Seq::<Entry>::empty() };
    lemma_lines_hold_no_line_feed(text);
    lemma_read_lines_reads_back(start, lines(text));
    lemma_written_reads_back(parse(text)->Ok_0);
}

/// Writing a document gives the text of the document as it is read again:
/// reading and writing once more changes nothing.
pub proof fn lemma_render_normalized(d: Document)
    ensures
        render(normalized(d)) == render(d),
        normalized(normalized(d)) == normalized(d),
{
    let o = d.outline;
    if needs_placeholder(o) {
        lemma_render_entries_concat(seq![bullet()], o);
        let single = seq![bullet()];
        assert(single.drop_last() =~= Seq::<Seq<char>>::empty());
        assert(render_entries(single.drop_last()) =~= Seq::<char>::empty());
        assert(render_entries(single) =~= bullet() + seq!['\n']);
        assert(with_placeholder(o)[0] == bullet());
        assert(render_outline(with_placeholder(o)) =~= render_outline(o));
    }
}

/// Preparing a page again changes nothing: the document that was written,
/// as it is read again, takes nothing from the same document coming in,
/// provided its metadata entries are settled, as they are where no two of them
/// have the same key.
pub proof fn lemma_prepared_again(d: Document)
    requires
        is_settled(d.metadata),
    ensures
        combine(normalized(d), d) == normalized(d),
{
    let o = d.outline;
    let n = normalized(d).outline;
    assert forall|i: int| 0 <= i < o.len() implies n.contains(#[trigger] o[i]) by {
        if needs_placeholder(o) {
            assert(n[i + 1] == o[i]);
        }
    }
    lemma_combine_absorbs(normalized(d), d);
}

} // verus!
