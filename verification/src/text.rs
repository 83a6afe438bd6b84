//! Character-level text primitives: patterns, their first occurrence, and the
//! division of a text into lines.
//!
//! Everything is stated over `Seq<char>`, the view of `str` and `String`.

use vstd::prelude::*;

verus! {

/// `pat` stands in `s` at index `i`.
pub open spec fn occurs_at(s: Seq<char>, pat: Seq<char>, i: int) -> bool {
    &&& 0 <= i
    &&& i + pat.len() <= s.len()
    &&& s.subrange(i, i + pat.len()) == pat
}

/// `pat` stands in `s` at index `i` and at no smaller index.
pub open spec fn is_first_occurrence(s: Seq<char>, pat: Seq<char>, i: int) -> bool {
    &&& occurs_at(s, pat, i)
    &&& forall|j: int| 0 <= j < i ==> !occurs_at(s, pat, j)
}

/// The smallest index at which `pat` stands in `s`, if there is one.
pub open spec fn find(s: Seq<char>, pat: Seq<char>) -> Option<int> {
    if exists|i: int| is_first_occurrence(s, pat, i) {
        Some(choose|i: int| is_first_occurrence(s, pat, i))
    } else {
        None
    }
}

/// `s` begins with `pat`.
pub open spec fn starts_with(s: Seq<char>, pat: Seq<char>) -> bool {
    occurs_at(s, pat, 0)
}

/// A first occurrence is what `find` returns.
pub proof fn lemma_find_some(s: Seq<char>, pat: Seq<char>, i: int)
    requires
        is_first_occurrence(s, pat, i),
    ensures
        find(s, pat) == Some(i),
{
    let k = choose|k: int| is_first_occurrence(s, pat, k);
    assert(is_first_occurrence(s, pat, k));
    if k < i {
        assert(!occurs_at(s, pat, k));
    }
    if i < k {
        assert(!occurs_at(s, pat, i));
    }
}

/// Where `pat` stands nowhere in `s`, `find` returns `None`.
pub proof fn lemma_find_none(s: Seq<char>, pat: Seq<char>)
    requires
        forall|j: int| 0 <= j ==> !occurs_at(s, pat, j),
    ensures
        find(s, pat) is None,
{
    assert forall|i: int| !is_first_occurrence(s, pat, i) by {
        if 0 <= i {
            assert(!occurs_at(s, pat, i));
        }
    }
}

/// What `find` returns is a first occurrence, and `None` means no occurrence.
pub proof fn lemma_find_is_first(s: Seq<char>, pat: Seq<char>)
    ensures
        match find(s, pat) {
            Some(i) => is_first_occurrence(s, pat, i),
            None => forall|j: int| !occurs_at(s, pat, j),
        },
{
    if find(s, pat) is None {
        assert forall|j: int| !occurs_at(s, pat, j) by {
            if occurs_at(s, pat, j) {
                lemma_first_occurrence_exists(s, pat, j);
            }
        }
    }
}

/// An occurrence at `j` gives a first occurrence at or before `j`.
proof fn lemma_first_occurrence_exists(s: Seq<char>, pat: Seq<char>, j: int)
    requires
        occurs_at(s, pat, j),
    ensures
        exists|i: int| is_first_occurrence(s, pat, i),
    decreases j,
{
    if exists|k: int| 0 <= k < j && occurs_at(s, pat, k) {
        let k = choose|k: int| 0 <= k < j && occurs_at(s, pat, k);
        lemma_first_occurrence_exists(s, pat, k);
    } else {
        assert(is_first_occurrence(s, pat, j));
    }
}

/// The index of the first line feed of `s`, or `s.len()` where `s` holds none.
pub open spec fn line_end(s: Seq<char>) -> int
    decreases s.len(),
{
    if s.len() == 0 || s[0] == '\n' {
        0
    } else {
        1 + line_end(s.drop_first())
    }
}

/// `e` is where the first line of `s` ends: no line feed before it, and a line
/// feed, or the end of `s`, at it.
pub open spec fn is_line_end(s: Seq<char>, e: int) -> bool {
    &&& 0 <= e <= s.len()
    &&& forall|j: int| 0 <= j < e ==> s[j] != '\n'
    &&& e < s.len() ==> s[e] == '\n'
}

/// `line_end` is the one index that `is_line_end` describes.
pub proof fn lemma_line_end(s: Seq<char>, e: int)
    requires
        is_line_end(s, e),
    ensures
        line_end(s) == e,
    decreases s.len(),
{
    if s.len() == 0 || s[0] == '\n' {
        if e > 0 {
            assert(s[0] != '\n');
        }
    } else {
        let t = s.drop_first();
        assert(e > 0);
        assert forall|j: int| 0 <= j < e - 1 implies t[j] != '\n' by {
            assert(t[j] == s[j + 1]);
        }
        lemma_line_end(t, e - 1);
    }
}

/// `line_end` meets `is_line_end`.
pub proof fn lemma_line_end_is(s: Seq<char>)
    ensures
        is_line_end(s, line_end(s)),
    decreases s.len(),
{
    if s.len() == 0 || s[0] == '\n' {
    } else {
        let t = s.drop_first();
        lemma_line_end_is(t);
        let e = line_end(t);
        assert forall|j: int| 0 <= j < e + 1 implies s[j] != '\n' by {
            if j > 0 {
                assert(t[j - 1] == s[j]);
            }
        }
        if e + 1 < s.len() {
            assert(t[e] == s[e + 1]);
        }
    }
}

/// `l` without one carriage return at its end, if it has one there.
pub open spec fn strip_cr(l: Seq<char>) -> Seq<char> {
    if l.len() > 0 && l.last() == '\r' {
        l.drop_last()
    } else {
        l
    }
}

/// The lines of `s`. A line ends at a line feed, which is not part of it; one
/// carriage return directly before that line feed is not part of it either.
/// What follows the last line feed is a line of its own unless it is empty.
pub open spec fn lines(s: Seq<char>) -> Seq<Seq<char>>
    decreases s.len(),
{
    if s.len() == 0 {
        Seq::empty()
    } else {
        let e = line_end(s);
        if 0 <= e < s.len() {
            seq![strip_cr(s.take(e))] + lines(s.skip(e + 1))
        } else {
            seq![s]
        }
    }
}

/// The views of the vectors of `v`, in order.
pub open spec fn views(v: Seq<Vec<char>>) -> Seq<Seq<char>> {
    Seq::new(v.len(), |i: int| v[i]@)
}

/// Appends one character to a `String`. Trusted: its body is std's
/// `String::push`, which is documented to append the given `char` to the end of
/// the string.
#[verifier::external_body]
pub(crate) fn push_char(s: &mut String, c: char)
    ensures
        final(s)@ == old(s)@.push(c),
{
    s.push(c)
}

/// The characters of `s`, in order.
pub fn chars_of(s: &str) -> (v: Vec<char>)
    ensures
        v@ == s@,
{
    let mut v: Vec<char> = Vec::new();
    for c in it: s.chars()
        invariant
            v@ == it.seq().take(it.index() as int),
            it.seq() == s@,
    {
        v.push(c);
    }
    v
}

/// The string made of `chars[from..to]`.
pub fn string_of(chars: &Vec<char>, from: usize, to: usize) -> (s: String)
    requires
        from <= to <= chars.len(),
    ensures
        s@ == chars@.subrange(from as int, to as int),
{
    let mut s = String::new();
    let mut i: usize = from;
    while i < to
        invariant
            from <= i <= to <= chars.len(),
            s@ == chars@.subrange(from as int, i as int),
        decreases to - i,
    {
        push_char(&mut s, chars[i]);
        i += 1;
    }
    s
}

/// Whether `pat` stands in `s` at index `i`.
pub fn matches_at(s: &Vec<char>, pat: &Vec<char>, i: usize) -> (r: bool)
    ensures
        r == occurs_at(s@, pat@, i as int),
{
    if pat.len() > s.len() || i > s.len() - pat.len() {
        return false;
    }
    let mut k: usize = 0;
    while k < pat.len()
        invariant
            k <= pat.len(),
            i + pat.len() <= s.len(),
            forall|j: int| 0 <= j < k ==> s@[i + j] == pat@[j],
        decreases pat.len() - k,
    {
        if s[i + k] != pat[k] {
            proof {
                let sub = s@.subrange(i as int, i + pat.len());
                assert(sub[k as int] == s@[i + k]);
            }
            return false;
        }
        k += 1;
    }
    assert(s@.subrange(i as int, i + pat.len()) =~= pat@);
    true
}

/// The smallest index at which `pat` stands in `s`, if there is one.
pub fn find_first(s: &Vec<char>, pat: &Vec<char>) -> (r: Option<usize>)
    ensures
        match r {
            Some(i) => find(s@, pat@) == Some(i as int),
            None => find(s@, pat@) is None,
        },
{
    if pat.len() > s.len() {
        proof {
            lemma_find_none(s@, pat@);
        }
        return None;
    }
    let last: usize = s.len() - pat.len();
    let mut i: usize = 0;
    loop
        invariant
            last == s.len() - pat.len(),
            i <= last,
            forall|j: int| 0 <= j < i ==> !occurs_at(s@, pat@, j),
        decreases last - i,
    {
        if matches_at(s, pat, i) {
            proof {
                lemma_find_some(s@, pat@, i as int);
            }
            return Some(i);
        }
        if i == last {
            proof {
                lemma_find_none(s@, pat@);
            }
            return None;
        }
        i += 1;
    }
}

/// The lines of `text`, each as a vector of its characters.
pub fn split_lines(text: &str) -> (out: Vec<Vec<char>>)
    ensures
        views(out@) == lines(text@),
{
    let chars = chars_of(text);
    let n: usize = chars.len();
    let mut out: Vec<Vec<char>> = Vec::new();
    let mut pos: usize = 0;
    assert(text@.skip(0) =~= text@);
    assert(views(out@) + lines(text@) =~= lines(text@));
    while pos < n
        invariant
            n == chars.len(),
            chars@ == text@,
            pos <= n,
            lines(text@) == views(out@) + lines(text@.skip(pos as int)),
        decreases n - pos,
    {
        let mut e: usize = pos;
        while e < n && chars[e] != '\n'
            invariant
                pos <= e <= n,
                n == chars.len(),
                forall|j: int| pos <= j < e ==> chars@[j] != '\n',
            decreases n - e,
        {
            e += 1;
        }
        let ghost rest = text@.skip(pos as int);
        proof {
            lemma_line_end(rest, e - pos);
        }
        let stop: usize = if e < n && e > pos && chars[e - 1] == '\r' {
            e - 1
        } else {
            e
        };
        let mut line: Vec<char> = Vec::new();
        let mut k: usize = pos;
        while k < stop
            invariant
                pos <= k <= stop <= n,
                n == chars.len(),
                line@ == chars@.subrange(pos as int, k as int),
            decreases stop - k,
        {
            line.push(chars[k]);
            k += 1;
        }
        proof {
            let old_views = views(out@);
            if e < n {
                assert(rest.take(e - pos) =~= chars@.subrange(pos as int, e as int));
                assert(line@ =~= strip_cr(rest.take(e - pos)));
                assert(rest.skip(e - pos + 1) =~= text@.skip(e + 1));
                assert(views(out@.push(line)) =~= old_views + seq![line@]);
            } else {
                assert(line@ =~= rest);
                assert(views(out@.push(line)) =~= old_views + seq![line@]);
                assert(lines(text@.skip(n as int)) =~= Seq::<Seq<char>>::empty());
            }
        }
        out.push(line);
        pos = if e < n {
            e + 1
        } else {
            n
        };
    }
    assert(text@.skip(n as int).len() == 0);
    assert(lines(text@) =~= views(out@));
    out
}

/// The character of the decimal digit `d`.
pub open spec fn digit(d: int) -> char {
    if d == 0 {
        '0'
    } else if d == 1 {
        '1'
    } else if d == 2 {
        '2'
    } else if d == 3 {
        '3'
    } else if d == 4 {
        '4'
    } else if d == 5 {
        '5'
    } else if d == 6 {
        '6'
    } else if d == 7 {
        '7'
    } else if d == 8 {
        '8'
    } else {
        '9'
    }
}

/// The decimal digits of `n`, without leading zeros; `0` for zero.
pub open spec fn decimal(n: nat) -> Seq<char>
    decreases n,
{
    if n < 10 {
        seq![digit(n as int)]
    } else {
        decimal(n / 10).push(digit((n % 10) as int))
    }
}

/// `count` zeros.
pub open spec fn zeros(count: int) -> Seq<char> {
    Seq::new(
        if count > 0 {
            count as nat
        } else {
            0
        },
        |i: int| '0',
    )
}

/// `value` in decimal digits, with zeros before them to fill `width`
/// characters. A minus sign comes first for a negative value and counts as one
/// of the `width` characters.
pub open spec fn number_text(value: int, width: int) -> Seq<char> {
    if value < 0 {
        seq!['-'] + zeros(width - 1 - decimal((-value) as nat).len()) + decimal((-value) as nat)
    } else {
        zeros(width - decimal(value as nat).len()) + decimal(value as nat)
    }
}

/// The character of the decimal digit `d`.
fn digit_char(d: u64) -> (c: char)
    requires
        d < 10,
    ensures
        c == digit(d as int),
{
    if d == 0 {
        '0'
    } else if d == 1 {
        '1'
    } else if d == 2 {
        '2'
    } else if d == 3 {
        '3'
    } else if d == 4 {
        '4'
    } else if d == 5 {
        '5'
    } else if d == 6 {
        '6'
    } else if d == 7 {
        '7'
    } else if d == 8 {
        '8'
    } else {
        '9'
    }
}

/// Adds the decimal digits of `n` to the end of `s`.
fn push_decimal(s: &mut String, n: u64)
    ensures
        final(s)@ == old(s)@ + decimal(n as nat),
    decreases n,
{
    if n >= 10 {
        push_decimal(s, n / 10);
    }
    push_char(s, digit_char(n % 10));
    assert(s@ =~= old(s)@ + decimal(n as nat));
}

/// The number of decimal digits of `n`.
fn decimal_len(n: u64) -> (len: usize)
    ensures
        len == decimal(n as nat).len(),
        1 <= len <= 20,
    decreases n,
{
    if n >= 10 {
        let rest = decimal_len(n / 10);
        proof {
            lemma_decimal_len(n as nat);
        }
        rest + 1
    } else {
        1
    }
}

/// A number below the `k`-th power of ten has at most `k` digits: here for
/// the numbers of 64 bits, which have at most 20.
proof fn lemma_decimal_len(n: nat)
    requires
        n <= u64::MAX,
    ensures
        decimal(n).len() <= 20,
{
    reveal_with_fuel(decimal, 21);
}

/// `value` as text: in decimal digits, with zeros before them to fill `width`
/// characters, and with a minus sign first, as one of these characters, where
/// it is negative.
pub fn format_number(value: i64, width: usize) -> (s: String)
    ensures
        s@ == number_text(value as int, width as int),
{
    let mut s = String::new();
    let magnitude: u64 = if value == i64::MIN {
        push_char(&mut s, '-');
        9223372036854775808
    } else if value < 0 {
        push_char(&mut s, '-');
        (-value) as u64
    } else {
        value as u64
    };
    let taken: usize = decimal_len(magnitude) + if value < 0 {
        1
    } else {
        0
    };
    let ghost sign = s@;
    let mut filled: usize = taken;
    assert(s@ =~= sign + zeros(0));
    while filled < width
        invariant
            taken <= filled,
            filled <= width || filled == taken,
            s@ == sign + zeros(filled - taken),
        decreases width - filled,
    {
        push_char(&mut s, '0');
        filled += 1;
        assert(s@ =~= sign + zeros(filled - taken));
    }
    assert(zeros(filled - taken) =~= zeros(width - taken));
    push_decimal(&mut s, magnitude);
    s
}

} // verus!
