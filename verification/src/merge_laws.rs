//! What combining two documents keeps and what it adds, stated without
//! recursion and proved of `combine`.

use crate::metadata::Entry;
use crate::page::{
    combine, has_key, is_first_with_key, key_index, merge_entry, merge_metadata, merge_outline,
    Document,
};
use vstd::prelude::*;

verus! {

/// `j` is the first index of `s` that holds `x`.
pub open spec fn is_first_at(s: Seq<Seq<char>>, x: Seq<char>, j: int) -> bool {
    &&& 0 <= j < s.len()
    &&& s[j] == x
    &&& forall|k: int| 0 <= k < j ==> s[k] != x
}

/// `r` is `base` with the entries of `incoming` that `base` lacks added at its
/// end, each once, in the order in which `incoming` first holds them.
pub open spec fn outline_merged(
    base: Seq<Seq<char>>,
    incoming: Seq<Seq<char>>,
    r: Seq<Seq<char>>,
) -> bool {
    &&& base.len() <= r.len()
    &&& forall|i: int| 0 <= i < base.len() ==> #[trigger] r[i] == base[i]
    &&& forall|i: int|
        base.len() <= i < r.len() ==> !base.contains(#[trigger] r[i]) && incoming.contains(r[i])
    &&& forall|a: int, b: int| base.len() <= a < b < r.len() ==> #[trigger] r[a] != #[trigger] r[b]
    &&& forall|j: int| 0 <= j < incoming.len() ==> r.contains(#[trigger] incoming[j])
    &&& forall|a: int, b: int, ja: int, jb: int|
        base.len() <= a < b < r.len() && #[trigger] is_first_at(incoming, r[a], ja)
            && #[trigger] is_first_at(incoming, r[b], jb) ==> ja < jb
}

/// Combining never removes or reorders an outline entry of the base; an
/// incoming entry whose text the outline holds already is dropped; the others
/// are added at the end, in their order.
pub proof fn lemma_merge_outline(base: Seq<Seq<char>>, incoming: Seq<Seq<char>>)
    ensures
        outline_merged(base, incoming, merge_outline(base, incoming)),
    decreases incoming.len(),
{
    if incoming.len() > 0 {
        let r = merge_outline(base, incoming);
        let p = incoming.drop_last();
        let e = incoming.last();
        let n = p.len() as int;
        let q = merge_outline(base, p);
        lemma_merge_outline(base, p);
        // What `p` holds, `incoming` holds; what `q` holds, `r` holds.
        assert forall|x: Seq<char>| p.contains(x) implies incoming.contains(x) by {
            let k = choose|k: int| 0 <= k < p.len() && p[k] == x;
            assert(incoming[k] == x);
        }
        assert(incoming.contains(e)) by {
            assert(incoming[n] == e);
        }
        assert forall|x: Seq<char>| q.contains(x) implies r.contains(x) by {
            let k = choose|k: int| 0 <= k < q.len() && q[k] == x;
            assert(r[k] == x);
        }
        assert(r.contains(e)) by {
            if !q.contains(e) {
                assert(r[q.len() as int] == e);
            }
        }
        assert forall|j: int| 0 <= j < incoming.len() implies r.contains(
            #[trigger] incoming[j],
        ) by {
            if j < n {
                assert(incoming[j] == p[j]);
            }
        }
        // Where `incoming` first holds an entry that `p` holds, `p` first holds it.
        assert forall|x: Seq<char>, j: int|
            is_first_at(incoming, x, j) && j < n implies is_first_at(p, x, j) by {}
        assert forall|x: Seq<char>, j: int|
            is_first_at(incoming, x, j) && p.contains(x) implies j < n by {
            let k = choose|k: int| 0 <= k < p.len() && p[k] == x;
            assert(incoming[k] == x);
        }
        if !q.contains(e) {
            // `e` is new: neither the base nor `p` holds it.
            assert(!base.contains(e)) by {
                if base.contains(e) {
                    let k = choose|k: int| 0 <= k < base.len() && base[k] == e;
                    assert(q[k] == e);
                }
            }
            assert(!p.contains(e)) by {
                if p.contains(e) {
                    let k = choose|k: int| 0 <= k < p.len() && p[k] == e;
                    assert(q.contains(p[k]));
                }
            }
            assert forall|i: int| base.len() <= i < r.len() implies !base.contains(
                #[trigger] r[i],
            ) && incoming.contains(r[i]) by {
                if i < q.len() {
                    assert(r[i] == q[i]);
                }
            }
            assert forall|a: int, b: int| base.len() <= a < b < r.len() implies #[trigger] r[a]
                != #[trigger] r[b] by {
                assert(r[a] == q[a]);
                if b < q.len() {
                    assert(r[b] == q[b]);
                }
            }
            assert forall|a: int, b: int, ja: int, jb: int|
                base.len() <= a < b < r.len() && #[trigger] is_first_at(incoming, r[a], ja)
                    && #[trigger] is_first_at(incoming, r[b], jb) implies ja < jb by {
                assert(r[a] == q[a]);
                if b < q.len() {
                    assert(r[b] == q[b]);
                }
            }
        }
    }
}

/// `j` is the last index of `metadata` that holds an entry with key `key`.
pub open spec fn is_last_with_key(metadata: Seq<Entry>, key: Seq<char>, j: int) -> bool {
    &&& 0 <= j < metadata.len()
    &&& metadata[j].key == key
    &&& forall|k: int| j < k < metadata.len() ==> metadata[k].key != key
}

/// No two entries of `metadata` have the same key.
pub open spec fn unique_keys(metadata: Seq<Entry>) -> bool {
    forall|i: int, j: int|
        0 <= i < j < metadata.len() ==> (#[trigger] metadata[i]).key != (#[trigger] metadata[j]).key
}

/// `r` is `base` after `incoming` came in:
/// - every entry of `base` keeps its place and its key;
/// - an entry of `base` whose key does not come in, or that is not the first
///   with its key, is unchanged;
/// - the first entry of `base` with a key that comes in is the last incoming
///   entry with that key;
/// - what follows the entries of `base` has keys that `base` lacks and that
///   come in, each once, each with the entry that came in last, in the order in
///   which `incoming` first holds them;
/// - every key that comes in is there.
pub open spec fn metadata_merged(base: Seq<Entry>, incoming: Seq<Entry>, r: Seq<Entry>) -> bool {
    &&& base.len() <= r.len()
    &&& forall|i: int| 0 <= i < base.len() ==> (#[trigger] r[i]).key == base[i].key
    &&& forall|i: int|
        0 <= i < base.len() && (!has_key(incoming, base[i].key) || !is_first_with_key(
            base,
            base[i].key,
            i,
        )) ==> #[trigger] r[i] == base[i]
    &&& forall|k: Seq<char>, i: int, j: int|
        #[trigger] is_first_with_key(base, k, i) && #[trigger] is_last_with_key(incoming, k, j)
            ==> r[i] == incoming[j]
    &&& forall|i: int, j: int|
        base.len() <= i < r.len() && #[trigger] is_last_with_key(incoming, r[i].key, j) ==> r[i]
            == incoming[j]
    &&& forall|i: int|
        base.len() <= i < r.len() ==> !has_key(base, (#[trigger] r[i]).key) && has_key(
            incoming,
            r[i].key,
        )
    &&& forall|a: int, b: int|
        base.len() <= a < b < r.len() ==> (#[trigger] r[a]).key != (#[trigger] r[b]).key
    &&& forall|j: int| 0 <= j < incoming.len() ==> has_key(r, (#[trigger] incoming[j]).key)
    &&& forall|a: int, b: int, ja: int, jb: int|
        base.len() <= a < b < r.len() && #[trigger] is_first_with_key(incoming, r[a].key, ja)
            && #[trigger] is_first_with_key(incoming, r[b].key, jb) ==> ja < jb
}

/// What `key_index` returns is the first index with the key, and `None` means
/// that no entry has the key.
pub proof fn lemma_key_index(metadata: Seq<Entry>, key: Seq<char>)
    ensures
        match key_index(metadata, key) {
            Some(i) => is_first_with_key(metadata, key, i),
            None => !has_key(metadata, key),
        },
{
    if key_index(metadata, key) is None && has_key(metadata, key) {
        let i = choose|i: int| 0 <= i < metadata.len() && metadata[i].key == key;
        lemma_first_with_key_exists(metadata, key, i);
    }
}

/// An entry with the key at `i` gives a first one at or before `i`.
proof fn lemma_first_with_key_exists(metadata: Seq<Entry>, key: Seq<char>, i: int)
    requires
        0 <= i < metadata.len(),
        metadata[i].key == key,
    ensures
        exists|f: int| is_first_with_key(metadata, key, f),
    decreases i,
{
    if exists|k: int| 0 <= k < i && metadata[k].key == key {
        let k = choose|k: int| 0 <= k < i && metadata[k].key == key;
        lemma_first_with_key_exists(metadata, key, k);
    } else {
        assert(is_first_with_key(metadata, key, i));
    }
}

/// Combining replaces the value of a key that the base has, where it stands,
/// and adds the keys that the base lacks at the end, in the order in which
/// they come in.
pub proof fn lemma_merge_metadata(base: Seq<Entry>, incoming: Seq<Entry>)
    ensures
        metadata_merged(base, incoming, merge_metadata(base, incoming)),
    decreases incoming.len(),
{
    if incoming.len() == 0 {
        assert forall|k: Seq<char>| !has_key(incoming, k) by {}
    } else {
        let p = incoming.drop_last();
        let q = merge_metadata(base, p);
        lemma_merge_metadata(base, p);
        lemma_key_index(q, incoming.last().key);
        lemma_merge_entry_step(base, incoming, q, merge_metadata(base, incoming));
    }
}

/// One step of `lemma_merge_metadata`: from what holds after all incoming
/// entries but the last to what holds after the last.
proof fn lemma_merge_entry_step(base: Seq<Entry>, incoming: Seq<Entry>, q: Seq<Entry>, r: Seq<Entry>)
    requires
        incoming.len() > 0,
        metadata_merged(base, incoming.drop_last(), q),
        r == merge_entry(q, incoming.last()),
        match key_index(q, incoming.last().key) {
            Some(i) => is_first_with_key(q, incoming.last().key, i),
            None => !has_key(q, incoming.last().key),
        },
    ensures
        metadata_merged(base, incoming, r),
{
    let p = incoming.drop_last();
    let e = incoming.last();
    let n = p.len() as int;
    // What holds of `incoming` holds of all but its last entry, but for the
    // key of that entry.
    assert forall|k: Seq<char>| has_key(p, k) implies has_key(incoming, k) by {
        let x = choose|x: int| 0 <= x < p.len() && p[x].key == k;
        assert(incoming[x].key == k);
    }
    assert forall|k: Seq<char>| has_key(incoming, k) && k != e.key implies has_key(p, k) by {
        let x = choose|x: int| 0 <= x < incoming.len() && incoming[x].key == k;
        assert(p[x].key == k);
    }
    assert forall|k: Seq<char>, j: int|
        is_first_with_key(incoming, k, j) && j < n implies is_first_with_key(p, k, j) by {}
    assert forall|k: Seq<char>, j: int|
        is_first_with_key(incoming, k, j) && has_key(p, k) implies j < n by {
        let x = choose|x: int| 0 <= x < p.len() && p[x].key == k;
        assert(incoming[x].key == k);
    }
    assert forall|k: Seq<char>, j: int|
        is_last_with_key(incoming, k, j) && k != e.key implies is_last_with_key(p, k, j) by {}
    assert forall|j: int| is_last_with_key(incoming, e.key, j) implies j == n by {}
    // Every key of the base, and every key that came in before, is a key of `q`,
    // and every key of `q` is a key of `r`.
    assert forall|k: Seq<char>| has_key(base, k) implies has_key(q, k) by {
        let x = choose|x: int| 0 <= x < base.len() && base[x].key == k;
        assert(q[x].key == k);
    }
    assert forall|k: Seq<char>| has_key(p, k) implies has_key(q, k) by {
        let x = choose|x: int| 0 <= x < p.len() && p[x].key == k;
        assert(has_key(q, p[x].key));
    }
    assert forall|k: Seq<char>| has_key(q, k) implies has_key(r, k) by {
        let x = choose|x: int| 0 <= x < q.len() && q[x].key == k;
        assert(r[x].key == k);
    }
    match key_index(q, e.key) {
        Some(i) => {
            // `r` is `q` with `e` at `i`: the keys are those of `q`.
            assert forall|x: int| 0 <= x < q.len() implies (#[trigger] r[x]).key == q[x].key by {}
            // An entry of the base at `i` is the first with its key in the base.
            if i < base.len() {
                assert forall|x: int| 0 <= x < i implies base[x].key != e.key by {
                    assert(q[x].key == base[x].key);
                }
                assert(is_first_with_key(base, e.key, i));
            } else {
                assert(!has_key(base, q[i].key));
            }
            assert forall|x: int|
                0 <= x < base.len() && (!has_key(incoming, base[x].key) || !is_first_with_key(
                    base,
                    base[x].key,
                    x,
                )) implies #[trigger] r[x] == base[x] by {
                assert(q[x].key == base[x].key);
            }
            assert forall|k: Seq<char>, x: int, j: int|
                #[trigger] is_first_with_key(base, k, x) && #[trigger] is_last_with_key(
                    incoming,
                    k,
                    j,
                ) implies r[x] == incoming[j] by {
                assert(q[x].key == base[x].key);
            }
            assert forall|x: int, j: int|
                base.len() <= x < r.len() && #[trigger] is_last_with_key(
                    incoming,
                    r[x].key,
                    j,
                ) implies r[x] == incoming[j] by {
                assert(r[x].key == q[x].key);
                if q[x].key == e.key && i != x && i >= base.len() {
                    assert(q[i].key != q[x].key);
                }
            }
            assert forall|j: int| 0 <= j < incoming.len() implies has_key(
                r,
                (#[trigger] incoming[j]).key,
            ) by {
                if j < n {
                    assert(has_key(q, p[j].key));
                } else {
                    assert(r[i].key == e.key);
                }
            }
            assert forall|a: int, b: int, ja: int, jb: int|
                base.len() <= a < b < r.len() && #[trigger] is_first_with_key(
                    incoming,
                    r[a].key,
                    ja,
                ) && #[trigger] is_first_with_key(incoming, r[b].key, jb) implies ja < jb by {
                assert(r[a].key == q[a].key);
                assert(r[b].key == q[b].key);
            }
        },
        None => {
            // `r` is `q` with `e` after it, and no entry of `q` has the key of `e`.
            assert forall|x: int| 0 <= x < q.len() implies #[trigger] r[x] == q[x] by {}
            assert forall|x: int| 0 <= x < q.len() implies q[x].key != e.key by {}
            assert(!has_key(base, e.key));
            assert(!has_key(p, e.key));
            assert forall|x: int, j: int|
                base.len() <= x < r.len() && #[trigger] is_last_with_key(
                    incoming,
                    r[x].key,
                    j,
                ) implies r[x] == incoming[j] by {
                if x < q.len() {
                    assert(r[x] == q[x]);
                }
            }
            assert forall|x: int| base.len() <= x < r.len() implies !has_key(
                base,
                (#[trigger] r[x]).key,
            ) && has_key(incoming, r[x].key) by {
                if x < q.len() {
                    assert(r[x] == q[x]);
                }
            }
            assert forall|a: int, b: int| base.len() <= a < b < r.len() implies (#[trigger] r[a]).key
                != (#[trigger] r[b]).key by {
                assert(r[a] == q[a]);
                if b < q.len() {
                    assert(r[b] == q[b]);
                }
            }
            assert forall|j: int| 0 <= j < incoming.len() implies has_key(
                r,
                (#[trigger] incoming[j]).key,
            ) by {
                if j < n {
                    assert(has_key(q, p[j].key));
                } else {
                    assert(r[q.len() as int].key == e.key);
                }
            }
            assert forall|a: int, b: int, ja: int, jb: int|
                base.len() <= a < b < r.len() && #[trigger] is_first_with_key(
                    incoming,
                    r[a].key,
                    ja,
                ) && #[trigger] is_first_with_key(incoming, r[b].key, jb) implies ja < jb by {
                assert(r[a] == q[a]);
                if b < q.len() {
                    assert(r[b] == q[b]);
                }
            }
        },
    }
}

/// Combining keeps the entries of the base in place, lets incoming values win,
/// and adds what is new at the end: both parts of a document at once.
pub proof fn lemma_combine(base: Document, incoming: Document)
    ensures
        metadata_merged(base.metadata, incoming.metadata, combine(base, incoming).metadata),
        outline_merged(base.outline, incoming.outline, combine(base, incoming).outline),
{
    lemma_merge_metadata(base.metadata, incoming.metadata);
    lemma_merge_outline(base.outline, incoming.outline);
}

/// Where the keys of the base are all different, and those that come in too,
/// an incoming entry whose key the base has takes the place of the entry with
/// that key.
pub proof fn lemma_combine_overrides(base: Document, incoming: Document, i: int, j: int)
    requires
        unique_keys(base.metadata),
        unique_keys(incoming.metadata),
        0 <= i < base.metadata.len(),
        0 <= j < incoming.metadata.len(),
        base.metadata[i].key == incoming.metadata[j].key,
    ensures
        combine(base, incoming).metadata[i] == incoming.metadata[j],
{
    lemma_merge_metadata(base.metadata, incoming.metadata);
    assert(is_first_with_key(base.metadata, base.metadata[i].key, i));
    assert(is_last_with_key(incoming.metadata, base.metadata[i].key, j));
}

/// Where several entries of `metadata` have the same key, the first of them is
/// the same entry as the last.
pub open spec fn is_settled(metadata: Seq<Entry>) -> bool {
    forall|k: Seq<char>, i: int, j: int|
        #[trigger] is_first_with_key(metadata, k, i) && #[trigger] is_last_with_key(metadata, k, j)
            ==> metadata[i] == metadata[j]
}

/// Entries whose keys are all different are settled.
pub proof fn lemma_unique_keys_are_settled(metadata: Seq<Entry>)
    requires
        unique_keys(metadata),
    ensures
        is_settled(metadata),
{
    assert forall|k: Seq<char>, i: int, j: int|
        #[trigger] is_first_with_key(metadata, k, i) && #[trigger] is_last_with_key(
            metadata,
            k,
            j,
        ) implies metadata[i] == metadata[j] by {
        if i < j {
            assert(metadata[i].key != metadata[j].key);
        }
        if j < i {
            assert(metadata[j].key != metadata[i].key);
        }
    }
}

/// An entry with the key at `i` gives a last one at or after `i`.
proof fn lemma_last_with_key_exists(metadata: Seq<Entry>, key: Seq<char>, i: int)
    requires
        0 <= i < metadata.len(),
        metadata[i].key == key,
    ensures
        exists|l: int| is_last_with_key(metadata, key, l),
    decreases metadata.len() - i,
{
    if exists|k: int| i < k < metadata.len() && metadata[k].key == key {
        let k = choose|k: int| i < k < metadata.len() && metadata[k].key == key;
        lemma_last_with_key_exists(metadata, key, k);
    } else {
        assert(is_last_with_key(metadata, key, i));
    }
}

/// Combining changes nothing where what comes in is there already: the same
/// metadata entries, settled, and outline entries that the base all holds.
pub proof fn lemma_combine_absorbs(base: Document, incoming: Document)
    requires
        is_settled(base.metadata),
        incoming.metadata == base.metadata,
        forall|i: int|
            0 <= i < incoming.outline.len() ==> base.outline.contains(#[trigger] incoming.outline[i]),
    ensures
        combine(base, incoming) == base,
{
    let m = base.metadata;
    let rm = merge_metadata(m, m);
    lemma_merge_metadata(m, m);
    if rm.len() > m.len() {
        // An entry after those of `m` would have a key that `m` has and lacks.
        assert(!has_key(m, rm[m.len() as int].key));
        assert(has_key(m, rm[m.len() as int].key));
    }
    assert forall|i: int| 0 <= i < m.len() implies rm[i] == m[i] by {
        if is_first_with_key(m, m[i].key, i) {
            lemma_last_with_key_exists(m, m[i].key, i);
            let l = choose|l: int| is_last_with_key(m, m[i].key, l);
            assert(rm[i] == m[l]);
        }
    }
    assert(rm =~= m);
    let o = base.outline;
    let ro = merge_outline(o, incoming.outline);
    lemma_merge_outline(o, incoming.outline);
    if ro.len() > o.len() {
        // An entry after those of `o` would be one that `o` holds and lacks.
        let x = ro[o.len() as int];
        assert(!o.contains(x));
        assert(incoming.outline.contains(x));
        let k = choose|k: int| 0 <= k < incoming.outline.len() && incoming.outline[k] == x;
        assert(o.contains(incoming.outline[k]));
    }
    assert(ro =~= o);
}

/// Combining a document with itself changes nothing, but where the header has
/// several entries with one key and the first of them differs from the last:
/// there the first takes the value of the last.
pub proof fn lemma_combine_idempotent(d: Document)
    ensures
        combine(d, d) == d <==> is_settled(d.metadata),
{
    let m = d.metadata;
    if is_settled(m) {
        assert forall|i: int| 0 <= i < d.outline.len() implies d.outline.contains(
            #[trigger] d.outline[i],
        ) by {}
        lemma_combine_absorbs(d, d);
    }
    if combine(d, d) == d {
        lemma_merge_metadata(m, m);
    }
}

/// Where no two metadata entries of the base have the same key, none of the
/// combined document have, whatever comes in.
pub proof fn lemma_combine_keeps_keys_unique(base: Document, incoming: Document)
    requires
        unique_keys(base.metadata),
    ensures
        unique_keys(combine(base, incoming).metadata),
{
    let m = base.metadata;
    let r = merge_metadata(m, incoming.metadata);
    lemma_merge_metadata(m, incoming.metadata);
    assert forall|i: int, j: int| 0 <= i < j < r.len() implies (#[trigger] r[i]).key != (
    #[trigger] r[j]).key by {
        if j < m.len() {
            assert(r[i].key == m[i].key);
            assert(r[j].key == m[j].key);
        } else if i < m.len() {
            assert(r[i].key == m[i].key);
            assert(!has_key(m, r[j].key));
        }
    }
}

} // verus!
