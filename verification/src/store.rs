//! How papers are stored: the tag column, the status column, and the text
//! of a full-text search.

use vstd::prelude::*;
use crate::model::{
    Status, join_strings, normalized_tags, normalized_tags_shape, plain_tag, status_from_word,
    strings_view,
};
use crate::text::{
    chars_of, join, lemma_join_front, lowercase, replace, replace_chars, split, split_chars,
    split_from, starts_with, string_of, views, words, words_of,
};

verus! {

// ---------------------------------------------------------------------------
// Columns
// ---------------------------------------------------------------------------

/// The non-empty parts, in order.
pub open spec fn nonempty_parts(parts: Seq<Seq<char>>) -> Seq<Seq<char>>
    decreases parts.len(),
{
    if parts.len() == 0 {
        seq![]
    } else {
        let rest = nonempty_parts(parts.drop_last());
        if parts.last().len() > 0 {
            rest.push(parts.last())
        } else {
            rest
        }
    }
}

/// The tags of a stored tag column: its ','-separated parts, empty ones left out.
pub open spec fn column_tags(column: Seq<char>) -> Seq<Seq<char>> {
    nonempty_parts(split(column, seq![',']))
}

/// The tag column of a paper: its tags joined with ','.
pub fn tags_column(tags: &[String]) -> (r: String)
    ensures
        r@ == join(strings_view(tags@), seq![',']),
{
    proof {
        reveal_strlit(",");
        assert(","@ =~= seq![',']);
    }
    join_strings(tags, ",")
}

/// The tags read back from a stored tag column.
pub fn stored_tags(column: &str) -> (r: Vec<String>)
    ensures
        strings_view(r@) == column_tags(column@),
{
    let cs = chars_of(column);
    let comma: Vec<char> = vec![','];
    assert(comma@ =~= seq![',']);
    let parts = split_chars(cs.as_slice(), comma.as_slice());
    let ghost pv = views(parts@);
    let mut out: Vec<String> = Vec::new();
    let mut i: usize = 0;
    while i < parts.len()
        invariant
            i <= parts@.len() == pv.len(),
            pv == views(parts@),
            strings_view(out@) == nonempty_parts(pv.take(i as int)),
        decreases parts.len() - i,
    {
        assert(pv.take(i + 1).drop_last() =~= pv.take(i as int));
        assert(pv.take(i + 1).last() == parts@[i as int]@);
        let ghost before = strings_view(out@);
        if parts[i].len() > 0 {
            let t = string_of(parts[i].as_slice());
            let ghost tv = t@;
            out.push(t);
            assert(strings_view(out@) =~= before.push(tv));
        }
        i += 1;
    }
    assert(pv.take(i as int) =~= pv);
    out
}

/// The status read back from a stored status column; an unknown word reads
/// as to-read.
pub fn stored_status(column: &str) -> (r: Status)
    ensures
        r == match status_from_word(lowercase(column@)) {
            Some(s) => s,
            None => Status::ToRead,
        },
{
    match Status::parse(column) {
        Some(s) => s,
        None => Status::ToRead,
    }
}

// ---------------------------------------------------------------------------
// Search text
// ---------------------------------------------------------------------------

/// A search term as an FTS5 string: quoted, with quotes doubled.
pub open spec fn fts_term(t: Seq<char>) -> Seq<char> {
    seq!['"'] + replace(t, seq!['"'], seq!['"', '"']) + seq!['"']
}

/// The FTS5 query of the terms: each quoted, the last one matching as a prefix.
pub open spec fn fts_terms(ts: Seq<Seq<char>>) -> Seq<Seq<char>> {
    Seq::new(
        ts.len(),
        |i: int|
            if i == ts.len() - 1 {
                fts_term(ts[i]) + seq!['*']
            } else {
                fts_term(ts[i])
            },
    )
}

/// The full-text query for the words of a search: nothing when there are none.
pub open spec fn fts_query_of(query: Seq<char>) -> Option<Seq<char>> {
    if words(query).len() == 0 {
        None
    } else {
        Some(join(fts_terms(words(query)), seq![' ']))
    }
}

fn fts_term_exec(t: &[char], last: bool) -> (r: Vec<char>)
    ensures
        r@ == if last {
            fts_term(t@) + seq!['*']
        } else {
            fts_term(t@)
        },
{
    let q: Vec<char> = vec!['"'];
    let qq: Vec<char> = vec!['"', '"'];
    assert(q@ =~= seq!['"']);
    assert(qq@ =~= seq!['"', '"']);
    let inner = replace_chars(t, q.as_slice(), qq.as_slice());
    let mut out: Vec<char> = Vec::new();
    out.push('"');
    out.extend_from_slice(inner.as_slice());
    out.push('"');
    if last {
        out.push('*');
    }
    proof {
        if last {
            assert(out@ =~= fts_term(t@) + seq!['*']);
        } else {
            assert(out@ =~= fts_term(t@));
        }
    }
    out
}

/// The full-text (FTS5) query of a search, or nothing when it has no words.
pub fn fts_query(query: &str) -> (r: Option<String>)
    ensures
        match r {
            Some(q) => fts_query_of(query@) == Some(q@),
            None => fts_query_of(query@) is None,
        },
{
    let cs = chars_of(query);
    let terms = words_of(cs.as_slice());
    let n = terms.len();
    if n == 0 {
        return None;
    }
    let ghost tv = views(terms@);
    let mut parts: Vec<Vec<char>> = Vec::new();
    let mut i: usize = 0;
    while i < n
        invariant
            i <= n == terms@.len() == tv.len(),
            tv == views(terms@),
            views(parts@) == fts_terms(tv).take(i as int),
        decreases n - i,
    {
        let p = fts_term_exec(terms[i].as_slice(), i == n - 1);
        assert(tv[i as int] == terms@[i as int]@);
        let ghost before = views(parts@);
        let ghost pv = p@;
        parts.push(p);
        assert(views(parts@) =~= before.push(pv));
        assert(fts_terms(tv).take(i + 1) =~= fts_terms(tv).take(i as int).push(fts_terms(tv)[i as int]));
        i += 1;
    }
    assert(fts_terms(tv).take(i as int) =~= fts_terms(tv));
    let sp: Vec<char> = vec![' '];
    assert(sp@ =~= seq![' ']);
    let joined = crate::text::join_chars(&parts, sp.as_slice());
    Some(string_of(joined.as_slice()))
}

/// A LIKE pattern matching a term anywhere: '\\', '%' and '_' escaped with
/// '\\' (the escape first), surrounded by '%'.
pub open spec fn like_pattern_of(t: Seq<char>) -> Seq<char> {
    seq!['%'] + replace(
        replace(replace(t, seq!['\\'], seq!['\\', '\\']), seq!['%'], seq!['\\', '%']),
        seq!['_'],
        seq!['\\', '_'],
    ) + seq!['%']
}

/// The LIKE pattern a search term is matched with in note bodies.
pub fn like_pattern(term: &str) -> (r: String)
    ensures
        r@ == like_pattern_of(term@),
{
    let t = chars_of(term);
    let bs: Vec<char> = vec!['\\'];
    let bs2: Vec<char> = vec!['\\', '\\'];
    let pc: Vec<char> = vec!['%'];
    let pc2: Vec<char> = vec!['\\', '%'];
    let us: Vec<char> = vec!['_'];
    let us2: Vec<char> = vec!['\\', '_'];
    assert(bs@ =~= seq!['\\'] && bs2@ =~= seq!['\\', '\\']);
    assert(pc@ =~= seq!['%'] && pc2@ =~= seq!['\\', '%']);
    assert(us@ =~= seq!['_'] && us2@ =~= seq!['\\', '_']);
    let a = replace_chars(t.as_slice(), bs.as_slice(), bs2.as_slice());
    let b = replace_chars(a.as_slice(), pc.as_slice(), pc2.as_slice());
    let c = replace_chars(b.as_slice(), us.as_slice(), us2.as_slice());
    let mut out: Vec<char> = Vec::new();
    out.push('%');
    out.extend_from_slice(c.as_slice());
    out.push('%');
    assert(out@ =~= like_pattern_of(term@));
    string_of(out.as_slice())
}

/// The ids found by the full-text search, then those found in notes that
/// are not among them yet.
pub open spec fn merged_ids(found: Seq<i64>, extra: Seq<i64>) -> Seq<i64>
    decreases extra.len(),
{
    if extra.len() == 0 {
        found
    } else {
        let m = merged_ids(found, extra.drop_last());
        if m.contains(extra.last()) {
            m
        } else {
            m.push(extra.last())
        }
    }
}

/// The result ids of a search: the full-text matches in rank order, then
/// the papers matched through their notes.
pub fn merge_ids(found: Vec<i64>, extra: &[i64]) -> (r: Vec<i64>)
    ensures
        r@ == merged_ids(found@, extra@),
{
    let ghost f0 = found@;
    let mut ids = found;
    let mut i: usize = 0;
    while i < extra.len()
        invariant
            i <= extra@.len(),
            ids@ == merged_ids(f0, extra@.take(i as int)),
        decreases extra.len() - i,
    {
        assert(extra@.take(i + 1).drop_last() =~= extra@.take(i as int));
        assert(extra@.take(i + 1).last() == extra@[i as int]);
        let x = extra[i];
        let mut present = false;
        let mut k: usize = 0;
        while k < ids.len()
            invariant
                k <= ids@.len(),
                present == ids@.take(k as int).contains(x),
            decreases ids.len() - k,
        {
            let ghost before = ids@.take(k as int);
            if ids[k] == x {
                present = true;
            }
            proof {
                let t = ids@.take(k + 1);
                assert(t =~= before.push(ids@[k as int]));
                if ids@[k as int] == x {
                    assert(t[k as int] == x);
                }
                if before.contains(x) {
                    let j = choose|j: int| 0 <= j < before.len() && before[j] == x;
                    assert(t[j] == x);
                }
                if t.contains(x) {
                    let j = choose|j: int| 0 <= j < t.len() && t[j] == x;
                    if j < k {
                        assert(before[j] == x);
                    }
                }
            }
            k += 1;
        }
        assert(ids@.take(k as int) =~= ids@);
        if !present {
            ids.push(x);
        }
        i += 1;
    }
    assert(extra@.take(i as int) =~= extra@);
    ids
}

// ---------------------------------------------------------------------------
// The tag column reads back what was written
// ---------------------------------------------------------------------------

proof fn lemma_nonempty_parts_all(parts: Seq<Seq<char>>)
    requires
        forall|i: int| 0 <= i < parts.len() ==> (#[trigger] parts[i]).len() > 0,
    ensures
        nonempty_parts(parts) == parts,
    decreases parts.len(),
{
    if parts.len() > 0 {
        lemma_nonempty_parts_all(parts.drop_last());
        assert(parts.drop_last().push(parts.last()) =~= parts);
    }
}

/// What the tag column stores reads back as the same tags, when none of
/// them is empty or holds a ',' (as normalized tags never do).
pub proof fn tag_column_reads_back(tags: Seq<Seq<char>>)
    requires
        forall|i: int|
            0 <= i < tags.len() ==> (#[trigger] tags[i]).len() > 0 && !tags[i].contains(','),
    ensures
        column_tags(join(tags, seq![','])) == tags,
{
    if tags.len() == 0 {
        let e: Seq<char> = seq![];
        assert(join(tags, seq![',']) =~= e);
        assert(split(e, seq![',']) =~= seq![e]);
        let one: Seq<Seq<char>> = seq![e];
        assert(one.drop_last() =~= Seq::<Seq<char>>::empty());
        assert(nonempty_parts(one.drop_last()) =~= Seq::<Seq<char>>::empty());
        assert(nonempty_parts(one) =~= Seq::<Seq<char>>::empty());
        assert(tags =~= Seq::<Seq<char>>::empty());
    } else {
        crate::text::lemma_split_join(tags, ',');
        lemma_nonempty_parts_all(tags);
    }
}

/// Whatever tags a paper is given, their normalized form, stored as a tag
/// column, reads back unchanged.
pub proof fn normalized_tags_read_back(tags: Seq<Seq<char>>)
    ensures
        column_tags(join(normalized_tags(tags), seq![','])) == normalized_tags(tags),
{
    let n = normalized_tags(tags);
    normalized_tags_shape(tags);
    assert forall|i: int| 0 <= i < n.len() implies (#[trigger] n[i]).len() > 0 && !n[i].contains(
        ',',
    ) by {
        assert(plain_tag(n[i]));
    }
    tag_column_reads_back(n);
}

} // verus!
