//! The decisions behind the commands: refusals and their messages, sorting
//! and filtering the list, status transitions, and what `list` and `export`
//! select.

use vstd::prelude::*;
use crate::model::{
    Paper, Priority, Status, normalized_tags, normalize_tags, opt_view, priority_from_word,
    status_from_word, strings_view, contains_string,
};
use crate::text::{
    chars_of, contains_seq, contains_str, int_chars, int_str, lowercase, lowercase_chars, nat_chars,
    nat_str, string_of, str_eq,
};

verus! {

/// Why a command refuses its input.
#[derive(Debug, Clone, PartialEq, Eq)]
pub enum CliError {
    /// A status word that names no status.
    UnknownStatus(String),
    /// A priority word that names no priority.
    UnknownPriority(String),
    /// A rating outside 1..=5.
    BadRating,
    /// A year outside 1000..=2100.
    BadYear(i32),
    /// A sort key that is not known.
    UnknownSort(String),
    /// A title that is empty once trimmed.
    EmptyTitle,
    /// A plain URL was given without a title.
    UrlNeedsTitle,
    /// An edit that changes nothing.
    NothingToChange,
    /// The DOI is already on another paper.
    DoiTaken(String, i64),
    /// The arXiv id is already on another paper.
    ArxivTaken(String, i64),
    /// A paper of a JSON import without a title.
    MissingJsonTitle,
    /// An export format that is not known.
    UnknownExportFormat(String),
    /// An import format that is not known.
    UnknownImportFormat(String),
}

/// A `CliError` with its strings taken as character sequences.
pub enum CliErrorView {
    UnknownStatus(Seq<char>),
    UnknownPriority(Seq<char>),
    BadRating,
    BadYear(i32),
    UnknownSort(Seq<char>),
    EmptyTitle,
    UrlNeedsTitle,
    NothingToChange,
    DoiTaken(Seq<char>, i64),
    ArxivTaken(Seq<char>, i64),
    MissingJsonTitle,
    UnknownExportFormat(Seq<char>),
    UnknownImportFormat(Seq<char>),
}

impl View for CliError {
    type V = CliErrorView;

    open spec fn view(&self) -> CliErrorView {
        match self {
            CliError::UnknownStatus(w) => CliErrorView::UnknownStatus(w@),
            CliError::UnknownPriority(w) => CliErrorView::UnknownPriority(w@),
            CliError::BadRating => CliErrorView::BadRating,
            CliError::BadYear(y) => CliErrorView::BadYear(*y),
            CliError::UnknownSort(w) => CliErrorView::UnknownSort(w@),
            CliError::EmptyTitle => CliErrorView::EmptyTitle,
            CliError::UrlNeedsTitle => CliErrorView::UrlNeedsTitle,
            CliError::NothingToChange => CliErrorView::NothingToChange,
            CliError::DoiTaken(d, o) => CliErrorView::DoiTaken(d@, *o),
            CliError::ArxivTaken(a, o) => CliErrorView::ArxivTaken(a@, *o),
            CliError::MissingJsonTitle => CliErrorView::MissingJsonTitle,
            CliError::UnknownExportFormat(f) => CliErrorView::UnknownExportFormat(f@),
            CliError::UnknownImportFormat(f) => CliErrorView::UnknownImportFormat(f@),
        }
    }
}

/// The message a refusal is reported with.
pub open spec fn refusal_text(e: CliErrorView) -> Seq<char> {
    match e {
        CliErrorView::UnknownStatus(w) => "unknown status '"@ + w
            + "' (to-read, reading, read, dropped)"@,
        CliErrorView::UnknownPriority(w) => "unknown priority '"@ + w + "' (high, normal, low)"@,
        CliErrorView::BadRating => "rating must be 1-5 (0 clears it in edit)"@,
        CliErrorView::BadYear(y) => "year "@ + int_str(y as int) + " looks wrong (expected 1000-2100)"@,
        CliErrorView::UnknownSort(w) => "unknown sort key '"@ + w
            + "' (priority, added, year, title, rating)"@,
        CliErrorView::EmptyTitle => "paper needs a title"@,
        CliErrorView::UrlNeedsTitle =>
            "a plain URL needs --title \"...\" (metadata can only be fetched for arXiv ids and DOIs)"@,
        CliErrorView::NothingToChange =>
            "nothing to change, see `rlist edit --help` for available fields"@,
        CliErrorView::DoiTaken(d, o) => "doi "@ + d + " is already on #"@ + int_str(o as int),
        CliErrorView::ArxivTaken(a, o) => "arXiv "@ + a + " is already on #"@ + int_str(o as int),
        CliErrorView::MissingJsonTitle => "a JSON paper entry is missing 'title'"@,
        CliErrorView::UnknownExportFormat(f) => "unknown format '"@ + f + "' (bibtex, json, csv)"@,
        CliErrorView::UnknownImportFormat(f) => "unknown import format '"@ + f
            + "' (bibtex, json)"@,
    }
}

impl CliError {
    /// The message this refusal is reported with.
    pub fn message(&self) -> (r: String)
        ensures
            r@ == refusal_text(self@),
    {
        let mut m = String::new();
        match self {
            CliError::UnknownStatus(w) => {
                m.append("unknown status '");
                m.append(w.as_str());
                m.append("' (to-read, reading, read, dropped)");
            },
            CliError::UnknownPriority(w) => {
                m.append("unknown priority '");
                m.append(w.as_str());
                m.append("' (high, normal, low)");
            },
            CliError::BadRating => {
                m.append("rating must be 1-5 (0 clears it in edit)");
            },
            CliError::BadYear(y) => {
                m.append("year ");
                m.append(string_of(int_chars(*y as i64).as_slice()).as_str());
                m.append(" looks wrong (expected 1000-2100)");
            },
            CliError::UnknownSort(w) => {
                m.append("unknown sort key '");
                m.append(w.as_str());
                m.append("' (priority, added, year, title, rating)");
            },
            CliError::EmptyTitle => {
                m.append("paper needs a title");
            },
            CliError::UrlNeedsTitle => {
                m.append(
                    "a plain URL needs --title \"...\" (metadata can only be fetched for arXiv ids and DOIs)",
                );
            },
            CliError::NothingToChange => {
                m.append("nothing to change, see `rlist edit --help` for available fields");
            },
            CliError::DoiTaken(d, o) => {
                m.append("doi ");
                m.append(d.as_str());
                m.append(" is already on #");
                m.append(string_of(int_chars(*o).as_slice()).as_str());
            },
            CliError::ArxivTaken(a, o) => {
                m.append("arXiv ");
                m.append(a.as_str());
                m.append(" is already on #");
                m.append(string_of(int_chars(*o).as_slice()).as_str());
            },
            CliError::MissingJsonTitle => {
                m.append("a JSON paper entry is missing 'title'");
            },
            CliError::UnknownExportFormat(f) => {
                m.append("unknown format '");
                m.append(f.as_str());
                m.append("' (bibtex, json, csv)");
            },
            CliError::UnknownImportFormat(f) => {
                m.append("unknown import format '");
                m.append(f.as_str());
                m.append("' (bibtex, json)");
            },
        }
        m
    }
}

/// The status a word names, or the error for an unknown word.
pub fn parse_status(s: &str) -> (r: Result<Status, CliError>)
    ensures
        match r {
            Ok(st) => status_from_word(lowercase(s@)) == Some(st),
            Err(e) => status_from_word(lowercase(s@)) is None && (e matches CliError::UnknownStatus(
                w,
            ) && w@ == s@),
        },
{
    match Status::parse(s) {
        Some(st) => Ok(st),
        None => Err(CliError::UnknownStatus(s.to_owned())),
    }
}

/// The priority a word names, or the error for an unknown word.
pub fn parse_priority(s: &str) -> (r: Result<Priority, CliError>)
    ensures
        match r {
            Ok(p) => priority_from_word(lowercase(s@)) == Some(p),
            Err(e) => priority_from_word(lowercase(s@)) is None && (
            e matches CliError::UnknownPriority(w) && w@ == s@),
        },
{
    match Priority::parse(s) {
        Some(p) => Ok(p),
        None => Err(CliError::UnknownPriority(s.to_owned())),
    }
}

/// A rating must be 1..=5.
pub fn validate_rating(r: i64) -> (res: Result<i64, CliError>)
    ensures
        1 <= r <= 5 ==> res == Ok::<i64, CliError>(r),
        !(1 <= r <= 5) ==> res == Err::<i64, CliError>(CliError::BadRating),
{
    if 1 <= r && r <= 5 {
        Ok(r)
    } else {
        Err(CliError::BadRating)
    }
}

/// A year must be 1000..=2100.
pub fn validate_year(y: i32) -> (res: Result<i32, CliError>)
    ensures
        1000 <= y <= 2100 ==> res == Ok::<i32, CliError>(y),
        !(1000 <= y <= 2100) ==> res == Err::<i32, CliError>(CliError::BadYear(y)),
{
    if 1000 <= y && y <= 2100 {
        Ok(y)
    } else {
        Err(CliError::BadYear(y))
    }
}


// ---------------------------------------------------------------------------
// Sorting
// ---------------------------------------------------------------------------

/// How `list` orders papers.
#[derive(Debug, Clone, Copy, PartialEq, Eq, Structural)]
pub enum SortKey {
    /// High priority first, then oldest added, then lowest id.
    Priority,
    /// Newest added first.
    Added,
    /// Newest publication year first (papers without a year last).
    Year,
    /// By title, case-insensitively.
    Title,
    /// Best rated first (unrated as 0).
    Rating,
}

/// `a` comes before `b` in the lexicographic order of characters (the order
/// of `String` comparison).
pub open spec fn seq_lt(a: Seq<char>, b: Seq<char>) -> bool
    decreases a.len(),
{
    if a.len() == 0 {
        b.len() > 0
    } else if b.len() == 0 {
        false
    } else if a[0] != b[0] {
        a[0] < b[0]
    } else {
        seq_lt(a.drop_first(), b.drop_first())
    }
}

/// `seq_lt` is irreflexive.
pub proof fn lemma_seq_lt_irrefl(a: Seq<char>)
    ensures
        !seq_lt(a, a),
    decreases a.len(),
{
    if a.len() > 0 {
        lemma_seq_lt_irrefl(a.drop_first());
    }
}

/// `seq_lt` is asymmetric.
pub proof fn lemma_seq_lt_asym(a: Seq<char>, b: Seq<char>)
    ensures
        seq_lt(a, b) ==> !seq_lt(b, a),
    decreases a.len(),
{
    if a.len() > 0 && b.len() > 0 && a[0] == b[0] {
        lemma_seq_lt_asym(a.drop_first(), b.drop_first());
    }
}

/// `seq_lt` is transitive.
pub proof fn lemma_seq_lt_trans(a: Seq<char>, b: Seq<char>, c: Seq<char>)
    requires
        seq_lt(a, b),
        seq_lt(b, c),
    ensures
        seq_lt(a, c),
    decreases a.len(),
{
    if a.len() > 0 && b.len() > 0 && c.len() > 0 && a[0] == b[0] && b[0] == c[0] {
        lemma_seq_lt_trans(a.drop_first(), b.drop_first(), c.drop_first());
    }
}

/// Two sequences are equal or one is `seq_lt` the other.
pub proof fn lemma_seq_lt_total(a: Seq<char>, b: Seq<char>)
    ensures
        a == b || seq_lt(a, b) || seq_lt(b, a),
    decreases a.len(),
{
    if a.len() > 0 && b.len() > 0 && a[0] == b[0] {
        lemma_seq_lt_total(a.drop_first(), b.drop_first());
        if a.drop_first() == b.drop_first() {
            assert(a =~= seq![a[0]] + a.drop_first());
            assert(b =~= seq![b[0]] + b.drop_first());
        }
    } else if a.len() == 0 && b.len() == 0 {
        assert(a =~= b);
    }
}

/// `a < b` and `b <= c` give `a < c`.
pub proof fn lemma_seq_lt_trans_le(a: Seq<char>, b: Seq<char>, c: Seq<char>)
    requires
        seq_lt(a, b),
        !seq_lt(c, b),
    ensures
        seq_lt(a, c),
{
    lemma_seq_lt_total(b, c);
    if b != c {
        lemma_seq_lt_trans(a, b, c);
    }
}

pub open spec fn year_key(p: Paper) -> int {
    match p.year {
        Some(y) => y as int,
        None => i32::MIN as int,
    }
}

pub open spec fn rating_key(p: Paper) -> int {
    match p.rating {
        Some(r) => r as int,
        None => 0,
    }
}

/// Strictly before in the order `key` sorts by.
pub open spec fn sorts_before(key: SortKey, a: Paper, b: Paper) -> bool {
    match key {
        SortKey::Priority => a.priority.rank() > b.priority.rank() || (a.priority.rank()
            == b.priority.rank() && (seq_lt(a.added_at@, b.added_at@) || (a.added_at@
            == b.added_at@ && a.id < b.id))),
        SortKey::Added => seq_lt(b.added_at@, a.added_at@) || (a.added_at@ == b.added_at@ && b.id
            < a.id),
        SortKey::Year => year_key(b) < year_key(a) || (year_key(a) == year_key(b) && a.id < b.id),
        SortKey::Title => seq_lt(lowercase(a.title@), lowercase(b.title@)),
        SortKey::Rating => rating_key(b) < rating_key(a) || (rating_key(a) == rating_key(b) && a.id
            < b.id),
    }
}

/// `x` placed in `s` just before the first element it sorts before.
pub open spec fn insert_sorted(key: SortKey, s: Seq<Paper>, x: Paper) -> Seq<Paper>
    decreases s.len(),
{
    if s.len() == 0 {
        seq![x]
    } else if sorts_before(key, x, s[0]) {
        seq![x] + s
    } else {
        seq![s[0]] + insert_sorted(key, s.drop_first(), x)
    }
}

/// The stable sort of `s` by `key`: equal papers keep their order.
pub open spec fn sorted_by(key: SortKey, s: Seq<Paper>) -> Seq<Paper>
    decreases s.len(),
{
    if s.len() == 0 {
        seq![]
    } else {
        insert_sorted(key, sorted_by(key, s.drop_last()), s.last())
    }
}

/// Inserting adds one element.
pub proof fn lemma_insert_sorted_len(key: SortKey, s: Seq<Paper>, x: Paper)
    ensures
        insert_sorted(key, s, x).len() == s.len() + 1,
    decreases s.len(),
{
    if s.len() > 0 && !sorts_before(key, x, s[0]) {
        lemma_insert_sorted_len(key, s.drop_first(), x);
    }
}

/// Sorting keeps the length.
pub proof fn lemma_sorted_by_len(key: SortKey, s: Seq<Paper>)
    ensures
        sorted_by(key, s).len() == s.len(),
    decreases s.len(),
{
    if s.len() > 0 {
        lemma_sorted_by_len(key, s.drop_last());
        lemma_insert_sorted_len(key, sorted_by(key, s.drop_last()), s.last());
    }
}

/// The sort key a word names.
pub open spec fn sort_key_of(w: Seq<char>) -> Option<SortKey> {
    if w == "priority"@ || w == "prio"@ || w == "p"@ {
        Some(SortKey::Priority)
    } else if w == "added"@ || w == "a"@ {
        Some(SortKey::Added)
    } else if w == "year"@ || w == "y"@ {
        Some(SortKey::Year)
    } else if w == "title"@ || w == "t"@ {
        Some(SortKey::Title)
    } else if w == "rating"@ || w == "r"@ {
        Some(SortKey::Rating)
    } else {
        None
    }
}

pub fn seq_lt_exec(a: &[char], b: &[char]) -> (r: bool)
    ensures
        r == seq_lt(a@, b@),
{
    let mut i: usize = 0;
    assert(a@.skip(0) =~= a@);
    assert(b@.skip(0) =~= b@);
    loop
        invariant
            i <= a@.len(),
            i <= b@.len(),
            seq_lt(a@, b@) == seq_lt(a@.skip(i as int), b@.skip(i as int)),
        decreases a@.len() - i,
    {
        if i == a.len() {
            return i < b.len();
        }
        if i == b.len() {
            return false;
        }
        assert(a@.skip(i as int)[0] == a@[i as int]);
        assert(b@.skip(i as int)[0] == b@[i as int]);
        if a[i] != b[i] {
            return a[i] < b[i];
        }
        assert(a@.skip(i as int).drop_first() =~= a@.skip(i + 1));
        assert(b@.skip(i as int).drop_first() =~= b@.skip(i + 1));
        i += 1;
    }
}

fn before_exec(key: SortKey, a: &Paper, b: &Paper) -> (r: bool)
    ensures
        r == sorts_before(key, *a, *b),
{
    match key {
        SortKey::Priority => {
            let ra = a.priority.to_int();
            let rb = b.priority.to_int();
            if ra != rb {
                return ra > rb;
            }
            let aa = chars_of(a.added_at.as_str());
            let ba = chars_of(b.added_at.as_str());
            if seq_lt_exec(aa.as_slice(), ba.as_slice()) {
                return true;
            }
            str_eq(a.added_at.as_str(), b.added_at.as_str()) && a.id < b.id
        },
        SortKey::Added => {
            let aa = chars_of(a.added_at.as_str());
            let ba = chars_of(b.added_at.as_str());
            if seq_lt_exec(ba.as_slice(), aa.as_slice()) {
                return true;
            }
            str_eq(a.added_at.as_str(), b.added_at.as_str()) && b.id < a.id
        },
        SortKey::Year => {
            let ya: i32 = match a.year {
                Some(y) => y,
                None => i32::MIN,
            };
            let yb: i32 = match b.year {
                Some(y) => y,
                None => i32::MIN,
            };
            yb < ya || (ya == yb && a.id < b.id)
        },
        SortKey::Title => {
            let ta = chars_of(a.title.as_str());
            let tb = chars_of(b.title.as_str());
            let la = lowercase_chars(ta.as_slice());
            let lb = lowercase_chars(tb.as_slice());
            seq_lt_exec(la.as_slice(), lb.as_slice())
        },
        SortKey::Rating => {
            let ra: i64 = match a.rating {
                Some(r) => r,
                None => 0,
            };
            let rb: i64 = match b.rating {
                Some(r) => r,
                None => 0,
            };
            rb < ra || (ra == rb && a.id < b.id)
        },
    }
}

/// Sort stably by `key`.
pub fn sort_by_key(papers: &mut Vec<Paper>, key: SortKey)
    ensures
        final(papers)@ == sorted_by(key, old(papers)@),
{
    let mut input: Vec<Paper> = Vec::new();
    std::mem::swap(&mut input, papers);
    let ghost orig = input@;
    let mut out: Vec<Paper> = Vec::new();
    let mut i: usize = 0;
    let n = input.len();
    assert(orig.take(0) =~= seq![]);
    while input.len() > 0
        invariant
            i + input@.len() == n == orig.len(),
            input@ == orig.skip(i as int),
            out@ == sorted_by(key, orig.take(i as int)),
        decreases input@.len(),
    {
        let x = input.remove(0);
        assert(orig.take(i + 1).drop_last() =~= orig.take(i as int));
        assert(orig.take(i + 1).last() == x);
        assert(input@ =~= orig.skip(i + 1));
        let ghost s = out@;
        let mut k: usize = 0;
        assert(s.skip(0) =~= s);
        while k < out.len() && !before_exec(key, &x, &out[k])
            invariant
                k <= out@.len(),
                out@ == s,
                insert_sorted(key, s, x) == s.take(k as int) + insert_sorted(key, s.skip(k as int), x),
            decreases out@.len() - k,
        {
            assert(s.skip(k as int)[0] == s[k as int]);
            assert(s.skip(k as int).drop_first() =~= s.skip(k + 1));
            assert(s.take(k + 1) =~= s.take(k as int).push(s[k as int]));
            assert(s.take(k as int) + insert_sorted(key, s.skip(k as int), x) =~= s.take(k + 1)
                + insert_sorted(key, s.skip(k + 1), x));
            k += 1;
        }
        out.insert(k, x);
        assert(out@ =~= s.take(k as int) + insert_sorted(key, s.skip(k as int), x)) by {
            if k < s.len() {
                assert(s.skip(k as int)[0] == s[k as int]);
                assert(seq![x] + s.skip(k as int) =~= insert_sorted(key, s.skip(k as int), x));
            } else {
                assert(s.skip(k as int) =~= seq![]);
            }
        }
        i += 1;
    }
    assert(orig.take(i as int) =~= orig);
    *papers = out;
}

/// Sort for `list --sort`: the word picks the key, an unknown word is an error
/// (and leaves the papers as they were).
pub fn sort_papers(papers: &mut Vec<Paper>, sort: &str) -> (r: Result<(), CliError>)
    ensures
        match sort_key_of(sort@) {
            Some(k) => r is Ok && final(papers)@ == sorted_by(k, old(papers)@),
            None => (r matches Err(CliError::UnknownSort(w)) && w@ == sort@) && final(papers)@
                == old(papers)@,
        },
{
    let key = if str_eq(sort, "priority") || str_eq(sort, "prio") || str_eq(sort, "p") {
        SortKey::Priority
    } else if str_eq(sort, "added") || str_eq(sort, "a") {
        SortKey::Added
    } else if str_eq(sort, "year") || str_eq(sort, "y") {
        SortKey::Year
    } else if str_eq(sort, "title") || str_eq(sort, "t") {
        SortKey::Title
    } else if str_eq(sort, "rating") || str_eq(sort, "r") {
        SortKey::Rating
    } else {
        return Err(CliError::UnknownSort(sort.to_owned()));
    };
    sort_by_key(papers, key);
    Ok(())
}


// ---------------------------------------------------------------------------
// Filters
// ---------------------------------------------------------------------------

/// The first word that names no status.
pub open spec fn first_unknown_status(ws: Seq<Seq<char>>) -> Option<int>
    decreases ws.len(),
{
    if ws.len() == 0 {
        None
    } else if status_from_word(lowercase(ws[0])) is None {
        Some(0)
    } else {
        match first_unknown_status(ws.drop_first()) {
            Some(k) => Some(k + 1),
            None => None,
        }
    }
}

/// The statuses named by the words (all of them known).
pub open spec fn statuses_of(ws: Seq<Seq<char>>) -> Seq<Status> {
    ws.map_values(|w: Seq<char>| status_from_word(lowercase(w))->0)
}

/// The statuses the words name; the first unknown word is an error.
pub fn parse_statuses(words: &[String]) -> (r: Result<Vec<Status>, CliError>)
    ensures
        match first_unknown_status(strings_view(words@)) {
            None => (r matches Ok(v) && v@ == statuses_of(strings_view(words@))),
            Some(k) => r matches Err(CliError::UnknownStatus(w)) && w@ == words@[k]@,
        },
{
    let ghost wv = strings_view(words@);
    let mut out: Vec<Status> = Vec::new();
    let mut i: usize = 0;
    assert(wv.skip(0) =~= wv);
    while i < words.len()
        invariant
            i <= words@.len() == wv.len(),
            wv == strings_view(words@),
            forall|j: int| 0 <= j < i ==> status_from_word(lowercase(#[trigger] wv[j])) is Some,
            first_unknown_status(wv) == match first_unknown_status(wv.skip(i as int)) {
                Some(k) => Some(k + i),
                None => None::<int>,
            },
            out@ == statuses_of(wv.take(i as int)),
        decreases words.len() - i,
    {
        assert(wv.skip(i as int)[0] == words@[i as int]@);
        assert(wv.skip(i as int).drop_first() =~= wv.skip(i + 1));
        let st = parse_status(words[i].as_str())?;
        out.push(st);
        assert(out@ =~= statuses_of(wv.take(i + 1)));
        i += 1;
    }
    assert(wv.skip(i as int) =~= seq![]);
    assert(wv.take(i as int) =~= wv);
    Ok(out)
}

/// The statuses `list` shows: every status with `--all`, the queue (to-read
/// and reading) when none are named, else those named.
pub fn list_statuses(words: &[String], all: bool) -> (r: Result<Vec<Status>, CliError>)
    ensures
        all ==> (r matches Ok(v) && v@ == Seq::<Status>::empty()),
        !all && words@.len() == 0 ==> (r matches Ok(v) && v@ == seq![Status::ToRead, Status::Reading]),
        !all && words@.len() > 0 ==> match first_unknown_status(strings_view(words@)) {
            None => (r matches Ok(v) && v@ == statuses_of(strings_view(words@))),
            Some(k) => r matches Err(CliError::UnknownStatus(w)) && w@ == words@[k]@,
        },
{
    if all {
        let v: Vec<Status> = Vec::new();
        assert(v@ =~= Seq::<Status>::empty());
        Ok(v)
    } else if words.len() == 0 {
        let v: Vec<Status> = vec![Status::ToRead, Status::Reading];
        assert(v@ =~= seq![Status::ToRead, Status::Reading]);
        Ok(v)
    } else {
        parse_statuses(words)
    }
}

/// The paper carries every one of the tags.
pub open spec fn has_tags(p: Paper, tags: Seq<Seq<char>>) -> bool {
    forall|i: int| 0 <= i < tags.len() ==> strings_view(p.tags@).contains(#[trigger] tags[i])
}

/// What `list`, `export` and `next` keep: a wanted status (any if none are
/// given), all the tags, the author text (case-insensitively), the year.
pub open spec fn keeps(
    p: Paper,
    statuses: Seq<Status>,
    tags: Seq<Seq<char>>,
    author: Option<Seq<char>>,
    year: Option<i32>,
) -> bool {
    &&& (statuses.len() == 0 || statuses.contains(p.status))
    &&& has_tags(p, tags)
    &&& match author {
        Some(a) => contains_seq(lowercase(p.authors@), lowercase(a)),
        None => true,
    }
    &&& match year {
        Some(y) => p.year == Some(y),
        None => true,
    }
}

/// The papers that `keeps`, in their order.
pub open spec fn kept(
    ps: Seq<Paper>,
    statuses: Seq<Status>,
    tags: Seq<Seq<char>>,
    author: Option<Seq<char>>,
    year: Option<i32>,
) -> Seq<Paper>
    decreases ps.len(),
{
    if ps.len() == 0 {
        seq![]
    } else {
        let rest = kept(ps.drop_last(), statuses, tags, author, year);
        if keeps(ps.last(), statuses, tags, author, year) {
            rest.push(ps.last())
        } else {
            rest
        }
    }
}

fn has_tags_exec(p: &Paper, tags: &[String]) -> (r: bool)
    ensures
        r == has_tags(*p, strings_view(tags@)),
{
    let mut i: usize = 0;
    while i < tags.len()
        invariant
            i <= tags@.len(),
            forall|j: int| 0 <= j < i ==> strings_view(p.tags@).contains(
                #[trigger] strings_view(tags@)[j],
            ),
        decreases tags.len() - i,
    {
        if !contains_string(&p.tags, &tags[i]) {
            assert(strings_view(tags@)[i as int] == tags@[i as int]@);
            return false;
        }
        assert(strings_view(tags@)[i as int] == tags@[i as int]@);
        i += 1;
    }
    true
}

fn keeps_exec(
    p: &Paper,
    statuses: &[Status],
    tags: &[String],
    author: Option<&str>,
    year: Option<i32>,
) -> (r: bool)
    ensures
        r == keeps(*p, statuses@, strings_view(tags@), opt_str(author), year),
{
    let mut status_ok = statuses.len() == 0;
    let mut i: usize = 0;
    while i < statuses.len()
        invariant
            i <= statuses@.len(),
            status_ok == (statuses@.len() == 0 || statuses@.take(i as int).contains(p.status)),
        decreases statuses.len() - i,
    {
        let ghost prev = statuses@.take(i as int);
        let hit = statuses[i] == p.status;
        if hit {
            status_ok = true;
        }
        proof {
            let t = statuses@.take(i + 1);
            assert(t =~= prev.push(statuses@[i as int]));
            if hit {
                assert(t[i as int] == p.status);
            }
            if prev.contains(p.status) {
                let k = choose|k: int| 0 <= k < prev.len() && prev[k] == p.status;
                assert(t[k] == p.status);
            }
            if t.contains(p.status) {
                let k = choose|k: int| 0 <= k < t.len() && t[k] == p.status;
                if k < i {
                    assert(prev[k] == p.status);
                }
            }
        }
        i += 1;
    }
    assert(statuses@.take(i as int) =~= statuses@);
    if !status_ok {
        return false;
    }
    if !has_tags_exec(p, tags) {
        return false;
    }
    match author {
        Some(a) => {
            let pa = chars_of(p.authors.as_str());
            let pl = lowercase_chars(pa.as_slice());
            let al = crate::text::to_lowercase(a);
            if !contains_str(pl.as_slice(), al.as_str()) {
                return false;
            }
        },
        None => {},
    }
    match year {
        Some(y) => p.year == Some(y),
        None => true,
    }
}

pub open spec fn opt_str(o: Option<&str>) -> Option<Seq<char>> {
    match o {
        Some(s) => Some(s@),
        None => None,
    }
}

/// The papers with a wanted status (any, if `statuses` is empty), all the
/// `tags`, the `author` text in their authors (case-insensitively) and the
/// `year`, in their original order.
pub fn filter_papers(
    papers: Vec<Paper>,
    statuses: &[Status],
    tags: &[String],
    author: Option<&str>,
    year: Option<i32>,
) -> (r: Vec<Paper>)
    ensures
        r@ == kept(papers@, statuses@, strings_view(tags@), opt_str(author), year),
{
    let ghost orig = papers@;
    let mut input = papers;
    let n = input.len();
    let mut out: Vec<Paper> = Vec::new();
    let mut i: usize = 0;
    assert(orig.take(0) =~= seq![]);
    while input.len() > 0
        invariant
            i + input@.len() == n == orig.len(),
            input@ == orig.skip(i as int),
            out@ == kept(orig.take(i as int), statuses@, strings_view(tags@), opt_str(author), year),
        decreases input@.len(),
    {
        let p = input.remove(0);
        assert(orig.take(i + 1).drop_last() =~= orig.take(i as int));
        assert(orig.take(i + 1).last() == p);
        assert(input@ =~= orig.skip(i + 1));
        if keeps_exec(&p, statuses, tags, author, year) {
            out.push(p);
        }
        i += 1;
    }
    assert(orig.take(i as int) =~= orig);
    out
}

// ---------------------------------------------------------------------------
// Status transitions
// ---------------------------------------------------------------------------

/// `r` is `p` except for status, timestamps and rating.
pub open spec fn same_metadata(r: Paper, p: Paper) -> bool {
    &&& r.id == p.id
    &&& r.title == p.title
    &&& r.authors == p.authors
    &&& r.year == p.year
    &&& r.venue == p.venue
    &&& r.arxiv_id == p.arxiv_id
    &&& r.doi == p.doi
    &&& r.url == p.url
    &&& r.pdf_url == p.pdf_url
    &&& r.abstract_ == p.abstract_
    &&& r.priority == p.priority
    &&& r.tags == p.tags
    &&& r.added_at == p.added_at
    &&& r.notes == p.notes
}

fn some_string(s: &str) -> (r: Option<String>)
    ensures
        opt_view(r) == Some(s@),
{
    Some(s.to_owned())
}

/// `start`, `done` and `drop`: the new status; reading restarts the clock
/// (started now, not finished), read stamps the finish, a rating is set.
pub fn mark_status(p: Paper, status: Status, rating: Option<i64>, now: &str) -> (r: Paper)
    ensures
        same_metadata(r, p),
        r.status == status,
        opt_view(r.started_at) == (if status == Status::Reading {
            Some(now@)
        } else {
            opt_view(p.started_at)
        }),
        opt_view(r.finished_at) == (if status == Status::Reading {
            None
        } else if status == Status::Read {
            Some(now@)
        } else {
            opt_view(p.finished_at)
        }),
        r.rating == (match rating {
            Some(x) => Some(x),
            None => p.rating,
        }),
{
    let mut p = p;
    p.status = status;
    match status {
        Status::Reading => {
            p.started_at = some_string(now);
            p.finished_at = None;
        },
        Status::Read => {
            p.finished_at = some_string(now);
        },
        _ => {},
    }
    match rating {
        Some(x) => {
            p.rating = Some(x);
        },
        None => {},
    }
    p
}

// ---------------------------------------------------------------------------
// list and export
// ---------------------------------------------------------------------------

/// The statuses `list` keeps: every status with `--all`, the queue when
/// none are named, else those named (all known).
pub open spec fn listed_statuses(words: Seq<Seq<char>>, all: bool) -> Seq<Status> {
    if all {
        seq![]
    } else if words.len() == 0 {
        seq![Status::ToRead, Status::Reading]
    } else {
        statuses_of(words)
    }
}

/// `s` reversed when asked.
pub open spec fn maybe_reversed(s: Seq<Paper>, reverse: bool) -> Seq<Paper> {
    if reverse {
        s.reverse()
    } else {
        s
    }
}

/// At most `limit` of the papers, from the front.
pub open spec fn limited(s: Seq<Paper>, limit: Option<usize>) -> Seq<Paper> {
    match limit {
        Some(n) => if n < s.len() {
            s.take(n as int)
        } else {
            s
        },
        None => s,
    }
}

fn reverse_papers(v: Vec<Paper>) -> (r: Vec<Paper>)
    ensures
        r@ == v@.reverse(),
{
    let ghost orig = v@;
    let mut input = v;
    let mut out: Vec<Paper> = Vec::new();
    while input.len() > 0
        invariant
            out@ + input@.reverse() == orig.reverse(),
        decreases input@.len(),
    {
        let ghost before = input@;
        let x = input.pop().unwrap();
        assert(before =~= input@.push(x));
        assert(before.reverse() =~= seq![x] + input@.reverse());
        let ghost o = out@;
        out.push(x);
        assert(out@ + input@.reverse() =~= o + before.reverse());
    }
    assert(input@.reverse() =~= seq![]);
    assert(out@ + seq![] =~= out@);
    out
}

/// What `list` shows: the papers with a listed status, all the (normalized)
/// tags, the author text and the year, sorted by the key `sort` names,
/// reversed when asked, cut to `limit`; with the count before the cut. An
/// unknown status word, then an unknown sort key, is refused.
pub fn list_papers(
    papers: Vec<Paper>,
    statuses: &[String],
    tags: &[String],
    author: Option<&str>,
    year: Option<i32>,
    sort: &str,
    reverse: bool,
    limit: Option<usize>,
    all: bool,
) -> (r: Result<(Vec<Paper>, usize), CliError>)
    ensures
        !all && statuses@.len() > 0 && first_unknown_status(strings_view(statuses@)) is Some ==> (
        r matches Err(e) && e@ == CliErrorView::UnknownStatus(
            statuses@[first_unknown_status(strings_view(statuses@))->0]@,
        )),
        (all || statuses@.len() == 0 || first_unknown_status(strings_view(statuses@)) is None)
            ==> match sort_key_of(sort@) {
            None => (r matches Err(e) && e@ == CliErrorView::UnknownSort(sort@)),
            Some(key) => (r matches Ok(out) && {
                let chosen = maybe_reversed(
                    sorted_by(
                        key,
                        kept(
                            papers@,
                            listed_statuses(strings_view(statuses@), all),
                            normalized_tags(strings_view(tags@)),
                            opt_str(author),
                            year,
                        ),
                    ),
                    reverse,
                );
                &&& out.1 == chosen.len()
                &&& out.0@ == limited(chosen, limit)
            }),
        },
{
    let wanted = list_statuses(statuses, all)?;
    let tag_filter = normalize_tags(tags);
    let mut chosen = filter_papers(papers, wanted.as_slice(), tag_filter.as_slice(), author, year);
    sort_papers(&mut chosen, sort)?;
    if reverse {
        chosen = reverse_papers(chosen);
    }
    let total = chosen.len();
    match limit {
        Some(n) => {
            if n < chosen.len() {
                chosen.truncate(n);
            }
        },
        None => {},
    }
    Ok((chosen, total))
}

/// What `list` prints after (or instead of) the table: a note that `-n`
/// hid everything, or how many more there are.
pub fn list_footer(shown: usize, total: usize) -> (r: Option<String>)
    requires
        shown <= total,
    ensures
        shown == 0 && total > 0 ==> (r matches Some(m) && m@ == nat_str(total as nat)
            + " papers hidden by -n; raise the limit"@),
        shown > 0 && shown < total ==> (r matches Some(m) && m@ == "… and "@ + nat_str(
            (total - shown) as nat,
        ) + " more (use -n to adjust)"@),
        shown == total ==> r is None,
{
    if shown == 0 && total > 0 {
        let mut m = string_of(nat_chars(total as u64).as_slice());
        m.append(" papers hidden by -n; raise the limit");
        Some(m)
    } else if shown < total {
        let mut m = "… and ".to_owned();
        m.append(string_of(nat_chars((total - shown) as u64).as_slice()).as_str());
        m.append(" more (use -n to adjust)");
        Some(m)
    } else {
        None
    }
}

/// What `export` writes: the papers with one of the named statuses (any, if
/// none are named) and all the (normalized) tags, in list order; an unknown
/// status word is refused.
pub fn export_selection(papers: Vec<Paper>, statuses: &[String], tags: &[String]) -> (r: Result<
    Vec<Paper>,
    CliError,
>)
    ensures
        match first_unknown_status(strings_view(statuses@)) {
            Some(k) => (r matches Err(e) && e@ == CliErrorView::UnknownStatus(statuses@[k]@)),
            None => (r matches Ok(v) && v@ == kept(
                papers@,
                statuses_of(strings_view(statuses@)),
                normalized_tags(strings_view(tags@)),
                None,
                None,
            )),
        },
{
    let wanted = parse_statuses(statuses)?;
    let tag_filter = normalize_tags(tags);
    Ok(filter_papers(papers, wanted.as_slice(), tag_filter.as_slice(), None, None))
}

// ---------------------------------------------------------------------------
// Sorting keeps every paper and orders them
// ---------------------------------------------------------------------------

/// No paper sorts before itself.
proof fn lemma_before_irrefl(key: SortKey, a: Paper)
    ensures
        !sorts_before(key, a, a),
{
    lemma_seq_lt_irrefl(a.added_at@);
    lemma_seq_lt_irrefl(lowercase(a.title@));
}

/// Two papers never sort before each other both ways.
proof fn lemma_before_asym(key: SortKey, a: Paper, b: Paper)
    ensures
        sorts_before(key, a, b) ==> !sorts_before(key, b, a),
{
    lemma_seq_lt_asym(a.added_at@, b.added_at@);
    lemma_seq_lt_asym(b.added_at@, a.added_at@);
    lemma_seq_lt_asym(lowercase(a.title@), lowercase(b.title@));
    lemma_seq_lt_irrefl(a.added_at@);
}

/// Sorting before is transitive.
proof fn lemma_before_trans(key: SortKey, a: Paper, b: Paper, c: Paper)
    requires
        sorts_before(key, a, b),
        sorts_before(key, b, c),
    ensures
        sorts_before(key, a, c),
{
    if seq_lt(a.added_at@, b.added_at@) && seq_lt(b.added_at@, c.added_at@) {
        lemma_seq_lt_trans(a.added_at@, b.added_at@, c.added_at@);
    }
    if seq_lt(c.added_at@, b.added_at@) && seq_lt(b.added_at@, a.added_at@) {
        lemma_seq_lt_trans(c.added_at@, b.added_at@, a.added_at@);
    }
    if seq_lt(lowercase(a.title@), lowercase(b.title@)) && seq_lt(
        lowercase(b.title@),
        lowercase(c.title@),
    ) {
        lemma_seq_lt_trans(lowercase(a.title@), lowercase(b.title@), lowercase(c.title@));
    }
}

/// Where `insert_sorted` puts `x`: before the first element it sorts before.
pub open spec fn insert_pos(key: SortKey, s: Seq<Paper>, x: Paper) -> int
    decreases s.len(),
{
    if s.len() == 0 {
        0
    } else if sorts_before(key, x, s[0]) {
        0
    } else {
        insert_pos(key, s.drop_first(), x) + 1
    }
}

proof fn lemma_insert_pos(key: SortKey, s: Seq<Paper>, x: Paper)
    ensures
        0 <= insert_pos(key, s, x) <= s.len(),
        insert_sorted(key, s, x) == s.insert(insert_pos(key, s, x), x),
        forall|j: int| 0 <= j < insert_pos(key, s, x) ==> !sorts_before(key, x, #[trigger] s[j]),
        insert_pos(key, s, x) < s.len() ==> sorts_before(key, x, s[insert_pos(key, s, x)]),
    decreases s.len(),
{
    if s.len() == 0 {
        assert(s.insert(0, x) =~= seq![x]);
    } else if sorts_before(key, x, s[0]) {
        assert(s.insert(0, x) =~= seq![x] + s);
    } else {
        let t = s.drop_first();
        lemma_insert_pos(key, t, x);
        let p = insert_pos(key, t, x);
        assert(s.insert(p + 1, x) =~= seq![s[0]] + t.insert(p, x));
        assert forall|j: int| 0 <= j < p + 1 implies !sorts_before(key, x, #[trigger] s[j]) by {
            if j > 0 {
                assert(s[j] == t[j - 1]);
            }
        }
        if p < t.len() {
            assert(s[p + 1] == t[p]);
        }
    }
}

/// The papers are in order: none sorts before one that comes earlier.
pub open spec fn in_order(key: SortKey, s: Seq<Paper>) -> bool {
    forall|i: int, j: int| 0 <= i < j < s.len() ==> !sorts_before(key, #[trigger] s[j], #[trigger] s[i])
}

proof fn lemma_insert_keeps_order(key: SortKey, s: Seq<Paper>, x: Paper)
    requires
        in_order(key, s),
    ensures
        in_order(key, insert_sorted(key, s, x)),
{
    lemma_insert_pos(key, s, x);
    let p = insert_pos(key, s, x);
    let r = insert_sorted(key, s, x);
    assert forall|i: int, j: int| 0 <= i < j < r.len() implies !sorts_before(
        key,
        #[trigger] r[j],
        #[trigger] r[i],
    ) by {
        if i < p && j < p {
            assert(r[i] == s[i] && r[j] == s[j]);
        } else if i < p && j == p {
            assert(r[i] == s[i] && r[j] == x);
        } else if i < p && j > p {
            assert(r[i] == s[i] && r[j] == s[j - 1]);
        } else if i == p {
            assert(r[i] == x && r[j] == s[j - 1]);
            lemma_before_asym(key, x, s[p]);
            if j - 1 > p {
                assert(!sorts_before(key, s[j - 1], s[p]));
                if sorts_before(key, s[j - 1], x) {
                    lemma_before_trans(key, s[j - 1], x, s[p]);
                }
            }
        } else {
            assert(r[i] == s[i - 1] && r[j] == s[j - 1]);
        }
    }
}

proof fn lemma_sorted_by_in_order(key: SortKey, s: Seq<Paper>)
    ensures
        in_order(key, sorted_by(key, s)),
        sorted_by(key, s).to_multiset() == s.to_multiset(),
    decreases s.len(),
{
    broadcast use vstd::seq_lib::group_to_multiset_ensures;

    if s.len() == 0 {
        assert(sorted_by(key, s) =~= s);
    } else {
        let t = s.drop_last();
        lemma_sorted_by_in_order(key, t);
        lemma_insert_keeps_order(key, sorted_by(key, t), s.last());
        lemma_insert_pos(key, sorted_by(key, t), s.last());
        assert(t.push(s.last()) =~= s);
    }
}

/// Sorting the list (`list --sort`, `next`) puts it in order, so that no
/// paper comes after one it sorts before, and keeps every paper: the result
/// holds the same papers, each as often.
pub proof fn sorting_orders_and_keeps(key: SortKey, s: Seq<Paper>)
    ensures
        forall|i: int, j: int|
            0 <= i < j < sorted_by(key, s).len() ==> !sorts_before(
                key,
                #[trigger] sorted_by(key, s)[j],
                #[trigger] sorted_by(key, s)[i],
            ),
        sorted_by(key, s).to_multiset() == s.to_multiset(),
{
    lemma_sorted_by_in_order(key, s);
}

/// Sorting by title puts the papers in the order of their lowercased
/// titles: no paper comes after one whose lowercased title sorts after its
/// own, so capitals do not move a title ahead of lowercase ones.
pub proof fn title_sort_ignores_case(s: Seq<Paper>)
    ensures
        forall|i: int, j: int|
            0 <= i < j < sorted_by(SortKey::Title, s).len() ==> !seq_lt(
                lowercase((#[trigger] sorted_by(SortKey::Title, s)[j]).title@),
                lowercase((#[trigger] sorted_by(SortKey::Title, s)[i]).title@),
            ),
        sorted_by(SortKey::Title, s).to_multiset() == s.to_multiset(),
{
    sorting_orders_and_keeps(SortKey::Title, s);
    let r = sorted_by(SortKey::Title, s);
    assert forall|i: int, j: int| 0 <= i < j < r.len() implies !seq_lt(
        lowercase((#[trigger] r[j]).title@),
        lowercase((#[trigger] r[i]).title@),
    ) by {
        assert(!sorts_before(SortKey::Title, r[j], r[i]));
    }
}

/// What `next` suggests (the first of the queue in priority order) is in
/// the queue, and no paper of the queue outranks it.
pub proof fn next_pick_is_not_outranked(queue: Seq<Paper>)
    requires
        queue.len() > 0,
    ensures
        queue.contains(sorted_by(SortKey::Priority, queue)[0]),
        forall|k: int|
            0 <= k < queue.len() ==> !sorts_before(
                SortKey::Priority,
                #[trigger] queue[k],
                sorted_by(SortKey::Priority, queue)[0],
            ),
{
    broadcast use vstd::seq_lib::group_to_multiset_ensures;

    let r = sorted_by(SortKey::Priority, queue);
    lemma_sorted_by_in_order(SortKey::Priority, queue);
    lemma_sorted_by_len(SortKey::Priority, queue);
    assert(r.contains(r[0]));
    assert(r.to_multiset().count(r[0]) > 0);
    assert forall|k: int| 0 <= k < queue.len() implies !sorts_before(
        SortKey::Priority,
        #[trigger] queue[k],
        r[0],
    ) by {
        assert(queue.contains(queue[k]));
        assert(queue.to_multiset().count(queue[k]) > 0);
        assert(r.contains(queue[k]));
        let j = choose|j: int| 0 <= j < r.len() && r[j] == queue[k];
        if j == 0 {
            lemma_before_irrefl(SortKey::Priority, queue[k]);
        }
    }
}

} // verus!
