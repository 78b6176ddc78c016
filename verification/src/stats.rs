//! What `stats`, `tags` and `next` compute from the list.

use vstd::prelude::*;
use crate::commands::{
    SortKey, filter_papers, kept, lemma_seq_lt_asym, lemma_seq_lt_irrefl, lemma_seq_lt_trans_le,
    seq_lt, sort_by_key, sorted_by,
};
use crate::edit::tags_added;
use crate::model::{Paper, Status, normalize_tags, normalized_tags, strings_view};
use crate::text::{chars_of, nat_chars, nat_str, starts_with, starts_with_chars, string_of};

verus! {

// ---------------------------------------------------------------------------
// stats
// ---------------------------------------------------------------------------

/// How many of the papers have status `s`.
pub open spec fn status_count(ps: Seq<Paper>, s: Status) -> nat
    decreases ps.len(),
{
    if ps.len() == 0 {
        0
    } else {
        status_count(ps.drop_last(), s) + if ps.last().status == s {
            1nat
        } else {
            0nat
        }
    }
}

/// The number of papers with status `s`.
pub fn count_with_status(papers: &[Paper], s: Status) -> (r: usize)
    ensures
        r == status_count(papers@, s),
{
    let mut n: usize = 0;
    let mut i: usize = 0;
    while i < papers.len()
        invariant
            i <= papers@.len(),
            n == status_count(papers@.take(i as int), s),
            n <= i,
        decreases papers.len() - i,
    {
        assert(papers@.take(i + 1).drop_last() =~= papers@.take(i as int));
        if papers[i].status == s {
            n += 1;
        }
        i += 1;
    }
    assert(papers@.take(i as int) =~= papers@);
    n
}

/// Read, and finished at a time that starts with `prefix`.
pub open spec fn finished_with(p: Paper, prefix: Seq<char>) -> bool {
    p.status == Status::Read && (p.finished_at matches Some(t) && starts_with(t@, prefix))
}

/// How many papers were finished at a time starting with `prefix`.
pub open spec fn finished_count(ps: Seq<Paper>, prefix: Seq<char>) -> nat
    decreases ps.len(),
{
    if ps.len() == 0 {
        0
    } else {
        finished_count(ps.drop_last(), prefix) + if finished_with(ps.last(), prefix) {
            1nat
        } else {
            0nat
        }
    }
}

/// The number of read papers finished at a time starting with `prefix` (a
/// month "2024-05" or a year "2024").
pub fn count_finished_with_prefix(papers: &[Paper], prefix: &str) -> (r: usize)
    ensures
        r == finished_count(papers@, prefix@),
{
    let pc = chars_of(prefix);
    let mut n: usize = 0;
    let mut i: usize = 0;
    while i < papers.len()
        invariant
            i <= papers@.len(),
            pc@ == prefix@,
            n == finished_count(papers@.take(i as int), prefix@),
            n <= i,
        decreases papers.len() - i,
    {
        assert(papers@.take(i + 1).drop_last() =~= papers@.take(i as int));
        let hit = match &papers[i].finished_at {
            Some(t) => papers[i].status == Status::Read && starts_with_chars(
                chars_of(t.as_str()).as_slice(),
                pc.as_slice(),
            ),
            None => false,
        };
        if hit {
            n += 1;
        }
        i += 1;
    }
    assert(papers@.take(i as int) =~= papers@);
    n
}

/// The sum of the ratings given.
pub open spec fn rating_sum(ps: Seq<Paper>) -> int
    decreases ps.len(),
{
    if ps.len() == 0 {
        0
    } else {
        rating_sum(ps.drop_last()) + match ps.last().rating {
            Some(r) => r as int,
            None => 0,
        }
    }
}

/// How many papers are rated.
pub open spec fn rated_count(ps: Seq<Paper>) -> nat
    decreases ps.len(),
{
    if ps.len() == 0 {
        0
    } else {
        rated_count(ps.drop_last()) + if ps.last().rating is Some {
            1nat
        } else {
            0nat
        }
    }
}

proof fn lemma_rating_sum_bound(ps: Seq<Paper>)
    ensures
        -(ps.len() * 0x8000_0000_0000_0000) <= rating_sum(ps) <= ps.len() * 0x8000_0000_0000_0000,
    decreases ps.len(),
{
    if ps.len() > 0 {
        lemma_rating_sum_bound(ps.drop_last());
        assert(ps.len() * 0x8000_0000_0000_0000 == ps.drop_last().len() * 0x8000_0000_0000_0000
            + 0x8000_0000_0000_0000) by (nonlinear_arith)
            requires
                ps.len() == ps.drop_last().len() + 1,
        ;
    }
}

/// The sum and the number of the ratings given (the average is their quotient).
pub fn rating_totals(papers: &[Paper]) -> (r: (i128, usize))
    ensures
        r.0 == rating_sum(papers@),
        r.1 == rated_count(papers@),
{
    let mut sum: i128 = 0;
    let mut n: usize = 0;
    let mut i: usize = 0;
    while i < papers.len()
        invariant
            i <= papers@.len(),
            sum == rating_sum(papers@.take(i as int)),
            n == rated_count(papers@.take(i as int)),
            n <= i,
        decreases papers.len() - i,
    {
        let ghost t = papers@.take(i + 1);
        assert(t.drop_last() =~= papers@.take(i as int));
        proof {
            lemma_rating_sum_bound(t);
            assert(t.len() <= usize::MAX);
            assert(t.len() * 0x8000_0000_0000_0000 < 0x7fff_ffff_ffff_ffff_ffff_ffff_ffff_ffff)
                by (nonlinear_arith)
                requires
                    t.len() <= 0xffff_ffff_ffff_ffff,
            ;
        }
        match papers[i].rating {
            Some(x) => {
                sum = sum + x as i128;
                n += 1;
            },
            None => {},
        }
        i += 1;
    }
    assert(papers@.take(i as int) =~= papers@);
    (sum, n)
}

/// Index `k` is the first to-read paper added earliest.
pub open spec fn is_oldest_queued(ps: Seq<Paper>, k: int) -> bool {
    &&& 0 <= k < ps.len()
    &&& ps[k].status == Status::ToRead
    &&& forall|j: int|
        0 <= j < ps.len() && #[trigger] ps[j].status == Status::ToRead ==> !seq_lt(
            ps[j].added_at@,
            ps[k].added_at@,
        ) && (j < k ==> seq_lt(ps[k].added_at@, ps[j].added_at@))
}

/// The first to-read paper with the earliest added time, if any is queued.
pub fn oldest_queued(papers: &[Paper]) -> (r: Option<usize>)
    ensures
        match r {
            Some(k) => is_oldest_queued(papers@, k as int),
            None => forall|j: int| 0 <= j < papers@.len() ==> #[trigger] papers@[j].status
                != Status::ToRead,
        },
{
    let mut best: Option<usize> = None;
    let mut i: usize = 0;
    while i < papers.len()
        invariant
            i <= papers@.len(),
            match best {
                Some(k) => k < i && is_oldest_queued(papers@.take(i as int), k as int),
                None => forall|j: int| 0 <= j < i ==> #[trigger] papers@[j].status != Status::ToRead,
            },
        decreases papers.len() - i,
    {
        let ghost t = papers@.take(i + 1);
        assert(forall|j: int| 0 <= j < i ==> t[j] == papers@.take(i as int)[j]);
        if papers[i].status == Status::ToRead {
            match best {
                Some(k) => {
                    let later = chars_of(papers[i].added_at.as_str());
                    let cur = chars_of(papers[k].added_at.as_str());
                    if crate::commands::seq_lt_exec(later.as_slice(), cur.as_slice()) {
                        proof {
                            lemma_seq_lt_asym(papers@[i as int].added_at@, papers@[k as int].added_at@);
                            assert forall|j: int|
                                0 <= j < t.len() && #[trigger] t[j].status == Status::ToRead implies
                                !seq_lt(t[j].added_at@, t[i as int].added_at@) && (j < i ==> seq_lt(
                                t[i as int].added_at@,
                                t[j].added_at@,
                            )) by {
                                if j < i {
                                    assert(papers@.take(i as int)[j] == t[j]);
                                    lemma_seq_lt_trans_le(
                                        t[i as int].added_at@,
                                        t[k as int].added_at@,
                                        t[j].added_at@,
                                    );
                                    lemma_seq_lt_asym(t[i as int].added_at@, t[j].added_at@);
                                } else {
                                    lemma_seq_lt_irrefl(t[j].added_at@);
                                }
                            }
                        }
                        best = Some(i);
                    } else {
                        proof {
                            assert forall|j: int|
                                0 <= j < t.len() && #[trigger] t[j].status == Status::ToRead implies
                                !seq_lt(t[j].added_at@, t[k as int].added_at@) && (j < k ==> seq_lt(
                                t[k as int].added_at@,
                                t[j].added_at@,
                            )) by {
                                if j < i {
                                    assert(papers@.take(i as int)[j] == t[j]);
                                }
                            }
                        }
                    }
                },
                None => {
                    proof {
                        lemma_seq_lt_irrefl(papers@[i as int].added_at@);
                    }
                    best = Some(i);
                },
            }
        } else {
            proof {
                match best {
                    Some(k) => {
                        assert forall|j: int|
                            0 <= j < t.len() && #[trigger] t[j].status == Status::ToRead implies
                            !seq_lt(t[j].added_at@, t[k as int].added_at@) && (j < k ==> seq_lt(
                            t[k as int].added_at@,
                            t[j].added_at@,
                        )) by {
                            if j < i {
                                assert(papers@.take(i as int)[j] == t[j]);
                            }
                        }
                    },
                    None => {},
                }
            }
        }
        i += 1;
    }
    assert(papers@.take(i as int) =~= papers@);
    best
}

/// A label "YYYY-MM": the year padded to four places (a minus sign counting
/// as one), the month to two.
pub open spec fn zero_pad(s: Seq<char>, width: nat) -> Seq<char> {
    if s.len() >= width {
        s
    } else {
        Seq::new((width - s.len()) as nat, |i: int| '0') + s
    }
}

/// The year as `{:04}` prints it.
pub open spec fn year_label(y: int) -> Seq<char> {
    if y < 0 {
        seq!['-'] + zero_pad(nat_str((-y) as nat), 3)
    } else {
        zero_pad(nat_str(y as nat), 4)
    }
}

/// "YYYY-MM" for a year and month.
pub open spec fn month_label(y: int, m: int) -> Seq<char> {
    year_label(y) + seq!['-'] + zero_pad(nat_str(m as nat), 2)
}

/// The month `k` months before `(y, m)`, stepping from January back to the
/// December before.
pub open spec fn months_back(y: int, m: int, k: nat) -> (int, int)
    decreases k,
{
    if k == 0 {
        (y, m)
    } else {
        let (y1, m1) = months_back(y, m, (k - 1) as nat);
        if m1 == 1 {
            (y1 - 1, 12)
        } else {
            (y1, m1 - 1)
        }
    }
}

fn pad_chars(digits: Vec<char>, width: usize) -> (r: Vec<char>)
    ensures
        r@ == zero_pad(digits@, width as nat),
{
    if digits.len() >= width {
        return digits;
    }
    let mut out: Vec<char> = Vec::new();
    let fill = width - digits.len();
    let mut k: usize = 0;
    while k < fill
        invariant
            k <= fill,
            out@ == Seq::new(k as nat, |i: int| '0'),
        decreases fill - k,
    {
        out.push('0');
        assert(out@ =~= Seq::new((k + 1) as nat, |i: int| '0'));
        k += 1;
    }
    out.extend_from_slice(digits.as_slice());
    out
}

/// The "YYYY-MM" label of a month.
pub fn month_label_of(y: i32, m: u32) -> (r: String)
    ensures
        r@ == month_label(y as int, m as int),
{
    let mut out: Vec<char> = Vec::new();
    if y < 0 {
        let a: u64 = (-(y as i64)) as u64;
        out.push('-');
        let d = pad_chars(nat_chars(a), 3);
        out.extend_from_slice(d.as_slice());
    } else {
        let d = pad_chars(nat_chars(y as u64), 4);
        out.extend_from_slice(d.as_slice());
    }
    out.push('-');
    let md = pad_chars(nat_chars(m as u64), 2);
    out.extend_from_slice(md.as_slice());
    assert(out@ =~= month_label(y as int, m as int));
    string_of(out.as_slice())
}

/// The labels of the twelve months up to `(year, month)`, oldest first, for
/// the read-per-month histogram.
pub fn recent_months(year: i32, month: u32) -> (r: Vec<String>)
    requires
        month >= 1,
        year > i32::MIN,
    ensures
        r@.len() == 12,
        forall|i: int|
            0 <= i < 12 ==> #[trigger] r@[i]@ == month_label(
                months_back(year as int, month as int, (11 - i) as nat).0,
                months_back(year as int, month as int, (11 - i) as nat).1,
            ),
{
    let mut labels: Vec<String> = Vec::new();
    let mut y = year;
    let mut m = month;
    let mut k: usize = 0;
    while k < 12
        invariant
            k <= 12,
            labels@.len() == k,
            (y as int, m as int) == months_back(year as int, month as int, k as nat),
            m >= 1,
            year > i32::MIN,
            y == year || (y == year - 1 && m + k >= 13),
            forall|i: int|
                0 <= i < k ==> #[trigger] labels@[i]@ == month_label(
                    months_back(year as int, month as int, i as nat).0,
                    months_back(year as int, month as int, i as nat).1,
                ),
        decreases 12 - k,
    {
        let label = month_label_of(y, m);
        labels.push(label);
        if m == 1 {
            m = 12;
            y = y - 1;
        } else {
            m = m - 1;
        }
        k += 1;
    }
    let mut out: Vec<String> = Vec::new();
    let mut j: usize = 12;
    while j > 0
        invariant
            j <= 12,
            labels@.len() == 12,
            out@.len() == 12 - j,
            forall|i: int|
                0 <= i < 12 ==> #[trigger] labels@[i]@ == month_label(
                    months_back(year as int, month as int, i as nat).0,
                    months_back(year as int, month as int, i as nat).1,
                ),
            forall|i: int| 0 <= i < 12 - j ==> #[trigger] out@[i] == labels@[11 - i],
        decreases j,
    {
        j -= 1;
        out.push(labels[j].clone());
    }
    assert forall|i: int| 0 <= i < 12 implies #[trigger] out@[i]@ == month_label(
        months_back(year as int, month as int, (11 - i) as nat).0,
        months_back(year as int, month as int, (11 - i) as nat).1,
    ) by {
        assert(out@[i] == labels@[11 - i]);
    }
    out
}

/// The largest of the counts (the longest bar of the month histogram), or 0
/// when there are none.
pub fn largest_count(counts: &[usize]) -> (r: usize)
    ensures
        forall|i: int| 0 <= i < counts@.len() ==> counts@[i] <= r,
        counts@.len() == 0 ==> r == 0,
        counts@.len() > 0 ==> exists|i: int| 0 <= i < counts@.len() && counts@[i] == r,
{
    let mut best: usize = 0;
    let mut i: usize = 0;
    while i < counts.len()
        invariant
            i <= counts@.len(),
            forall|j: int| 0 <= j < i ==> counts@[j] <= best,
            i == 0 ==> best == 0,
            i > 0 ==> exists|j: int| 0 <= j < i && counts@[j] == best,
        decreases counts.len() - i,
    {
        if i == 0 || counts[i] > best {
            best = counts[i];
        }
        i += 1;
    }
    best
}

// ---------------------------------------------------------------------------
// next
// ---------------------------------------------------------------------------

/// The to-read papers that carry every one of the (normalized) tags, in
/// list order: the queue `next` picks from.
pub fn next_queue(papers: Vec<Paper>, tags: &[String]) -> (r: Vec<Paper>)
    ensures
        r@ == kept(
            papers@,
            seq![Status::ToRead],
            normalized_tags(strings_view(tags@)),
            None,
            None,
        ),
{
    let wanted = normalize_tags(tags);
    let statuses: Vec<Status> = vec![Status::ToRead];
    assert(statuses@ =~= seq![Status::ToRead]);
    filter_papers(papers, statuses.as_slice(), wanted.as_slice(), None, None)
}

/// The paper `next` suggests: the first of the queue in priority order
/// (high first, then oldest added, then lowest id).
pub fn pick_next(queue: Vec<Paper>) -> (r: Paper)
    requires
        queue@.len() > 0,
    ensures
        r == sorted_by(SortKey::Priority, queue@)[0],
{
    let mut q = queue;
    proof {
        crate::commands::lemma_sorted_by_len(SortKey::Priority, q@);
    }
    sort_by_key(&mut q, SortKey::Priority);
    q.remove(0)
}

/// The paper `next --random` suggests: the one at `nanos` modulo the
/// length of the queue (`nanos` comes from the clock).
pub fn pick_random(queue: Vec<Paper>, nanos: u32) -> (r: Paper)
    requires
        queue@.len() > 0,
    ensures
        r == queue@[(nanos as int) % (queue@.len() as int)],
{
    let mut q = queue;
    let k = (nanos as usize) % q.len();
    q.swap_remove(k)
}

/// The first paper being read, which `next` mentions when the queue is empty.
pub fn current_reading(papers: &[Paper]) -> (r: Option<usize>)
    ensures
        match r {
            Some(k) => k < papers@.len() && papers@[k as int].status == Status::Reading && forall|
                j: int,
            | 0 <= j < k ==> #[trigger] papers@[j].status != Status::Reading,
            None => forall|j: int|
                0 <= j < papers@.len() ==> #[trigger] papers@[j].status != Status::Reading,
        },
{
    let mut i: usize = 0;
    while i < papers.len()
        invariant
            i <= papers@.len(),
            forall|j: int| 0 <= j < i ==> #[trigger] papers@[j].status != Status::Reading,
        decreases papers.len() - i,
    {
        if papers[i].status == Status::Reading {
            return Some(i);
        }
        i += 1;
    }
    None
}

// ---------------------------------------------------------------------------
// tags
// ---------------------------------------------------------------------------

/// A tag with the number of papers carrying it and how many of them are read.
pub struct TagCount {
    pub name: String,
    pub total: usize,
    pub read: usize,
}

/// A `TagCount` with the name as a character sequence.
pub struct TagTally {
    pub name: Seq<char>,
    pub total: nat,
    pub read: nat,
}

impl View for TagCount {
    type V = TagTally;

    open spec fn view(&self) -> TagTally {
        TagTally { name: self.name@, total: self.total as nat, read: self.read as nat }
    }
}

/// The views of a sequence of tag counts.
pub open spec fn tallies_view(v: Seq<TagCount>) -> Seq<TagTally> {
    v.map_values(|c: TagCount| c@)
}

/// The tags in use, each once, in the order they first appear.
pub open spec fn tag_names(ps: Seq<Paper>) -> Seq<Seq<char>>
    decreases ps.len(),
{
    if ps.len() == 0 {
        seq![]
    } else {
        tags_added(tag_names(ps.drop_last()), strings_view(ps.last().tags@))
    }
}

/// How often `x` occurs in `ts`.
pub open spec fn occurrences(ts: Seq<Seq<char>>, x: Seq<char>) -> nat
    decreases ts.len(),
{
    if ts.len() == 0 {
        0
    } else {
        occurrences(ts.drop_last(), x) + if ts.last() == x {
            1nat
        } else {
            0nat
        }
    }
}

/// How many times the papers carry tag `x`.
pub open spec fn tag_total(ps: Seq<Paper>, x: Seq<char>) -> nat
    decreases ps.len(),
{
    if ps.len() == 0 {
        0
    } else {
        tag_total(ps.drop_last(), x) + occurrences(strings_view(ps.last().tags@), x)
    }
}

/// How many times the read papers carry tag `x`.
pub open spec fn tag_read(ps: Seq<Paper>, x: Seq<char>) -> nat
    decreases ps.len(),
{
    if ps.len() == 0 {
        0
    } else {
        tag_read(ps.drop_last(), x) + if ps.last().status == Status::Read {
            occurrences(strings_view(ps.last().tags@), x)
        } else {
            0nat
        }
    }
}

/// The number of tags on all the papers together.
pub open spec fn tag_slots(ps: Seq<Paper>) -> nat
    decreases ps.len(),
{
    if ps.len() == 0 {
        0
    } else {
        tag_slots(ps.drop_last()) + ps.last().tags@.len()
    }
}

/// Each tag in use with its counts, in order of first appearance.
pub open spec fn tag_tallies(ps: Seq<Paper>) -> Seq<TagTally> {
    tag_names(ps).map_values(
        |n: Seq<char>| TagTally { name: n, total: tag_total(ps, n), read: tag_read(ps, n) },
    )
}

/// The order of `tags`: most used first, then by name.
pub open spec fn tally_before(a: TagTally, b: TagTally) -> bool {
    a.total > b.total || (a.total == b.total && seq_lt(a.name, b.name))
}

/// `x` placed in `s` before the first element it goes before.
pub open spec fn insert_tally(s: Seq<TagTally>, x: TagTally) -> Seq<TagTally>
    decreases s.len(),
{
    if s.len() == 0 {
        seq![x]
    } else if tally_before(x, s[0]) {
        seq![x] + s
    } else {
        seq![s[0]] + insert_tally(s.drop_first(), x)
    }
}

/// `s` sorted by `tally_before`.
pub open spec fn sorted_tallies(s: Seq<TagTally>) -> Seq<TagTally>
    decreases s.len(),
{
    if s.len() == 0 {
        seq![]
    } else {
        insert_tally(sorted_tallies(s.drop_last()), s.last())
    }
}

/// No name occurs twice.
pub open spec fn distinct_names(s: Seq<Seq<char>>) -> bool {
    forall|i: int, j: int| 0 <= i < j < s.len() ==> s[i] != s[j]
}

proof fn lemma_tags_added_distinct(base: Seq<Seq<char>>, add: Seq<Seq<char>>)
    requires
        distinct_names(base),
    ensures
        distinct_names(tags_added(base, add)),
    decreases add.len(),
{
    if add.len() > 0 {
        lemma_tags_added_distinct(base, add.drop_last());
    }
}

proof fn lemma_tag_names_distinct(ps: Seq<Paper>)
    ensures
        distinct_names(tag_names(ps)),
    decreases ps.len(),
{
    if ps.len() > 0 {
        lemma_tag_names_distinct(ps.drop_last());
        lemma_tags_added_distinct(tag_names(ps.drop_last()), strings_view(ps.last().tags@));
    }
}

proof fn lemma_occurrences_bound(ts: Seq<Seq<char>>, x: Seq<char>)
    ensures
        occurrences(ts, x) <= ts.len(),
    decreases ts.len(),
{
    if ts.len() > 0 {
        lemma_occurrences_bound(ts.drop_last(), x);
    }
}

proof fn lemma_tag_total_bound(ps: Seq<Paper>, x: Seq<char>)
    ensures
        tag_read(ps, x) <= tag_total(ps, x) <= tag_slots(ps),
    decreases ps.len(),
{
    if ps.len() > 0 {
        lemma_tag_total_bound(ps.drop_last(), x);
        lemma_occurrences_bound(strings_view(ps.last().tags@), x);
    }
}

proof fn lemma_tag_slots_prefix(ps: Seq<Paper>, i: int)
    requires
        0 <= i <= ps.len(),
    ensures
        tag_slots(ps.take(i)) <= tag_slots(ps),
    decreases ps.len() - i,
{
    if i < ps.len() {
        lemma_tag_slots_prefix(ps, i + 1);
        assert(ps.take(i + 1).drop_last() =~= ps.take(i));
    } else {
        assert(ps.take(i) =~= ps);
    }
}

/// The names of the papers so far plus the first tags of the next one.
pub open spec fn names_so_far(ps: Seq<Paper>, extra: Seq<Seq<char>>) -> Seq<Seq<char>> {
    tags_added(tag_names(ps), extra)
}

/// Counting the tags paper by paper: totals and read counts of `names`.
pub open spec fn counted(
    ps: Seq<Paper>,
    extra: Seq<Seq<char>>,
    extra_read: bool,
    names: Seq<Seq<char>>,
    totals: Seq<usize>,
    reads: Seq<usize>,
) -> bool {
    &&& names == names_so_far(ps, extra)
    &&& totals.len() == names.len()
    &&& reads.len() == names.len()
    &&& forall|k: int|
        0 <= k < names.len() ==> #[trigger] totals[k] == tag_total(ps, names[k]) + occurrences(
            extra,
            names[k],
        )
    &&& forall|k: int|
        0 <= k < names.len() ==> #[trigger] reads[k] == tag_read(ps, names[k]) + if extra_read {
            occurrences(extra, names[k])
        } else {
            0nat
        }
}

fn index_of_name(names: &Vec<String>, t: &String) -> (r: Option<usize>)
    ensures
        match r {
            Some(k) => k < names@.len() && names@[k as int]@ == t@,
            None => !strings_view(names@).contains(t@),
        },
{
    let mut i: usize = 0;
    while i < names.len()
        invariant
            i <= names@.len(),
            forall|j: int| 0 <= j < i ==> names@[j]@ != t@,
        decreases names.len() - i,
    {
        if names[i] == *t {
            return Some(i);
        }
        i += 1;
    }
    assert forall|j: int| 0 <= j < strings_view(names@).len() implies strings_view(names@)[j]
        != t@ by {
        assert(strings_view(names@)[j] == names@[j]@);
    }
    None
}

fn tally_before_exec(a: &TagCount, b: &TagCount) -> (r: bool)
    ensures
        r == tally_before(a@, b@),
{
    if a.total != b.total {
        return a.total > b.total;
    }
    let an = chars_of(a.name.as_str());
    let bn = chars_of(b.name.as_str());
    crate::commands::seq_lt_exec(an.as_slice(), bn.as_slice())
}

fn sort_tallies(v: Vec<TagCount>) -> (r: Vec<TagCount>)
    ensures
        tallies_view(r@) == sorted_tallies(tallies_view(v@)),
{
    let ghost orig = tallies_view(v@);
    let mut input = v;
    let n = input.len();
    let mut out: Vec<TagCount> = Vec::new();
    let mut i: usize = 0;
    assert(orig.take(0) =~= seq![]);
    assert(tallies_view(out@) =~= seq![]);
    while input.len() > 0
        invariant
            i + input@.len() == n == orig.len(),
            tallies_view(input@) == orig.skip(i as int),
            tallies_view(out@) == sorted_tallies(orig.take(i as int)),
        decreases input@.len(),
    {
        let ghost before_in = tallies_view(input@);
        let ghost old_input = input@;
        let x = input.remove(0);
        assert(orig.take(i + 1).drop_last() =~= orig.take(i as int));
        assert(before_in[0] == x@);
        assert(orig.take(i + 1).last() == x@);
        assert forall|m: int| 0 <= m < input@.len() implies #[trigger] tallies_view(input@)[m]
            == orig.skip(i + 1)[m] by {
            assert(input@[m] == old_input[m + 1]);
            assert(before_in[m + 1] == old_input[m + 1]@);
        }
        assert(tallies_view(input@) =~= orig.skip(i + 1));
        let ghost s = tallies_view(out@);
        let mut k: usize = 0;
        assert(s.skip(0) =~= s);
        while k < out.len() && !tally_before_exec(&x, &out[k])
            invariant
                k <= out@.len(),
                tallies_view(out@) == s,
                insert_tally(s, x@) == s.take(k as int) + insert_tally(s.skip(k as int), x@),
            decreases out@.len() - k,
        {
            assert(s[k as int] == out@[k as int]@);
            assert(s.skip(k as int)[0] == s[k as int]);
            assert(s.skip(k as int).drop_first() =~= s.skip(k + 1));
            assert(s.take(k as int) + insert_tally(s.skip(k as int), x@) =~= s.take(k + 1)
                + insert_tally(s.skip(k + 1), x@));
            k += 1;
        }
        proof {
            if k < out@.len() {
                assert(s[k as int] == out@[k as int]@);
            }
        }
        out.insert(k, x);
        assert(tallies_view(out@) =~= s.take(k as int) + insert_tally(s.skip(k as int), x@)) by {
            if k < s.len() {
                assert(s.skip(k as int)[0] == s[k as int]);
                assert(seq![x@] + s.skip(k as int) =~= insert_tally(s.skip(k as int), x@));
            } else {
                assert(s.skip(k as int) =~= seq![]);
            }
        }
        i += 1;
    }
    assert(orig.take(i as int) =~= orig);
    out
}

/// Every tag in use with the number of papers carrying it and how many of
/// those are read, most used first, then by name.
pub fn tag_counts(papers: &[Paper]) -> (r: Vec<TagCount>)
    requires
        tag_slots(papers@) <= usize::MAX,
    ensures
        tallies_view(r@) == sorted_tallies(tag_tallies(papers@)),
{
    let mut names: Vec<String> = Vec::new();
    let mut totals: Vec<usize> = Vec::new();
    let mut reads: Vec<usize> = Vec::new();
    let mut i: usize = 0;
    assert(papers@.take(0).len() == 0);
    assert(tag_names(papers@.take(0)) =~= seq![]);
    assert(names_so_far(papers@.take(0), seq![]) =~= seq![]);
    assert(strings_view(names@) =~= seq![]);
    while i < papers.len()
        invariant
            i <= papers@.len(),
            tag_slots(papers@) <= usize::MAX,
            counted(papers@.take(i as int), seq![], false, strings_view(names@), totals@, reads@),
        decreases papers.len() - i,
    {
        let ghost ps = papers@.take(i as int);
        let p = &papers[i];
        let is_read = p.status == Status::Read;
        let ghost tv = strings_view(p.tags@);
        proof {
            lemma_tag_slots_prefix(papers@, i + 1);
            assert(papers@.take(i + 1).drop_last() =~= ps);
            assert(tv.take(0) =~= seq![]);
        }
        let mut j: usize = 0;
        while j < p.tags.len()
            invariant
                j <= p.tags@.len() == tv.len(),
                tv == strings_view(p.tags@),
                p == papers@[i as int],
                is_read == (p.status == Status::Read),
                ps == papers@.take(i as int),
                i < papers@.len(),
                tag_slots(ps) + tv.len() <= usize::MAX,
                counted(ps, tv.take(j as int), is_read, strings_view(names@), totals@, reads@),
            decreases p.tags.len() - j,
        {
            let ghost extra = tv.take(j as int);
            let ghost nv = strings_view(names@);
            let t = &p.tags[j];
            assert(tv.take(j + 1) =~= extra.push(t@));
            assert(tv.take(j + 1).drop_last() =~= extra);
            proof {
                lemma_tag_names_distinct(ps);
                lemma_tags_added_distinct(tag_names(ps), extra);
            }
            match index_of_name(&names, t) {
                Some(k) => {
                    proof {
                        assert(nv[k as int] == t@);
                        assert(nv.contains(t@));
                        lemma_tag_total_bound(ps, t@);
                        lemma_occurrences_bound(extra, t@);
                    }
                    let tot = totals[k] + 1;
                    totals.set(k, tot);
                    if is_read {
                        let rd = reads[k] + 1;
                        reads.set(k, rd);
                    }
                    proof {
                        assert forall|m: int| 0 <= m < nv.len() && m != k implies nv[m] != t@ by {
                            if m < k {
                                assert(nv[m] != nv[k as int]);
                            } else {
                                assert(nv[k as int] != nv[m]);
                            }
                        }
                    }
                },
                None => {
                    names.push(t.clone());
                    totals.push(1);
                    let rd: usize = if is_read {
                        1
                    } else {
                        0
                    };
                    reads.push(rd);
                    proof {
                        assert(strings_view(names@) =~= nv.push(t@));
                        lemma_tag_total_absent(ps, extra, t@);
                    }
                },
            }
            j += 1;
        }
        proof {
            assert(tv.take(j as int) =~= tv);
            lemma_counted_next_paper(papers@, i as int, strings_view(names@), totals@, reads@);
        }
        i += 1;
    }
    assert(papers@.take(i as int) =~= papers@);
    let ghost nv = strings_view(names@);
    let mut unsorted: Vec<TagCount> = Vec::new();
    let mut k: usize = 0;
    let mut rest = names;
    let count = totals.len();
    while rest.len() > 0
        invariant
            k + rest@.len() == nv.len(),
            count == nv.len(),
            strings_view(rest@) == nv.skip(k as int),
            totals@.len() == nv.len(),
            reads@.len() == nv.len(),
            counted(papers@, seq![], false, nv, totals@, reads@),
            tallies_view(unsorted@) == tag_tallies(papers@).take(k as int),
        decreases rest@.len(),
    {
        let ghost rv = strings_view(rest@);
        let ghost old_rest = rest@;
        let name = rest.remove(0);
        assert(rv[0] == name@);
        assert forall|m: int| 0 <= m < rest@.len() implies #[trigger] strings_view(rest@)[m]
            == nv.skip(k + 1)[m] by {
            assert(rest@[m] == old_rest[m + 1]);
            assert(rv[m + 1] == old_rest[m + 1]@);
        }
        assert(strings_view(rest@) =~= nv.skip(k + 1));
        assert(nv[k as int] == name@);
        let ghost before_u = tallies_view(unsorted@);
        unsorted.push(TagCount { name, total: totals[k], read: reads[k] });
        proof {
            let tt = tag_tallies(papers@);
            assert(occurrences(seq![], nv[k as int]) == 0);
            assert(totals@[k as int] == tag_total(papers@, nv[k as int]));
            assert(reads@[k as int] == tag_read(papers@, nv[k as int]));
            assert(tt[k as int] == TagTally {
                name: nv[k as int],
                total: tag_total(papers@, nv[k as int]),
                read: tag_read(papers@, nv[k as int]),
            });
            assert(tallies_view(unsorted@) =~= before_u.push(tt[k as int]));
            assert(tt.take(k + 1) =~= tt.take(k as int).push(tt[k as int]));
        }
        k += 1;
    }
    assert(tag_tallies(papers@).take(k as int) =~= tag_tallies(papers@));
    sort_tallies(unsorted)
}

proof fn lemma_tag_total_absent(ps: Seq<Paper>, extra: Seq<Seq<char>>, t: Seq<char>)
    requires
        !tags_added(tag_names(ps), extra).contains(t),
    ensures
        tag_total(ps, t) == 0,
        tag_read(ps, t) == 0,
        occurrences(extra, t) == 0,
{
    lemma_absent_not_in_extra(tag_names(ps), extra, t);
    lemma_absent_not_used(ps, t);
}

proof fn lemma_tags_added_keeps(base: Seq<Seq<char>>, add: Seq<Seq<char>>, x: Seq<char>)
    ensures
        base.contains(x) ==> tags_added(base, add).contains(x),
        add.contains(x) ==> tags_added(base, add).contains(x),
    decreases add.len(),
{
    if add.len() > 0 {
        lemma_tags_added_keeps(base, add.drop_last(), x);
        let t = tags_added(base, add.drop_last());
        if add.contains(x) && !add.drop_last().contains(x) {
            let k = choose|k: int| 0 <= k < add.len() && add[k] == x;
            if k < add.len() - 1 {
                assert(add.drop_last()[k] == x);
            }
            assert(add.last() == x);
            if !t.contains(x) {
                assert(t.push(x)[t.len() as int] == x);
            }
        }
        if t.contains(x) && !t.contains(add.last()) {
            let k = choose|k: int| 0 <= k < t.len() && t[k] == x;
            assert(t.push(add.last())[k] == x);
        }
    }
}

proof fn lemma_absent_not_in_extra(base: Seq<Seq<char>>, extra: Seq<Seq<char>>, t: Seq<char>)
    requires
        !tags_added(base, extra).contains(t),
    ensures
        occurrences(extra, t) == 0,
        !base.contains(t),
    decreases extra.len(),
{
    lemma_tags_added_keeps(base, extra, t);
    if extra.len() > 0 {
        if extra.drop_last().contains(t) {
            lemma_tags_added_keeps(base, extra.drop_last(), t);
        }
        assert(!extra.contains(t));
        assert(extra.last() != t) by {
            assert(extra[extra.len() - 1] == extra.last());
        }
        lemma_tags_added_keeps(base, extra.drop_last(), t);
        let u = tags_added(base, extra.drop_last());
        if u.contains(t) {
            let k = choose|k: int| 0 <= k < u.len() && u[k] == t;
            if !u.contains(extra.last()) {
                assert(u.push(extra.last())[k] == t);
            }
        }
        lemma_absent_not_in_extra(base, extra.drop_last(), t);
    }
}

proof fn lemma_absent_not_used(ps: Seq<Paper>, t: Seq<char>)
    requires
        !tag_names(ps).contains(t),
    ensures
        tag_total(ps, t) == 0,
        tag_read(ps, t) == 0,
    decreases ps.len(),
{
    if ps.len() > 0 {
        lemma_absent_not_in_extra(tag_names(ps.drop_last()), strings_view(ps.last().tags@), t);
        lemma_absent_not_used(ps.drop_last(), t);
    }
}

proof fn lemma_counted_next_paper(
    papers: Seq<Paper>,
    i: int,
    names: Seq<Seq<char>>,
    totals: Seq<usize>,
    reads: Seq<usize>,
)
    requires
        0 <= i < papers.len(),
        counted(
            papers.take(i),
            strings_view(papers[i].tags@),
            papers[i].status == Status::Read,
            names,
            totals,
            reads,
        ),
    ensures
        counted(papers.take(i + 1), seq![], false, names, totals, reads),
{
    let ps = papers.take(i + 1);
    assert(ps.drop_last() =~= papers.take(i));
    assert(ps.last() == papers[i]);
    assert(tags_added(tag_names(ps), seq![]) == tag_names(ps));
}

} // verus!
