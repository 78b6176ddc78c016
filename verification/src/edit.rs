//! Building a new paper for `add` and applying the changes of `edit`.

use vstd::prelude::*;
use crate::commands::{CliError, CliErrorView, parse_priority, parse_status, validate_rating, validate_year};
use crate::fetch::{Fetched, RefKind, RefSpec, normalize_arxiv_id, split_version};
use crate::model::{
    Paper, Priority, Status, author_names, contains_string, join_strings, join_strs, name_list,
    normalize_tags,
    normalized_tags, opt_view, priority_from_word, status_from_word, strings_view,
};
use crate::text::{join, lowercase, trim, trim_str};

verus! {

/// The bibliographic part of a paper, as character sequences.
pub struct Meta {
    pub title: Seq<char>,
    pub authors: Seq<char>,
    pub year: Option<i32>,
    pub venue: Option<Seq<char>>,
    pub arxiv_id: Option<Seq<char>>,
    pub doi: Option<Seq<char>>,
    pub url: Option<Seq<char>>,
    pub pdf_url: Option<Seq<char>>,
    pub abstract_: Option<Seq<char>>,
}

/// The bibliographic part of `p`.
pub open spec fn meta_of(p: Paper) -> Meta {
    Meta {
        title: p.title@,
        authors: p.authors@,
        year: p.year,
        venue: opt_view(p.venue),
        arxiv_id: opt_view(p.arxiv_id),
        doi: opt_view(p.doi),
        url: opt_view(p.url),
        pdf_url: opt_view(p.pdf_url),
        abstract_: opt_view(p.abstract_),
    }
}

/// What fetched metadata contributes: its fields, the authors joined with
/// "; ", and "arXiv" as the venue of an arXiv record without a journal.
pub open spec fn fetched_meta(f: Fetched) -> Meta {
    Meta {
        title: f.title@,
        authors: join(strings_view(f.authors@), "; "@),
        year: f.year,
        venue: match f.venue {
            Some(v) => Some(v@),
            None => if f.arxiv_id is Some {
                Some("arXiv"@)
            } else {
                None
            },
        },
        arxiv_id: opt_view(f.arxiv_id),
        doi: opt_view(f.doi),
        url: opt_view(f.url),
        pdf_url: opt_view(f.pdf_url),
        abstract_: opt_view(f.abstract_),
    }
}

/// What the reference alone gives when nothing was fetched: a title for a
/// plain title, the link for a URL, and a minimal entry for an arXiv id or a DOI.
pub open spec fn ref_meta(kind: RefSpec) -> Meta {
    match kind {
        RefSpec::Title(t) => Meta {
            title: t,
            authors: seq![],
            year: None,
            venue: None,
            arxiv_id: None,
            doi: None,
            url: None,
            pdf_url: None,
            abstract_: None,
        },
        RefSpec::Url(u) => Meta {
            title: seq![],
            authors: seq![],
            year: None,
            venue: None,
            arxiv_id: None,
            doi: None,
            url: Some(u),
            pdf_url: None,
            abstract_: None,
        },
        RefSpec::Arxiv { id, fetch_id } => Meta {
            title: "arXiv:"@ + id,
            authors: seq![],
            year: None,
            venue: Some("arXiv"@),
            arxiv_id: Some(id),
            doi: None,
            url: Some("https://arxiv.org/abs/"@ + id),
            pdf_url: Some("https://arxiv.org/pdf/"@ + id),
            abstract_: None,
        },
        RefSpec::Doi(d) => Meta {
            title: "doi:"@ + d,
            authors: seq![],
            year: None,
            venue: None,
            arxiv_id: None,
            doi: Some(d),
            url: Some("https://doi.org/"@ + d),
            pdf_url: None,
            abstract_: None,
        },
    }
}

/// The options of `add` besides the reference itself.
pub struct AddOptions {
    pub title: Option<String>,
    pub authors: Option<String>,
    pub year: Option<i32>,
    pub venue: Option<String>,
    pub url: Option<String>,
    pub tags: Vec<String>,
    pub priority: Option<String>,
    pub status: Option<String>,
    pub rating: Option<i64>,
}

/// An author list as typed: the ';'-separated names trimmed, empty ones left
/// out, joined again with "; ".
pub open spec fn tidy_authors(a: Seq<char>) -> Seq<char> {
    join(author_names(a), "; "@)
}

/// The metadata once the flags of `add` override it.
pub open spec fn add_overrides(m: Meta, o: AddOptions) -> Meta {
    Meta {
        title: match o.title {
            Some(t) => t@,
            None => m.title,
        },
        authors: match o.authors {
            Some(a) => tidy_authors(a@),
            None => m.authors,
        },
        year: match o.year {
            Some(y) => Some(y),
            None => m.year,
        },
        venue: match o.venue {
            Some(v) => Some(v@),
            None => m.venue,
        },
        arxiv_id: m.arxiv_id,
        doi: m.doi,
        url: match o.url {
            Some(u) => Some(u@),
            None => m.url,
        },
        pdf_url: m.pdf_url,
        abstract_: m.abstract_,
    }
}

/// `m` with its title trimmed.
pub open spec fn trimmed_title(m: Meta) -> Meta {
    Meta { title: trim(m.title), ..m }
}

/// The metadata of the paper `add` creates.
pub open spec fn added_meta(kind: RefSpec, fetched: Option<Fetched>, o: AddOptions) -> Meta {
    let base = match fetched {
        Some(f) => fetched_meta(f),
        None => ref_meta(kind),
    };
    trimmed_title(add_overrides(base, o))
}

/// Why `add` refuses, checked in this order: a URL without a title, a bad
/// year, an unknown priority or status, a bad rating, an empty title.
pub open spec fn add_refusal(kind: RefSpec, fetched: Option<Fetched>, o: AddOptions) -> Option<
    CliErrorView,
> {
    if fetched is None && kind is Url && o.title is None {
        Some(CliErrorView::UrlNeedsTitle)
    } else if o.year is Some && !(1000 <= o.year->0 <= 2100) {
        Some(CliErrorView::BadYear(o.year->0))
    } else if o.priority is Some && priority_from_word(lowercase(o.priority->0@)) is None {
        Some(CliErrorView::UnknownPriority(o.priority->0@))
    } else if o.status is Some && status_from_word(lowercase(o.status->0@)) is None {
        Some(CliErrorView::UnknownStatus(o.status->0@))
    } else if o.rating is Some && !(1 <= o.rating->0 <= 5) {
        Some(CliErrorView::BadRating)
    } else if added_meta(kind, fetched, o).title.len() == 0 {
        Some(CliErrorView::EmptyTitle)
    } else {
        None
    }
}

/// The status of a new paper: read when rated, else the one asked for, else to-read.
pub open spec fn added_status(o: AddOptions) -> Status {
    if o.rating is Some {
        Status::Read
    } else {
        match o.status {
            Some(w) => status_from_word(lowercase(w@))->0,
            None => Status::ToRead,
        }
    }
}

/// The priority of a new paper: the one asked for, else normal.
pub open spec fn added_priority(o: AddOptions) -> Priority {
    match o.priority {
        Some(w) => priority_from_word(lowercase(w@))->0,
        None => Priority::Normal,
    }
}

/// `Some(now)` when `cond` holds.
pub open spec fn stamp_if(cond: bool, now: Seq<char>) -> Option<Seq<char>> {
    if cond {
        Some(now)
    } else {
        None
    }
}

/// The trimmed, non-empty names of an author list joined again with "; ".
pub fn tidy_author_list(a: &str) -> (r: String)
    ensures
        r@ == tidy_authors(a@),
{
    let names = name_list(a);
    join_strs(names.as_slice(), "; ")
}

fn owned(s: &str) -> (r: Option<String>)
    ensures
        opt_view(r) == Some(s@),
{
    Some(s.to_owned())
}

fn prefixed(prefix: &str, s: &String) -> (r: String)
    ensures
        r@ == prefix@ + s@,
{
    let mut out = prefix.to_owned();
    out.append(s.as_str());
    out
}

/// The new paper that `add` stores: fetched metadata (or what the reference
/// itself gives), overridden by the flags, with normalized tags, the status
/// timestamps set to `now`, and the title trimmed; or why it is refused.
pub fn new_paper(kind: &RefKind, fetched: Option<Fetched>, opts: AddOptions, now: &str) -> (r:
    Result<Paper, CliError>)
    ensures
        match add_refusal(kind@, fetched, opts) {
            Some(e) => (r matches Err(err) && err@ == e),
            None => (r matches Ok(p) && {
                &&& meta_of(p) == added_meta(kind@, fetched, opts)
                &&& p.id == 0
                &&& p.status == added_status(opts)
                &&& p.priority == added_priority(opts)
                &&& p.rating == opts.rating
                &&& strings_view(p.tags@) == normalized_tags(strings_view(opts.tags@))
                &&& p.added_at@ == now@
                &&& opt_view(p.started_at) == stamp_if(added_status(opts) == Status::Reading, now@)
                &&& opt_view(p.finished_at) == stamp_if(added_status(opts) == Status::Read, now@)
                &&& p.notes@.len() == 0
            }),
        },
{
    let ghost fetched0 = fetched;
    let ghost o = opts;
    let tags = normalize_tags(opts.tags.as_slice());
    let mut p = Paper {
        id: 0,
        title: String::new(),
        authors: String::new(),
        year: None,
        venue: None,
        arxiv_id: None,
        doi: None,
        url: None,
        pdf_url: None,
        abstract_: None,
        status: Status::ToRead,
        priority: Priority::Normal,
        rating: None,
        tags,
        added_at: now.to_owned(),
        started_at: None,
        finished_at: None,
        notes: Vec::new(),
    };
    match fetched {
        Some(f) => {
            let Fetched { title, authors, year, venue, abstract_, url, pdf_url, doi, arxiv_id } =
                f;
            p.venue = match venue {
                Some(v) => Some(v),
                None => if arxiv_id.is_some() {
                    owned("arXiv")
                } else {
                    None
                },
            };
            p.title = title;
            p.authors = join_strings(authors.as_slice(), "; ");
            p.year = year;
            p.abstract_ = abstract_;
            p.url = url;
            p.pdf_url = pdf_url;
            p.doi = doi;
            p.arxiv_id = arxiv_id;
        },
        None => match kind {
            RefKind::Title(t) => {
                p.title = t.clone();
            },
            RefKind::Url(u) => {
                p.url = Some(u.clone());
                if opts.title.is_none() {
                    return Err(CliError::UrlNeedsTitle);
                }
            },
            RefKind::Arxiv { id, fetch_id } => {
                p.arxiv_id = Some(id.clone());
                p.url = Some(prefixed("https://arxiv.org/abs/", id));
                p.pdf_url = Some(prefixed("https://arxiv.org/pdf/", id));
                p.venue = owned("arXiv");
                p.title = prefixed("arXiv:", id);
            },
            RefKind::Doi(d) => {
                p.doi = Some(d.clone());
                p.url = Some(prefixed("https://doi.org/", d));
                p.title = prefixed("doi:", d);
            },
        },
    }
    let AddOptions { title, authors, year, venue, url, tags: _, priority, status, rating } = opts;
    match title {
        Some(t) => {
            p.title = t;
        },
        None => {},
    }
    match authors {
        Some(a) => {
            p.authors = tidy_author_list(a.as_str());
        },
        None => {},
    }
    match year {
        Some(y) => {
            p.year = Some(validate_year(y)?);
        },
        None => {},
    }
    match venue {
        Some(v) => {
            p.venue = Some(v);
        },
        None => {},
    }
    match url {
        Some(u) => {
            p.url = Some(u);
        },
        None => {},
    }
    match priority {
        Some(w) => {
            p.priority = parse_priority(w.as_str())?;
        },
        None => {},
    }
    match status {
        Some(w) => {
            p.status = parse_status(w.as_str())?;
        },
        None => {},
    }
    match rating {
        Some(x) => {
            p.rating = Some(validate_rating(x)?);
            p.status = Status::Read;
        },
        None => {},
    }
    match p.status {
        Status::Reading => {
            p.started_at = owned(now);
        },
        Status::Read => {
            p.finished_at = owned(now);
        },
        _ => {},
    }
    p.title = trim_str(p.title.as_str());
    if p.title.as_str().is_empty() {
        return Err(CliError::EmptyTitle);
    }
    Ok(p)
}

// ---------------------------------------------------------------------------
// edit
// ---------------------------------------------------------------------------

/// The changes `edit` can make. An empty string clears an optional text
/// field; a year or rating of 0 clears it.
pub struct PaperEdit {
    pub title: Option<String>,
    pub authors: Option<String>,
    pub year: Option<i32>,
    pub venue: Option<String>,
    pub url: Option<String>,
    pub pdf_url: Option<String>,
    pub doi: Option<String>,
    pub arxiv: Option<String>,
    pub add_tags: Vec<String>,
    pub rm_tags: Vec<String>,
    pub priority: Option<String>,
    pub status: Option<String>,
    pub rating: Option<i64>,
}

/// The trimmed text, or nothing when it trims to empty.
pub open spec fn cleared(v: Seq<char>) -> Option<Seq<char>> {
    if trim(v).len() == 0 {
        None
    } else {
        Some(trim(v))
    }
}

/// A clearable field after an edit: unchanged when not given, else the
/// trimmed text or nothing.
pub open spec fn edited_text(old: Option<Seq<char>>, given: Option<String>) -> Option<Seq<char>> {
    match given {
        Some(v) => cleared(v@),
        None => old,
    }
}

/// Whether the edit asks for any change at all.
pub open spec fn edit_given(e: PaperEdit) -> bool {
    ||| e.title is Some
    ||| e.authors is Some
    ||| e.year is Some
    ||| e.venue is Some
    ||| e.url is Some
    ||| e.pdf_url is Some
    ||| e.doi is Some
    ||| e.arxiv is Some
    ||| e.add_tags@.len() > 0
    ||| e.rm_tags@.len() > 0
    ||| e.priority is Some
    ||| e.status is Some
    ||| e.rating is Some
}

/// The DOI an edit sets (trimmed), which must not be on another paper.
pub open spec fn edit_doi_of(e: PaperEdit) -> Option<Seq<char>> {
    match e.doi {
        Some(d) => cleared(d@),
        None => None,
    }
}

/// The arXiv id an edit sets (trimmed, version dropped), which must not be
/// on another paper.
pub open spec fn edit_arxiv_of(e: PaperEdit) -> Option<Seq<char>> {
    match e.arxiv {
        Some(a) => match cleared(a@) {
            Some(t) => Some(split_version(trim(t)).0),
            None => None,
        },
        None => None,
    }
}

/// Why `edit` refuses, checked in this order: nothing to change, an empty
/// title, a bad year, a DOI or arXiv id already on another paper (`doi_owner`
/// and `arxiv_owner` are the papers that hold them, if any), an unknown
/// priority or status, a bad rating.
pub open spec fn edit_refusal(
    p: Paper,
    e: PaperEdit,
    doi_owner: Option<i64>,
    arxiv_owner: Option<i64>,
) -> Option<CliErrorView> {
    if !edit_given(e) {
        Some(CliErrorView::NothingToChange)
    } else if e.title is Some && trim(e.title->0@).len() == 0 {
        Some(CliErrorView::EmptyTitle)
    } else if e.year is Some && e.year->0 != 0 && !(1000 <= e.year->0 <= 2100) {
        Some(CliErrorView::BadYear(e.year->0))
    } else if edit_doi_of(e) is Some && doi_owner is Some && doi_owner->0 != p.id {
        Some(CliErrorView::DoiTaken(edit_doi_of(e)->0, doi_owner->0))
    } else if edit_arxiv_of(e) is Some && arxiv_owner is Some && arxiv_owner->0 != p.id {
        Some(CliErrorView::ArxivTaken(edit_arxiv_of(e)->0, arxiv_owner->0))
    } else if e.priority is Some && priority_from_word(lowercase(e.priority->0@)) is None {
        Some(CliErrorView::UnknownPriority(e.priority->0@))
    } else if e.status is Some && status_from_word(lowercase(e.status->0@)) is None {
        Some(CliErrorView::UnknownStatus(e.status->0@))
    } else if e.rating is Some && e.rating->0 != 0 && !(1 <= e.rating->0 <= 5) {
        Some(CliErrorView::BadRating)
    } else {
        None
    }
}

/// The metadata after an edit.
pub open spec fn edited_meta(m: Meta, e: PaperEdit) -> Meta {
    Meta {
        title: match e.title {
            Some(t) => trim(t@),
            None => m.title,
        },
        authors: match e.authors {
            Some(a) => tidy_authors(a@),
            None => m.authors,
        },
        year: match e.year {
            Some(y) => if y == 0 {
                None
            } else {
                Some(y)
            },
            None => m.year,
        },
        venue: edited_text(m.venue, e.venue),
        arxiv_id: if e.arxiv is Some {
            edit_arxiv_of(e)
        } else {
            m.arxiv_id
        },
        doi: if e.doi is Some {
            edit_doi_of(e)
        } else {
            m.doi
        },
        url: edited_text(m.url, e.url),
        pdf_url: edited_text(m.pdf_url, e.pdf_url),
        abstract_: m.abstract_,
    }
}

/// `tags` with each of `add` appended unless already there.
pub open spec fn tags_added(tags: Seq<Seq<char>>, add: Seq<Seq<char>>) -> Seq<Seq<char>>
    decreases add.len(),
{
    if add.len() == 0 {
        tags
    } else {
        let t = tags_added(tags, add.drop_last());
        if t.contains(add.last()) {
            t
        } else {
            t.push(add.last())
        }
    }
}

/// `s` without the first occurrence of `x` (unchanged if there is none).
pub open spec fn without_first(s: Seq<Seq<char>>, x: Seq<char>) -> Seq<Seq<char>>
    decreases s.len(),
{
    if s.len() == 0 {
        s
    } else if s[0] == x {
        s.drop_first()
    } else {
        seq![s[0]] + without_first(s.drop_first(), x)
    }
}

/// `tags` with the first occurrence of each of `rm` taken out.
pub open spec fn tags_removed(tags: Seq<Seq<char>>, rm: Seq<Seq<char>>) -> Seq<Seq<char>>
    decreases rm.len(),
{
    if rm.len() == 0 {
        tags
    } else {
        without_first(tags_removed(tags, rm.drop_last()), rm.last())
    }
}

/// The status after an edit.
pub open spec fn edited_status(p: Paper, e: PaperEdit) -> Status {
    match e.status {
        Some(w) => status_from_word(lowercase(w@))->0,
        None => p.status,
    }
}

/// Whether the edit moves the paper to another status.
pub open spec fn status_moves(p: Paper, e: PaperEdit) -> bool {
    e.status is Some && edited_status(p, e) != p.status
}

/// When the paper was started after an edit: a move to reading starts it
/// now, a move back to to-read forgets it.
pub open spec fn edited_started(p: Paper, e: PaperEdit, now: Seq<char>) -> Option<Seq<char>> {
    if status_moves(p, e) {
        match edited_status(p, e) {
            Status::Reading => Some(now),
            Status::ToRead => None,
            _ => opt_view(p.started_at),
        }
    } else {
        opt_view(p.started_at)
    }
}

/// When the paper was finished after an edit: a move to read finishes it
/// now, a move to reading or to-read forgets it.
pub open spec fn edited_finished(p: Paper, e: PaperEdit, now: Seq<char>) -> Option<Seq<char>> {
    if status_moves(p, e) {
        match edited_status(p, e) {
            Status::Read => Some(now),
            Status::Dropped => opt_view(p.finished_at),
            _ => None,
        }
    } else {
        opt_view(p.finished_at)
    }
}

/// An edit keeps the timestamps in step with the status: a move to reading
/// leaves no finish time, a move to read has one, a move back to to-read
/// leaves neither.
pub proof fn edit_keeps_timestamps_in_step(p: Paper, e: PaperEdit, now: Seq<char>)
    ensures
        status_moves(p, e) && edited_status(p, e) == Status::Reading ==> edited_started(p, e, now)
            == Some(now) && edited_finished(p, e, now) is None,
        status_moves(p, e) && edited_status(p, e) == Status::Read ==> edited_finished(p, e, now)
            == Some(now),
        status_moves(p, e) && edited_status(p, e) == Status::ToRead ==> edited_started(p, e, now)
            is None && edited_finished(p, e, now) is None,
{
}

proof fn lemma_without_first_at(s: Seq<Seq<char>>, x: Seq<char>, k: int)
    requires
        0 <= k < s.len(),
        s[k] == x,
        forall|j: int| 0 <= j < k ==> s[j] != x,
    ensures
        without_first(s, x) == s.take(k) + s.skip(k + 1),
    decreases s.len(),
{
    if k == 0 {
        assert(s.skip(1) =~= s.drop_first());
        assert(s.take(0) + s.skip(1) =~= s.skip(1));
    } else {
        let t = s.drop_first();
        assert(t[k - 1] == x);
        assert forall|j: int| 0 <= j < k - 1 implies t[j] != x by {
            assert(t[j] == s[j + 1]);
        }
        lemma_without_first_at(t, x, k - 1);
        assert(seq![s[0]] + (t.take(k - 1) + t.skip(k)) =~= s.take(k) + s.skip(k + 1));
    }
}

proof fn lemma_without_first_absent(s: Seq<Seq<char>>, x: Seq<char>)
    requires
        !s.contains(x),
    ensures
        without_first(s, x) == s,
    decreases s.len(),
{
    if s.len() > 0 {
        assert(s[0] != x);
        let t = s.drop_first();
        assert(!t.contains(x)) by {
            if t.contains(x) {
                let j = choose|j: int| 0 <= j < t.len() && t[j] == x;
                assert(s[j + 1] == x);
            }
        }
        lemma_without_first_absent(t, x);
        assert(seq![s[0]] + t =~= s);
    }
}

/// Appends each tag of `add` that `tags` does not hold yet.
fn add_tags_to(tags: &mut Vec<String>, add: &[String])
    ensures
        strings_view(final(tags)@) == tags_added(strings_view(old(tags)@), strings_view(add@)),
{
    let ghost start = strings_view(tags@);
    let ghost av = strings_view(add@);
    let mut i: usize = 0;
    while i < add.len()
        invariant
            i <= add@.len() == av.len(),
            av == strings_view(add@),
            strings_view(tags@) == tags_added(start, av.take(i as int)),
        decreases add.len() - i,
    {
        let ghost before = strings_view(tags@);
        assert(av.take(i + 1).drop_last() =~= av.take(i as int));
        assert(av.take(i + 1).last() == add@[i as int]@);
        if !contains_string(tags, &add[i]) {
            let t = add[i].clone();
            tags.push(t);
            assert(strings_view(tags@) =~= before.push(add@[i as int]@));
        }
        i += 1;
    }
    assert(av.take(i as int) =~= av);
}

/// Removes the first tag equal to `t`, if any.
fn remove_tag(tags: &mut Vec<String>, t: &String)
    ensures
        strings_view(final(tags)@) == without_first(strings_view(old(tags)@), t@),
{
    let ghost sv = strings_view(tags@);
    let mut i: usize = 0;
    while i < tags.len()
        invariant
            i <= tags@.len() == sv.len(),
            sv == strings_view(tags@),
            sv == strings_view(old(tags)@),
            forall|j: int| 0 <= j < i ==> sv[j] != t@,
        decreases tags.len() - i,
    {
        if tags[i] == *t {
            assert(sv[i as int] == t@);
            proof {
                lemma_without_first_at(sv, t@, i as int);
            }
            tags.remove(i);
            assert(strings_view(tags@) =~= sv.take(i as int) + sv.skip(i + 1));
            return;
        }
        assert(sv[i as int] == tags@[i as int]@);
        i += 1;
    }
    proof {
        assert(!sv.contains(t@)) by {
            if sv.contains(t@) {
                let j = choose|j: int| 0 <= j < sv.len() && sv[j] == t@;
                assert(sv[j] != t@);
            }
        }
        lemma_without_first_absent(sv, t@);
    }
}

/// Removes the first occurrence of each tag of `rm`.
fn remove_tags_from(tags: &mut Vec<String>, rm: &[String])
    ensures
        strings_view(final(tags)@) == tags_removed(strings_view(old(tags)@), strings_view(rm@)),
{
    let ghost start = strings_view(tags@);
    let ghost rv = strings_view(rm@);
    let mut i: usize = 0;
    while i < rm.len()
        invariant
            i <= rm@.len() == rv.len(),
            rv == strings_view(rm@),
            strings_view(tags@) == tags_removed(start, rv.take(i as int)),
        decreases rm.len() - i,
    {
        assert(rv.take(i + 1).drop_last() =~= rv.take(i as int));
        assert(rv.take(i + 1).last() == rm@[i as int]@);
        remove_tag(tags, &rm[i]);
        i += 1;
    }
    assert(rv.take(i as int) =~= rv);
}

/// The text to store for a clearable field: trimmed, or nothing when empty.
fn cleared_text(v: &str) -> (r: Option<String>)
    ensures
        opt_view(r) == cleared(v@),
{
    let t = trim_str(v);
    if t.as_str().is_empty() {
        None
    } else {
        Some(t)
    }
}

/// The DOI an edit would set, to be checked against the other papers.
pub fn edit_doi(e: &PaperEdit) -> (r: Option<String>)
    ensures
        opt_view(r) == edit_doi_of(*e),
{
    match &e.doi {
        Some(d) => cleared_text(d.as_str()),
        None => None,
    }
}

/// The arXiv id an edit would set (version dropped), to be checked against
/// the other papers.
pub fn edit_arxiv(e: &PaperEdit) -> (r: Option<String>)
    ensures
        opt_view(r) == edit_arxiv_of(*e),
{
    match &e.arxiv {
        Some(a) => match cleared_text(a.as_str()) {
            Some(t) => Some(normalize_arxiv_id(t.as_str())),
            None => None,
        },
        None => None,
    }
}

/// `a` and `b` agree on everything but the bibliographic fields.
pub open spec fn same_but_meta(a: Paper, b: Paper) -> bool {
    &&& a.id == b.id
    &&& a.status == b.status
    &&& a.priority == b.priority
    &&& a.rating == b.rating
    &&& a.tags == b.tags
    &&& a.added_at == b.added_at
    &&& a.started_at == b.started_at
    &&& a.finished_at == b.finished_at
    &&& a.notes == b.notes
}

/// The first reason `edit` refuses, if any.
fn edit_check(p: &Paper, e: &PaperEdit, doi_owner: Option<i64>, arxiv_owner: Option<i64>) -> (r:
    Option<CliError>)
    ensures
        match edit_refusal(*p, *e, doi_owner, arxiv_owner) {
            Some(err) => (r matches Some(x) && x@ == err),
            None => r is None,
        },
{
    let given = e.title.is_some() || e.authors.is_some() || e.year.is_some() || e.venue.is_some()
        || e.url.is_some() || e.pdf_url.is_some() || e.doi.is_some() || e.arxiv.is_some()
        || e.add_tags.len() > 0 || e.rm_tags.len() > 0 || e.priority.is_some()
        || e.status.is_some() || e.rating.is_some();
    if !given {
        return Some(CliError::NothingToChange);
    }
    match &e.title {
        Some(t) => {
            if trim_str(t.as_str()).as_str().is_empty() {
                return Some(CliError::EmptyTitle);
            }
        },
        None => {},
    }
    match e.year {
        Some(y) => {
            if y != 0 {
                if let Err(x) = validate_year(y) {
                    return Some(x);
                }
            }
        },
        None => {},
    }
    match edit_doi(e) {
        Some(d) => match doi_owner {
            Some(o) => {
                if o != p.id {
                    return Some(CliError::DoiTaken(d, o));
                }
            },
            None => {},
        },
        None => {},
    }
    match edit_arxiv(e) {
        Some(a) => match arxiv_owner {
            Some(o) => {
                if o != p.id {
                    return Some(CliError::ArxivTaken(a, o));
                }
            },
            None => {},
        },
        None => {},
    }
    match &e.priority {
        Some(w) => {
            if let Err(x) = parse_priority(w.as_str()) {
                return Some(x);
            }
        },
        None => {},
    }
    match &e.status {
        Some(w) => {
            if let Err(x) = parse_status(w.as_str()) {
                return Some(x);
            }
        },
        None => {},
    }
    match e.rating {
        Some(x) => {
            if x != 0 {
                if let Err(err) = validate_rating(x) {
                    return Some(err);
                }
            }
        },
        None => {},
    }
    None
}

/// Replaces the bibliographic fields the edit gives.
fn apply_meta_edit(p: &mut Paper, e: &PaperEdit)
    ensures
        meta_of(*final(p)) == edited_meta(meta_of(*old(p)), *e),
        same_but_meta(*final(p), *old(p)),
{
    match &e.title {
        Some(t) => {
            p.title = trim_str(t.as_str());
        },
        None => {},
    }
    match &e.authors {
        Some(a) => {
            p.authors = tidy_author_list(a.as_str());
        },
        None => {},
    }
    match e.year {
        Some(y) => {
            if y == 0 {
                p.year = None;
            } else {
                p.year = Some(y);
            }
        },
        None => {},
    }
    match &e.venue {
        Some(v) => {
            p.venue = cleared_text(v.as_str());
        },
        None => {},
    }
    match &e.url {
        Some(u) => {
            p.url = cleared_text(u.as_str());
        },
        None => {},
    }
    match &e.pdf_url {
        Some(u) => {
            p.pdf_url = cleared_text(u.as_str());
        },
        None => {},
    }
    if e.doi.is_some() {
        p.doi = edit_doi(e);
    }
    if e.arxiv.is_some() {
        p.arxiv_id = edit_arxiv(e);
    }
}

/// Moves the paper to the status a word names (known to be valid), with the
/// timestamp rules of `edit`.
fn apply_status_edit(p: &mut Paper, e: &PaperEdit, now: &str)
    requires
        e.status is Some ==> status_from_word(lowercase(e.status->0@)) is Some,
    ensures
        final(p).status == edited_status(*old(p), *e),
        opt_view(final(p).started_at) == edited_started(*old(p), *e, now@),
        opt_view(final(p).finished_at) == edited_finished(*old(p), *e, now@),
        meta_of(*final(p)) == meta_of(*old(p)),
        final(p).id == old(p).id,
        final(p).priority == old(p).priority,
        final(p).rating == old(p).rating,
        final(p).tags == old(p).tags,
        final(p).added_at == old(p).added_at,
        final(p).notes == old(p).notes,
{
    match &e.status {
        Some(w) => match parse_status(w.as_str()) {
            Ok(s) => {
                if s != p.status {
                    p.status = s;
                    match s {
                        Status::Reading => {
                            p.started_at = owned(now);
                            p.finished_at = None;
                        },
                        Status::Read => {
                            p.finished_at = owned(now);
                        },
                        Status::ToRead => {
                            p.started_at = None;
                            p.finished_at = None;
                        },
                        Status::Dropped => {},
                    }
                }
            },
            Err(_) => {},
        },
        None => {},
    }
}

/// `edit` applied to `p`: the given fields replaced (empty text or 0 clears),
/// tags added then removed, the status moved with the same timestamp rules
/// as `start`/`done`, and a move back to to-read forgetting both timestamps.
/// `doi_owner` and `arxiv_owner` are the papers that already hold the DOI
/// and arXiv id the edit sets (from `edit_doi` and `edit_arxiv`), if any.
#[verifier::rlimit(30)]
pub fn apply_edit(
    p: Paper,
    e: PaperEdit,
    doi_owner: Option<i64>,
    arxiv_owner: Option<i64>,
    now: &str,
) -> (r: Result<Paper, CliError>)
    ensures
        match edit_refusal(p, e, doi_owner, arxiv_owner) {
            Some(err) => (r matches Err(x) && x@ == err),
            None => (r matches Ok(q) && {
                &&& meta_of(q) == edited_meta(meta_of(p), e)
                &&& q.id == p.id
                &&& strings_view(q.tags@) == tags_removed(
                    tags_added(strings_view(p.tags@), normalized_tags(strings_view(e.add_tags@))),
                    normalized_tags(strings_view(e.rm_tags@)),
                )
                &&& q.priority == match e.priority {
                    Some(w) => priority_from_word(lowercase(w@))->0,
                    None => p.priority,
                }
                &&& q.status == edited_status(p, e)
                &&& opt_view(q.started_at) == edited_started(p, e, now@)
                &&& opt_view(q.finished_at) == edited_finished(p, e, now@)
                &&& q.rating == match e.rating {
                    Some(x) => if x == 0 {
                        None
                    } else {
                        Some(x)
                    },
                    None => p.rating,
                }
                &&& q.added_at == p.added_at
                &&& q.notes == p.notes
            }),
        },
{
    if let Some(x) = edit_check(&p, &e, doi_owner, arxiv_owner) {
        return Err(x);
    }
    let ghost p0 = p;
    let mut q = p;
    apply_meta_edit(&mut q, &e);
    let ghost p1 = q;
    let adds = normalize_tags(e.add_tags.as_slice());
    let rms = normalize_tags(e.rm_tags.as_slice());
    add_tags_to(&mut q.tags, adds.as_slice());
    remove_tags_from(&mut q.tags, rms.as_slice());
    match &e.priority {
        Some(w) => match parse_priority(w.as_str()) {
            Ok(pr) => {
                q.priority = pr;
            },
            Err(_) => {},
        },
        None => {},
    }
    let ghost p2 = q;
    assert(edited_status(p2, e) == edited_status(p0, e));
    apply_status_edit(&mut q, &e, now);
    match e.rating {
        Some(x) => {
            if x == 0 {
                q.rating = None;
            } else {
                q.rating = Some(x);
            }
        },
        None => {},
    }
    Ok(q)
}

} // verus!
