//! Export to CSV, import from BibTeX, and the decisions around `export` and
//! `import`: formats, duplicates, the summary line.

use vstd::prelude::*;
use crate::bibtex::{
    BibEntry, EntryView, entries_view, fields_view, field_lookup, normalize_author, normalized_author, parse,
    bib_entries,
};
use crate::commands::{CliError, CliErrorView};
use crate::fetch::{normalize_arxiv_id, split_version};
use crate::model::{
    Paper, Priority, Status, join_strings, normalize_tags, normalized_tags, opt_view, strings_view,
};
use crate::text::{
    ascii_lowercase, chars_of, contains_char, int_str, join, lowercase, lowercase_chars, nat_str,
    parse_i32, parse_i32_chars, replace, replace_chars, split, split_any, split_any_chars,
    split_chars, squish, squish_chars, str_eq, string_of, trim, trim_chars, trim_start, views,
    int_chars, nat_chars,
};

verus! {

// ---------------------------------------------------------------------------
// CSV
// ---------------------------------------------------------------------------

/// A CSV field: quoted, with quotes doubled, when it holds a quote, a comma,
/// a line feed or a carriage return.
pub open spec fn csv_field(s: Seq<char>) -> Seq<char> {
    if s.contains('"') || s.contains(',') || s.contains('\n') || s.contains('\r') {
        seq!['"'] + replace(s, seq!['"'], seq!['"', '"']) + seq!['"']
    } else {
        s
    }
}

/// `o.unwrap_or("")` on a view.
pub open spec fn text_or_empty(o: Option<Seq<char>>) -> Seq<char> {
    match o {
        Some(s) => s,
        None => seq![],
    }
}

/// The decimal text of an optional number, empty when there is none.
pub open spec fn number_or_empty(o: Option<int>) -> Seq<char> {
    match o {
        Some(n) => int_str(n),
        None => seq![],
    }
}

/// The CSV columns of a paper (the arXiv id and the timestamps unquoted).
pub open spec fn csv_columns(p: Paper) -> Seq<Seq<char>> {
    seq![
        int_str(p.id as int),
        csv_field(p.title@),
        csv_field(p.authors@),
        number_or_empty(
            match p.year {
                Some(y) => Some(y as int),
                None => None,
            },
        ),
        csv_field(text_or_empty(opt_view(p.venue))),
        text_or_empty(opt_view(p.arxiv_id)),
        csv_field(text_or_empty(opt_view(p.doi))),
        csv_field(text_or_empty(opt_view(p.url))),
        csv_field(text_or_empty(opt_view(p.pdf_url))),
        p.status.name(),
        p.priority.name(),
        number_or_empty(
            match p.rating {
                Some(r) => Some(r as int),
                None => None,
            },
        ),
        csv_field(join(strings_view(p.tags@), seq![','])),
        p.added_at@,
        text_or_empty(opt_view(p.started_at)),
        text_or_empty(opt_view(p.finished_at)),
    ]
}

/// The header line of the CSV export.
pub open spec fn csv_header() -> Seq<char> {
    "id,title,authors,year,venue,arxiv_id,doi,url,pdf_url,status,priority,rating,tags,added_at,started_at,finished_at\n"@
}

/// The CSV lines of the papers, each ending in a line feed.
pub open spec fn csv_rows(ps: Seq<Paper>) -> Seq<char>
    decreases ps.len(),
{
    if ps.len() == 0 {
        seq![]
    } else {
        csv_rows(ps.drop_last()) + join(csv_columns(ps.last()), seq![',']) + seq!['\n']
    }
}

fn csv_field_exec(s: &str) -> (r: String)
    ensures
        r@ == csv_field(s@),
{
    let v = chars_of(s);
    if contains_char(v.as_slice(), '"') || contains_char(v.as_slice(), ',') || contains_char(
        v.as_slice(),
        '\n',
    ) || contains_char(v.as_slice(), '\r') {
        let q: Vec<char> = vec!['"'];
        let qq: Vec<char> = vec!['"', '"'];
        assert(q@ =~= seq!['"']);
        assert(qq@ =~= seq!['"', '"']);
        let inner = replace_chars(v.as_slice(), q.as_slice(), qq.as_slice());
        let mut out: Vec<char> = Vec::new();
        out.push('"');
        out.extend_from_slice(inner.as_slice());
        out.push('"');
        assert(out@ =~= seq!['"'] + inner@ + seq!['"']);
        string_of(out.as_slice())
    } else {
        s.to_owned()
    }
}

fn opt_text(o: &Option<String>) -> (r: &str)
    ensures
        r@ == text_or_empty(opt_view(*o)),
{
    match o {
        Some(s) => s.as_str(),
        None => {
            proof {
                reveal_strlit("");
                assert(""@ =~= Seq::<char>::empty());
            }
            ""
        },
    }
}

fn number_text(o: Option<i64>) -> (r: String)
    ensures
        r@ == number_or_empty(
            match o {
                Some(n) => Some(n as int),
                None => None,
            },
        ),
{
    match o {
        Some(n) => string_of(int_chars(n).as_slice()),
        None => String::new(),
    }
}

fn csv_line(p: &Paper) -> (r: String)
    ensures
        r@ == join(csv_columns(*p), seq![',']) + seq!['\n'],
{
    let year = match p.year {
        Some(y) => Some(y as i64),
        None => None,
    };
    let cols: Vec<String> = vec![
        string_of(int_chars(p.id).as_slice()),
        csv_field_exec(p.title.as_str()),
        csv_field_exec(p.authors.as_str()),
        number_text(year),
        csv_field_exec(opt_text(&p.venue)),
        opt_text(&p.arxiv_id).to_owned(),
        csv_field_exec(opt_text(&p.doi)),
        csv_field_exec(opt_text(&p.url)),
        csv_field_exec(opt_text(&p.pdf_url)),
        p.status.as_str().to_owned(),
        p.priority.as_str().to_owned(),
        number_text(p.rating),
        csv_field_exec(join_strings(p.tags.as_slice(), ",").as_str()),
        p.added_at.clone(),
        opt_text(&p.started_at).to_owned(),
        opt_text(&p.finished_at).to_owned(),
    ];
    proof {
        reveal_strlit(",");
        assert(","@ =~= seq![',']);
        assert(strings_view(cols@) =~= csv_columns(*p));
    }
    let mut line = join_strings(cols.as_slice(), ",");
    line.append("\n");
    proof {
        reveal_strlit("\n");
        assert("\n"@ =~= seq!['\n']);
    }
    line
}

/// The CSV export: a header line, then one line per paper (fields that need
/// it quoted, tags joined with ',').
pub fn export_csv(papers: &[Paper]) -> (r: String)
    ensures
        r@ == csv_header() + csv_rows(papers@),
{
    let mut out = "id,title,authors,year,venue,arxiv_id,doi,url,pdf_url,status,priority,rating,tags,added_at,started_at,finished_at\n".to_owned();
    let mut i: usize = 0;
    while i < papers.len()
        invariant
            i <= papers@.len(),
            out@ == csv_header() + csv_rows(papers@.take(i as int)),
        decreases papers.len() - i,
    {
        assert(papers@.take(i + 1).drop_last() =~= papers@.take(i as int));
        assert(papers@.take(i + 1).last() == papers@[i as int]);
        let line = csv_line(&papers[i]);
        out.append(line.as_str());
        assert(out@ =~= csv_header() + csv_rows(papers@.take(i + 1)));
        i += 1;
    }
    assert(papers@.take(i as int) =~= papers@);
    out
}

// ---------------------------------------------------------------------------
// BibTeX import
// ---------------------------------------------------------------------------

/// A field of the entry that is present and not empty.
pub open spec fn bib_field(e: EntryView, name: Seq<char>) -> Option<Seq<char>> {
    match field_lookup(e.fields, name) {
        Some(v) => if v.len() > 0 {
            Some(v)
        } else {
            None
        },
        None => None,
    }
}

/// The normalized names of the parts, empty ones left out.
pub open spec fn bib_author_names(parts: Seq<Seq<char>>) -> Seq<Seq<char>>
    decreases parts.len(),
{
    if parts.len() == 0 {
        seq![]
    } else {
        let rest = bib_author_names(parts.drop_last());
        let n = normalized_author(parts.last());
        if n.len() > 0 {
            rest.push(n)
        } else {
            rest
        }
    }
}

/// The authors of an entry, "Last, First and ..." turned into "First Last; ...".
pub open spec fn bib_authors(e: EntryView) -> Seq<char> {
    match bib_field(e, "author"@) {
        Some(a) => join(bib_author_names(split(a, " and "@)), "; "@),
        None => seq![],
    }
}

/// The eprint is an arXiv id: no archive prefix (or eprint type) is given,
/// or it says "arxiv" in any case.
pub open spec fn eprint_is_arxiv(e: EntryView) -> bool {
    let fv = e.fields;
    let prefix = match field_lookup(fv, "archiveprefix"@) {
        Some(p) => Some(p),
        None => field_lookup(fv, "eprinttype"@),
    };
    match prefix {
        Some(p) => ascii_lowercase(p) == "arxiv"@,
        None => true,
    }
}

/// The arXiv id of an entry (version dropped).
pub open spec fn bib_arxiv(e: EntryView) -> Option<Seq<char>> {
    match bib_field(e, "eprint"@) {
        Some(a) => if eprint_is_arxiv(e) {
            Some(split_version(trim(a)).0)
        } else {
            None
        },
        None => None,
    }
}

/// The keywords of an entry, split at ',' and ';' and trimmed.
pub open spec fn bib_keywords(e: EntryView) -> Seq<Seq<char>> {
    match bib_field(e, "keywords"@) {
        Some(k) => split_any(k, seq![',', ';']).map_values(|t: Seq<char>| trim(t)),
        None => seq![],
    }
}

/// What a BibTeX entry gives: nothing without a title; else a to-read paper
/// of normal priority added `now`, with the entry's fields.
pub open spec fn bib_paper(e: EntryView, now: Seq<char>, p: Paper) -> bool {
    &&& p.id == 0
    &&& p.title@ == bib_field(e, "title"@)->0
    &&& p.authors@ == bib_authors(e)
    &&& p.year == match bib_field(e, "year"@) {
        Some(y) => match parse_i32(y) {
            Some(v) => Some(v as i32),
            None => None,
        },
        None => None,
    }
    &&& opt_view(p.venue) == match bib_field(e, "journal"@) {
        Some(j) => Some(j),
        None => match bib_field(e, "booktitle"@) {
            Some(b) => Some(b),
            None => bib_field(e, "howpublished"@),
        },
    }
    &&& opt_view(p.arxiv_id) == bib_arxiv(e)
    &&& opt_view(p.doi) == bib_field(e, "doi"@)
    &&& opt_view(p.url) == match bib_field(e, "url"@) {
        Some(u) => Some(u),
        None => match bib_arxiv(e) {
            Some(a) => Some("https://arxiv.org/abs/"@ + a),
            None => None,
        },
    }
    &&& p.pdf_url is None
    &&& opt_view(p.abstract_) == bib_field(e, "abstract"@)
    &&& p.status == Status::ToRead
    &&& p.priority == Priority::Normal
    &&& p.rating is None
    &&& strings_view(p.tags@) == normalized_tags(bib_keywords(e))
    &&& p.added_at@ == now
    &&& p.started_at is None
    &&& p.finished_at is None
    &&& p.notes@.len() == 0
}

/// An imported entry with a non-empty `journal` field takes that journal as
/// the paper's venue, whatever else the entry holds.
pub proof fn imported_journal_is_the_venue(e: EntryView, now: Seq<char>, p: Paper, j: Seq<char>)
    requires
        bib_paper(e, now, p),
        field_lookup(e.fields, "journal"@) == Some(j),
        j.len() > 0,
    ensures
        p.venue matches Some(v) && v@ == j,
{
}

/// Without a non-empty `journal`, an imported entry's venue is its
/// non-empty `booktitle`.
pub proof fn imported_booktitle_is_the_venue(
    e: EntryView,
    now: Seq<char>,
    p: Paper,
    b: Seq<char>,
)
    requires
        bib_paper(e, now, p),
        !(field_lookup(e.fields, "journal"@) matches Some(j) && j.len() > 0),
        field_lookup(e.fields, "booktitle"@) == Some(b),
        b.len() > 0,
    ensures
        p.venue matches Some(v) && v@ == b,
{
}

fn bib_field_exec(e: &BibEntry, name: &str) -> (r: Option<String>)
    ensures
        opt_view(r) == bib_field(e@, name@),
{
    match e.get(name) {
        Some(v) => if v.as_str().is_empty() {
            None
        } else {
            Some(v.clone())
        },
        None => None,
    }
}

fn bib_authors_exec(e: &BibEntry) -> (r: String)
    ensures
        r@ == bib_authors(e@),
{
    match bib_field_exec(e, "author") {
        Some(a) => {
            let ac = chars_of(a.as_str());
            let sep = chars_of(" and ");
            proof {
                reveal_strlit(" and ");
            }
            let parts = split_chars(ac.as_slice(), sep.as_slice());
            let ghost pv = views(parts@);
            let mut names: Vec<String> = Vec::new();
            let mut i: usize = 0;
            while i < parts.len()
                invariant
                    i <= parts@.len() == pv.len(),
                    pv == views(parts@),
                    strings_view(names@) == bib_author_names(pv.take(i as int)),
                decreases parts.len() - i,
            {
                assert(pv.take(i + 1).drop_last() =~= pv.take(i as int));
                assert(pv.take(i + 1).last() == parts@[i as int]@);
                let part = string_of(parts[i].as_slice());
                let n = normalize_author(part.as_str());
                let ghost before = strings_view(names@);
                if !n.as_str().is_empty() {
                    let ghost nv = n@;
                    names.push(n);
                    assert(strings_view(names@) =~= before.push(nv));
                }
                i += 1;
            }
            assert(pv.take(i as int) =~= pv);
            join_strings(names.as_slice(), "; ")
        },
        None => String::new(),
    }
}

fn ascii_lower_string(s: &str) -> (r: Vec<char>)
    ensures
        r@ == ascii_lowercase(s@),
{
    let v = chars_of(s);
    let mut out: Vec<char> = Vec::new();
    let mut i: usize = 0;
    while i < v.len()
        invariant
            i <= v@.len(),
            v@ == s@,
            out@ == ascii_lowercase(s@.take(i as int)),
        decreases v.len() - i,
    {
        out.push(crate::text::to_ascii_lower(v[i]));
        assert(out@ =~= ascii_lowercase(s@.take(i + 1)));
        i += 1;
    }
    assert(s@.take(i as int) =~= s@);
    out
}

fn bib_arxiv_exec(e: &BibEntry) -> (r: Option<String>)
    ensures
        opt_view(r) == bib_arxiv(e@),
{
    match bib_field_exec(e, "eprint") {
        Some(a) => {
            let prefix = match e.get("archiveprefix") {
                Some(p) => Some(p),
                None => e.get("eprinttype"),
            };
            let is_arxiv = match prefix {
                Some(p) => {
                    let l = ascii_lower_string(p.as_str());
                    crate::text::eq_str(l.as_slice(), "arxiv")
                },
                None => true,
            };
            if is_arxiv {
                Some(normalize_arxiv_id(a.as_str()))
            } else {
                None
            }
        },
        None => None,
    }
}

fn bib_keywords_exec(e: &BibEntry) -> (r: Vec<String>)
    ensures
        strings_view(r@) == bib_keywords(e@),
{
    match bib_field_exec(e, "keywords") {
        Some(k) => {
            let kc = chars_of(k.as_str());
            let seps: Vec<char> = vec![',', ';'];
            assert(seps@ =~= seq![',', ';']);
            let parts = split_any_chars(kc.as_slice(), seps.as_slice());
            let ghost pv = views(parts@);
            let mut out: Vec<String> = Vec::new();
            let mut i: usize = 0;
            while i < parts.len()
                invariant
                    i <= parts@.len() == pv.len(),
                    pv == views(parts@),
                    strings_view(out@) == pv.take(i as int).map_values(|t: Seq<char>| trim(t)),
                decreases parts.len() - i,
            {
                let t = trim_chars(parts[i].as_slice());
                let ghost before = strings_view(out@);
                let piece = string_of(t.as_slice());
                let ghost sv = piece@;
                out.push(piece);
                assert(pv[i as int] == parts@[i as int]@);
                assert(strings_view(out@) =~= before.push(sv));
                assert(pv.take(i + 1).map_values(|t: Seq<char>| trim(t)) =~= pv.take(
                    i as int,
                ).map_values(|t: Seq<char>| trim(t)).push(trim(pv[i as int])));
                i += 1;
            }
            assert(pv.take(i as int) =~= pv);
            out
        },
        None => {
            let out: Vec<String> = Vec::new();
            assert(strings_view(out@) =~= seq![]);
            out
        },
    }
}

/// A paper from a BibTeX entry, or nothing when the entry has no title;
/// `now` is its added time.
pub fn paper_from_bib(e: &BibEntry, now: &str) -> (r: Option<Paper>)
    ensures
        bib_field(e@, "title"@) is None ==> r is None,
        bib_field(e@, "title"@) is Some ==> (r matches Some(p) && bib_paper(e@, now@, p)),
{
    let title = match bib_field_exec(e, "title") {
        Some(t) => t,
        None => {
            return None;
        },
    };
    let authors = bib_authors_exec(e);
    let arxiv_id = bib_arxiv_exec(e);
    let url = match bib_field_exec(e, "url") {
        Some(u) => Some(u),
        None => match &arxiv_id {
            Some(a) => {
                let mut u = "https://arxiv.org/abs/".to_owned();
                u.append(a.as_str());
                Some(u)
            },
            None => None,
        },
    };
    let keywords = bib_keywords_exec(e);
    let year = match bib_field_exec(e, "year") {
        Some(y) => {
            let yc = chars_of(y.as_str());
            parse_i32_chars(yc.as_slice())
        },
        None => None,
    };
    let venue = match bib_field_exec(e, "journal") {
        Some(j) => Some(j),
        None => match bib_field_exec(e, "booktitle") {
            Some(b) => Some(b),
            None => bib_field_exec(e, "howpublished"),
        },
    };
    Some(
        Paper {
            id: 0,
            title,
            authors,
            year,
            venue,
            arxiv_id,
            doi: bib_field_exec(e, "doi"),
            url,
            pdf_url: None,
            abstract_: bib_field_exec(e, "abstract"),
            status: Status::ToRead,
            priority: Priority::Normal,
            rating: None,
            tags: normalize_tags(keywords.as_slice()),
            added_at: now.to_owned(),
            started_at: None,
            finished_at: None,
            notes: Vec::new(),
        },
    )
}

/// The papers of a BibTeX file, entries without a title left out.
pub open spec fn bib_papers_ok(es: Seq<EntryView>, now: Seq<char>, ps: Seq<Paper>) -> bool
    decreases es.len(),
{
    if es.len() == 0 {
        ps.len() == 0
    } else if bib_field(es.last(), "title"@) is Some {
        ps.len() > 0 && bib_paper(es.last(), now, ps.last()) && bib_papers_ok(
            es.drop_last(),
            now,
            ps.drop_last(),
        )
    } else {
        bib_papers_ok(es.drop_last(), now, ps)
    }
}

/// The papers of a BibTeX file (`import`), and how many entries were
/// skipped for having no title.
pub fn papers_from_bibtex(content: &str, now: &str) -> (r: (Vec<Paper>, usize))
    ensures
        bib_papers_ok(bib_entries(content@), now@, r.0@),
        r.0@.len() + r.1 == bib_entries(content@).len(),
{
    let entries = parse(content);
    let ghost ev = entries_view(entries@);
    let mut papers: Vec<Paper> = Vec::new();
    let mut skipped: usize = 0;
    let mut i: usize = 0;
    while i < entries.len()
        invariant
            i <= entries@.len(),
            ev == entries_view(entries@),
            ev == bib_entries(content@),
            bib_papers_ok(ev.take(i as int), now@, papers@),
            papers@.len() + skipped == i,
        decreases entries.len() - i,
    {
        assert(ev.take(i + 1).drop_last() =~= ev.take(i as int));
        assert(ev.take(i + 1).last() == entries@[i as int]@);
        match paper_from_bib(&entries[i], now) {
            Some(p) => {
                let ghost before = papers@;
                papers.push(p);
                assert(papers@.drop_last() =~= before);
            },
            None => {
                skipped += 1;
            },
        }
        i += 1;
    }
    assert(ev.take(i as int) =~= ev);
    (papers, skipped)
}

/// How an import file is read.
#[derive(Debug, Clone, Copy, PartialEq, Eq, Structural)]
pub enum ImportFormat {
    Json,
    Bibtex,
}

/// The format an import reads: the one given, else by the file's extension,
/// else JSON when the content starts (after whitespace) with '[' or '{', else BibTeX.
pub open spec fn import_format_of(given: Option<Seq<char>>, ext: Seq<char>, content: Seq<char>) -> Seq<
    char,
> {
    match given {
        Some(f) => f,
        None => if ext == "json"@ {
            "json"@
        } else if ext == "bib"@ || ext == "bibtex"@ {
            "bibtex"@
        } else if trim_start(content).len() > 0 && (trim_start(content)[0] == '['
            || trim_start(content)[0] == '{') {
            "json"@
        } else {
            "bibtex"@
        },
    }
}

/// The name of the format an import reads (see `import_format_of`).
pub fn import_format(given: Option<String>, ext: &str, content: &str) -> (r: String)
    ensures
        r@ == import_format_of(opt_view(given), ext@, content@),
{
    proof {
        reveal_strlit("json");
        reveal_strlit("bib");
        reveal_strlit("bibtex");
        reveal_strlit("csv");
        assert("json"@.len() == 4 && "bib"@.len() == 3 && "bibtex"@.len() == 6);
        assert("csv"@.len() == 3 && "csv"@[0] != "bib"@[0]);
    }
    match given {
        Some(f) => f,
        None => {
            if str_eq(ext, "json") {
                "json".to_owned()
            } else if str_eq(ext, "bib") || str_eq(ext, "bibtex") {
                "bibtex".to_owned()
            } else {
                let cs = chars_of(content);
                let a = crate::text::first_non_ws(cs.as_slice());
                proof {
                    if a < cs.len() {
                        assert(trim_start(content@)[0] == cs@[a as int]);
                    }
                }
                if a < cs.len() && (cs[a] == '[' || cs[a] == '{') {
                    "json".to_owned()
                } else {
                    "bibtex".to_owned()
                }
            }
        },
    }
}

/// The kind of an import format name.
pub fn import_kind(format: &str) -> (r: Result<ImportFormat, CliError>)
    ensures
        format@ == "json"@ ==> r == Ok::<ImportFormat, CliError>(ImportFormat::Json),
        (format@ == "bibtex"@ || format@ == "bib"@) ==> r == Ok::<ImportFormat, CliError>(
            ImportFormat::Bibtex,
        ),
        !(format@ == "json"@ || format@ == "bibtex"@ || format@ == "bib"@) ==> (r matches Err(e)
            && e@ == CliErrorView::UnknownImportFormat(format@)),
{
    proof {
        reveal_strlit("json");
        reveal_strlit("bib");
        reveal_strlit("bibtex");
        reveal_strlit("csv");
        assert("json"@.len() == 4 && "bib"@.len() == 3 && "bibtex"@.len() == 6);
        assert("csv"@.len() == 3 && "csv"@[0] != "bib"@[0]);
    }
    if str_eq(format, "json") {
        Ok(ImportFormat::Json)
    } else if str_eq(format, "bibtex") || str_eq(format, "bib") {
        Ok(ImportFormat::Bibtex)
    } else {
        Err(CliError::UnknownImportFormat(format.to_owned()))
    }
}

/// What an export writes.
#[derive(Debug, Clone, Copy, PartialEq, Eq, Structural)]
pub enum ExportFormat {
    Bibtex,
    Json,
    Csv,
}

/// The kind of an export format name.
pub fn export_kind(format: &str) -> (r: Result<ExportFormat, CliError>)
    ensures
        (format@ == "bibtex"@ || format@ == "bib"@) ==> r == Ok::<ExportFormat, CliError>(
            ExportFormat::Bibtex,
        ),
        format@ == "json"@ ==> r == Ok::<ExportFormat, CliError>(ExportFormat::Json),
        format@ == "csv"@ ==> r == Ok::<ExportFormat, CliError>(ExportFormat::Csv),
        !(format@ == "bibtex"@ || format@ == "bib"@ || format@ == "json"@ || format@ == "csv"@)
            ==> (r matches Err(e) && e@ == CliErrorView::UnknownExportFormat(format@)),
{
    proof {
        reveal_strlit("json");
        reveal_strlit("bib");
        reveal_strlit("bibtex");
        reveal_strlit("csv");
        assert("json"@.len() == 4 && "bib"@.len() == 3 && "bibtex"@.len() == 6);
        assert("csv"@.len() == 3 && "csv"@[0] != "bib"@[0]);
    }
    if str_eq(format, "bibtex") || str_eq(format, "bib") {
        Ok(ExportFormat::Bibtex)
    } else if str_eq(format, "json") {
        Ok(ExportFormat::Json)
    } else if str_eq(format, "csv") {
        Ok(ExportFormat::Csv)
    } else {
        Err(CliError::UnknownExportFormat(format.to_owned()))
    }
}

/// Author lists compared case-insensitively, whitespace collapsed.
pub open spec fn norm_authors(s: Seq<char>) -> Seq<char> {
    squish(lowercase(s))
}

/// Two papers with the same title are the same paper: matching authors when
/// both have some, else matching years when both have one, else nothing
/// tells them apart.
pub open spec fn title_twins(p: Paper, c: Paper) -> bool {
    if p.authors@.len() > 0 && c.authors@.len() > 0 {
        norm_authors(p.authors@) == norm_authors(c.authors@)
    } else if p.year is Some && c.year is Some {
        p.year == c.year
    } else {
        true
    }
}

/// A paper is the twin of itself, so importing a dump again adds nothing
/// for papers without an identifier.
pub proof fn paper_is_its_own_twin(p: Paper)
    ensures
        title_twins(p, p),
{
}

/// Import's duplicate check for a paper without a known identifier:
/// whether one of `candidates` (the papers with the same title, compared
/// case-insensitively) is the same paper.
pub fn is_title_twin(p: &Paper, candidates: &[Paper]) -> (r: bool)
    ensures
        r == exists|k: int| 0 <= k < candidates@.len() && title_twins(*p, #[trigger] candidates@[k]),
{
    let pa = squish_chars(lowercase_chars(chars_of(p.authors.as_str()).as_slice()).as_slice());
    let mut i: usize = 0;
    while i < candidates.len()
        invariant
            i <= candidates@.len(),
            pa@ == norm_authors(p.authors@),
            forall|k: int| 0 <= k < i ==> !title_twins(*p, #[trigger] candidates@[k]),
        decreases candidates.len() - i,
    {
        let c = &candidates[i];
        let twin = if !p.authors.as_str().is_empty() && !c.authors.as_str().is_empty() {
            let ca = squish_chars(lowercase_chars(chars_of(c.authors.as_str()).as_slice()).as_slice());
            crate::text::eq_str(pa.as_slice(), string_of(ca.as_slice()).as_str())
        } else if p.year.is_some() && c.year.is_some() {
            p.year == c.year
        } else {
            true
        };
        if twin {
            assert(title_twins(*p, candidates@[i as int]));
            return true;
        }
        i += 1;
    }
    false
}

/// "s" for any count but one.
pub open spec fn plural(n: nat) -> Seq<char> {
    if n == 1 {
        seq![]
    } else {
        "s"@
    }
}

/// The summary `import` prints: how many papers came in, and how many were
/// skipped as duplicates or for having no title.
pub open spec fn import_summary_of(imported: nat, duplicates: nat, untitled: nat) -> Seq<char> {
    "imported "@ + nat_str(imported) + " paper"@ + plural(imported) + (if duplicates > 0 {
        ", skipped "@ + nat_str(duplicates) + " duplicate"@ + plural(duplicates)
    } else {
        seq![]
    }) + (if untitled > 0 {
        ", skipped "@ + nat_str(untitled) + " entr"@ + (if untitled == 1 {
            "y"@
        } else {
            "ies"@
        }) + " without a title"@
    } else {
        seq![]
    })
}

fn count_text(n: usize) -> (r: String)
    ensures
        r@ == nat_str(n as nat),
{
    string_of(nat_chars(n as u64).as_slice())
}

fn plural_text(n: usize) -> (r: &'static str)
    ensures
        r@ == plural(n as nat),
{
    if n == 1 {
        proof {
            reveal_strlit("");
            assert(""@ =~= Seq::<char>::empty());
        }
        ""
    } else {
        "s"
    }
}

fn imported_part(n: usize) -> (r: String)
    ensures
        r@ == "imported "@ + nat_str(n as nat) + " paper"@ + plural(n as nat),
{
    let mut m = "imported ".to_owned();
    m.append(count_text(n).as_str());
    m.append(" paper");
    m.append(plural_text(n));
    m
}

fn duplicates_part(n: usize) -> (r: String)
    ensures
        r@ == if n > 0 {
            ", skipped "@ + nat_str(n as nat) + " duplicate"@ + plural(n as nat)
        } else {
            seq![]
        },
{
    let mut m = String::new();
    if n > 0 {
        m.append(", skipped ");
        m.append(count_text(n).as_str());
        m.append(" duplicate");
        m.append(plural_text(n));
    }
    m
}

fn untitled_part(n: usize) -> (r: String)
    ensures
        r@ == if n > 0 {
            ", skipped "@ + nat_str(n as nat) + " entr"@ + (if n == 1 {
                "y"@
            } else {
                "ies"@
            }) + " without a title"@
        } else {
            seq![]
        },
{
    let mut m = String::new();
    if n > 0 {
        m.append(", skipped ");
        m.append(count_text(n).as_str());
        m.append(" entr");
        if n == 1 {
            m.append("y");
        } else {
            m.append("ies");
        }
        m.append(" without a title");
    }
    m
}

/// The summary line of an import.
pub fn import_summary(imported: usize, duplicates: usize, untitled: usize) -> (r: String)
    ensures
        r@ == import_summary_of(imported as nat, duplicates as nat, untitled as nat),
{
    let mut m = imported_part(imported);
    m.append(duplicates_part(duplicates).as_str());
    m.append(untitled_part(untitled).as_str());
    m
}

} // verus!
