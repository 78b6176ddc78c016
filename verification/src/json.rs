//! JSON as the library reads it, and the records built from it: Crossref
//! and doi.org (CSL) metadata, and papers from a JSON export.

use vstd::prelude::*;
use vstd::utf8::encode_utf8;
use crate::commands::{CliError, CliErrorView};
use crate::fetch::{
    Fetched, jats_text, normalize_arxiv_id, pct_encode, percent_encode_path, split_version, strip_jats,
};
use crate::model::{
    Note, Paper, Priority, Status, normalize_tags, normalized_tags, opt_view, priority_from_word,
    status_from_word, strings_view,
};
use crate::text::{lowercase, squish, squish_str, str_eq, trim};

verus! {

/// A JSON value. Objects keep their members in order; when converted from a
/// parsed document their keys are distinct.
#[derive(Debug)]
pub enum Json {
    Null,
    Bool(bool),
    /// A number that is an integer in the range of `i64`.
    Int(i64),
    /// Any other number (a fraction, or an integer beyond `i64`).
    OtherNumber,
    Str(String),
    Array(Vec<Json>),
    Object(Vec<(String, Json)>),
}

/// The value of the first member named `key`.
pub open spec fn lookup(fields: Seq<(String, Json)>, key: Seq<char>) -> Option<Json>
    decreases fields.len(),
{
    if fields.len() == 0 {
        None
    } else if fields[0].0@ == key {
        Some(fields[0].1)
    } else {
        lookup(fields.drop_first(), key)
    }
}

/// `v[key]`: the member of an object, nothing for anything else.
pub open spec fn get(v: Option<Json>, key: Seq<char>) -> Option<Json> {
    match v {
        Some(Json::Object(fs)) => lookup(fs@, key),
        _ => None,
    }
}

/// `v[i]`: the element of an array, nothing for anything else.
pub open spec fn at(v: Option<Json>, i: int) -> Option<Json> {
    match v {
        Some(Json::Array(a)) => if 0 <= i < a@.len() {
            Some(a@[i])
        } else {
            None
        },
        _ => None,
    }
}

/// `v.as_str()`.
pub open spec fn str_of(v: Option<Json>) -> Option<Seq<char>> {
    match v {
        Some(Json::Str(s)) => Some(s@),
        _ => None,
    }
}

/// `v.as_i64()`.
pub open spec fn int_of(v: Option<Json>) -> Option<i64> {
    match v {
        Some(Json::Int(n)) => Some(n),
        _ => None,
    }
}

/// `v.as_array()`.
pub open spec fn items(v: Option<Json>) -> Option<Seq<Json>> {
    match v {
        Some(Json::Array(a)) => Some(a@),
        _ => None,
    }
}

/// The value behind an optional reference.
pub open spec fn deref(r: Option<&Json>) -> Option<Json> {
    match r {
        Some(x) => Some(*x),
        None => None,
    }
}

/// `v[key]`.
pub fn get_field<'a>(v: Option<&'a Json>, key: &str) -> (r: Option<&'a Json>)
    ensures
        deref(r) == get(deref(v), key@),
{
    match v {
        Some(Json::Object(fs)) => {
            let ghost s = fs@;
            let mut i: usize = 0;
            assert(s.skip(0) =~= s);
            while i < fs.len()
                invariant
                    i <= s.len(),
                    s == fs@,
                    get(deref(v), key@) == lookup(s, key@),
                    lookup(s, key@) == lookup(s.skip(i as int), key@),
                decreases fs.len() - i,
            {
                assert(s.skip(i as int)[0] == s[i as int]);
                assert(s.skip(i as int).drop_first() =~= s.skip(i + 1));
                if str_eq(fs[i].0.as_str(), key) {
                    assert(s[i as int].0@ == key@);
                    assert(lookup(s.skip(i as int), key@) == Some(s[i as int].1));
                    return Some(&fs[i].1);
                }
                i += 1;
            }
            None
        },
        _ => None,
    }
}

/// `v[i]`.
pub fn get_index<'a>(v: Option<&'a Json>, i: usize) -> (r: Option<&'a Json>)
    ensures
        deref(r) == at(deref(v), i as int),
{
    match v {
        Some(Json::Array(a)) => {
            if i < a.len() {
                Some(&a[i])
            } else {
                None
            }
        },
        _ => None,
    }
}

/// `v.as_str()`.
pub fn as_str<'a>(v: Option<&'a Json>) -> (r: Option<&'a str>)
    ensures
        match r {
            Some(s) => str_of(deref(v)) == Some(s@),
            None => str_of(deref(v)) is None,
        },
{
    match v {
        Some(Json::Str(s)) => Some(s.as_str()),
        _ => None,
    }
}

/// `v.as_i64()`.
pub fn as_i64(v: Option<&Json>) -> (r: Option<i64>)
    ensures
        r == int_of(deref(v)),
{
    match v {
        Some(Json::Int(n)) => Some(*n),
        _ => None,
    }
}

/// `v.as_array()`.
pub fn as_array<'a>(v: Option<&'a Json>) -> (r: Option<&'a Vec<Json>>)
    ensures
        match r {
            Some(a) => items(deref(v)) == Some(a@),
            None => items(deref(v)) is None,
        },
{
    match v {
        Some(Json::Array(a)) => Some(a),
        _ => None,
    }
}

// ---------------------------------------------------------------------------
// Crossref and doi.org records
// ---------------------------------------------------------------------------

/// Text with its whitespace collapsed, or nothing when that leaves it empty.
pub open spec fn squished_nonempty(s: Option<Seq<char>>) -> Option<Seq<char>> {
    match s {
        Some(t) => if squish(t).len() > 0 {
            Some(squish(t))
        } else {
            None
        },
        None => None,
    }
}

/// An abstract with its markup stripped, or nothing when that leaves it empty.
pub open spec fn abstract_text(s: Option<Seq<char>>) -> Option<Seq<char>> {
    match s {
        Some(t) => if jats_text(t).len() > 0 {
            Some(jats_text(t))
        } else {
            None
        },
        None => None,
    }
}

/// `s.unwrap_or("")`.
pub open spec fn or_empty(s: Option<Seq<char>>) -> Seq<char> {
    match s {
        Some(t) => t,
        None => seq![],
    }
}

/// An author record's name: the `whole` field (collapsed) when it is a
/// string, else "given family" collapsed, nothing when that is empty.
pub open spec fn author_name(a: Json, whole: Seq<char>) -> Option<Seq<char>> {
    match str_of(get(Some(a), whole)) {
        Some(n) => Some(squish(n)),
        None => {
            let full = squish(
                or_empty(str_of(get(Some(a), "given"@))) + " "@ + or_empty(
                    str_of(get(Some(a), "family"@)),
                ),
            );
            if full.len() > 0 {
                Some(full)
            } else {
                None
            }
        },
    }
}

/// The names of the author records, in order, records without a name left out.
pub open spec fn author_names_of(arr: Seq<Json>, whole: Seq<char>) -> Seq<Seq<char>>
    decreases arr.len(),
{
    if arr.len() == 0 {
        seq![]
    } else {
        let rest = author_names_of(arr.drop_last(), whole);
        match author_name(arr.last(), whole) {
            Some(n) => rest.push(n),
            None => rest,
        }
    }
}

/// The authors of a record's `author` array (none when it is not an array).
pub open spec fn record_authors(v: Option<Json>, whole: Seq<char>) -> Seq<Seq<char>> {
    match items(get(v, "author"@)) {
        Some(arr) => author_names_of(arr, whole),
        None => seq![],
    }
}

/// The year in `v[key]["date-parts"][0][0]`, as `i64`.
pub open spec fn date_year(v: Option<Json>, key: Seq<char>) -> Option<i64> {
    int_of(at(at(get(get(v, key), "date-parts"@), 0), 0))
}

/// Crossref's year: the first of issued, published-print, published-online
/// and created that has one.
pub open spec fn crossref_year(msg: Option<Json>) -> Option<i64> {
    if date_year(msg, "issued"@) is Some {
        date_year(msg, "issued"@)
    } else if date_year(msg, "published-print"@) is Some {
        date_year(msg, "published-print"@)
    } else if date_year(msg, "published-online"@) is Some {
        date_year(msg, "published-online"@)
    } else {
        date_year(msg, "created"@)
    }
}

/// The index of the first link whose content type is "application/pdf".
pub open spec fn first_pdf_link(links: Seq<Json>) -> Option<int>
    decreases links.len(),
{
    if links.len() == 0 {
        None
    } else if str_of(get(Some(links[0]), "content-type"@)) == Some("application/pdf"@) {
        Some(0)
    } else {
        match first_pdf_link(links.drop_first()) {
            Some(k) => Some(k + 1),
            None => None,
        }
    }
}

/// The URL of the first PDF link of a Crossref record.
pub open spec fn crossref_pdf(msg: Option<Json>) -> Option<Seq<char>> {
    match items(get(msg, "link"@)) {
        Some(links) => match first_pdf_link(links) {
            Some(k) => str_of(get(Some(links[k]), "URL"@)),
            None => None,
        },
        None => None,
    }
}

/// `i64 as i32` of an optional year.
pub open spec fn year_i32(y: Option<i64>) -> Option<i32> {
    match y {
        Some(n) => Some(n as i32),
        None => None,
    }
}

/// The title of a Crossref response (`message.title[0]`, collapsed).
pub open spec fn crossref_title(json: Json) -> Seq<char> {
    squish(or_empty(str_of(at(get(get(Some(json), "message"@), "title"@), 0))))
}

/// What a Crossref response gives for a DOI.
pub open spec fn crossref_fields(doi: Seq<char>, json: Json, f: Fetched) -> bool {
    let msg = get(Some(json), "message"@);
    &&& f.title@ == crossref_title(json)
    &&& strings_view(f.authors@) == record_authors(msg, "name"@)
    &&& f.year == year_i32(crossref_year(msg))
    &&& opt_view(f.venue) == squished_nonempty(str_of(at(get(msg, "container-title"@), 0)))
    &&& opt_view(f.abstract_) == abstract_text(str_of(get(msg, "abstract"@)))
    &&& opt_view(f.url) == Some("https://doi.org/"@ + doi)
    &&& opt_view(f.pdf_url) == crossref_pdf(msg)
    &&& opt_view(f.doi) == Some(
        match str_of(get(msg, "DOI"@)) {
            Some(d) => d,
            None => doi,
        },
    )
    &&& f.arxiv_id is None
}

/// The title of a doi.org CSL response (collapsed).
pub open spec fn csl_title(json: Json) -> Seq<char> {
    squish(or_empty(str_of(get(Some(json), "title"@))))
}

/// What a doi.org CSL response gives for a DOI.
pub open spec fn csl_fields(doi: Seq<char>, json: Json, f: Fetched) -> bool {
    let v = Some(json);
    &&& f.title@ == csl_title(json)
    &&& strings_view(f.authors@) == record_authors(v, "literal"@)
    &&& f.year == year_i32(date_year(v, "issued"@))
    &&& opt_view(f.venue) == squished_nonempty(str_of(get(v, "container-title"@)))
    &&& opt_view(f.abstract_) == abstract_text(str_of(get(v, "abstract"@)))
    &&& opt_view(f.url) == Some("https://doi.org/"@ + doi)
    &&& f.pdf_url is None
    &&& opt_view(f.doi) == Some(doi)
    &&& f.arxiv_id is None
}

fn squished_opt(s: Option<&str>) -> (r: Option<String>)
    ensures
        opt_view(r) == squished_nonempty(match s {
            Some(t) => Some(t@),
            None => None,
        }),
{
    match s {
        Some(t) => {
            let q = squish_str(t);
            if q.as_str().is_empty() {
                None
            } else {
                Some(q)
            }
        },
        None => None,
    }
}

fn abstract_opt(s: Option<&str>) -> (r: Option<String>)
    ensures
        opt_view(r) == abstract_text(match s {
            Some(t) => Some(t@),
            None => None,
        }),
{
    match s {
        Some(t) => {
            let q = strip_jats(t);
            if q.as_str().is_empty() {
                None
            } else {
                Some(q)
            }
        },
        None => None,
    }
}

fn author_name_exec(a: &Json, whole: &str) -> (r: Option<String>)
    ensures
        opt_view(r) == author_name(*a, whole@),
{
    match as_str(get_field(Some(a), whole)) {
        Some(n) => Some(squish_str(n)),
        None => {
            let given = match as_str(get_field(Some(a), "given")) {
                Some(g) => g,
                None => "",
            };
            let family = match as_str(get_field(Some(a), "family")) {
                Some(f) => f,
                None => "",
            };
            proof {
                reveal_strlit("");
                assert(""@ =~= Seq::<char>::empty());
            }
            let mut full = given.to_owned();
            full.append(" ");
            full.append(family);
            let full = squish_str(full.as_str());
            if full.as_str().is_empty() {
                None
            } else {
                Some(full)
            }
        },
    }
}

fn record_authors_exec(v: Option<&Json>, whole: &str) -> (r: Vec<String>)
    ensures
        strings_view(r@) == record_authors(deref(v), whole@),
{
    let mut out: Vec<String> = Vec::new();
    match as_array(get_field(v, "author")) {
        Some(arr) => {
            let mut i: usize = 0;
            while i < arr.len()
                invariant
                    i <= arr@.len(),
                    strings_view(out@) == author_names_of(arr@.take(i as int), whole@),
                decreases arr.len() - i,
            {
                assert(arr@.take(i + 1).drop_last() =~= arr@.take(i as int));
                assert(arr@.take(i + 1).last() == arr@[i as int]);
                let ghost before = strings_view(out@);
                match author_name_exec(&arr[i], whole) {
                    Some(n) => {
                        let ghost nv = n@;
                        out.push(n);
                        assert(strings_view(out@) =~= before.push(nv));
                    },
                    None => {},
                }
                i += 1;
            }
            assert(arr@.take(i as int) =~= arr@);
        },
        None => {
            assert(strings_view(out@) =~= seq![]);
        },
    }
    out
}

fn date_year_exec(v: Option<&Json>, key: &str) -> (r: Option<i64>)
    ensures
        r == date_year(deref(v), key@),
{
    as_i64(get_index(get_index(get_field(get_field(v, key), "date-parts"), 0), 0))
}

fn year_of(y: Option<i64>) -> (r: Option<i32>)
    ensures
        r == year_i32(y),
{
    match y {
        Some(n) => Some(n as i32),
        None => None,
    }
}

fn crossref_pdf_exec(msg: Option<&Json>) -> (r: Option<String>)
    ensures
        opt_view(r) == crossref_pdf(deref(msg)),
{
    match as_array(get_field(msg, "link")) {
        Some(links) => {
            let ghost s = links@;
            let mut i: usize = 0;
            assert(s.skip(0) =~= s);
            while i < links.len()
                invariant
                    i <= s.len(),
                    s == links@,
                    crossref_pdf(deref(msg)) == match first_pdf_link(s) {
                        Some(k) => str_of(get(Some(s[k]), "URL"@)),
                        None => None,
                    },
                    first_pdf_link(s) == match first_pdf_link(s.skip(i as int)) {
                        Some(k) => Some(k + i),
                        None => None::<int>,
                    },
                decreases links.len() - i,
            {
                assert(s.skip(i as int)[0] == s[i as int]);
                assert(s.skip(i as int).drop_first() =~= s.skip(i + 1));
                let is_pdf = match as_str(get_field(Some(&links[i]), "content-type")) {
                    Some(t) => str_eq(t, "application/pdf"),
                    None => false,
                };
                if is_pdf {
                    assert(str_of(get(Some(s[i as int]), "content-type"@)) == Some(
                        "application/pdf"@,
                    ));
                    assert(first_pdf_link(s.skip(i as int)) == Some(0int));
                    return match as_str(get_field(Some(&links[i]), "URL")) {
                        Some(u) => Some(u.to_owned()),
                        None => None,
                    };
                }
                i += 1;
            }
            assert(s.skip(i as int) =~= seq![]);
            None
        },
        None => None,
    }
}

/// "https://doi.org/" followed by the DOI.
pub fn doi_url(doi: &str) -> (r: String)
    ensures
        r@ == "https://doi.org/"@ + doi@,
{
    let mut u = "https://doi.org/".to_owned();
    u.append(doi);
    u
}

/// The metadata of a Crossref response for `doi` (`api.crossref.org/works/`),
/// or the error when its record has no title.
pub fn crossref_record(doi: &str, json: &Json) -> (r: Result<Fetched, String>)
    ensures
        crossref_title(*json).len() == 0 ==> (r matches Err(e) && e@ == "Crossref record for "@
            + doi@ + " has no title"@),
        crossref_title(*json).len() > 0 ==> (r matches Ok(f) && crossref_fields(doi@, *json, f)),
{
    let msg = get_field(Some(json), "message");
    let title = match as_str(get_index(get_field(msg, "title"), 0)) {
        Some(t) => squish_str(t),
        None => {
            proof {
                reveal_strlit("");
                assert(""@ =~= Seq::<char>::empty());
            }
            squish_str("")
        },
    };
    if title.as_str().is_empty() {
        let mut e = "Crossref record for ".to_owned();
        e.append(doi);
        e.append(" has no title");
        return Err(e);
    }
    let authors = record_authors_exec(msg, "name");
    let mut year = date_year_exec(msg, "issued");
    if year.is_none() {
        year = date_year_exec(msg, "published-print");
    }
    if year.is_none() {
        year = date_year_exec(msg, "published-online");
    }
    if year.is_none() {
        year = date_year_exec(msg, "created");
    }
    let venue = squished_opt(as_str(get_index(get_field(msg, "container-title"), 0)));
    let abstract_ = abstract_opt(as_str(get_field(msg, "abstract")));
    let pdf_url = crossref_pdf_exec(msg);
    let d = match as_str(get_field(msg, "DOI")) {
        Some(x) => x.to_owned(),
        None => doi.to_owned(),
    };
    Ok(
        Fetched {
            title,
            authors,
            year: year_of(year),
            venue,
            abstract_,
            url: Some(doi_url(doi)),
            pdf_url,
            doi: Some(d),
            arxiv_id: None,
        },
    )
}

/// The metadata of a doi.org CSL-JSON response for `doi`, or the error when
/// it has no title.
pub fn doi_org_record(doi: &str, json: &Json) -> (r: Result<Fetched, String>)
    ensures
        csl_title(*json).len() == 0 ==> (r matches Err(e) && e@ == "doi.org record for "@ + doi@
            + " has no title"@),
        csl_title(*json).len() > 0 ==> (r matches Ok(f) && csl_fields(doi@, *json, f)),
{
    let v = Some(json);
    let title = match as_str(get_field(v, "title")) {
        Some(t) => squish_str(t),
        None => {
            proof {
                reveal_strlit("");
                assert(""@ =~= Seq::<char>::empty());
            }
            squish_str("")
        },
    };
    if title.as_str().is_empty() {
        let mut e = "doi.org record for ".to_owned();
        e.append(doi);
        e.append(" has no title");
        return Err(e);
    }
    let authors = record_authors_exec(v, "literal");
    let year = year_of(date_year_exec(v, "issued"));
    let venue = squished_opt(as_str(get_field(v, "container-title")));
    let abstract_ = abstract_opt(as_str(get_field(v, "abstract")));
    Ok(
        Fetched {
            title,
            authors,
            year,
            venue,
            abstract_,
            url: Some(doi_url(doi)),
            pdf_url: None,
            doi: Some(doi.to_owned()),
            arxiv_id: None,
        },
    )
}

// ---------------------------------------------------------------------------
// Resolving a DOI: Crossref first, doi.org as the fallback
// ---------------------------------------------------------------------------

/// The Crossref API address of a DOI.
pub fn crossref_url(doi: &str) -> (r: String)
    ensures
        r@ == "https://api.crossref.org/works/"@ + pct_encode(encode_utf8(doi@)),
{
    let mut u = "https://api.crossref.org/works/".to_owned();
    u.append(percent_encode_path(doi).as_str());
    u
}

/// The doi.org address of a DOI, asked for CSL JSON.
pub fn doi_org_url(doi: &str) -> (r: String)
    ensures
        r@ == "https://doi.org/"@ + pct_encode(encode_utf8(doi@)),
{
    let mut u = "https://doi.org/".to_owned();
    u.append(percent_encode_path(doi).as_str());
    u
}

/// Where a DOI lookup stands after the Crossref reply.
pub enum DoiLookup {
    /// Crossref had a record with a title.
    Found(Fetched),
    /// Crossref failed with `crossref_error`; doi.org is asked next, at `url`.
    AskDoiOrg { url: String, crossref_error: String },
}

/// The message when neither Crossref nor doi.org resolves a DOI.
pub open spec fn unresolved(doi: Seq<char>, crossref: Seq<char>, doi_org: Seq<char>) -> Seq<char> {
    "could not resolve DOI "@ + doi + "\n  crossref: "@ + crossref + "\n  doi.org: "@ + doi_org
}

/// A DOI lookup given Crossref's reply (the parsed response, or the message
/// of the failed request): the record, or the doi.org request to try next
/// with the Crossref error kept for the report.
pub fn fetch_doi(doi: &str, crossref: Result<Json, String>) -> (r: DoiLookup)
    ensures
        match crossref {
            Ok(j) => if crossref_title(j).len() > 0 {
                r matches DoiLookup::Found(f) && crossref_fields(doi@, j, f)
            } else {
                r matches DoiLookup::AskDoiOrg { url, crossref_error } && url@ == "https://doi.org/"@
                    + pct_encode(encode_utf8(doi@)) && crossref_error@ == "Crossref record for "@
                    + doi@ + " has no title"@
            },
            Err(e) => r matches DoiLookup::AskDoiOrg { url, crossref_error } && url@
                == "https://doi.org/"@ + pct_encode(encode_utf8(doi@)) && crossref_error@ == e@,
        },
{
    let outcome = match crossref {
        Ok(j) => crossref_record(doi, &j),
        Err(e) => Err(e),
    };
    match outcome {
        Ok(f) => DoiLookup::Found(f),
        Err(e) => DoiLookup::AskDoiOrg { url: doi_org_url(doi), crossref_error: e },
    }
}

/// The end of a DOI lookup given doi.org's reply: the record, or the report
/// of both failures.
pub fn finish_doi(doi: &str, crossref_error: &str, doi_org: Result<Json, String>) -> (r: Result<
    Fetched,
    String,
>)
    ensures
        match doi_org {
            Ok(j) => if csl_title(j).len() > 0 {
                r matches Ok(f) && csl_fields(doi@, j, f)
            } else {
                r matches Err(e) && e@ == unresolved(
                    doi@,
                    crossref_error@,
                    "doi.org record for "@ + doi@ + " has no title"@,
                )
            },
            Err(m) => r matches Err(e) && e@ == unresolved(doi@, crossref_error@, m@),
        },
{
    let outcome = match doi_org {
        Ok(j) => doi_org_record(doi, &j),
        Err(m) => Err(m),
    };
    match outcome {
        Ok(f) => Ok(f),
        Err(m) => {
            let mut e = "could not resolve DOI ".to_owned();
            e.append(doi);
            e.append("\n  crossref: ");
            e.append(crossref_error);
            e.append("\n  doi.org: ");
            e.append(m.as_str());
            Err(e)
        },
    }
}

// ---------------------------------------------------------------------------
// Papers from a JSON export
// ---------------------------------------------------------------------------

/// A string member that is not empty.
pub open spec fn text_member(v: Json, key: Seq<char>) -> Option<Seq<char>> {
    match str_of(get(Some(v), key)) {
        Some(s) => if s.len() > 0 {
            Some(s)
        } else {
            None
        },
        None => None,
    }
}

/// The strings of an array, other elements left out.
pub open spec fn strings_in(a: Seq<Json>) -> Seq<Seq<char>>
    decreases a.len(),
{
    if a.len() == 0 {
        seq![]
    } else {
        let rest = strings_in(a.drop_last());
        match a.last() {
            Json::Str(s) => rest.push(s@),
            _ => rest,
        }
    }
}

/// A note as (created at, body).
pub open spec fn note_view(n: Note) -> (Seq<char>, Seq<char>) {
    (n.created_at@, n.body@)
}

/// The views of a sequence of notes.
pub open spec fn notes_view(v: Seq<Note>) -> Seq<(Seq<char>, Seq<char>)> {
    v.map_values(|n: Note| note_view(n))
}

/// The notes of a JSON array: those with a string body, the time empty when
/// it is not a string.
pub open spec fn json_notes(a: Seq<Json>) -> Seq<(Seq<char>, Seq<char>)>
    decreases a.len(),
{
    if a.len() == 0 {
        seq![]
    } else {
        let rest = json_notes(a.drop_last());
        match str_of(get(Some(a.last()), "body"@)) {
            Some(b) => rest.push((or_empty(str_of(get(Some(a.last()), "created_at"@))), b)),
            None => rest,
        }
    }
}

/// The tags of a JSON paper (its string elements), normalized.
pub open spec fn json_tags(v: Json) -> Seq<Seq<char>> {
    normalized_tags(
        match items(get(Some(v), "tags"@)) {
            Some(a) => strings_in(a),
            None => seq![],
        },
    )
}

/// What a JSON paper gives: its fields where they are non-empty strings (an
/// arXiv id normalized), unknown status and priority words falling back to
/// to-read and normal, a rating only in 1..=5, `now` when no added time is
/// given, normalized tags and the notes with a body.
pub open spec fn json_paper(v: Json, now: Seq<char>, p: Paper) -> bool {
    &&& p.id == 0
    &&& p.title@ == text_member(v, "title"@)->0
    &&& p.authors@ == or_empty(text_member(v, "authors"@))
    &&& p.year == year_i32(int_of(get(Some(v), "year"@)))
    &&& opt_view(p.venue) == text_member(v, "venue"@)
    &&& opt_view(p.arxiv_id) == match text_member(v, "arxiv_id"@) {
        Some(a) => Some(split_version(trim(a)).0),
        None => None,
    }
    &&& opt_view(p.doi) == text_member(v, "doi"@)
    &&& opt_view(p.url) == text_member(v, "url"@)
    &&& opt_view(p.pdf_url) == text_member(v, "pdf_url"@)
    &&& opt_view(p.abstract_) == text_member(v, "abstract"@)
    &&& p.status == match text_member(v, "status"@) {
        Some(w) => match status_from_word(lowercase(w)) {
            Some(s) => s,
            None => Status::ToRead,
        },
        None => Status::ToRead,
    }
    &&& p.priority == match text_member(v, "priority"@) {
        Some(w) => match priority_from_word(lowercase(w)) {
            Some(x) => x,
            None => Priority::Normal,
        },
        None => Priority::Normal,
    }
    &&& p.rating == match int_of(get(Some(v), "rating"@)) {
        Some(r) => if 1 <= r <= 5 {
            Some(r)
        } else {
            None
        },
        None => None,
    }
    &&& strings_view(p.tags@) == json_tags(v)
    &&& p.added_at@ == match text_member(v, "added_at"@) {
        Some(t) => t,
        None => now,
    }
    &&& opt_view(p.started_at) == text_member(v, "started_at"@)
    &&& opt_view(p.finished_at) == text_member(v, "finished_at"@)
    &&& notes_view(p.notes@) == match items(get(Some(v), "notes"@)) {
        Some(a) => json_notes(a),
        None => seq![],
    }
}

fn text_member_exec(v: &Json, key: &str) -> (r: Option<String>)
    ensures
        opt_view(r) == text_member(*v, key@),
{
    match as_str(get_field(Some(v), key)) {
        Some(s) => {
            if s.is_empty() {
                None
            } else {
                Some(s.to_owned())
            }
        },
        None => None,
    }
}

fn strings_in_exec(a: &Vec<Json>) -> (r: Vec<String>)
    ensures
        strings_view(r@) == strings_in(a@),
{
    let mut out: Vec<String> = Vec::new();
    let mut i: usize = 0;
    while i < a.len()
        invariant
            i <= a@.len(),
            strings_view(out@) == strings_in(a@.take(i as int)),
        decreases a.len() - i,
    {
        assert(a@.take(i + 1).drop_last() =~= a@.take(i as int));
        assert(a@.take(i + 1).last() == a@[i as int]);
        let ghost before = strings_view(out@);
        match &a[i] {
            Json::Str(s) => {
                out.push(s.clone());
                assert(strings_view(out@) =~= before.push(s@));
            },
            _ => {},
        }
        i += 1;
    }
    assert(a@.take(i as int) =~= a@);
    out
}

fn json_notes_exec(a: &Vec<Json>) -> (r: Vec<Note>)
    ensures
        notes_view(r@) == json_notes(a@),
{
    let mut out: Vec<Note> = Vec::new();
    let mut i: usize = 0;
    while i < a.len()
        invariant
            i <= a@.len(),
            notes_view(out@) == json_notes(a@.take(i as int)),
        decreases a.len() - i,
    {
        assert(a@.take(i + 1).drop_last() =~= a@.take(i as int));
        assert(a@.take(i + 1).last() == a@[i as int]);
        let ghost before = notes_view(out@);
        match as_str(get_field(Some(&a[i]), "body")) {
            Some(b) => {
                let created = match as_str(get_field(Some(&a[i]), "created_at")) {
                    Some(c) => c.to_owned(),
                    None => String::new(),
                };
                let n = Note { created_at: created, body: b.to_owned() };
                let ghost nv = note_view(n);
                out.push(n);
                assert(notes_view(out@) =~= before.push(nv));
            },
            None => {},
        }
        i += 1;
    }
    assert(a@.take(i as int) =~= a@);
    out
}

/// A paper from one entry of a JSON export (tolerant of missing fields), or
/// the error when it has no title; `now` stands in for a missing added time.
pub fn paper_from_json(v: &Json, now: &str) -> (r: Result<Paper, CliError>)
    ensures
        text_member(*v, "title"@) is None ==> (r matches Err(e) && e@
            == CliErrorView::MissingJsonTitle),
        text_member(*v, "title"@) is Some ==> (r matches Ok(p) && json_paper(*v, now@, p)),
{
    let title = match text_member_exec(v, "title") {
        Some(t) => t,
        None => {
            return Err(CliError::MissingJsonTitle);
        },
    };
    let tags = match as_array(get_field(Some(v), "tags")) {
        Some(a) => strings_in_exec(a),
        None => Vec::new(),
    };
    let notes = match as_array(get_field(Some(v), "notes")) {
        Some(a) => json_notes_exec(a),
        None => {
            let n: Vec<Note> = Vec::new();
            assert(notes_view(n@) =~= seq![]);
            n
        },
    };
    let status = match text_member_exec(v, "status") {
        Some(w) => match Status::parse(w.as_str()) {
            Some(s) => s,
            None => Status::ToRead,
        },
        None => Status::ToRead,
    };
    let priority = match text_member_exec(v, "priority") {
        Some(w) => match Priority::parse(w.as_str()) {
            Some(x) => x,
            None => Priority::Normal,
        },
        None => Priority::Normal,
    };
    let rating = match as_i64(get_field(Some(v), "rating")) {
        Some(x) => if 1 <= x && x <= 5 {
            Some(x)
        } else {
            None
        },
        None => None,
    };
    let arxiv_id = match text_member_exec(v, "arxiv_id") {
        Some(a) => Some(normalize_arxiv_id(a.as_str())),
        None => None,
    };
    let added_at = match text_member_exec(v, "added_at") {
        Some(t) => t,
        None => now.to_owned(),
    };
    let authors = match text_member_exec(v, "authors") {
        Some(a) => a,
        None => String::new(),
    };
    proof {
        assert(strings_view(tags@) == match items(get(Some(*v), "tags"@)) {
            Some(a) => strings_in(a),
            None => seq![],
        }) by {
            if items(get(Some(*v), "tags"@)) is None {
                assert(strings_view(tags@) =~= seq![]);
            }
        }
    }
    Ok(
        Paper {
            id: 0,
            title,
            authors,
            year: year_of(as_i64(get_field(Some(v), "year"))),
            venue: text_member_exec(v, "venue"),
            arxiv_id,
            doi: text_member_exec(v, "doi"),
            url: text_member_exec(v, "url"),
            pdf_url: text_member_exec(v, "pdf_url"),
            abstract_: text_member_exec(v, "abstract"),
            status,
            priority,
            rating,
            tags: normalize_tags(tags.as_slice()),
            added_at,
            started_at: text_member_exec(v, "started_at"),
            finished_at: text_member_exec(v, "finished_at"),
            notes,
        },
    )
}

} // verus!
