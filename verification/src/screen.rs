//! What the commands print: the paper table, the detail view, confirmation
//! lines, the short summary of a paper, and the tag list.

use vstd::prelude::*;
use vstd::utf8::encode_utf8;
use crate::model::{
    Paper, Status, join_strings, join_strs, opt_view, short_authors_of, strings_view, author_names,
};
use crate::output::{
    BLUE, BOLD, CYAN, DIM, GREEN, MAGENTA, YELLOW, bar, bar_cells, date_of, date_part, pad, padded,
    paint, painted, priority_code, priority_style, rating_stars, repeat, stars, status_code,
    status_style, str_width, truncate, truncated, wrap, wrap_first, wrap_hanging, wrapped,
};
use crate::stats::{TagCount, TagTally, tallies_view};
use crate::text::{
    chars_of, int_chars, int_str, join, nat_chars, nat_str, replace, string_of, trim_end,
};

verus! {

// ---------------------------------------------------------------------------
// Helpers
// ---------------------------------------------------------------------------

/// `str::trim_end`.
pub fn trim_end_str(s: &str) -> (r: String)
    ensures
        r@ == trim_end(s@),
{
    let v = chars_of(s);
    let mut b: usize = v.len();
    assert(v@.take(b as int) =~= v@);
    while b > 0 && crate::text::is_whitespace(v[b - 1])
        invariant
            b <= v@.len(),
            v@ == s@,
            trim_end(s@) == trim_end(v@.take(b as int)),
        decreases b,
    {
        assert(v@.take(b as int).drop_last() =~= v@.take(b - 1));
        b -= 1;
    }
    assert(trim_end(v@.take(b as int)) == v@.take(b as int)) by {
        if b > 0 {
            assert(v@.take(b as int).last() == v@[b - 1]);
        }
    }
    let t = crate::text::slice_chars(v.as_slice(), 0, b);
    assert(t@ =~= v@.take(b as int));
    string_of(t.as_slice())
}

fn id_text(id: i64) -> (r: String)
    ensures
        r@ == int_str(id as int),
{
    string_of(int_chars(id).as_slice())
}

fn year_text(y: Option<i32>) -> (r: String)
    ensures
        r@ == match y {
            Some(v) => int_str(v as int),
            None => seq![],
        },
{
    match y {
        Some(v) => string_of(int_chars(v as i64).as_slice()),
        None => String::new(),
    }
}

// ---------------------------------------------------------------------------
// The paper table
// ---------------------------------------------------------------------------

/// The widest id, at least two columns.
pub open spec fn id_width(ps: Seq<Paper>) -> nat
    decreases ps.len(),
{
    if ps.len() == 0 {
        2
    } else {
        let w = id_width(ps.drop_last());
        let l = int_str(ps.last().id as int).len();
        if l > w {
            l
        } else {
            w
        }
    }
}

/// The columns left for title, authors and tags: what the fixed columns and
/// gaps leave of the terminal, at least 30.
pub open spec fn flex_width(total: nat, id_w: nat) -> nat {
    let fixed = id_w + 3 + 4 + 10;
    if total >= fixed && total - fixed > 30 {
        (total - fixed) as nat
    } else {
        30
    }
}

/// The tag column: 22% of the flexible width, at most 24.
pub open spec fn tag_width(flex: nat) -> nat {
    if flex * 22 / 100 < 24 {
        flex * 22 / 100
    } else {
        24
    }
}

/// The author column: 22% of the flexible width, at most 22.
pub open spec fn author_width(flex: nat) -> nat {
    if flex * 22 / 100 < 22 {
        flex * 22 / 100
    } else {
        22
    }
}

/// The table's header line.
pub open spec fn table_header(id_w: nat, title_w: nat, auth_w: nat, tag_w: nat, color: bool) -> Seq<
    char,
> {
    painted(
        color,
        DIM@,
        trim_end(
            padded("ID"@, id_w) + "  "@ + padded(""@, 2) + "  "@ + padded("TITLE"@, title_w) + "  "@
                + padded("AUTHORS"@, auth_w) + "  "@ + padded("YEAR"@, 4) + "  "@ + padded(
                "TAGS"@,
                tag_w,
            ),
        ),
    )
}

/// A paper's row in the table.
pub open spec fn table_row(
    p: Paper,
    id_w: nat,
    title_w: nat,
    auth_w: nat,
    tag_w: nat,
    color: bool,
) -> Seq<char> {
    let t = truncated(p.title@, title_w);
    let title = if p.status == Status::Read || p.status == Status::Dropped {
        painted(color, DIM@, t)
    } else {
        t
    };
    let title_pad = if title_w >= str_width(t) {
        repeat(seq![' '], (title_w - str_width(t)) as nat)
    } else {
        seq![]
    };
    let year = match p.year {
        Some(y) => int_str(y as int),
        None => seq![],
    };
    trim_end(
        padded(int_str(p.id as int), id_w) + "  "@ + painted(
            color,
            status_code(p.status),
            p.status.glyph_of(),
        ) + painted(color, priority_code(p.priority), p.priority.glyph_of()) + "  "@ + title
            + title_pad + "  "@ + painted(
            color,
            DIM@,
            padded(truncated(short_authors_of(p.authors@), auth_w), auth_w),
        ) + "  "@ + padded(year, 4) + "  "@ + painted(
            color,
            CYAN@,
            truncated(join(strings_view(p.tags@), seq![',']), tag_w),
        ),
    )
}

/// The lines of the paper table for a terminal `total` columns wide.
pub open spec fn table_text(ps: Seq<Paper>, total: nat, color: bool) -> Seq<Seq<char>> {
    if ps.len() == 0 {
        seq![
            painted(
                color,
                DIM@,
                "nothing here, add a paper with `rlist add <arxiv-id|doi|url|title>`"@,
            ),
        ]
    } else {
        let id_w = id_width(ps);
        let flex = flex_width(total, id_w);
        let tag_w = tag_width(flex);
        let auth_w = author_width(flex);
        let title_w = (flex - tag_w - auth_w) as nat;
        seq![table_header(id_w, title_w, auth_w, tag_w, color)] + ps.map_values(
            |p: Paper| table_row(p, id_w, title_w, auth_w, tag_w, color),
        )
    }
}

fn id_width_exec(papers: &[Paper]) -> (r: usize)
    ensures
        r == id_width(papers@),
        r <= 20,
{
    let mut w: usize = 2;
    let mut i: usize = 0;
    while i < papers.len()
        invariant
            i <= papers@.len(),
            w == id_width(papers@.take(i as int)),
            w <= 20,
        decreases papers.len() - i,
    {
        assert(papers@.take(i + 1).drop_last() =~= papers@.take(i as int));
        assert(papers@.take(i + 1).last() == papers@[i as int]);
        let l = int_chars(papers[i].id).len();
        proof {
            crate::text::lemma_int_str_len(papers@[i as int].id as int);
        }
        if l > w {
            w = l;
        }
        i += 1;
    }
    assert(papers@.take(i as int) =~= papers@);
    w
}

fn table_row_exec(
    p: &Paper,
    id_w: usize,
    title_w: usize,
    auth_w: usize,
    tag_w: usize,
    color: bool,
) -> (r: String)
    ensures
        r@ == table_row(*p, id_w as nat, title_w as nat, auth_w as nat, tag_w as nat, color),
{
    let t = truncate(p.title.as_str(), title_w);
    let title = if p.status == Status::Read || p.status == Status::Dropped {
        paint(color, DIM, t.as_str())
    } else {
        t.clone()
    };
    let tw = crate::output::text_width(t.as_str());
    let title_pad = if title_w >= tw {
        crate::output::spaces(title_w - tw)
    } else {
        String::new()
    };
    let authors = pad(truncate(p.short_authors().as_str(), auth_w).as_str(), auth_w);
    let tags = truncate(join_strings(p.tags.as_slice(), ",").as_str(), tag_w);
    let mut row = pad(id_text(p.id).as_str(), id_w);
    row.append("  ");
    row.append(paint(color, status_style(p.status), p.status.glyph()).as_str());
    row.append(paint(color, priority_style(p.priority), p.priority.glyph()).as_str());
    row.append("  ");
    row.append(title.as_str());
    row.append(title_pad.as_str());
    row.append("  ");
    row.append(paint(color, DIM, authors.as_str()).as_str());
    row.append("  ");
    row.append(pad(year_text(p.year).as_str(), 4).as_str());
    row.append("  ");
    row.append(paint(color, CYAN, tags.as_str()).as_str());
    proof {
        reveal_strlit(",");
        assert(","@ =~= seq![',']);
        reveal_strlit("");
        assert(""@ =~= Seq::<char>::empty());
    }
    trim_end_str(row.as_str())
}

/// The lines `list` and `search` print for the papers, for a terminal
/// `total_width` columns wide.
pub fn table_lines(papers: &[Paper], total_width: usize, color: bool) -> (r: Vec<String>)
    requires
        total_width * 22 <= usize::MAX,
    ensures
        strings_view(r@) == table_text(papers@, total_width as nat, color),
{
    if papers.len() == 0 {
        let v: Vec<String> = vec![
            paint(color, DIM, "nothing here, add a paper with `rlist add <arxiv-id|doi|url|title>`"),
        ];
        assert(strings_view(v@) =~= table_text(papers@, total_width as nat, color));
        return v;
    }
    let id_w = id_width_exec(papers);
    let fixed = id_w + 3 + 4 + 10;
    let flex: usize = if total_width >= fixed && total_width - fixed > 30 {
        total_width - fixed
    } else {
        30
    };
    let share = flex * 22 / 100;
    let tag_w: usize = if share < 24 {
        share
    } else {
        24
    };
    let auth_w: usize = if share < 22 {
        share
    } else {
        22
    };
    let title_w = flex - tag_w - auth_w;
    let mut header = pad("ID", id_w);
    header.append("  ");
    header.append(pad("", 2).as_str());
    header.append("  ");
    header.append(pad("TITLE", title_w).as_str());
    header.append("  ");
    header.append(pad("AUTHORS", auth_w).as_str());
    header.append("  ");
    header.append(pad("YEAR", 4).as_str());
    header.append("  ");
    header.append(pad("TAGS", tag_w).as_str());
    let mut lines: Vec<String> = vec![paint(color, DIM, trim_end_str(header.as_str()).as_str())];
    let ghost rows = papers@.map_values(
        |p: Paper| table_row(p, id_w as nat, title_w as nat, auth_w as nat, tag_w as nat, color),
    );
    let ghost head = table_header(id_w as nat, title_w as nat, auth_w as nat, tag_w as nat, color);
    assert(strings_view(lines@) =~= seq![head]);
    let mut i: usize = 0;
    while i < papers.len()
        invariant
            i <= papers@.len(),
            rows == papers@.map_values(
                |p: Paper| table_row(p, id_w as nat, title_w as nat, auth_w as nat, tag_w as nat, color),
            ),
            strings_view(lines@) == seq![head] + rows.take(i as int),
        decreases papers.len() - i,
    {
        let row = table_row_exec(&papers[i], id_w, title_w, auth_w, tag_w, color);
        let ghost before = strings_view(lines@);
        let ghost rv = row@;
        lines.push(row);
        assert(strings_view(lines@) =~= before.push(rv));
        assert(rows.take(i + 1) =~= rows.take(i as int).push(rows[i as int]));
        i += 1;
    }
    assert(rows.take(i as int) =~= rows);
    lines
}

// ---------------------------------------------------------------------------
// The detail view
// ---------------------------------------------------------------------------

/// `wrap_first`: the text wrapped, continuation lines indented by two.
pub open spec fn first_wrapped(text: Seq<char>, width: nat) -> Seq<char> {
    replace(wrapped(text, width, seq![]), seq!['\n'], "\n  "@)
}

/// A field label of the detail view: indented, padded to ten characters, dimmed.
pub open spec fn field_label(name: Seq<char>, color: bool) -> Seq<char> {
    painted(
        color,
        DIM@,
        "  "@ + name + repeat(
            seq![' '],
            if name.len() < 10 {
                (10 - name.len()) as nat
            } else {
                0
            },
        ),
    )
}

/// The year and venue of a paper, those it has.
pub open spec fn year_venue(p: Paper) -> Seq<Seq<char>> {
    (match p.year {
        Some(y) => seq![int_str(y as int)],
        None => seq![],
    }) + (match opt_view(p.venue) {
        Some(v) => seq![v],
        None => seq![],
    })
}

/// The top of the detail view: title, authors, year and venue.
pub open spec fn detail_head(p: Paper, width: nat, color: bool) -> Seq<Seq<char>> {
    seq![seq![], "  "@ + painted(color, BOLD@, first_wrapped(p.title@, (width - 2) as nat))] + (
    if p.authors@.len() > 0 {
        seq![
            "  "@ + painted(
                color,
                DIM@,
                first_wrapped(join(author_names(p.authors@), ", "@), (width - 2) as nat),
            ),
        ]
    } else {
        seq![]
    }) + (if year_venue(p).len() > 0 {
        seq!["  "@ + join(year_venue(p), " · "@)]
    } else {
        seq![]
    }) + seq![seq![]]
}

/// "(since DATE)" for a paper being read, "(finished DATE)" for a read one.
pub open spec fn status_note(p: Paper, color: bool) -> Seq<char> {
    if p.status == Status::Reading && p.started_at is Some {
        painted(color, DIM@, "(since "@ + date_part(p.started_at->0@) + ")"@)
    } else if p.status == Status::Read && p.finished_at is Some {
        painted(color, DIM@, "(finished "@ + date_part(p.finished_at->0@) + ")"@)
    } else {
        seq![]
    }
}

/// A labelled line, or none when there is no value.
pub open spec fn field_line(name: Seq<char>, value: Option<Seq<char>>, color: bool) -> Seq<
    Seq<char>,
> {
    match value {
        Some(v) => seq![field_label(name, color) + " "@ + v],
        None => seq![],
    }
}

/// An optional value painted.
pub open spec fn painted_opt(color: bool, code: Seq<char>, v: Option<Seq<char>>) -> Option<
    Seq<char>,
> {
    match v {
        Some(x) => Some(painted(color, code, x)),
        None => None,
    }
}

/// The labelled fields of the detail view.
pub open spec fn detail_fields(p: Paper, color: bool) -> Seq<Seq<char>> {
    seq![
        trim_end(
            field_label("status"@, color) + " "@ + painted(
                color,
                status_code(p.status),
                p.status.glyph_of() + " "@ + p.status.name(),
            ) + " "@ + status_note(p, color),
        ),
        field_label("priority"@, color) + " "@ + painted(
            color,
            priority_code(p.priority),
            p.priority.name(),
        ),
    ] + field_line(
        "rating"@,
        if p.rating is Some {
            Some(painted(color, YELLOW@, stars(p.rating)))
        } else {
            None
        },
        color,
    ) + field_line(
        "tags"@,
        if p.tags@.len() > 0 {
            Some(painted(color, CYAN@, join(strings_view(p.tags@), ", "@)))
        } else {
            None
        },
        color,
    ) + field_line("arxiv"@, opt_view(p.arxiv_id), color) + field_line(
        "doi"@,
        opt_view(p.doi),
        color,
    ) + field_line("url"@, painted_opt(color, BLUE@, opt_view(p.url)), color) + field_line(
        "pdf"@,
        painted_opt(color, BLUE@, opt_view(p.pdf_url)),
        color,
    ) + field_line("added"@, Some(date_part(p.added_at@)), color)
}

/// A note line: its date in brackets, the body wrapped with a hanging indent.
pub open spec fn note_line(n: crate::model::Note, width: nat, color: bool) -> Seq<char> {
    "  "@ + painted(color, MAGENTA@, "["@ + date_part(n.created_at@) + "]"@) + " "@ + replace(
        wrapped(n.body@, (if width >= 13 { width - 13 } else { 0 }) as nat, seq![]),
        seq!['\n'],
        "\n  "@ + repeat(seq![' '], 13),
    )
}

/// The abstract of the detail view, if there is one.
pub open spec fn abstract_part(p: Paper, width: nat, color: bool) -> Seq<Seq<char>> {
    match opt_view(p.abstract_) {
        Some(a) => seq![
            seq![],
            painted(color, DIM@, "  abstract"@),
            wrapped(a, (width - 4) as nat, "  "@),
        ],
        None => seq![],
    }
}

/// The notes of the detail view, if there are any.
pub open spec fn notes_part(p: Paper, width: nat, color: bool) -> Seq<Seq<char>> {
    if p.notes@.len() > 0 {
        seq![
            seq![],
            painted(color, DIM@, "  notes ("@ + nat_str(p.notes@.len()) + ")"@),
        ] + p.notes@.map_values(|n: crate::model::Note| note_line(n, (width - 4) as nat, color))
    } else {
        seq![]
    }
}

/// The abstract and the notes of the detail view, and the closing blank line.
pub open spec fn detail_tail(p: Paper, width: nat, color: bool) -> Seq<Seq<char>> {
    abstract_part(p, width, color) + notes_part(p, width, color) + seq![seq![]]
}

/// The lines of `show` for a terminal `term_width` columns wide (at most
/// 100 are used).
pub open spec fn detail_text(p: Paper, term_width: nat, color: bool) -> Seq<Seq<char>> {
    let width = if term_width < 100 {
        term_width
    } else {
        100
    };
    detail_head(p, width, color) + detail_fields(p, color) + detail_tail(p, width, color)
}

fn label_exec(name: &str, color: bool) -> (r: String)
    ensures
        r@ == field_label(name@, color),
{
    let mut s = "  ".to_owned();
    s.append(name);
    let n = chars_of(name).len();
    if n < 10 {
        s.append(crate::output::spaces(10 - n).as_str());
    } else {
        proof {
            assert(repeat(seq![' '], 0) =~= seq![]);
        }
    }
    paint(color, DIM, s.as_str())
}

fn push_field(lines: &mut Vec<String>, name: &str, value: Option<String>, color: bool)
    ensures
        strings_view(final(lines)@) == strings_view(old(lines)@) + field_line(
            name@,
            opt_view(value),
            color,
        ),
{
    match value {
        Some(v) => {
            let mut l = label_exec(name, color);
            l.append(" ");
            l.append(v.as_str());
            let ghost before = strings_view(lines@);
            let ghost lv = l@;
            lines.push(l);
            assert(strings_view(lines@) =~= before.push(lv));
        },
        None => {
            assert(strings_view(lines@) =~= strings_view(lines@) + seq![]);
        },
    }
}

fn painted_owned(color: bool, code: &str, v: &Option<String>) -> (r: Option<String>)
    ensures
        opt_view(r) == painted_opt(color, code@, opt_view(*v)),
{
    match v {
        Some(x) => Some(paint(color, code, x.as_str())),
        None => None,
    }
}

fn detail_head_exec(p: &Paper, width: usize, color: bool) -> (r: Vec<String>)
    requires
        width >= 4,
    ensures
        strings_view(r@) == detail_head(*p, width as nat, color),
{
    let mut title_line = "  ".to_owned();
    title_line.append(paint(color, BOLD, wrap_first(p.title.as_str(), width - 2).as_str()).as_str());
    let mut lines: Vec<String> = vec![String::new(), title_line];
    let ghost v0 = strings_view(lines@);
    if !p.authors.as_str().is_empty() {
        let names = p.author_list();
        let joined = join_strs(names.as_slice(), ", ");
        let mut l = "  ".to_owned();
        l.append(paint(color, DIM, wrap_first(joined.as_str(), width - 2).as_str()).as_str());
        lines.push(l);
    }
    let ghost v1 = strings_view(lines@);
    let mut meta: Vec<String> = Vec::new();
    match p.year {
        Some(y) => {
            meta.push(year_text(Some(y)));
        },
        None => {},
    }
    match &p.venue {
        Some(v) => {
            meta.push(v.clone());
        },
        None => {},
    }
    assert(strings_view(meta@) =~= year_venue(*p));
    if meta.len() > 0 {
        let mut l = "  ".to_owned();
        l.append(join_strings(meta.as_slice(), " · ").as_str());
        lines.push(l);
    }
    lines.push(String::new());
    proof {
        reveal_strlit("");
        assert(""@ =~= Seq::<char>::empty());
    }
    assert(strings_view(lines@) =~= detail_head(*p, width as nat, color));
    lines
}

fn status_line_exec(p: &Paper, color: bool) -> (r: String)
    ensures
        r@ == trim_end(
            field_label("status"@, color) + " "@ + painted(
                color,
                status_code(p.status),
                p.status.glyph_of() + " "@ + p.status.name(),
            ) + " "@ + status_note(*p, color),
        ),
{
    let mut shown = String::new();
    shown.append(p.status.glyph());
    shown.append(" ");
    shown.append(p.status.as_str());
    let note = if p.status == Status::Reading && p.started_at.is_some() {
        let mut t = "(since ".to_owned();
        match &p.started_at {
            Some(s) => {
                t.append(date_of(s.as_str()));
            },
            None => {},
        }
        t.append(")");
        paint(color, DIM, t.as_str())
    } else if p.status == Status::Read && p.finished_at.is_some() {
        let mut t = "(finished ".to_owned();
        match &p.finished_at {
            Some(s) => {
                t.append(date_of(s.as_str()));
            },
            None => {},
        }
        t.append(")");
        paint(color, DIM, t.as_str())
    } else {
        String::new()
    };
    let mut status_line = label_exec("status", color);
    status_line.append(" ");
    status_line.append(paint(color, status_style(p.status), shown.as_str()).as_str());
    status_line.append(" ");
    status_line.append(note.as_str());
    trim_end_str(status_line.as_str())
}

fn copy_text(o: &Option<String>) -> (r: Option<String>)
    ensures
        opt_view(r) == opt_view(*o),
{
    match o {
        Some(s) => Some(s.clone()),
        None => None,
    }
}

#[verifier::rlimit(40)]
fn detail_fields_exec(p: &Paper, color: bool) -> (r: Vec<String>)
    ensures
        strings_view(r@) == detail_fields(*p, color),
{
    let status_line = status_line_exec(p, color);
    let mut prio_line = label_exec("priority", color);
    prio_line.append(" ");
    prio_line.append(paint(color, priority_style(p.priority), p.priority.as_str()).as_str());
    let mut lines: Vec<String> = vec![status_line, prio_line];
    let rating = if p.rating.is_some() {
        Some(paint(color, YELLOW, rating_stars(p.rating).as_str()))
    } else {
        None
    };
    push_field(&mut lines, "rating", rating, color);
    let tags = if p.tags.len() > 0 {
        Some(paint(color, CYAN, join_strings(p.tags.as_slice(), ", ").as_str()))
    } else {
        None
    };
    push_field(&mut lines, "tags", tags, color);
    push_field(&mut lines, "arxiv", copy_text(&p.arxiv_id), color);
    push_field(&mut lines, "doi", copy_text(&p.doi), color);
    push_field(&mut lines, "url", painted_owned(color, BLUE, &p.url), color);
    push_field(&mut lines, "pdf", painted_owned(color, BLUE, &p.pdf_url), color);
    push_field(&mut lines, "added", Some(date_of(p.added_at.as_str()).to_owned()), color);
    lines
}

fn detail_tail_exec(p: &Paper, width: usize, color: bool) -> (r: Vec<String>)
    requires
        width >= 4,
    ensures
        strings_view(r@) == detail_tail(*p, width as nat, color),
{
    let mut lines: Vec<String> = Vec::new();
    match &p.abstract_ {
        Some(a) => {
            lines.push(String::new());
            lines.push(paint(color, DIM, "  abstract"));
            lines.push(wrap(a.as_str(), width - 4, "  "));
        },
        None => {},
    }
    proof {
        reveal_strlit("");
        assert(""@ =~= Seq::<char>::empty());
    }
    let ghost v1 = strings_view(lines@);
    assert(v1 =~= abstract_part(*p, width as nat, color));
    if p.notes.len() > 0 {
        lines.push(String::new());
        let mut h = "  notes (".to_owned();
        h.append(string_of(nat_chars(p.notes.len() as u64).as_slice()).as_str());
        h.append(")");
        lines.push(paint(color, DIM, h.as_str()));
        let ghost v2 = strings_view(lines@);
        let ghost ns = p.notes@.map_values(
            |n: crate::model::Note| note_line(n, (width - 4) as nat, color),
        );
        let mut i: usize = 0;
        while i < p.notes.len()
            invariant
                i <= p.notes@.len(),
                width >= 4,
                ns == p.notes@.map_values(
                    |n: crate::model::Note| note_line(n, (width - 4) as nat, color),
                ),
                strings_view(lines@) == v2 + ns.take(i as int),
            decreases p.notes.len() - i,
        {
            let n = &p.notes[i];
            let mut l = "  ".to_owned();
            let mut d = "[".to_owned();
            d.append(date_of(n.created_at.as_str()));
            d.append("]");
            l.append(paint(color, MAGENTA, d.as_str()).as_str());
            l.append(" ");
            l.append(wrap_hanging(n.body.as_str(), width - 4, 13).as_str());
            let ghost before = strings_view(lines@);
            let ghost lv = l@;
            lines.push(l);
            assert(strings_view(lines@) =~= before.push(lv));
            assert(ns.take(i + 1) =~= ns.take(i as int).push(ns[i as int]));
            i += 1;
        }
        assert(ns.take(i as int) =~= ns);
        assert(v2 =~= v1 + seq![seq![], painted(color, DIM@, "  notes ("@ + nat_str(p.notes@.len()) + ")"@)]);
        assert(strings_view(lines@) =~= v1 + notes_part(*p, width as nat, color));
    } else {
        assert(strings_view(lines@) =~= v1 + notes_part(*p, width as nat, color));
    }
    let ghost v3 = strings_view(lines@);
    lines.push(String::new());
    assert(strings_view(lines@) =~= v3 + seq![seq![]]);
    lines
}

/// The lines of `show`: title, authors, year and venue, the labelled fields,
/// the abstract and the notes, for a terminal `term_width` columns wide.
pub fn detail_lines(p: &Paper, term_width: usize, color: bool) -> (r: Vec<String>)
    requires
        term_width >= 4,
    ensures
        strings_view(r@) == detail_text(*p, term_width as nat, color),
{
    let width = if term_width < 100 {
        term_width
    } else {
        100
    };
    let mut lines = detail_head_exec(p, width, color);
    let mut fields = detail_fields_exec(p, color);
    let mut tail = detail_tail_exec(p, width, color);
    let ghost a = strings_view(lines@);
    let ghost b = strings_view(fields@);
    let ghost c = strings_view(tail@);
    let ghost la = lines@;
    let ghost lb = fields@;
    lines.append(&mut fields);
    assert(lines@ =~= la + lb);
    assert(strings_view(lines@) =~= a + b);
    let ghost lab = lines@;
    let ghost lc = tail@;
    lines.append(&mut tail);
    assert(lines@ =~= lab + lc);
    assert(strings_view(lines@) =~= a + b + c);
    lines
}

// ---------------------------------------------------------------------------
// Confirmations and summaries
// ---------------------------------------------------------------------------

/// "<verb> #<id> <title>", the title cut to what the terminal leaves.
pub open spec fn confirm_of(verb: Seq<char>, p: Paper, term_width: nat, color: bool) -> Seq<char> {
    let used = encode_utf8(verb).len() + 8;
    let room = if term_width >= used {
        (term_width - used) as nat
    } else {
        0
    };
    painted(color, GREEN@, verb) + " "@ + painted(color, BOLD@, "#"@ + int_str(p.id as int)) + " "@
        + truncated(p.title@, room)
}

/// The one-line confirmation after a command changed a paper.
pub fn confirm_text(verb: &str, p: &Paper, term_width: usize, color: bool) -> (r: String)
    requires
        encode_utf8(verb@).len() + 8 <= usize::MAX,
    ensures
        r@ == confirm_of(verb@, *p, term_width as nat, color),
{
    let used = verb.len() + 8;
    let room: usize = if term_width >= used {
        term_width - used
    } else {
        0
    };
    let mut id = "#".to_owned();
    id.append(id_text(p.id).as_str());
    let mut s = paint(color, GREEN, verb);
    s.append(" ");
    s.append(paint(color, BOLD, id.as_str()).as_str());
    s.append(" ");
    s.append(truncate(p.title.as_str(), room).as_str());
    s
}

/// The short description of a paper: its authors, year, venue and (when
/// asked) its tags in brackets, those it has.
pub open spec fn summary_parts(p: Paper, with_tags: bool) -> Seq<Seq<char>> {
    (if p.authors@.len() > 0 {
        seq![short_authors_of(p.authors@)]
    } else {
        seq![]
    }) + year_venue(p) + (if with_tags && p.tags@.len() > 0 {
        seq!["["@ + join(strings_view(p.tags@), ", "@) + "]"@]
    } else {
        seq![]
    })
}

/// The summary `add` and `next` print under a paper, parts joined with
/// " · ", or nothing when there is nothing to say.
pub fn paper_summary(p: &Paper, with_tags: bool) -> (r: Option<String>)
    ensures
        summary_parts(*p, with_tags).len() == 0 ==> r is None,
        summary_parts(*p, with_tags).len() > 0 ==> (r matches Some(t) && t@ == join(
            summary_parts(*p, with_tags),
            " · "@,
        )),
{
    let mut parts: Vec<String> = Vec::new();
    if !p.authors.as_str().is_empty() {
        parts.push(p.short_authors());
    }
    match p.year {
        Some(y) => {
            parts.push(year_text(Some(y)));
        },
        None => {},
    }
    match &p.venue {
        Some(v) => {
            parts.push(v.clone());
        },
        None => {},
    }
    if with_tags && p.tags.len() > 0 {
        let mut t = "[".to_owned();
        t.append(join_strings(p.tags.as_slice(), ", ").as_str());
        t.append("]");
        parts.push(t);
    }
    assert(strings_view(parts@) =~= summary_parts(*p, with_tags));
    if parts.len() == 0 {
        None
    } else {
        Some(join_strings(parts.as_slice(), " · "))
    }
}

// ---------------------------------------------------------------------------
// The tag list
// ---------------------------------------------------------------------------

/// The widest name, in columns.
pub open spec fn name_width(cs: Seq<TagTally>) -> nat
    decreases cs.len(),
{
    if cs.len() == 0 {
        0
    } else {
        let w = name_width(cs.drop_last());
        if str_width(cs.last().name) > w {
            str_width(cs.last().name)
        } else {
            w
        }
    }
}

/// A number right-aligned in three columns.
pub open spec fn right3(n: nat) -> Seq<char> {
    let d = nat_str(n);
    if d.len() < 3 {
        repeat(seq![' '], (3 - d.len()) as nat) + d
    } else {
        d
    }
}

/// A line of `tags`: the padded name, the count, how many are read, a bar
/// scaled to the most used tag (`max`).
pub open spec fn tag_line(c: TagTally, name_w: nat, max: nat, color: bool) -> Seq<char> {
    "  "@ + painted(
        color,
        CYAN@,
        c.name + repeat(
            seq![' '],
            if name_w >= str_width(c.name) {
                (name_w - str_width(c.name)) as nat
            } else {
                0
            },
        ),
    ) + "  "@ + right3(c.total) + " "@ + painted(
        color,
        DIM@,
        "("@ + nat_str(c.read) + " read)"@,
    ) + "  "@ + painted(
        color,
        DIM@,
        if max == 0 {
            seq![]
        } else {
            repeat("█"@, bar_cells(c.total, max, 20))
        },
    )
}

/// The lines of `tags` for the counted tags (most used first).
pub open spec fn tag_text(cs: Seq<TagTally>, color: bool) -> Seq<Seq<char>> {
    if cs.len() == 0 {
        seq![painted(color, DIM@, "no tags yet, add one with `rlist add ... -t <tag>`"@)]
    } else {
        cs.map_values(|c: TagTally| tag_line(c, name_width(cs), cs[0].total, color))
    }
}

fn right3_exec(n: usize) -> (r: String)
    ensures
        r@ == right3(n as nat),
{
    let d = nat_chars(n as u64);
    let mut out = if d.len() < 3 {
        crate::output::spaces(3 - d.len())
    } else {
        String::new()
    };
    out.append(string_of(d.as_slice()).as_str());
    proof {
        if d@.len() >= 3 {
            reveal_strlit("");
        }
    }
    assert(out@ =~= right3(n as nat));
    out
}

/// The lines `tags` prints for the tag counts.
pub fn tag_lines(counts: &[TagCount], color: bool) -> (r: Vec<String>)
    requires
        forall|i: int| 0 <= i < counts@.len() ==> #[trigger] counts@[i].total * 20 <= usize::MAX,
    ensures
        strings_view(r@) == tag_text(tallies_view(counts@), color),
{
    let ghost cs = tallies_view(counts@);
    if counts.len() == 0 {
        let v: Vec<String> = vec![
            paint(color, DIM, "no tags yet, add one with `rlist add ... -t <tag>`"),
        ];
        assert(strings_view(v@) =~= tag_text(cs, color));
        return v;
    }
    let mut name_w: usize = 0;
    let mut i: usize = 0;
    while i < counts.len()
        invariant
            i <= counts@.len(),
            cs == tallies_view(counts@),
            name_w == name_width(cs.take(i as int)),
        decreases counts.len() - i,
    {
        assert(cs.take(i + 1).drop_last() =~= cs.take(i as int));
        assert(cs.take(i + 1).last() == counts@[i as int]@);
        let w = crate::output::text_width(counts[i].name.as_str());
        if w > name_w {
            name_w = w;
        }
        i += 1;
    }
    assert(cs.take(i as int) =~= cs);
    let max = counts[0].total;
    assert(cs[0] == counts@[0]@);
    let ghost ls = cs.map_values(|c: TagTally| tag_line(c, name_width(cs), cs[0].total, color));
    let mut lines: Vec<String> = Vec::new();
    let mut k: usize = 0;
    while k < counts.len()
        invariant
            k <= counts@.len(),
            cs == tallies_view(counts@),
            name_w == name_width(cs),
            max == cs[0].total,
            forall|i: int| 0 <= i < counts@.len() ==> #[trigger] counts@[i].total * 20 <= usize::MAX,
            ls == cs.map_values(|c: TagTally| tag_line(c, name_width(cs), cs[0].total, color)),
            strings_view(lines@) == ls.take(k as int),
        decreases counts.len() - k,
    {
        let c = &counts[k];
        assert(cs[k as int] == c@);
        let w = crate::output::text_width(c.name.as_str());
        let mut padded_name = c.name.clone();
        if name_w >= w {
            padded_name.append(crate::output::spaces(name_w - w).as_str());
        } else {
            proof {
                assert(repeat(seq![' '], 0) =~= seq![]);
            }
        }
        let mut read = "(".to_owned();
        read.append(string_of(nat_chars(c.read as u64).as_slice()).as_str());
        read.append(" read)");
        let mut l = "  ".to_owned();
        l.append(paint(color, CYAN, padded_name.as_str()).as_str());
        l.append("  ");
        l.append(right3_exec(c.total).as_str());
        l.append(" ");
        l.append(paint(color, DIM, read.as_str()).as_str());
        l.append("  ");
        l.append(paint(color, DIM, bar(c.total, max, 20).as_str()).as_str());
        let ghost before = strings_view(lines@);
        let ghost lv = l@;
        lines.push(l);
        assert(strings_view(lines@) =~= before.push(lv));
        assert(ls.take(k + 1) =~= ls.take(k as int).push(ls[k as int]));
        k += 1;
    }
    assert(ls.take(k as int) =~= ls);
    lines
}

} // verus!
