//! The reading-list model: papers, their status and priority, tags, authors.

use vstd::prelude::*;
use crate::text::{
    join, join_chars, lowercase_chars, remove_char, remove_char_chars, split_chars, squish_str,
    trim_chars, views, words, words_of, squish as squish_of,
    chars_of, eq_str, lowercase, nat_chars, nat_str, rfind, rfind_char, split, split_from, starts_with,
    string_of, to_lowercase, trim, trim_bounds, all_ascii, ascii_lowercase, chars_all, is_ascii,
    lower_ascii, ws_free, is_ws,
};

verus! {

/// Where a paper stands in the reading lifecycle.
#[derive(Debug, Clone, Copy, PartialEq, Eq, Structural)]
pub enum Status {
    ToRead,
    Reading,
    Read,
    Dropped,
}

/// The status named by an already lowercased word, with its aliases.
pub open spec fn status_from_word(w: Seq<char>) -> Option<Status> {
    if w == "to-read"@ || w == "toread"@ || w == "todo"@ || w == "unread"@ || w == "t"@ {
        Some(Status::ToRead)
    } else if w == "reading"@ || w == "started"@ || w == "in-progress"@ || w == "s"@ {
        Some(Status::Reading)
    } else if w == "read"@ || w == "done"@ || w == "finished"@ || w == "r"@ || w == "d"@ {
        Some(Status::Read)
    } else if w == "dropped"@ || w == "drop"@ || w == "abandoned"@ || w == "x"@ {
        Some(Status::Dropped)
    } else {
        None
    }
}

impl Status {
    pub open spec fn name(self) -> Seq<char> {
        match self {
            Status::ToRead => "to-read"@,
            Status::Reading => "reading"@,
            Status::Read => "read"@,
            Status::Dropped => "dropped"@,
        }
    }

    pub open spec fn glyph_of(self) -> Seq<char> {
        match self {
            Status::ToRead => "○"@,
            Status::Reading => "◐"@,
            Status::Read => "●"@,
            Status::Dropped => "✗"@,
        }
    }

    pub fn as_str(self) -> (r: &'static str)
        ensures
            r@ == self.name(),
    {
        match self {
            Status::ToRead => "to-read",
            Status::Reading => "reading",
            Status::Read => "read",
            Status::Dropped => "dropped",
        }
    }

    /// The status a word names, case-insensitively, accepting aliases.
    pub fn parse(s: &str) -> (r: Option<Status>)
        ensures
            r == status_from_word(lowercase(s@)),
            all_ascii(s@) ==> r == status_from_word(ascii_lowercase(s@)),
    {
        let w = chars_of(to_lowercase(s).as_str());
        let w = w.as_slice();
        if eq_str(w, "to-read") || eq_str(w, "toread") || eq_str(w, "todo") || eq_str(w, "unread")
            || eq_str(w, "t") {
            Some(Status::ToRead)
        } else if eq_str(w, "reading") || eq_str(w, "started") || eq_str(w, "in-progress")
            || eq_str(w, "s") {
            Some(Status::Reading)
        } else if eq_str(w, "read") || eq_str(w, "done") || eq_str(w, "finished") || eq_str(
            w,
            "r",
        ) || eq_str(w, "d") {
            Some(Status::Read)
        } else if eq_str(w, "dropped") || eq_str(w, "drop") || eq_str(w, "abandoned") || eq_str(
            w,
            "x",
        ) {
            Some(Status::Dropped)
        } else {
            None
        }
    }

    pub fn glyph(self) -> (r: &'static str)
        ensures
            r@ == self.glyph_of(),
    {
        match self {
            Status::ToRead => "○",
            Status::Reading => "◐",
            Status::Read => "●",
            Status::Dropped => "✗",
        }
    }
}

/// How urgently a paper should be read; `High` sorts first in the queue.
#[derive(Debug, Clone, Copy, PartialEq, Eq, Structural, PartialOrd, Ord)]
pub enum Priority {
    Low,
    Normal,
    High,
}

/// The priority named by an already lowercased word, with its aliases.
pub open spec fn priority_from_word(w: Seq<char>) -> Option<Priority> {
    if w == "low"@ || w == "l"@ || w == "0"@ {
        Some(Priority::Low)
    } else if w == "normal"@ || w == "med"@ || w == "medium"@ || w == "n"@ || w == "m"@ || w
        == "1"@ {
        Some(Priority::Normal)
    } else if w == "high"@ || w == "h"@ || w == "2"@ {
        Some(Priority::High)
    } else {
        None
    }
}

impl Priority {
    /// The stored number: 0 low, 1 normal, 2 high.
    pub open spec fn rank(self) -> int {
        match self {
            Priority::Low => 0,
            Priority::Normal => 1,
            Priority::High => 2,
        }
    }

    pub open spec fn name(self) -> Seq<char> {
        match self {
            Priority::Low => "low"@,
            Priority::Normal => "normal"@,
            Priority::High => "high"@,
        }
    }

    pub open spec fn glyph_of(self) -> Seq<char> {
        match self {
            Priority::Low => "↓"@,
            Priority::Normal => " "@,
            Priority::High => "↑"@,
        }
    }

    pub open spec fn of_int(i: int) -> Priority {
        if i == 0 {
            Priority::Low
        } else if i == 2 {
            Priority::High
        } else {
            Priority::Normal
        }
    }

    pub fn as_str(self) -> (r: &'static str)
        ensures
            r@ == self.name(),
    {
        match self {
            Priority::Low => "low",
            Priority::Normal => "normal",
            Priority::High => "high",
        }
    }

    /// The priority a word names, case-insensitively, accepting aliases.
    pub fn parse(s: &str) -> (r: Option<Priority>)
        ensures
            r == priority_from_word(lowercase(s@)),
            all_ascii(s@) ==> r == priority_from_word(ascii_lowercase(s@)),
    {
        let w = chars_of(to_lowercase(s).as_str());
        let w = w.as_slice();
        if eq_str(w, "low") || eq_str(w, "l") || eq_str(w, "0") {
            Some(Priority::Low)
        } else if eq_str(w, "normal") || eq_str(w, "med") || eq_str(w, "medium") || eq_str(w, "n")
            || eq_str(w, "m") || eq_str(w, "1") {
            Some(Priority::Normal)
        } else if eq_str(w, "high") || eq_str(w, "h") || eq_str(w, "2") {
            Some(Priority::High)
        } else {
            None
        }
    }

    /// The priority stored as `i`; anything but 0 and 2 reads as normal.
    pub fn from_int(i: i64) -> (r: Priority)
        ensures
            r == Priority::of_int(i as int),
    {
        match i {
            0 => Priority::Low,
            2 => Priority::High,
            _ => Priority::Normal,
        }
    }

    /// The number the priority is stored as.
    pub fn to_int(self) -> (r: i64)
        ensures
            r == self.rank(),
    {
        match self {
            Priority::Low => 0,
            Priority::Normal => 1,
            Priority::High => 2,
        }
    }

    pub fn glyph(self) -> (r: &'static str)
        ensures
            r@ == self.glyph_of(),
    {
        match self {
            Priority::Low => "↓",
            Priority::Normal => " ",
            Priority::High => "↑",
        }
    }
}

/// A paper on the reading list.
#[derive(Debug, Clone)]
pub struct Paper {
    pub id: i64,
    pub title: String,
    /// "First Last; First Last" separated authors.
    pub authors: String,
    pub year: Option<i32>,
    pub venue: Option<String>,
    pub arxiv_id: Option<String>,
    pub doi: Option<String>,
    pub url: Option<String>,
    pub pdf_url: Option<String>,
    pub abstract_: Option<String>,
    pub status: Status,
    pub priority: Priority,
    pub rating: Option<i64>,
    pub tags: Vec<String>,
    pub added_at: String,
    pub started_at: Option<String>,
    pub finished_at: Option<String>,
    pub notes: Vec<Note>,
}

/// A timestamped note on a paper.
#[derive(Debug, Clone)]
pub struct Note {
    pub created_at: String,
    pub body: String,
}

/// The view of an optional string.
pub open spec fn opt_view(o: Option<String>) -> Option<Seq<char>> {
    match o {
        Some(s) => Some(s@),
        None => None,
    }
}

/// The view of an optional string slice.
pub open spec fn opt_str_view(o: Option<&str>) -> Option<Seq<char>> {
    match o {
        Some(s) => Some(s@),
        None => None,
    }
}

/// The views of a sequence of strings.
pub open spec fn strings_view(v: Seq<String>) -> Seq<Seq<char>> {
    v.map_values(|s: String| s@)
}

/// The views of a sequence of string slices.
pub open spec fn strs_view(v: Seq<&str>) -> Seq<Seq<char>> {
    v.map_values(|s: &str| s@)
}

/// The trimmed parts, leaving out those that trim to nothing.
pub open spec fn nonempty_trimmed(parts: Seq<Seq<char>>) -> Seq<Seq<char>>
    decreases parts.len(),
{
    if parts.len() == 0 {
        seq![]
    } else {
        let rest = nonempty_trimmed(parts.drop_last());
        let t = trim(parts.last());
        if t.len() > 0 {
            rest.push(t)
        } else {
            rest
        }
    }
}

/// The names in a ';'-separated author string, trimmed, empty ones left out.
pub open spec fn author_names(authors: Seq<char>) -> Seq<Seq<char>> {
    nonempty_trimmed(split(authors, seq![';']))
}

/// The part of a name after its last space (the whole name if it has none).
pub open spec fn last_name_of(full: Seq<char>) -> Seq<char> {
    match rfind(full, ' ') {
        Some(k) => full.skip(k + 1 as int),
        None => full,
    }
}

/// "Vaswani +7" / "Smith, Jones" / "Smith" / "".
pub open spec fn short_authors_of(authors: Seq<char>) -> Seq<char> {
    let names = author_names(authors);
    if names.len() == 0 {
        seq![]
    } else if names.len() == 1 {
        last_name_of(names[0])
    } else if names.len() == 2 {
        last_name_of(names[0]) + ", "@ + last_name_of(names[1])
    } else {
        last_name_of(names[0]) + " +"@ + nat_str((names.len() - 1) as nat)
    }
}

/// The link to open: the page first (or the PDF if preferred), else the other one.
pub open spec fn best_url_of(
    url: Option<Seq<char>>,
    pdf_url: Option<Seq<char>>,
    prefer_pdf: bool,
) -> Option<Seq<char>> {
    if prefer_pdf {
        if pdf_url is Some {
            pdf_url
        } else {
            url
        }
    } else {
        if url is Some {
            url
        } else {
            pdf_url
        }
    }
}

/// The names in a ';'-separated author string, trimmed, empty ones left out.
pub fn name_list(full: &str) -> (r: Vec<&str>)
    ensures
        strs_view(r@) == author_names(full@),
{
    let v = chars_of(full);
    let n = v.len();
    let sep: Vec<char> = vec![';'];
    assert(sep@ =~= seq![';']);
    let mut out: Vec<&str> = Vec::new();
    let ghost done: Seq<Seq<char>> = seq![];
    let mut start: usize = 0;
    let mut i: usize = 0;
    assert(v@.skip(0) =~= v@);
    assert(v@.subrange(0, 0) =~= seq![]);
    while i < n
        invariant
            start <= i <= n == v@.len(),
            v@ == full@,
            sep@ == seq![';'],
            done + split_from(v@.skip(i as int), sep@, v@.subrange(start as int, i as int))
                == split(v@, sep@),
            strs_view(out@) == nonempty_trimmed(done),
        decreases n - i,
    {
        let ghost rest = v@.skip(i as int);
        assert(rest.drop_first() =~= v@.skip(i + 1));
        assert(rest[0] == v@[i as int]);
        if v[i] == ';' {
            assert(starts_with(rest, sep@)) by {
                assert(rest.take(1) =~= sep@);
            }
            assert(rest.skip(1) =~= v@.skip(i + 1));
            let ghost piece = v@.subrange(start as int, i as int);
            let (a, b) = trim_bounds(v.as_slice(), start, i);
            let ghost old_out = strs_view(out@);
            if b > a {
                out.push(full.substring_char(a, b));
                assert(strs_view(out@) =~= old_out.push(trim(piece)));
            }
            proof {
                assert(done.push(piece).drop_last() =~= done);
                assert(done.push(piece) + split_from(v@.skip(i + 1), sep@, seq![]) =~= done
                    + (seq![piece] + split_from(v@.skip(i + 1), sep@, seq![])));
                done = done.push(piece);
            }
            start = i + 1;
            assert(v@.subrange(start as int, start as int) =~= seq![]);
        } else {
            assert(!starts_with(rest, sep@)) by {
                assert(rest.take(1)[0] == v@[i as int]);
            }
            assert(v@.subrange(start as int, i as int).push(v@[i as int]) =~= v@.subrange(
                start as int,
                i + 1,
            ));
        }
        i += 1;
    }
    assert(v@.skip(n as int) =~= seq![]);
    let ghost piece = v@.subrange(start as int, n as int);
    let (a, b) = trim_bounds(v.as_slice(), start, n);
    let ghost old_out = strs_view(out@);
    if b > a {
        out.push(full.substring_char(a, b));
        assert(strs_view(out@) =~= old_out.push(trim(piece)));
    }
    assert(done.push(piece).drop_last() =~= done);
    assert(done.push(piece) =~= split(v@, sep@));
    out
}

/// The string slices joined with `sep` between consecutive ones.
pub fn join_strs(parts: &[&str], sep: &str) -> (r: String)
    ensures
        r@ == join(strs_view(parts@), sep@),
{
    let ghost pv = strs_view(parts@);
    let mut r = String::new();
    let mut i: usize = 0;
    while i < parts.len()
        invariant
            i <= parts@.len() == pv.len(),
            pv == strs_view(parts@),
            r@ == join(pv.take(i as int), sep@),
        decreases parts.len() - i,
    {
        if i > 0 {
            r.append(sep);
        }
        r.append(parts[i]);
        assert(pv.take(i + 1).drop_last() =~= pv.take(i as int));
        i += 1;
    }
    assert(pv.take(i as int) =~= pv);
    r
}

/// The strings joined with `sep` between consecutive ones.
pub fn join_strings(parts: &[String], sep: &str) -> (r: String)
    ensures
        r@ == join(strings_view(parts@), sep@),
{
    let ghost pv = strings_view(parts@);
    let mut r = String::new();
    let mut i: usize = 0;
    while i < parts.len()
        invariant
            i <= parts@.len() == pv.len(),
            pv == strings_view(parts@),
            r@ == join(pv.take(i as int), sep@),
        decreases parts.len() - i,
    {
        if i > 0 {
            r.append(sep);
        }
        r.append(parts[i].as_str());
        assert(pv.take(i + 1).drop_last() =~= pv.take(i as int));
        i += 1;
    }
    assert(pv.take(i as int) =~= pv);
    r
}

impl Paper {
    /// The individual author names.
    pub fn author_list(&self) -> (r: Vec<&str>)
        ensures
            strs_view(r@) == author_names(self.authors@),
    {
        name_list(self.authors.as_str())
    }

    /// Compact author display: "Vaswani +7" / "Smith, Jones".
    pub fn short_authors(&self) -> (r: String)
        ensures
            r@ == short_authors_of(self.authors@),
    {
        let authors = self.author_list();
        let n = authors.len();
        assert(strs_view(authors@).len() == n);
        if n == 0 {
            String::new()
        } else if n == 1 {
            assert(strs_view(authors@)[0] == authors@[0]@);
            last_name(authors[0]).to_string()
        } else if n == 2 {
            assert(strs_view(authors@)[0] == authors@[0]@);
            assert(strs_view(authors@)[1] == authors@[1]@);
            let mut s = last_name(authors[0]).to_string();
            s.append(", ");
            s.append(last_name(authors[1]));
            s
        } else {
            assert(strs_view(authors@)[0] == authors@[0]@);
            let mut s = last_name(authors[0]).to_string();
            s.append(" +");
            let count = nat_chars((n - 1) as u64);
            s.append(string_of(count.as_slice()).as_str());
            s
        }
    }

    /// The best link to open in a browser.
    pub fn best_url(&self, prefer_pdf: bool) -> (r: Option<&str>)
        ensures
            opt_str_view(r) == best_url_of(opt_view(self.url), opt_view(self.pdf_url), prefer_pdf),
    {
        let page = match &self.url {
            Some(u) => Some(u.as_str()),
            None => match &self.pdf_url {
                Some(u) => Some(u.as_str()),
                None => None,
            },
        };
        let pdf = match &self.pdf_url {
            Some(u) => Some(u.as_str()),
            None => match &self.url {
                Some(u) => Some(u.as_str()),
                None => None,
            },
        };
        if prefer_pdf {
            pdf
        } else {
            page
        }
    }
}

/// The part of a name after its last space.
pub fn last_name(full: &str) -> (r: &str)
    ensures
        r@ == last_name_of(full@),
{
    let v = chars_of(full);
    match rfind_char(v.as_slice(), ' ') {
        Some(k) => full.substring_char(k + 1, v.len()),
        None => full,
    }
}


/// A tag as stored: trimmed, lowercased, commas dropped, inner whitespace runs
/// turned into single '-'.
pub open spec fn normalized_tag(tag: Seq<char>) -> Seq<char> {
    join(words(remove_char(lowercase(trim(tag)), ',')), seq!['-'])
}

/// `out` with `t` appended, unless `t` is empty or already there.
pub open spec fn add_tag(out: Seq<Seq<char>>, t: Seq<char>) -> Seq<Seq<char>> {
    if t.len() > 0 && !out.contains(t) {
        out.push(t)
    } else {
        out
    }
}

/// `out` after adding the normalized form of each part, in order.
pub open spec fn add_tag_parts(out: Seq<Seq<char>>, parts: Seq<Seq<char>>) -> Seq<Seq<char>>
    decreases parts.len(),
{
    if parts.len() == 0 {
        out
    } else {
        add_tag_parts(add_tag(out, normalized_tag(parts[0])), parts.drop_first())
    }
}

/// `out` after adding every comma-separated part of each tag, in order.
pub open spec fn add_tag_list(out: Seq<Seq<char>>, tags: Seq<Seq<char>>) -> Seq<Seq<char>>
    decreases tags.len(),
{
    if tags.len() == 0 {
        out
    } else {
        add_tag_list(add_tag_parts(out, split(tags[0], seq![','])), tags.drop_first())
    }
}

/// The normalized, de-duplicated tags of a tag list, in first-seen order.
pub open spec fn normalized_tags(tags: Seq<Seq<char>>) -> Seq<Seq<char>> {
    add_tag_list(seq![], tags)
}

/// Every element is non-empty and none occurs twice.
pub open spec fn distinct_nonempty(v: Seq<Seq<char>>) -> bool {
    &&& forall|i: int| 0 <= i < v.len() ==> (#[trigger] v[i]).len() > 0
    &&& forall|i: int, j: int| 0 <= i < j < v.len() ==> v[i] != v[j]
}

proof fn lemma_add_tag_parts_distinct(out: Seq<Seq<char>>, parts: Seq<Seq<char>>)
    requires
        distinct_nonempty(out),
    ensures
        distinct_nonempty(add_tag_parts(out, parts)),
    decreases parts.len(),
{
    if parts.len() > 0 {
        let next = add_tag(out, normalized_tag(parts[0]));
        assert(distinct_nonempty(next)) by {
            let t = normalized_tag(parts[0]);
            if t.len() > 0 && !out.contains(t) {
                assert forall|i: int, j: int| 0 <= i < j < next.len() implies next[i]
                    != next[j] by {
                    if j == out.len() {
                        assert(out.contains(out[i]));
                    }
                }
            }
        }
        lemma_add_tag_parts_distinct(next, parts.drop_first());
    }
}

pub(crate) proof fn lemma_add_tag_list_distinct(out: Seq<Seq<char>>, tags: Seq<Seq<char>>)
    requires
        distinct_nonempty(out),
    ensures
        distinct_nonempty(add_tag_list(out, tags)),
    decreases tags.len(),
{
    if tags.len() > 0 {
        lemma_add_tag_parts_distinct(out, split(tags[0], seq![',']));
        lemma_add_tag_list_distinct(add_tag_parts(out, split(tags[0], seq![','])), tags.drop_first());
    }
}

/// The normal form of an ASCII tag: trimmed, ASCII letters lowercased,
/// commas dropped, whitespace runs turned into single '-'.
pub open spec fn ascii_normalized_tag(tag: Seq<char>) -> Seq<char> {
    join(words(remove_char(ascii_lowercase(trim(tag)), ',')), seq!['-'])
}

proof fn lemma_lower_ascii(c: char)
    ensures
        lower_ascii(lower_ascii(c)) == lower_ascii(c),
        is_ascii(c) ==> is_ascii(lower_ascii(c)),
        c != ',' ==> lower_ascii(c) != ',',
        lower_ascii(c) == ',' ==> c == ',',
{
    if 'A' <= c && c <= 'Z' {
        let u = (c as u32) + 32;
        assert(97 <= u <= 122);
        assert(lower_ascii(c) as u32 == u);
    }
}

/// A normalized tag holds no ',' and no whitespace.
pub proof fn normalized_tag_shape(t: Seq<char>)
    ensures
        !normalized_tag(t).contains(','),
        ws_free(normalized_tag(t)),
        !ascii_normalized_tag(t).contains(','),
        ws_free(ascii_normalized_tag(t)),
{
    let e: Seq<char> = seq![];
    let dash: Seq<char> = seq!['-'];
    let no_comma = |x: char| x != ',';
    assert(chars_all(dash, no_comma));
    assert(!is_ws('-'));
    let xs = seq![remove_char(lowercase(trim(t)), ','), remove_char(ascii_lowercase(trim(t)), ',')];
    assert forall|k: int| 0 <= k < 2 implies !join(words(#[trigger] xs[k]), dash).contains(',')
        && ws_free(join(words(xs[k]), dash)) by {
        let x = xs[k];
        let src = if k == 0 {
            lowercase(trim(t))
        } else {
            ascii_lowercase(trim(t))
        };
        assert(x == remove_char(src, ','));
        crate::text::lemma_remove_char_chars_all(src, ',', |x: char| true);
        crate::text::lemma_words_chars_all(x, e, no_comma);
        crate::text::lemma_join_chars_all(words(x), dash, no_comma);
        let n = join(words(x), dash);
        if n.contains(',') {
            let i = choose|i: int| 0 <= i < n.len() && n[i] == ',';
            assert(no_comma(n[i]));
        }
        crate::text::lemma_words_from_plain(x, e);
        crate::text::lemma_join_ws_free(words(x), '-');
    }
    assert(xs[0] == remove_char(lowercase(trim(t)), ','));
    assert(xs[1] == remove_char(ascii_lowercase(trim(t)), ','));
}

/// For an ASCII tag, the normal form is ASCII and normalizing it again
/// changes nothing.
pub proof fn ascii_tag_normal_form_is_stable(t: Seq<char>)
    requires
        all_ascii(t),
    ensures
        all_ascii(ascii_normalized_tag(t)),
        ascii_normalized_tag(ascii_normalized_tag(t)) == ascii_normalized_tag(t),
{
    let e: Seq<char> = seq![];
    let dash: Seq<char> = seq!['-'];
    let asc = |c: char| is_ascii(c);
    let fixed = |c: char| is_ascii(c) && lower_ascii(c) == c;
    let q = |c: char| is_ascii(c) && lower_ascii(c) == c && c != ',';
    assert(chars_all(t, asc));
    crate::text::lemma_trim_chars_all(t, asc);
    let tt = trim(t);
    let low = ascii_lowercase(tt);
    assert forall|i: int| 0 <= i < low.len() implies fixed(#[trigger] low[i]) by {
        lemma_lower_ascii(tt[i]);
        assert(asc(tt[i]));
    }
    let x = remove_char(low, ',');
    crate::text::lemma_remove_char_chars_all(low, ',', fixed);
    assert(chars_all(x, q));
    crate::text::lemma_words_chars_all(x, e, q);
    assert(q('-'));
    assert(chars_all(dash, q));
    crate::text::lemma_join_chars_all(words(x), dash, q);
    let n = join(words(x), dash);
    assert(n == ascii_normalized_tag(t));
    assert(all_ascii(n)) by {
        assert forall|i: int| 0 <= i < n.len() implies is_ascii(#[trigger] n[i]) by {
            assert(q(n[i]));
        }
    }
    normalized_tag_shape(t);
    assert(ws_free(n));
    crate::text::lemma_trim_fixed(n);
    let nl = ascii_lowercase(n);
    assert(nl =~= n) by {
        assert forall|i: int| 0 <= i < n.len() implies nl[i] == n[i] by {
            assert(q(n[i]));
        }
    }
    crate::text::lemma_remove_char_absent(n, ',');
    crate::text::lemma_words_single(n);
    if n.len() > 0 {
        assert(join(seq![n], dash) == n);
    } else {
        assert(join(Seq::<Seq<char>>::empty(), dash) == n);
    }
}

/// A tag that can be stored as it is: no ',' and no whitespace.
pub open spec fn plain_tag(x: Seq<char>) -> bool {
    !x.contains(',') && ws_free(x)
}

proof fn lemma_add_tag_parts_plain(out: Seq<Seq<char>>, parts: Seq<Seq<char>>)
    requires
        forall|i: int| 0 <= i < out.len() ==> plain_tag(#[trigger] out[i]),
    ensures
        forall|i: int|
            0 <= i < add_tag_parts(out, parts).len() ==> plain_tag(
                #[trigger] add_tag_parts(out, parts)[i],
            ),
    decreases parts.len(),
{
    if parts.len() > 0 {
        let t = normalized_tag(parts[0]);
        normalized_tag_shape(parts[0]);
        let next = add_tag(out, t);
        assert forall|i: int| 0 <= i < next.len() implies plain_tag(#[trigger] next[i]) by {
            if i < out.len() {
                assert(next[i] == out[i]);
            }
        }
        lemma_add_tag_parts_plain(next, parts.drop_first());
        assert(add_tag_parts(out, parts) == add_tag_parts(next, parts.drop_first()));
    } else {
        assert(add_tag_parts(out, parts) == out);
    }
}

proof fn lemma_add_tag_list_plain(out: Seq<Seq<char>>, tags: Seq<Seq<char>>)
    requires
        forall|i: int| 0 <= i < out.len() ==> plain_tag(#[trigger] out[i]),
    ensures
        forall|i: int|
            0 <= i < add_tag_list(out, tags).len() ==> plain_tag(#[trigger] add_tag_list(out, tags)[i]),
    decreases tags.len(),
{
    if tags.len() > 0 {
        lemma_add_tag_parts_plain(out, split(tags[0], seq![',']));
        lemma_add_tag_list_plain(add_tag_parts(out, split(tags[0], seq![','])), tags.drop_first());
        assert(add_tag_list(out, tags) == add_tag_list(
            add_tag_parts(out, split(tags[0], seq![','])),
            tags.drop_first(),
        ));
    } else {
        assert(add_tag_list(out, tags) == out);
    }
}

/// Every normalized tag of a list is non-empty and holds no ',' and no
/// whitespace, and no tag occurs twice.
pub proof fn normalized_tags_shape(tags: Seq<Seq<char>>)
    ensures
        distinct_nonempty(normalized_tags(tags)),
        forall|i: int|
            0 <= i < normalized_tags(tags).len() ==> plain_tag(#[trigger] normalized_tags(tags)[i]),
{
    let e: Seq<Seq<char>> = seq![];
    lemma_add_tag_list_distinct(e, tags);
    lemma_add_tag_list_plain(e, tags);
}

/// Normalize a tag: lowercase, trim, inner whitespace -> '-'. Commas are
/// stripped because tags are stored comma-joined.
pub fn normalize_tag(tag: &str) -> (r: String)
    ensures
        r@ == normalized_tag(tag@),
        all_ascii(tag@) ==> r@ == ascii_normalized_tag(tag@),
{
    let v = chars_of(tag);
    proof {
        if all_ascii(tag@) {
            assert(chars_all(tag@, |c: char| is_ascii(c)));
            crate::text::lemma_trim_chars_all(tag@, |c: char| is_ascii(c));
            assert(all_ascii(trim(tag@))) by {
                assert forall|i: int| 0 <= i < trim(tag@).len() implies is_ascii(
                    #[trigger] trim(tag@)[i],
                ) by {
                    assert((|c: char| is_ascii(c))(trim(tag@)[i]));
                }
            }
        }
    }
    let t = trim_chars(v.as_slice());
    let low = lowercase_chars(t.as_slice());
    let no_commas = remove_char_chars(low.as_slice(), ',');
    let ws = words_of(no_commas.as_slice());
    let dash: Vec<char> = vec!['-'];
    assert(dash@ =~= seq!['-']);
    let joined = join_chars(&ws, dash.as_slice());
    string_of(joined.as_slice())
}

/// The normalized tags of a list, each comma-separated part counted as a tag
/// of its own, with empty and repeated tags left out.
pub fn normalize_tags(tags: &[String]) -> (r: Vec<String>)
    ensures
        strings_view(r@) == normalized_tags(strings_view(tags@)),
        distinct_nonempty(strings_view(r@)),
        forall|i: int|
            0 <= i < r@.len() ==> plain_tag(#[trigger] r@[i]@),
        (forall|i: int| 0 <= i < tags@.len() ==> all_ascii(#[trigger] tags@[i]@)) ==> forall|i: int|
            0 <= i < r@.len() ==> all_ascii(#[trigger] r@[i]@) && ascii_normalized_tag(r@[i]@)
                == r@[i]@,
{
    let ghost tv = strings_view(tags@);
    let ghost ascii_in = forall|i: int| 0 <= i < tags@.len() ==> all_ascii(#[trigger] tags@[i]@);
    let mut out: Vec<String> = Vec::new();
    let mut i: usize = 0;
    assert(tv.skip(0) =~= tv);
    assert(strings_view(out@) =~= seq![]);
    while i < tags.len()
        invariant
            i <= tags@.len() == tv.len(),
            tv == strings_view(tags@),
            add_tag_list(strings_view(out@), tv.skip(i as int)) == normalized_tags(tv),
            ascii_in == forall|i: int| 0 <= i < tags@.len() ==> all_ascii(#[trigger] tags@[i]@),
            ascii_in ==> forall|k: int|
                0 <= k < out@.len() ==> all_ascii(#[trigger] out@[k]@) && ascii_normalized_tag(
                    out@[k]@,
                ) == out@[k]@,
        decreases tags.len() - i,
    {
        let tc = chars_of(tags[i].as_str());
        let comma: Vec<char> = vec![','];
        assert(comma@ =~= seq![',']);
        let parts = split_chars(tc.as_slice(), comma.as_slice());
        let ghost pv = views(parts@);
        assert(tv.skip(i as int).drop_first() =~= tv.skip(i + 1));
        assert(tv.skip(i as int)[0] == tags@[i as int]@);
        let ghost before = strings_view(out@);
        proof {
            if ascii_in {
                let asc = |c: char| is_ascii(c);
                assert(all_ascii(tags@[i as int]@));
                assert(chars_all(tc@, asc));
                crate::text::lemma_split_chars_all(tc@, comma@, seq![], asc);
            }
        }
        let mut j: usize = 0;
        assert(pv.skip(0) =~= pv);
        while j < parts.len()
            invariant
                j <= parts@.len() == pv.len(),
                pv == views(parts@),
                add_tag_parts(strings_view(out@), pv.skip(j as int)) == add_tag_parts(before, pv),
                ascii_in ==> forall|k: int|
                    0 <= k < pv.len() ==> chars_all(#[trigger] pv[k], |c: char| is_ascii(c)),
                ascii_in ==> forall|k: int|
                    0 <= k < out@.len() ==> all_ascii(#[trigger] out@[k]@) && ascii_normalized_tag(
                        out@[k]@,
                    ) == out@[k]@,
            decreases parts.len() - j,
        {
            let st = string_of(parts[j].as_slice());
            let n = normalize_tag(st.as_str());
            proof {
                if ascii_in {
                    assert(pv[j as int] == st@);
                    assert(chars_all(st@, |c: char| is_ascii(c)));
                    assert(all_ascii(st@)) by {
                        assert forall|q: int| 0 <= q < st@.len() implies is_ascii(#[trigger] st@[q]) by {
                            assert((|c: char| is_ascii(c))(st@[q]));
                        }
                    }
                    ascii_tag_normal_form_is_stable(st@);
                }
            }
            assert(pv.skip(j as int).drop_first() =~= pv.skip(j + 1));
            assert(pv.skip(j as int)[0] == parts@[j as int]@);
            let ghost cur = strings_view(out@);
            if !n.as_str().is_empty() && !contains_string(&out, &n) {
                out.push(n);
                assert(strings_view(out@) =~= cur.push(n@));
            }
            proof {
                if n@.len() == 0 {
                    assert(!(n@.len() > 0));
                }
            }
            j += 1;
        }
        assert(pv.skip(j as int) =~= seq![]);
        i += 1;
    }
    assert(tv.skip(i as int) =~= seq![]);
    proof {
        lemma_add_tag_list_distinct(seq![], tv);
        normalized_tags_shape(tv);
        assert forall|k: int| 0 <= k < out@.len() implies plain_tag(#[trigger] out@[k]@) by {
            assert(strings_view(out@)[k] == out@[k]@);
        }
    }
    out
}

/// Whether `v` holds a string equal to `s`.
pub fn contains_string(v: &Vec<String>, s: &String) -> (r: bool)
    ensures
        r == strings_view(v@).contains(s@),
{
    let mut i: usize = 0;
    while i < v.len()
        invariant
            i <= v@.len(),
            forall|j: int| 0 <= j < i ==> v@[j]@ != s@,
        decreases v.len() - i,
    {
        if v[i] == *s {
            assert(strings_view(v@)[i as int] == s@);
            return true;
        }
        i += 1;
    }
    assert forall|j: int| 0 <= j < strings_view(v@).len() implies strings_view(v@)[j] != s@ by {
        assert(strings_view(v@)[j] == v@[j]@);
    }
    false
}

/// Collapse all whitespace runs (incl. newlines) into single spaces.
pub fn squish(s: &str) -> (r: String)
    ensures
        r@ == squish_of(s@),
{
    squish_str(s)
}


/// A status's name is ASCII and parses back to that status, so
/// `Status::parse(st.as_str()) == Some(st)`.
pub proof fn status_name_roundtrip(st: Status)
    ensures
        all_ascii(st.name()),
        status_from_word(ascii_lowercase(st.name())) == Some(st),
{
    reveal_strlit("to-read");
    reveal_strlit("toread");
    reveal_strlit("todo");
    reveal_strlit("unread");
    reveal_strlit("t");
    reveal_strlit("reading");
    reveal_strlit("started");
    reveal_strlit("in-progress");
    reveal_strlit("s");
    reveal_strlit("read");
    reveal_strlit("done");
    reveal_strlit("finished");
    reveal_strlit("r");
    reveal_strlit("d");
    reveal_strlit("dropped");
    reveal_strlit("drop");
    reveal_strlit("abandoned");
    reveal_strlit("x");
    let n = st.name();
    assert(ascii_lowercase(n) =~= n);
    match st {
        Status::ToRead => {},
        Status::Reading => {
            assert(n[0] != "to-read"@[0]);
            assert(n != "todo"@ && n != "unread"@ && n != "t"@);
        },
        Status::Read => {
            assert(n[0] != "todo"@[0]);
            assert(n.len() != "to-read"@.len());
            assert(n != "to-read"@ && n != "toread"@ && n != "todo"@ && n != "unread"@ && n != "t"@);
            assert(n != "reading"@ && n != "started"@ && n != "in-progress"@ && n != "s"@);
        },
        Status::Dropped => {
            assert(n[0] != "to-read"@[0] && n[0] != "reading"@[0] && n[0] != "started"@[0]);
            assert(n != "to-read"@ && n != "toread"@ && n != "todo"@ && n != "unread"@ && n != "t"@);
            assert(n != "reading"@ && n != "started"@ && n != "in-progress"@ && n != "s"@);
            assert(n != "read"@ && n != "done"@ && n != "finished"@ && n != "r"@ && n != "d"@);
        },
    }
}

/// A priority's name is ASCII and parses back to that priority, so
/// `Priority::parse(p.as_str()) == Some(p)`.
pub proof fn priority_name_roundtrip(p: Priority)
    ensures
        all_ascii(p.name()),
        priority_from_word(ascii_lowercase(p.name())) == Some(p),
{
    reveal_strlit("low");
    reveal_strlit("l");
    reveal_strlit("0");
    reveal_strlit("normal");
    reveal_strlit("med");
    reveal_strlit("medium");
    reveal_strlit("n");
    reveal_strlit("m");
    reveal_strlit("1");
    reveal_strlit("high");
    reveal_strlit("h");
    reveal_strlit("2");
    let n = p.name();
    assert(ascii_lowercase(n) =~= n);
    match p {
        Priority::Low => {},
        Priority::Normal => {
            assert(n != "low"@ && n != "l"@ && n != "0"@);
        },
        Priority::High => {
            assert(n != "low"@ && n != "l"@ && n != "0"@);
            assert(n != "normal"@ && n != "med"@ && n != "medium"@ && n != "n"@ && n != "m"@ && n
                != "1"@);
        },
    }
}

/// The stored number of a priority reads back as that priority:
/// `Priority::from_int(p.to_int()) == p`.
pub proof fn priority_int_roundtrip(p: Priority)
    ensures
        Priority::of_int(p.rank()) == p,
{
}

} // verus!
