//! Terminal layout: colors, display widths, truncation, padding, wrapping.

use vstd::prelude::*;
use unicode_width::UnicodeWidthChar;
use unicode_width::UnicodeWidthStr;
use crate::model::{Priority, Status};
use crate::text::{
    chars_all, chars_of, find, find_char, is_ws, join, join_chars, lemma_chars_all_concat,
    lemma_contains_chars_all, lemma_join_append, lemma_join_push, lemma_join_space_shape,
    lemma_split_join, lemma_words_from_plain, plain_words, replace, replace_chars, split,
    string_of, views, words, words_of, ws_free,
};

verus! {

pub const RED: &'static str = "31";
pub const GREEN: &'static str = "32";
pub const YELLOW: &'static str = "33";
pub const BLUE: &'static str = "34";
pub const MAGENTA: &'static str = "35";
pub const CYAN: &'static str = "36";
pub const BOLD: &'static str = "1";
pub const DIM: &'static str = "2";

// ---------------------------------------------------------------------------
// Display widths (unicode-width)
// ---------------------------------------------------------------------------

/// What `UnicodeWidthStr::width` (unicode-width) gives for a string: the
/// number of terminal columns it takes.
pub uninterp spec fn str_width(s: Seq<char>) -> nat;

/// What `UnicodeWidthChar::width` (unicode-width) gives for a character:
/// its columns, `None` for control characters.
pub uninterp spec fn char_width(c: char) -> Option<usize>;

/// `UnicodeWidthStr::width` of the unicode-width crate; the result is the
/// named `str_width` of the text.
#[verifier::external_body]
pub(crate) fn text_width(s: &str) -> (r: usize)
    ensures
        r == str_width(s@),
{
    s.width()
}

/// `UnicodeWidthChar::width` of the unicode-width crate; the result is the
/// named `char_width` of the character.
#[verifier::external_body]
fn char_columns(c: char) -> (r: Option<usize>)
    ensures
        r == char_width(c),
{
    c.width()
}

/// The columns a character is counted with when truncating: unknown counts as 0.
pub open spec fn cols(c: char) -> nat {
    match char_width(c) {
        Some(w) => w as nat,
        None => 0,
    }
}

// ---------------------------------------------------------------------------
// Colors
// ---------------------------------------------------------------------------

/// `s` wrapped in the ANSI escape for `code` when color is on and `s` is not empty.
pub open spec fn painted(color: bool, code: Seq<char>, s: Seq<char>) -> Seq<char> {
    if color && s.len() > 0 {
        "\x1b["@ + code + "m"@ + s + "\x1b[0m"@
    } else {
        s
    }
}

/// Wrap `s` in the ANSI color `code`, if color output is on.
pub fn paint(color: bool, code: &str, s: &str) -> (r: String)
    ensures
        r@ == painted(color, code@, s@),
{
    if color && !s.is_empty() {
        let mut out = String::new();
        out.append("\x1b[");
        out.append(code);
        out.append("m");
        out.append(s);
        out.append("\x1b[0m");
        out
    } else {
        s.to_owned()
    }
}

pub open spec fn status_code(s: Status) -> Seq<char> {
    match s {
        Status::ToRead => YELLOW@,
        Status::Reading => BLUE@,
        Status::Read => GREEN@,
        Status::Dropped => DIM@,
    }
}

pub fn status_style(s: Status) -> (r: &'static str)
    ensures
        r@ == status_code(s),
{
    match s {
        Status::ToRead => YELLOW,
        Status::Reading => BLUE,
        Status::Read => GREEN,
        Status::Dropped => DIM,
    }
}

pub open spec fn priority_code(p: Priority) -> Seq<char> {
    match p {
        Priority::High => RED@,
        Priority::Normal => "0"@,
        Priority::Low => DIM@,
    }
}

pub fn priority_style(p: Priority) -> (r: &'static str)
    ensures
        r@ == priority_code(p),
{
    match p {
        Priority::High => RED,
        Priority::Normal => "0",
        Priority::Low => DIM,
    }
}

// ---------------------------------------------------------------------------
// Truncation and padding
// ---------------------------------------------------------------------------

/// The longest prefix of `s` whose columns, added to `w`, stay within `limit`.
pub open spec fn fitting_prefix(s: Seq<char>, w: nat, limit: nat) -> Seq<char>
    decreases s.len(),
{
    if s.len() == 0 {
        seq![]
    } else if w + cols(s[0]) > limit {
        seq![]
    } else {
        seq![s[0]] + fitting_prefix(s.drop_first(), w + cols(s[0]), limit)
    }
}

/// `s` cut to `width` columns, with '…' appended if anything was cut.
pub open spec fn truncated(s: Seq<char>, width: nat) -> Seq<char> {
    if str_width(s) <= width {
        s
    } else if width == 0 {
        seq![]
    } else {
        fitting_prefix(s, 0, (width - 1) as nat) + seq!['…']
    }
}

/// Truncate to `width` display columns, appending '…' if cut.
pub fn truncate(s: &str, width: usize) -> (r: String)
    ensures
        r@ == truncated(s@, width as nat),
{
    if text_width(s) <= width {
        return s.to_owned();
    }
    if width == 0 {
        return String::new();
    }
    let v = chars_of(s);
    let limit = width - 1;
    let mut out: Vec<char> = Vec::new();
    let mut w: usize = 0;
    let mut i: usize = 0;
    assert(v@.skip(0) =~= v@);
    while i < v.len()
        invariant
            i <= v@.len(),
            w <= limit,
            out@ + fitting_prefix(v@.skip(i as int), w as nat, limit as nat) == fitting_prefix(
                v@,
                0,
                limit as nat,
            ),
        ensures
            out@ == fitting_prefix(v@, 0, limit as nat),
        decreases v.len() - i,
    {
        let ghost rest = v@.skip(i as int);
        assert(rest[0] == v@[i as int]);
        assert(rest.drop_first() =~= v@.skip(i + 1));
        let cw = match char_columns(v[i]) {
            Some(x) => x,
            None => 0,
        };
        if cw > limit - w {
            assert(out@ + seq![] =~= out@);
            break;
        }
        let ghost old_out = out@;
        out.push(v[i]);
        assert(out@ + fitting_prefix(v@.skip(i + 1), (w + cw) as nat, limit as nat) =~= old_out
            + fitting_prefix(rest, w as nat, limit as nat));
        w += cw;
        i += 1;
    }
    proof {
        if i == v@.len() {
            assert(v@.skip(i as int) =~= seq![]);
            assert(out@ + seq![] =~= out@);
        }
    }
    out.push('…');
    string_of(out.as_slice())
}

/// `n` copies of `s`.
pub open spec fn repeat(s: Seq<char>, n: nat) -> Seq<char>
    decreases n,
{
    if n == 0 {
        seq![]
    } else {
        repeat(s, (n - 1) as nat) + s
    }
}

fn repeat_str(s: &str, n: usize) -> (r: Vec<char>)
    ensures
        r@ == repeat(s@, n as nat),
{
    let c = chars_of(s);
    let mut out: Vec<char> = Vec::new();
    let mut k: usize = 0;
    while k < n
        invariant
            k <= n,
            c@ == s@,
            out@ == repeat(s@, k as nat),
        decreases n - k,
    {
        out.extend_from_slice(c.as_slice());
        k += 1;
    }
    out
}

/// `n` spaces.
pub(crate) fn spaces(n: usize) -> (r: String)
    ensures
        r@ == repeat(seq![' '], n as nat),
{
    let v = repeat_str(" ", n);
    proof {
        reveal_strlit(" ");
        assert(" "@ =~= seq![' ']);
    }
    string_of(v.as_slice())
}

/// `s` padded with spaces to `width` columns (unchanged if already that wide).
pub open spec fn padded(s: Seq<char>, width: nat) -> Seq<char> {
    if str_width(s) >= width {
        s
    } else {
        s + repeat(seq![' '], (width - str_width(s)) as nat)
    }
}

/// Pad `s` with spaces to `width` display columns.
pub fn pad(s: &str, width: usize) -> (r: String)
    ensures
        r@ == padded(s@, width as nat),
{
    let w = text_width(s);
    if w >= width {
        s.to_owned()
    } else {
        let mut out = chars_of(s);
        let spaces = repeat_str(" ", width - w);
        proof {
            reveal_strlit(" ");
            assert(" "@ =~= seq![' ']);
        }
        out.extend_from_slice(spaces.as_slice());
        string_of(out.as_slice())
    }
}

/// Five stars, the first `rating` (clamped to 0..=5) filled.
pub open spec fn stars(rating: Option<i64>) -> Seq<char> {
    match rating {
        Some(r) => {
            let k: int = if r < 0 {
                0
            } else if r > 5 {
                5
            } else {
                r as int
            };
            repeat("★"@, k as nat) + repeat("☆"@, (5 - k) as nat)
        },
        None => seq![],
    }
}

pub fn rating_stars(rating: Option<i64>) -> (r: String)
    ensures
        r@ == stars(rating),
{
    match rating {
        Some(r) => {
            let k: usize = if r < 0 {
                0
            } else if r > 5 {
                5
            } else {
                r as usize
            };
            let mut out = repeat_str("★", k);
            let rest = repeat_str("☆", 5 - k);
            out.extend_from_slice(rest.as_slice());
            string_of(out.as_slice())
        },
        None => String::new(),
    }
}

// ---------------------------------------------------------------------------
// Wrapping
// ---------------------------------------------------------------------------

/// Greedy line filling: `lines` done so far and the `line` being filled, after
/// placing the words `ws`.
pub open spec fn fill(ws: Seq<Seq<char>>, width: nat, lines: Seq<Seq<char>>, line: Seq<char>) -> Seq<
    Seq<char>,
>
    decreases ws.len(),
{
    if ws.len() == 0 {
        if line.len() > 0 {
            lines.push(line)
        } else {
            lines
        }
    } else {
        let word = ws[0];
        let need = if line.len() == 0 {
            str_width(word)
        } else {
            str_width(line) + 1 + str_width(word)
        };
        let (lines2, line2) = if need > width && line.len() > 0 {
            (lines.push(line), seq![])
        } else {
            (lines, line)
        };
        let line3 = if line2.len() > 0 {
            line2 + seq![' '] + word
        } else {
            word
        };
        fill(ws.drop_first(), width, lines2, line3)
    }
}

/// The lines of `text`, word-wrapped to `width` columns.
pub open spec fn wrapped_lines(text: Seq<char>, width: nat) -> Seq<Seq<char>> {
    fill(words(text), width, seq![], seq![])
}

/// Every line prefixed by `indent`, joined by newlines.
pub open spec fn wrapped(text: Seq<char>, width: nat, indent: Seq<char>) -> Seq<char> {
    join(wrapped_lines(text, width).map_values(|l: Seq<char>| indent + l), seq!['\n'])
}

/// The lines done so far, with the line being filled when it is not empty.
pub open spec fn filled_so_far(lines: Seq<Seq<char>>, line: Seq<char>) -> Seq<Seq<char>> {
    if line.len() > 0 {
        lines.push(line)
    } else {
        lines
    }
}

proof fn lemma_join_merge(p: Seq<Seq<char>>, a: Seq<char>, b: Seq<char>, r: Seq<Seq<char>>)
    ensures
        join(p.push(a + seq![' '] + b) + r, seq![' ']) == join(p.push(a).push(b) + r, seq![' ']),
{
    let sp: Seq<char> = seq![' '];
    let m = a + sp + b;
    lemma_join_push(p, m, sp);
    lemma_join_push(p, a, sp);
    lemma_join_push(p.push(a), b, sp);
    if p.len() > 0 {
        assert(join(p, sp) + sp + a + sp + b =~= join(p, sp) + sp + m);
    }
    if r.len() > 0 {
        lemma_join_append(p.push(m), r, sp);
        lemma_join_append(p.push(a).push(b), r, sp);
    } else {
        assert(p.push(m) + r =~= p.push(m));
        assert(p.push(a).push(b) + r =~= p.push(a).push(b));
    }
}

proof fn lemma_fill_words(ws: Seq<Seq<char>>, width: nat, lines: Seq<Seq<char>>, line: Seq<char>)
    requires
        forall|i: int| 0 <= i < ws.len() ==> (#[trigger] ws[i]).len() > 0,
    ensures
        join(fill(ws, width, lines, line), seq![' ']) == join(
            filled_so_far(lines, line) + ws,
            seq![' '],
        ),
    decreases ws.len(),
{
    let sp: Seq<char> = seq![' '];
    if ws.len() == 0 {
        assert(filled_so_far(lines, line) + ws =~= filled_so_far(lines, line));
    } else {
        let word = ws[0];
        let rest = ws.drop_first();
        let need = if line.len() == 0 {
            str_width(word)
        } else {
            str_width(line) + 1 + str_width(word)
        };
        let acc = filled_so_far(lines, line);
        assert(acc.push(word) + rest =~= acc + ws);
        assert forall|i: int| 0 <= i < rest.len() implies (#[trigger] rest[i]).len() > 0 by {
            assert(rest[i] == ws[i + 1]);
        }
        if need > width && line.len() > 0 {
            assert(word.len() > 0);
            lemma_fill_words(rest, width, lines.push(line), word);
            assert(filled_so_far(lines.push(line), word) == acc.push(word));
        } else if line.len() > 0 {
            let line3 = line + sp + word;
            assert forall|i: int| 0 <= i < rest.len() implies (#[trigger] rest[i]).len() > 0 by {
                assert(rest[i] == ws[i + 1]);
            }
            lemma_fill_words(rest, width, lines, line3);
            assert(filled_so_far(lines, line3) == lines.push(line3));
            lemma_join_merge(lines, line, word, rest);
            assert(lines.push(line) == acc);
        } else {
            assert(word.len() > 0);
            lemma_fill_words(rest, width, lines, word);
            assert(filled_so_far(lines, word) == acc.push(word));
        }
    }
}
/// Wrapping keeps the words of the text in their order: the lines joined
/// by single spaces are the text's words joined by single spaces. A text
/// without words wraps to nothing.
pub proof fn wrap_keeps_the_words(text: Seq<char>, width: nat, indent: Seq<char>)
    ensures
        join(wrapped_lines(text, width), seq![' ']) == join(words(text), seq![' ']),
        words(text).len() == 0 ==> wrapped(text, width, indent) == Seq::<char>::empty(),
{
    let e: Seq<char> = seq![];
    crate::text::lemma_words_from_plain(text, e);
    let ws = words(text);
    assert forall|i: int| 0 <= i < ws.len() implies (#[trigger] ws[i]).len() > 0 by {
        assert(crate::text::plain_words(ws));
    }
    let none: Seq<Seq<char>> = seq![];
    lemma_fill_words(ws, width, none, e);
    assert(filled_so_far(none, e) + ws =~= ws);
    if ws.len() == 0 {
        assert(wrapped_lines(text, width) == none);
        assert(none.map_values(|l: Seq<char>| indent + l) =~= none);
    }
}

proof fn lemma_fill_no_newline(ws: Seq<Seq<char>>, width: nat, lines: Seq<Seq<char>>, line: Seq<char>)
    requires
        forall|i: int| 0 <= i < ws.len() ==> chars_all(#[trigger] ws[i], |y: char| y != '\n'),
        forall|i: int| 0 <= i < lines.len() ==> chars_all(#[trigger] lines[i], |y: char| y != '\n'),
        chars_all(line, |y: char| y != '\n'),
    ensures
        forall|i: int|
            0 <= i < fill(ws, width, lines, line).len() ==> chars_all(
                #[trigger] fill(ws, width, lines, line)[i],
                |y: char| y != '\n',
            ),
    decreases ws.len(),
{
    let p = |y: char| y != '\n';
    if ws.len() == 0 {
        let out = fill(ws, width, lines, line);
        assert(out == filled_so_far(lines, line));
        assert forall|i: int| 0 <= i < out.len() implies chars_all(#[trigger] out[i], p) by {
            if i < lines.len() {
                assert(out[i] == lines[i]);
            } else {
                assert(out[i] == line);
            }
        }
    } else {
        let word = ws[0];
        let rest = ws.drop_first();
        assert forall|i: int| 0 <= i < rest.len() implies chars_all(#[trigger] rest[i], p) by {
            assert(rest[i] == ws[i + 1]);
        }
        assert(chars_all(word, p));
        let need = if line.len() == 0 {
            str_width(word)
        } else {
            str_width(line) + 1 + str_width(word)
        };
        let sp: Seq<char> = seq![' '];
        assert(chars_all(sp, p));
        if need > width && line.len() > 0 {
            let l2 = lines.push(line);
            assert forall|i: int| 0 <= i < l2.len() implies chars_all(#[trigger] l2[i], p) by {
                if i < lines.len() {
                    assert(l2[i] == lines[i]);
                }
            }
            lemma_fill_no_newline(rest, width, l2, word);
            assert(fill(ws, width, lines, line) == fill(rest, width, l2, word));
        } else if line.len() > 0 {
            lemma_chars_all_concat(line, sp, p);
            lemma_chars_all_concat(line + sp, word, p);
            lemma_fill_no_newline(rest, width, lines, line + sp + word);
            assert(fill(ws, width, lines, line) == fill(rest, width, lines, line + sp + word));
        } else {
            lemma_fill_no_newline(rest, width, lines, word);
            assert(fill(ws, width, lines, line) == fill(rest, width, lines, word));
        }
    }
}

/// When the indent holds no newline, the output of `wrap` for a text with
/// words is, line by line, the indent followed by a wrapped line.
pub proof fn wrapped_lines_carry_the_indent(text: Seq<char>, width: nat, indent: Seq<char>)
    requires
        !indent.contains('\n'),
    ensures
        words(text).len() > 0 ==> split(wrapped(text, width, indent), seq!['\n'])
            == wrapped_lines(text, width).map_values(|l: Seq<char>| indent + l),
{
    let p = |y: char| y != '\n';
    let e: Seq<char> = seq![];
    let ws = words(text);
    if ws.len() > 0 {
        lemma_words_from_plain(text, e);
        assert forall|i: int| 0 <= i < ws.len() implies chars_all(#[trigger] ws[i], p) by {
            assert(plain_words(ws));
            assert(ws_free(ws[i]));
            assert forall|k: int| 0 <= k < ws[i].len() implies p(#[trigger] ws[i][k]) by {
                assert(!is_ws(ws[i][k]));
            }
        }
        let none: Seq<Seq<char>> = seq![];
        assert(chars_all(e, p));
        lemma_fill_no_newline(ws, width, none, e);
        let lines = wrapped_lines(text, width);
        wrap_keeps_the_words(text, width, indent);
        lemma_join_space_shape(ws);
        if lines.len() == 0 {
            assert(join(lines, seq![' ']) == e);
        }
        lemma_contains_chars_all(indent, '\n');
        let m = lines.map_values(|l: Seq<char>| indent + l);
        assert forall|i: int| 0 <= i < m.len() implies !(#[trigger] m[i]).contains('\n') by {
            lemma_chars_all_concat(indent, lines[i], p);
            lemma_contains_chars_all(m[i], '\n');
        }
        lemma_split_join(m, '\n');
    }
}

fn width_of_chars(v: &[char]) -> (r: usize)
    ensures
        r == str_width(v@),
{
    let s = string_of(v);
    text_width(s.as_str())
}

/// Word-wrap to `width`, with each line prefixed by `indent`.
pub fn wrap(text: &str, width: usize, indent: &str) -> (r: String)
    ensures
        r@ == wrapped(text@, width as nat, indent@),
{
    let tc = chars_of(text);
    let ws = words_of(tc.as_slice());
    let ghost wv = views(ws@);
    let mut lines: Vec<Vec<char>> = Vec::new();
    let mut line: Vec<char> = Vec::new();
    let mut i: usize = 0;
    assert(wv.skip(0) =~= wv);
    assert(views(lines@) =~= seq![]);
    while i < ws.len()
        invariant
            i <= ws@.len() == wv.len(),
            wv == views(ws@),
            wv == words(text@),
            fill(wv.skip(i as int), width as nat, views(lines@), line@) == wrapped_lines(
                text@,
                width as nat,
            ),
        decreases ws.len() - i,
    {
        let ghost rest = wv.skip(i as int);
        assert(rest[0] == ws@[i as int]@);
        assert(rest.drop_first() =~= wv.skip(i + 1));
        let word = &ws[i];
        let ghost old_lines = views(lines@);
        let ghost old_line = line@;
        let ww = width_of_chars(word.as_slice());
        let need: u128 = if line.len() == 0 {
            ww as u128
        } else {
            width_of_chars(line.as_slice()) as u128 + 1 + ww as u128
        };
        let ghost spec_need = if old_line.len() == 0 {
            str_width(word@)
        } else {
            str_width(old_line) + 1 + str_width(word@)
        };
        assert(need == spec_need);
        if need > width as u128 && line.len() > 0 {
            lines.push(line);
            assert(views(lines@) =~= old_lines.push(old_line));
            line = Vec::new();
            assert(line@ =~= seq![]);
        }
        let ghost lines2 = views(lines@);
        let ghost line2 = line@;
        assert((lines2, line2) == (if spec_need > width && old_line.len() > 0 {
            (old_lines.push(old_line), Seq::<char>::empty())
        } else {
            (old_lines, old_line)
        }));
        if line.len() > 0 {
            line.push(' ');
        }
        line.extend_from_slice(word.as_slice());
        assert(line@ =~= (if line2.len() > 0 {
            line2 + seq![' '] + word@
        } else {
            word@
        }));
        i += 1;
    }
    assert(wv.skip(i as int) =~= seq![]);
    if line.len() > 0 {
        let ghost old_lines = views(lines@);
        lines.push(line);
        assert(views(lines@) =~= old_lines.push(line@));
    }
    let ghost lv = views(lines@);
    assert(lv == wrapped_lines(text@, width as nat));
    let ic = chars_of(indent);
    let mut prefixed: Vec<Vec<char>> = Vec::new();
    let mut k: usize = 0;
    while k < lines.len()
        invariant
            k <= lines@.len() == lv.len(),
            lv == views(lines@),
            ic@ == indent@,
            views(prefixed@) == lv.take(k as int).map_values(|l: Seq<char>| indent@ + l),
        decreases lines.len() - k,
    {
        let mut l = ic.clone();
        l.extend_from_slice(lines[k].as_slice());
        let ghost old_p = views(prefixed@);
        let ghost lv_k = lv[k as int];
        assert(lines@[k as int]@ == lv_k);
        assert(l@ == indent@ + lv_k);
        prefixed.push(l);
        assert(views(prefixed@) =~= old_p.push(indent@ + lv_k));
        assert(lv.take(k + 1).map_values(|l: Seq<char>| indent@ + l) =~= lv.take(
            k as int,
        ).map_values(|l: Seq<char>| indent@ + l).push(indent@ + lv_k));
        k += 1;
    }
    assert(lv.take(k as int) =~= lv);
    let nl: Vec<char> = vec!['\n'];
    assert(nl@ =~= seq!['\n']);
    let joined = join_chars(&prefixed, nl.as_slice());
    string_of(joined.as_slice())
}

/// First-line-only wrap helper for headers (keeps title on as few lines as
/// possible while still respecting width).
pub fn wrap_first(text: &str, width: usize) -> (r: String)
    ensures
        r@ == replace(wrapped(text@, width as nat, seq![]), seq!['\n'], "\n  "@),
{
    let w = wrap(text, width, "");
    proof {
        reveal_strlit("");
    }
    assert(""@ =~= seq![]);
    let wc = chars_of(w.as_str());
    let nl: Vec<char> = vec!['\n'];
    let rep = chars_of("\n  ");
    assert(nl@ =~= seq!['\n']);
    let r = replace_chars(wc.as_slice(), nl.as_slice(), rep.as_slice());
    string_of(r.as_slice())
}

/// Wrap with continuation lines indented by `hang` more columns.
pub fn wrap_hanging(text: &str, width: usize, hang: usize) -> (r: String)
    ensures
        r@ == replace(
            wrapped(text@, (if width >= hang { width - hang } else { 0 }) as nat, seq![]),
            seq!['\n'],
            "\n  "@ + repeat(seq![' '], hang as nat),
        ),
{
    let inner = if width >= hang {
        width - hang
    } else {
        0
    };
    let w = wrap(text, inner, "");
    proof {
        reveal_strlit("");
        reveal_strlit(" ");
    }
    assert(""@ =~= seq![]);
    assert(" "@ =~= seq![' ']);
    let wc = chars_of(w.as_str());
    let nl: Vec<char> = vec!['\n'];
    assert(nl@ =~= seq!['\n']);
    let mut rep = chars_of("\n  ");
    let spaces = repeat_str(" ", hang);
    assert(repeat(" "@, hang as nat) == repeat(seq![' '], hang as nat));
    rep.extend_from_slice(spaces.as_slice());
    assert(rep@ =~= "\n  "@ + repeat(seq![' '], hang as nat));
    let r = replace_chars(wc.as_slice(), nl.as_slice(), rep.as_slice());
    string_of(r.as_slice())
}

/// The date part of a "YYYY-MM-DD HH:MM:SS" timestamp: everything before the first space.
pub open spec fn date_part(t: Seq<char>) -> Seq<char> {
    match find(t, ' ') {
        Some(k) => t.take(k as int),
        None => t,
    }
}

pub fn date_of(timestamp: &str) -> (r: &str)
    ensures
        r@ == date_part(timestamp@),
{
    let v = chars_of(timestamp);
    match find_char(v.as_slice(), ' ') {
        Some(k) => timestamp.substring_char(0, k),
        None => timestamp,
    }
}

/// The filled cells of a bar: `count/max` of `width`, rounded up, at most `width`.
pub open spec fn bar_cells(count: nat, max: nat, width: nat) -> nat {
    let filled = ((count * width) + max - 1) / (max as int);
    if filled > width {
        width
    } else {
        filled as nat
    }
}

/// Simple horizontal bar for stats.
pub fn bar(count: usize, max: usize, width: usize) -> (r: String)
    requires
        count * width <= usize::MAX,
    ensures
        r@ == (if max == 0 {
            seq![]
        } else {
            repeat("█"@, bar_cells(count as nat, max as nat, width as nat))
        }),
{
    if max == 0 {
        return String::new();
    }
    let prod = count * width;
    let filled: usize = if prod % max == 0 {
        prod / max
    } else {
        assert(prod / max < usize::MAX) by (nonlinear_arith)
            requires
                max > 0,
                prod % max != 0,
                prod <= usize::MAX,
        ;
        prod / max + 1
    };
    assert(filled == ((count * width) + max - 1) / (max as int)) by (nonlinear_arith)
        requires
            prod == count * width,
            max > 0,
            filled == prod / max + if prod % max == 0 {
                0int
            } else {
                1int
            },
    ;
    let cells = if filled > width {
        width
    } else {
        filled
    };
    let v = repeat_str("█", cells);
    string_of(v.as_slice())
}

} // verus!
