//! Local files and prompts: the PDF cache name, the database's side files,
//! answers to a confirmation, notes written in an editor, and color.

use vstd::prelude::*;
use vstd::utf8::encode_utf8;
use crate::model::strings_view;
use crate::text::{
    chars_of, int_chars, int_str, join, split, split_from, starts_with, str_eq, string_of, trim,
    trim_start, trim_str,
};

verus! {

// ---------------------------------------------------------------------------
// PDF cache
// ---------------------------------------------------------------------------

/// The 64-bit FNV-1a hash of the bytes.
pub open spec fn fnv1a(bytes: Seq<u8>) -> u64
    decreases bytes.len(),
{
    if bytes.len() == 0 {
        0xcbf2_9ce4_8422_2325u64
    } else {
        let h = fnv1a(bytes.drop_last()) ^ (bytes.last() as u64);
        ((h as nat * 0x100_0000_01b3nat) % 0x1_0000_0000_0000_0000nat) as u64
    }
}

/// The 64-bit hash folded to 32 bits (high half xor low half).
pub open spec fn fold32(h: u64) -> u32 {
    ((h >> 32u64) as u32) ^ (h as u32)
}

/// A lowercase hexadecimal digit.
pub open spec fn hex_lower(d: nat) -> char {
    if d < 10 {
        (48 + d) as char
    } else {
        (87 + d) as char
    }
}

/// The last `n` hexadecimal digits of `x`, most significant first.
pub open spec fn hex_digits(x: nat, n: nat) -> Seq<char>
    decreases n,
{
    if n == 0 {
        seq![]
    } else {
        hex_digits(x / 16, (n - 1) as nat).push(hex_lower(x % 16))
    }
}

/// The cache file name of a paper's PDF: "<id>-<8 hex digits>.pdf", the
/// digits hashing the URL, so a changed URL does not reuse a stale copy.
pub open spec fn pdf_cache_file(id: int, url: Seq<char>) -> Seq<char> {
    int_str(id) + "-"@ + hex_digits(fold32(fnv1a(encode_utf8(url))) as nat, 8) + ".pdf"@
}

fn hex_of(x: u32) -> (r: Vec<char>)
    ensures
        r@ == hex_digits(x as nat, 8),
{
    let mut digits: Vec<char> = Vec::new();
    let mut v: u32 = x;
    let mut k: usize = 0;
    while k < 8
        invariant
            k <= 8,
            digits@.len() == k,
            hex_digits(x as nat, 8) == hex_digits(v as nat, (8 - k) as nat) + digits@,
        decreases 8 - k,
    {
        let d = v % 16;
        let c = if d < 10 {
            ((d as u8) + 48) as char
        } else {
            ((d as u8) + 87) as char
        };
        assert(c == hex_lower(d as nat));
        let ghost old_digits = digits@;
        digits.insert(0, c);
        assert(digits@ =~= seq![c] + old_digits);
        assert(hex_digits(v as nat, (8 - k) as nat) == hex_digits((v / 16) as nat, (8 - k - 1) as nat).push(c));
        assert(hex_digits((v / 16) as nat, (8 - k - 1) as nat).push(c) + old_digits =~= hex_digits(
            (v / 16) as nat,
            (8 - k - 1) as nat,
        ) + digits@);
        v = v / 16;
        k += 1;
    }
    assert(hex_digits(v as nat, 0) =~= seq![]);
    assert(seq![] + digits@ =~= digits@);
    digits
}

/// The name of the cached copy of a paper's PDF (the directory is the
/// user's cache directory).
pub fn pdf_cache_name(id: i64, url: &str) -> (r: String)
    ensures
        r@ == pdf_cache_file(id as int, url@),
{
    let bytes = url.as_bytes();
    let ghost b = bytes@;
    let mut h: u64 = 0xcbf2_9ce4_8422_2325u64;
    let mut i: usize = 0;
    while i < bytes.len()
        invariant
            i <= b.len(),
            b == bytes@,
            h == fnv1a(b.take(i as int)),
        decreases bytes.len() - i,
    {
        assert(b.take(i + 1).drop_last() =~= b.take(i as int));
        assert(b.take(i + 1).last() == bytes@[i as int]);
        h = h ^ (bytes[i] as u64);
        h = h.wrapping_mul(0x100_0000_01b3u64);
        i += 1;
    }
    assert(b.take(i as int) =~= b);
    let folded: u32 = ((h >> 32u64) as u32) ^ (h as u32);
    let mut out: Vec<char> = int_chars(id);
    out.push('-');
    let hex = hex_of(folded);
    out.extend_from_slice(hex.as_slice());
    out.push('.');
    out.push('p');
    out.push('d');
    out.push('f');
    proof {
        reveal_strlit("-");
        reveal_strlit(".pdf");
        assert(out@ =~= pdf_cache_file(id as int, url@));
    }
    string_of(out.as_slice())
}

/// The files of a database kept outside the default directory: the file
/// itself and its write-ahead-log side files.
pub fn db_side_files(db_path: &str) -> (r: Vec<String>)
    ensures
        strings_view(r@) == seq![db_path@, db_path@ + "-wal"@, db_path@ + "-shm"@],
{
    let mut wal = db_path.to_owned();
    wal.append("-wal");
    let mut shm = db_path.to_owned();
    shm.append("-shm");
    let v: Vec<String> = vec![db_path.to_owned(), wal, shm];
    assert(strings_view(v@) =~= seq![db_path@, db_path@ + "-wal"@, db_path@ + "-shm"@]);
    v
}

/// The side files that are on disk, in order: file `i` is there when
/// `present[i]` says so.
pub open spec fn present_files(files: Seq<Seq<char>>, present: Seq<bool>) -> Seq<Seq<char>>
    decreases files.len(),
{
    if files.len() == 0 {
        seq![]
    } else {
        let rest = present_files(files.drop_last(), present);
        let i = files.len() - 1;
        if i < present.len() && present[i] {
            rest.push(files.last())
        } else {
            rest
        }
    }
}

/// What an uninstall removes besides the program and its completions.
pub struct UninstallPlan {
    /// The default data directory, database and all.
    pub remove_data_dir: bool,
    /// The database files, when the database lives elsewhere.
    pub data_files: Vec<String>,
    /// The cache of downloaded PDFs.
    pub remove_cache: bool,
}

/// What `uninstall` removes of the data. A soft uninstall (no `purge`)
/// removes none of it. A hard one removes the default data directory when
/// the database lives there, else the database file and its side files that
/// are on disk (`present` follows the order of `db_side_files`), and the PDF
/// cache when there is one.
pub fn uninstall_plan(
    purge: bool,
    db_path: &str,
    db_in_default_dir: bool,
    present: &[bool],
    cache_present: bool,
) -> (r: UninstallPlan)
    ensures
        r.remove_data_dir == (purge && db_in_default_dir),
        strings_view(r.data_files@) == if purge && !db_in_default_dir {
            present_files(seq![db_path@, db_path@ + "-wal"@, db_path@ + "-shm"@], present@)
        } else {
            seq![]
        },
        r.remove_cache == (purge && cache_present),
        !purge ==> !r.remove_data_dir && r.data_files@.len() == 0 && !r.remove_cache,
{
    let mut data_files: Vec<String> = Vec::new();
    if purge && !db_in_default_dir {
        let files = db_side_files(db_path);
        let ghost fv = strings_view(files@);
        let mut i: usize = 0;
        while i < files.len()
            invariant
                i <= files@.len() == fv.len(),
                fv == strings_view(files@),
                strings_view(data_files@) == present_files(fv.take(i as int), present@),
            decreases files.len() - i,
        {
            assert(fv.take(i + 1).drop_last() =~= fv.take(i as int));
            assert(fv.take(i + 1).last() == files@[i as int]@);
            if i < present.len() && present[i] {
                let ghost before = strings_view(data_files@);
                let f = files[i].clone();
                data_files.push(f);
                assert(strings_view(data_files@) =~= before.push(files@[i as int]@));
            }
            i += 1;
        }
        assert(fv.take(i as int) =~= fv);
    }
    UninstallPlan {
        remove_data_dir: purge && db_in_default_dir,
        data_files,
        remove_cache: purge && cache_present,
    }
}

// ---------------------------------------------------------------------------
// Prompts
// ---------------------------------------------------------------------------

/// An answer to "[y/N]" that confirms: "y", "Y" or "yes" once trimmed.
pub open spec fn confirms(answer: Seq<char>) -> bool {
    let t = trim(answer);
    t == "y"@ || t == "Y"@ || t == "yes"@
}

/// Whether the answer to a "[y/N]" prompt confirms.
pub fn confirmed(answer: &str) -> (r: bool)
    ensures
        r == confirms(answer@),
{
    let t = trim_str(answer);
    str_eq(t.as_str(), "y") || str_eq(t.as_str(), "Y") || str_eq(t.as_str(), "yes")
}

/// The text a note command was given, trimmed; nothing when it is blank
/// (the editor is opened then).
pub fn typed_note(text: &str) -> (r: Option<String>)
    ensures
        match r {
            Some(s) => trim(text@).len() > 0 && s@ == trim(text@),
            None => trim(text@).len() == 0,
        },
{
    let t = trim_str(text);
    if t.as_str().is_empty() {
        None
    } else {
        Some(t)
    }
}

/// The template the editor opens with for a note on a paper.
pub fn note_template(id: i64, title: &str) -> (r: String)
    ensures
        r@ == "\n# Note on #"@ + int_str(id as int) + " "@ + title@
            + "\n# Lines starting with '#' are ignored.\n"@,
{
    let mut s = "\n# Note on #".to_owned();
    s.append(string_of(int_chars(id).as_slice()).as_str());
    s.append(" ");
    s.append(title);
    s.append("\n# Lines starting with '#' are ignored.\n");
    s
}

/// A line without one trailing carriage return.
pub open spec fn without_cr(l: Seq<char>) -> Seq<char> {
    if l.len() > 0 && l.last() == '\r' {
        l.drop_last()
    } else {
        l
    }
}

/// `str::lines`: the text split at line feeds, no empty last line after a
/// final line feed, each line without a trailing carriage return.
pub open spec fn text_lines(s: Seq<char>) -> Seq<Seq<char>> {
    let parts = split(s, seq!['\n']);
    let kept = if s.len() > 0 && s.last() == '\n' {
        parts.drop_last()
    } else if s.len() == 0 {
        seq![]
    } else {
        parts
    };
    kept.map_values(|l: Seq<char>| without_cr(l))
}

/// The lines that are not comments (starting with '#' after indentation).
pub open spec fn uncommented(ls: Seq<Seq<char>>) -> Seq<Seq<char>>
    decreases ls.len(),
{
    if ls.len() == 0 {
        seq![]
    } else {
        let rest = uncommented(ls.drop_last());
        if starts_with(trim_start(ls.last()), seq!['#']) {
            rest
        } else {
            rest.push(ls.last())
        }
    }
}

/// A note as written in the editor: comment lines dropped, the rest joined
/// with line feeds and trimmed.
pub open spec fn edited_note(content: Seq<char>) -> Seq<char> {
    trim(join(uncommented(text_lines(content)), seq!['\n']))
}

proof fn lemma_split_from_nonempty(s: Seq<char>, pat: Seq<char>, cur: Seq<char>)
    ensures
        split_from(s, pat, cur).len() >= 1,
    decreases s.len(),
{
    if s.len() > 0 {
        if pat.len() > 0 && starts_with(s, pat) {
            lemma_split_from_nonempty(s.skip(pat.len() as int), pat, seq![]);
        } else {
            lemma_split_from_nonempty(s.drop_first(), pat, cur.push(s[0]));
        }
    }
}

/// Whether the first character after the indentation is '#'.
fn is_comment_line(l: &[char]) -> (r: bool)
    ensures
        r == starts_with(trim_start(l@), seq!['#']),
{
    let a = crate::text::first_non_ws(l);
    if a < l.len() {
        let ghost t = l@.skip(a as int);
        assert(t.take(1) =~= seq![l@[a as int]]);
        let h = l[a] == '#';
        proof {
            if h {
                assert(t.take(1) =~= seq!['#']);
            } else {
                assert(t.take(1)[0] != seq!['#'][0]);
            }
        }
        h
    } else {
        assert(l@.skip(a as int).len() == 0);
        false
    }
}

fn without_cr_exec(l: &[char]) -> (r: Vec<char>)
    ensures
        r@ == without_cr(l@),
{
    let n = l.len();
    if n > 0 && l[n - 1] == '\r' {
        let r = crate::text::slice_chars(l, 0, n - 1);
        assert(r@ =~= l@.drop_last());
        r
    } else {
        let r = crate::text::slice_chars(l, 0, n);
        assert(r@ =~= l@);
        r
    }
}

/// The note written in the editor, from the saved file's content.
pub fn note_from_editor(content: &str) -> (r: String)
    ensures
        r@ == edited_note(content@),
{
    let cs = chars_of(content);
    let nl: Vec<char> = vec!['\n'];
    assert(nl@ =~= seq!['\n']);
    let parts = crate::text::split_chars(cs.as_slice(), nl.as_slice());
    let ghost pv = crate::text::views(parts@);
    let count: usize = if cs.len() > 0 && cs[cs.len() - 1] == '\n' {
        proof {
            lemma_split_from_nonempty(cs@, seq!['\n'], seq![]);
        }
        parts.len() - 1
    } else if cs.len() == 0 {
        0
    } else {
        parts.len()
    };
    let ghost kept = if content@.len() > 0 && content@.last() == '\n' {
        pv.drop_last()
    } else if content@.len() == 0 {
        seq![]
    } else {
        pv
    };
    assert(kept.len() == count);
    let ghost lines = kept.map_values(|l: Seq<char>| without_cr(l));
    let mut keep: Vec<Vec<char>> = Vec::new();
    let mut i: usize = 0;
    while i < count
        invariant
            i <= count == kept.len() == lines.len(),
            count <= parts@.len(),
            pv == crate::text::views(parts@),
            forall|j: int| 0 <= j < count ==> #[trigger] kept[j] == pv[j],
            lines == kept.map_values(|l: Seq<char>| without_cr(l)),
            crate::text::views(keep@) == uncommented(lines.take(i as int)),
        decreases count - i,
    {
        assert(lines.take(i + 1).drop_last() =~= lines.take(i as int));
        assert(lines.take(i + 1).last() == lines[i as int]);
        assert(kept[i as int] == parts@[i as int]@);
        let line = without_cr_exec(parts[i].as_slice());
        let hash = is_comment_line(line.as_slice());
        let ghost before = crate::text::views(keep@);
        if !hash {
            let ghost lv = line@;
            keep.push(line);
            assert(crate::text::views(keep@) =~= before.push(lv));
        }
        i += 1;
    }
    assert(lines.take(i as int) =~= lines);
    let joined = crate::text::join_chars(&keep, nl.as_slice());
    let t = crate::text::trim_chars(joined.as_slice());
    string_of(t.as_slice())
}

// ---------------------------------------------------------------------------
// Color
// ---------------------------------------------------------------------------

/// Whether output is colored: not turned off by `--no-color` or `NO_COLOR`,
/// and standard output is a terminal.
pub fn color_wanted(no_color_flag: bool, no_color_env: bool, stdout_is_terminal: bool) -> (r:
    bool)
    ensures
        r == (!no_color_flag && !no_color_env && stdout_is_terminal),
{
    !no_color_flag && !no_color_env && stdout_is_terminal
}

} // verus!
