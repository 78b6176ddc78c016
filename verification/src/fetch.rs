//! Recognizing what a user hands to `add` (arXiv id or URL, DOI, other URL,
//! plain title), and the text clean-ups applied to fetched metadata.

use vstd::prelude::*;
use vstd::utf8::{decode_utf8, encode_scalar, encode_utf8, valid_utf8};
use crate::text::{
    chars_of, find, find_char, is_alpha, is_ascii_alphabetic, is_ascii_digit, is_digit, lower_ascii,
    lowercase, lowercase_chars, split_any_from, replace, replace_chars, rfind, rfind_char,
    slice_chars, split_any, split_any_chars, squish, squish_chars, starts_with, starts_with_chars,
    string_of, to_ascii_lower, trim, trim_chars, trim_end_matches, trim_end_matches_chars,
    trim_start_matches, trim_start_matches_chars, views,
};

verus! {

/// What kind of reference the user handed to `rlist add`.
#[derive(Debug, Clone, PartialEq)]
pub enum RefKind {
    /// Normalized arXiv id without version (e.g. "1706.03762"), plus the
    /// version-qualified id to fetch if one was given.
    Arxiv { id: String, fetch_id: String },
    Doi(String),
    Url(String),
    Title(String),
}

/// A `RefKind` with its strings taken as character sequences.
pub enum RefSpec {
    Arxiv { id: Seq<char>, fetch_id: Seq<char> },
    Doi(Seq<char>),
    Url(Seq<char>),
    Title(Seq<char>),
}

impl View for RefKind {
    type V = RefSpec;

    open spec fn view(&self) -> RefSpec {
        match self {
            RefKind::Arxiv { id, fetch_id } => RefSpec::Arxiv { id: id@, fetch_id: fetch_id@ },
            RefKind::Doi(d) => RefSpec::Doi(d@),
            RefKind::Url(u) => RefSpec::Url(u@),
            RefKind::Title(t) => RefSpec::Title(t@),
        }
    }
}

/// Metadata fetched from arXiv / Crossref / doi.org.
#[derive(Debug, Clone)]
pub struct Fetched {
    pub title: String,
    pub authors: Vec<String>,
    pub year: Option<i32>,
    pub venue: Option<String>,
    pub abstract_: Option<String>,
    pub url: Option<String>,
    pub pdf_url: Option<String>,
    pub doi: Option<String>,
    pub arxiv_id: Option<String>,
}

// ---------------------------------------------------------------------------
// arXiv ids and DOIs
// ---------------------------------------------------------------------------

/// A trailing arXiv version suffix split off: "1706.03762v5" -> ("1706.03762", "v5").
pub open spec fn split_version(s: Seq<char>) -> (Seq<char>, Seq<char>) {
    match rfind(s, 'v') {
        Some(k) => if s.len() > k + 1 && (forall|i: int|
            k + 1 <= i < s.len() ==> is_digit(#[trigger] s[i])) {
            (s.take(k as int), s.skip(k as int))
        } else {
            (s, seq![])
        },
        None => (s, seq![]),
    }
}

proof fn lemma_rfind(s: Seq<char>, c: char)
    ensures
        rfind(s, c) matches Some(k) ==> k < s.len() && s[k as int] == c,
    decreases s.len(),
{
    if s.len() > 0 && s.last() != c {
        lemma_rfind(s.drop_last(), c);
    }
}

/// The two parts of `split_version` put together give the input back, and the
/// version part is empty or a 'v' followed by one or more digits.
pub proof fn split_version_parts(s: Seq<char>)
    ensures
        split_version(s).0 + split_version(s).1 == s,
        split_version(s).1.len() == 0 || (split_version(s).1.len() > 1 && split_version(s).1[0]
            == 'v' && forall|i: int|
            1 <= i < split_version(s).1.len() ==> is_digit(#[trigger] split_version(s).1[i])),
{
    lemma_rfind(s, 'v');
    match rfind(s, 'v') {
        Some(k) => {
            if s.len() > k + 1 && (forall|i: int| k + 1 <= i < s.len() ==> is_digit(#[trigger] s[i])) {
                let v = s.skip(k as int);
                assert(s.take(k as int) + v =~= s);
                assert forall|i: int| 1 <= i < v.len() implies is_digit(#[trigger] v[i]) by {
                    assert(v[i] == s[k + i]);
                }
            } else {
                assert(s + seq![] =~= s);
            }
        },
        None => {
            assert(s + seq![] =~= s);
        },
    }
}

/// A new-style arXiv id without version: four digits, '.', four or five digits.
pub open spec fn new_style_base(b: Seq<char>) -> bool {
    &&& (b.len() == 9 || b.len() == 10)
    &&& b[4] == '.'
    &&& forall|i: int| 0 <= i < b.len() && i != 4 ==> is_digit(#[trigger] b[i])
}

pub open spec fn is_category_char(c: char) -> bool {
    is_alpha(c) || c == '-' || c == '.'
}

/// An old-style arXiv id without version: a category of letters, '-' and '.',
/// then '/', then seven digits ("cs.AI/0301001").
pub open spec fn old_style_base(b: Seq<char>) -> bool {
    match find(b, '/') {
        Some(k) => {
            &&& k > 0
            &&& (forall|i: int| 0 <= i < k ==> is_category_char(#[trigger] b[i]))
            &&& b.len() == k + 8
            &&& forall|i: int| k < i < b.len() ==> is_digit(#[trigger] b[i])
        },
        None => false,
    }
}

/// The arXiv reference `s` denotes, if it is an arXiv id (with optional version).
pub open spec fn arxiv_ref(s: Seq<char>) -> Option<RefSpec> {
    let base = split_version(s).0;
    if new_style_base(base) || old_style_base(base) {
        Some(RefSpec::Arxiv { id: base, fetch_id: s })
    } else {
        None
    }
}

/// "10." then a non-empty registrant of digits and dots, '/', and a non-empty suffix.
pub open spec fn is_doi(s: Seq<char>) -> bool {
    starts_with(s, "10."@) && match find(s.skip(3), '/') {
        Some(k) => {
            &&& k > 0
            &&& (forall|i: int| 3 <= i < 3 + k ==> is_digit(#[trigger] s[i]) || s[i] == '.')
            &&& s.len() > 3 + k + 1
        },
        None => false,
    }
}

/// `s` without the prefix `p`, compared ignoring ASCII case.
pub open spec fn strip_prefix_ci(s: Seq<char>, p: Seq<char>) -> Option<Seq<char>> {
    if p.len() <= s.len() && (forall|i: int|
        0 <= i < p.len() ==> lower_ascii(#[trigger] s[i]) == lower_ascii(p[i])) {
        Some(s.skip(p.len() as int))
    } else {
        None
    }
}

fn split_version_chars(s: &[char]) -> (r: (Vec<char>, Vec<char>))
    ensures
        r.0@ == split_version(s@).0,
        r.1@ == split_version(s@).1,
{
    match rfind_char(s, 'v') {
        Some(k) => {
            let n = s.len();
            let mut ok = n > k + 1;
            let mut i = k + 1;
            while i < n
                invariant
                    k + 1 <= i <= n == s@.len(),
                    ok == (n > k + 1 && forall|j: int| k + 1 <= j < i ==> is_digit(#[trigger] s@[j])),
                decreases n - i,
            {
                if !is_ascii_digit(s[i]) {
                    ok = false;
                }
                i += 1;
            }
            if ok {
                (slice_chars(s, 0, k), slice_chars(s, k, n))
            } else {
                let empty: Vec<char> = Vec::new();
                assert(empty@ =~= seq![]);
                (slice_chars(s, 0, n), empty)
            }
        },
        None => {
            let empty: Vec<char> = Vec::new();
            assert(empty@ =~= seq![]);
            (slice_chars(s, 0, s.len()), empty)
        },
    }
}

fn new_style_chars(b: &[char]) -> (r: bool)
    ensures
        r == new_style_base(b@),
{
    if b.len() != 9 && b.len() != 10 {
        return false;
    }
    if b[4] != '.' {
        return false;
    }
    let mut i: usize = 0;
    while i < b.len()
        invariant
            i <= b@.len(),
            b@.len() == 9 || b@.len() == 10,
            forall|j: int| 0 <= j < i && j != 4 ==> is_digit(#[trigger] b@[j]),
        decreases b.len() - i,
    {
        if i != 4 && !is_ascii_digit(b[i]) {
            return false;
        }
        i += 1;
    }
    true
}

fn old_style_chars(b: &[char]) -> (r: bool)
    ensures
        r == old_style_base(b@),
{
    match find_char(b, '/') {
        Some(k) => {
            if k == 0 || b.len() - k != 8 {
                return false;
            }
            let mut i: usize = 0;
            while i < b.len()
                invariant
                    i <= b@.len() == k + 8,
                    k > 0,
                    b@[k as int] == '/',
                    forall|j: int| 0 <= j < i && j < k ==> is_category_char(#[trigger] b@[j]),
                    forall|j: int| k < j < i ==> is_digit(#[trigger] b@[j]),
                decreases b.len() - i,
            {
                let c = b[i];
                if i < k {
                    if !(is_ascii_alphabetic(c) || c == '-' || c == '.') {
                        return false;
                    }
                } else if i > k {
                    if !is_ascii_digit(c) {
                        return false;
                    }
                }
                i += 1;
            }
            true
        },
        None => false,
    }
}

fn arxiv_from_chars(s: &[char]) -> (r: Option<RefKind>)
    ensures
        match r {
            Some(k) => arxiv_ref(s@) == Some(k@),
            None => arxiv_ref(s@) is None,
        },
{
    let (base, _version) = split_version_chars(s);
    if new_style_chars(base.as_slice()) || old_style_chars(base.as_slice()) {
        Some(RefKind::Arxiv { id: string_of(base.as_slice()), fetch_id: string_of(s) })
    } else {
        None
    }
}

fn looks_like_doi(s: &[char]) -> (r: bool)
    ensures
        r == is_doi(s@),
{
    let prefix = chars_of("10.");
    proof {
        reveal_strlit("10.");
    }
    if !starts_with_chars(s, prefix.as_slice()) {
        return false;
    }
    assert(s@.len() >= 3);
    let rest = slice_chars(s, 3, s.len());
    assert(rest@ =~= s@.skip(3));
    match find_char(rest.as_slice(), '/') {
        Some(k) => {
            if k == 0 || s.len() <= 3 + k + 1 {
                return false;
            }
            let mut i: usize = 3;
            let end = 3 + k;
            while i < end
                invariant
                    end == 3 + k,
                    3 <= i <= 3 + k < s@.len(),
                    starts_with(s@, "10."@),
                    find(s@.skip(3), '/') == Some(k as nat),
                    forall|j: int| 3 <= j < i ==> is_digit(#[trigger] s@[j]) || s@[j] == '.',
                decreases end - i,
            {
                if !(is_ascii_digit(s[i]) || s[i] == '.') {
                    assert(!(is_digit(s@[i as int]) || s@[i as int] == '.'));
                    return false;
                }
                i += 1;
            }
            true
        },
        None => false,
    }
}

fn strip_prefix_ci_chars(s: &[char], p: &[char]) -> (r: Option<Vec<char>>)
    ensures
        match r {
            Some(v) => strip_prefix_ci(s@, p@) == Some(v@),
            None => strip_prefix_ci(s@, p@) is None,
        },
{
    if p.len() > s.len() {
        return None;
    }
    let mut i: usize = 0;
    while i < p.len()
        invariant
            i <= p@.len() <= s@.len(),
            forall|j: int| 0 <= j < i ==> lower_ascii(#[trigger] s@[j]) == lower_ascii(p@[j]),
        decreases p.len() - i,
    {
        if to_ascii_lower(s[i]) != to_ascii_lower(p[i]) {
            return None;
        }
        i += 1;
    }
    let rest = slice_chars(s, p.len(), s.len());
    assert(rest@ =~= s@.skip(p@.len() as int));
    Some(rest)
}

/// Strip a trailing version suffix from an arXiv id ("1706.03762v5" ->
/// "1706.03762"). Used to normalize ids from imports as well.
pub fn normalize_arxiv_id(s: &str) -> (r: String)
    ensures
        r@ == split_version(trim(s@)).0,
{
    let v = chars_of(s);
    let t = trim_chars(v.as_slice());
    let (base, _) = split_version_chars(t.as_slice());
    string_of(base.as_slice())
}

// ---------------------------------------------------------------------------
// Percent-encoding
// ---------------------------------------------------------------------------

pub open spec fn hex_val(b: u8) -> Option<int> {
    if 48 <= b <= 57 {
        Some(b - 48)
    } else if 65 <= b <= 70 {
        Some(b - 55)
    } else if 97 <= b <= 102 {
        Some(b - 87)
    } else {
        None
    }
}

/// The byte two characters after a '%' stand for, as `u8::from_str_radix(_, 16)`
/// reads them: two hex digits, or '+' and one hex digit.
pub open spec fn pct_pair(b1: u8, b2: u8) -> Option<u8> {
    match (hex_val(b1), hex_val(b2)) {
        (Some(h1), Some(h2)) => Some((h1 * 16 + h2) as u8),
        (None, Some(h2)) => if b1 == 43 {
            Some(h2 as u8)
        } else {
            None
        },
        _ => None,
    }
}

/// The bytes with each decodable `%XX` replaced by the byte it stands for.
pub open spec fn pct_decode(b: Seq<u8>) -> Seq<u8>
    decreases b.len(),
{
    if b.len() == 0 {
        seq![]
    } else if b[0] == 37 && b.len() >= 3 && pct_pair(b[1], b[2]) is Some {
        seq![pct_pair(b[1], b[2])->0] + pct_decode(b.skip(3))
    } else {
        seq![b[0]] + pct_decode(b.drop_first())
    }
}

/// What `String::from_utf8_lossy` makes of a byte sequence.
pub uninterp spec fn utf8_lossy(b: Seq<u8>) -> Seq<char>;

/// `String::from_utf8_lossy` from std: invalid sequences become U+FFFD; bytes
/// that are valid UTF-8 decode to exactly the characters they encode.
#[verifier::external_body]
fn from_utf8_lossy(b: &[u8]) -> (r: String)
    ensures
        r@ == utf8_lossy(b@),
        valid_utf8(b@) ==> r@ == decode_utf8(b@),
{
    String::from_utf8_lossy(b).into_owned()
}

fn hex_digit_val(b: u8) -> (r: Option<u8>)
    ensures
        match r {
            Some(v) => hex_val(b) == Some(v as int),
            None => hex_val(b) is None,
        },
{
    if 48 <= b && b <= 57 {
        Some(b - 48)
    } else if 65 <= b && b <= 70 {
        Some(b - 55)
    } else if 97 <= b && b <= 102 {
        Some(b - 87)
    } else {
        None
    }
}

fn pct_pair_val(b1: u8, b2: u8) -> (r: Option<u8>)
    ensures
        r == pct_pair(b1, b2),
{
    match (hex_digit_val(b1), hex_digit_val(b2)) {
        (Some(h1), Some(h2)) => Some(h1 * 16 + h2),
        (None, Some(h2)) => if b1 == 43 {
            Some(h2)
        } else {
            None
        },
        _ => None,
    }
}

/// Decode `%XX` escapes byte-wise; the result is read back as UTF-8, lossily.
pub fn percent_decode(s: &str) -> (r: String)
    ensures
        r@ == utf8_lossy(pct_decode(encode_utf8(s@))),
        valid_utf8(pct_decode(encode_utf8(s@))) ==> r@ == decode_utf8(pct_decode(encode_utf8(s@))),
{
    let bytes = s.as_bytes();
    let n = bytes.len();
    let ghost b = bytes@;
    let mut out: Vec<u8> = Vec::new();
    let mut i: usize = 0;
    assert(b.skip(0) =~= b);
    while i < n
        invariant
            i <= n == b.len(),
            b == bytes@,
            out@ + pct_decode(b.skip(i as int)) == pct_decode(b),
        decreases n - i,
    {
        let ghost rest = b.skip(i as int);
        let ghost old_out = out@;
        if bytes[i] == 37 && n - i >= 3 {
            match pct_pair_val(bytes[i + 1], bytes[i + 2]) {
                Some(v) => {
                    assert(rest[0] == 37 && rest[1] == bytes@[i + 1] && rest[2] == bytes@[i + 2]);
                    assert(rest.skip(3) =~= b.skip(i + 3));
                    out.push(v);
                    assert(out@ + pct_decode(b.skip(i + 3)) =~= old_out + pct_decode(rest));
                    i += 3;
                    continue;
                },
                None => {},
            }
        }
        assert(rest[0] == bytes@[i as int]);
        assert(rest.len() >= 3 ==> rest[1] == bytes@[i + 1] && rest[2] == bytes@[i + 2]);
        assert(rest.drop_first() =~= b.skip(i + 1));
        out.push(bytes[i]);
        assert(out@ + pct_decode(b.skip(i + 1)) =~= old_out + pct_decode(rest));
        i += 1;
    }
    assert(b.skip(n as int) =~= seq![]);
    assert(out@ + seq![] =~= out@);
    from_utf8_lossy(out.as_slice())
}

pub open spec fn hex_upper(d: int) -> char {
    if d < 10 {
        (48 + d) as char
    } else {
        (55 + d) as char
    }
}

/// Bytes that stay as they are in a URL path: ASCII letters and digits and `-._~/():;,`.
pub open spec fn path_safe(b: u8) -> bool {
    ||| 65 <= b <= 90
    ||| 97 <= b <= 122
    ||| 48 <= b <= 57
    ||| b == 45 || b == 46 || b == 95 || b == 126 || b == 47
    ||| b == 40 || b == 41 || b == 58 || b == 59 || b == 44
}

/// The bytes as URL path text: safe bytes as themselves, others as `%XX` (upper hex).
pub open spec fn pct_encode(b: Seq<u8>) -> Seq<char>
    decreases b.len(),
{
    if b.len() == 0 {
        seq![]
    } else if path_safe(b[0]) {
        seq![b[0] as char] + pct_encode(b.drop_first())
    } else {
        seq!['%', hex_upper((b[0] / 16) as int), hex_upper((b[0] % 16) as int)] + pct_encode(b.drop_first())
    }
}

proof fn lemma_encode_ascii_char(c: char)
    requires
        (c as u32) < 0x80,
    ensures
        encode_utf8(seq![c]) == seq![(c as u32) as u8],
{
    let x = c as u32;
    assert(((x & 0x7Fu32) as u8) as u32 == x) by (bit_vector)
        requires
            x < 0x80u32,
    ;
    assert(seq![c].drop_first() =~= Seq::<char>::empty());
    assert(encode_utf8(seq![c]) =~= encode_scalar(x) + encode_utf8(Seq::<char>::empty()));
}

proof fn lemma_encode_concat(a: Seq<char>, b: Seq<char>)
    ensures
        encode_utf8(a + b) == encode_utf8(a) + encode_utf8(b),
    decreases a.len(),
{
    if a.len() > 0 {
        assert((a + b)[0] == a[0]);
        assert((a + b).drop_first() =~= a.drop_first() + b);
        lemma_encode_concat(a.drop_first(), b);
        assert(encode_scalar(a[0] as u32) + (encode_utf8(a.drop_first()) + encode_utf8(b))
            =~= encode_scalar(a[0] as u32) + encode_utf8(a.drop_first()) + encode_utf8(b));
    } else {
        assert(a + b =~= b);
        assert(encode_utf8(a) + encode_utf8(b) =~= encode_utf8(b));
    }
}

proof fn lemma_hex_upper(d: int)
    requires
        0 <= d < 16,
    ensures
        (hex_upper(d) as u32) < 0x80,
        hex_val(((hex_upper(d) as u32) as u8)) == Some(d),
{
    if d < 10 {
        assert(hex_upper(d) as u32 == 48 + d);
    } else {
        assert(hex_upper(d) as u32 == 55 + d);
    }
}

proof fn lemma_pct_bytes_round_trip(b: Seq<u8>)
    ensures
        pct_decode(encode_utf8(pct_encode(b))) == b,
    decreases b.len(),
{
    if b.len() == 0 {
        assert(pct_encode(b) == Seq::<char>::empty());
        assert(encode_utf8(Seq::<char>::empty()) =~= Seq::<u8>::empty());
    } else {
        let b0 = b[0];
        let rest = b.drop_first();
        lemma_pct_bytes_round_trip(rest);
        let er = encode_utf8(pct_encode(rest));
        if path_safe(b0) {
            let c = b0 as char;
            assert(c as u32 == b0 as u32);
            lemma_encode_ascii_char(c);
            lemma_encode_concat(seq![c], pct_encode(rest));
            let x = seq![b0] + er;
            assert(encode_utf8(pct_encode(b)) == x);
            assert(x[0] == b0);
            assert(b0 != 37);
            assert(x.drop_first() =~= er);
            assert(pct_decode(x) == seq![b0] + pct_decode(er));
            assert(seq![b0] + rest =~= b);
        } else {
            let h1 = hex_upper((b0 / 16) as int);
            let h2 = hex_upper((b0 % 16) as int);
            lemma_hex_upper((b0 / 16) as int);
            lemma_hex_upper((b0 % 16) as int);
            lemma_encode_ascii_char('%');
            lemma_encode_ascii_char(h1);
            lemma_encode_ascii_char(h2);
            let three = seq!['%', h1, h2];
            assert(three =~= seq!['%'] + seq![h1] + seq![h2]);
            lemma_encode_concat(seq!['%'] + seq![h1], seq![h2]);
            lemma_encode_concat(seq!['%'], seq![h1]);
            lemma_encode_concat(three, pct_encode(rest));
            let y1 = (h1 as u32) as u8;
            let y2 = (h2 as u32) as u8;
            let x = seq![37u8, y1, y2] + er;
            assert(encode_utf8(three) =~= seq![37u8, y1, y2]);
            assert(encode_utf8(pct_encode(b)) == x);
            assert(x[0] == 37 && x[1] == y1 && x[2] == y2);
            assert(pct_pair(y1, y2) == Some(b0)) by {
                assert((b0 / 16) * 16 + b0 % 16 == b0);
            }
            assert(x.skip(3) =~= er);
            assert(pct_decode(x) == seq![b0] + pct_decode(er));
            assert(seq![b0] + rest =~= b);
        }
    }
}

/// Decoding what `percent_encode_path` made of a text gives the text back:
/// the bytes come back exactly, and they are valid UTF-8 of the text.
pub proof fn percent_round_trip(s: Seq<char>)
    ensures
        pct_decode(encode_utf8(pct_encode(encode_utf8(s)))) == encode_utf8(s),
        valid_utf8(pct_decode(encode_utf8(pct_encode(encode_utf8(s))))),
        decode_utf8(pct_decode(encode_utf8(pct_encode(encode_utf8(s))))) == s,
{
    lemma_pct_bytes_round_trip(encode_utf8(s));
    vstd::utf8::encode_utf8_valid_utf8(s);
    vstd::utf8::encode_utf8_decode_utf8(s);
}

fn hex_upper_char(d: u8) -> (r: char)
    requires
        d < 16,
    ensures
        r == hex_upper(d as int),
{
    if d < 10 {
        (d + 48) as char
    } else {
        (d + 55) as char
    }
}

/// Encode characters that are problematic in a URL path; keep '/' which is
/// structural in DOIs and accepted by both APIs.
pub fn percent_encode_path(s: &str) -> (r: String)
    ensures
        r@ == pct_encode(encode_utf8(s@)),
{
    let bytes = s.as_bytes();
    let n = bytes.len();
    let ghost b = bytes@;
    let mut out: Vec<char> = Vec::new();
    let mut i: usize = 0;
    assert(b.skip(0) =~= b);
    while i < n
        invariant
            i <= n == b.len(),
            b == bytes@,
            out@ + pct_encode(b.skip(i as int)) == pct_encode(b),
        decreases n - i,
    {
        let ghost rest = b.skip(i as int);
        let ghost old_out = out@;
        let x = bytes[i];
        assert(rest[0] == x);
        assert(rest.drop_first() =~= b.skip(i + 1));
        let safe = (65 <= x && x <= 90) || (97 <= x && x <= 122) || (48 <= x && x <= 57) || x
            == 45 || x == 46 || x == 95 || x == 126 || x == 47 || x == 40 || x == 41 || x == 58
            || x == 59 || x == 44;
        if safe {
            out.push(x as char);
        } else {
            out.push('%');
            out.push(hex_upper_char(x / 16));
            out.push(hex_upper_char(x % 16));
        }
        assert(out@ + pct_encode(b.skip(i + 1)) =~= old_out + pct_encode(rest));
        i += 1;
    }
    assert(b.skip(n as int) =~= seq![]);
    assert(out@ + seq![] =~= out@);
    string_of(out.as_slice())
}


// ---------------------------------------------------------------------------
// Classification
// ---------------------------------------------------------------------------

proof fn lemma_split_any_nonempty(s: Seq<char>, seps: Seq<char>, cur: Seq<char>)
    ensures
        split_any_from(s, seps, cur).len() >= 1,
    decreases s.len(),
{
    if s.len() > 0 {
        if seps.contains(s[0]) {
            lemma_split_any_nonempty(s.drop_first(), seps, seq![]);
        } else {
            lemma_split_any_nonempty(s.drop_first(), seps, cur.push(s[0]));
        }
    }
}

/// Host and path of a URL: the scheme prefixes stripped, split at the first '/'.
pub open spec fn url_parts(url: Seq<char>) -> (Seq<char>, Seq<char>) {
    let ws = trim_start_matches(trim_start_matches(url, "https://"@), "http://"@);
    match find(ws, '/') {
        Some(i) => (ws.take(i as int), ws.skip(i + 1 as int)),
        None => (ws, seq![]),
    }
}

/// The path of a URL without its query and fragment.
pub open spec fn url_path(url: Seq<char>) -> Seq<char> {
    split_any(url_parts(url).1, seq!['?', '#'])[0]
}

/// The host of a URL, without "www." and lowercased.
pub open spec fn url_host(url: Seq<char>) -> Seq<char> {
    lowercase(trim_start_matches(url_parts(url).0, "www."@))
}

/// The arXiv id part of an arxiv.org URL path.
pub open spec fn arxiv_path_id(path: Seq<char>) -> Seq<char> {
    trim_end_matches(
        trim_end_matches(
            trim_start_matches(
                trim_start_matches(trim_start_matches(path, "abs/"@), "pdf/"@),
                "html/"@,
            ),
            ".pdf"@,
        ),
        "/"@,
    )
}

/// The DOI in a doi.org URL path, percent-decoded.
pub open spec fn doi_path(path: Seq<char>) -> Seq<char> {
    utf8_lossy(pct_decode(encode_utf8(trim_end_matches(path, "/"@))))
}

/// What an http(s) URL refers to: an arXiv paper, a DOI, or just the URL.
pub open spec fn url_ref(url: Seq<char>) -> RefSpec {
    let host = url_host(url);
    let path = url_path(url);
    if (host == "arxiv.org"@ || host == "export.arxiv.org"@) && arxiv_ref(arxiv_path_id(path))
        is Some {
        arxiv_ref(arxiv_path_id(path))->0
    } else if (host == "doi.org"@ || host == "dx.doi.org"@) && is_doi(doi_path(path)) {
        RefSpec::Doi(doi_path(path))
    } else {
        RefSpec::Url(url)
    }
}

/// What the user gave: an arXiv id or URL, a DOI, a generic URL, or a plain
/// title for a manual entry.
pub open spec fn classified(input: Seq<char>) -> RefSpec {
    let s = trim(input);
    let ax = match strip_prefix_ci(s, "arxiv:"@) {
        Some(rest) => arxiv_ref(trim(rest)),
        None => None,
    };
    let doi = match strip_prefix_ci(s, "doi:"@) {
        Some(rest) => if is_doi(trim(rest)) {
            Some(trim(rest))
        } else {
            None
        },
        None => None,
    };
    if ax is Some {
        ax->0
    } else if doi is Some {
        RefSpec::Doi(doi->0)
    } else if starts_with(s, "http://"@) || starts_with(s, "https://"@) {
        url_ref(s)
    } else if arxiv_ref(s) is Some {
        arxiv_ref(s)->0
    } else if is_doi(s) {
        RefSpec::Doi(s)
    } else {
        RefSpec::Title(s)
    }
}

proof fn lemma_find_some(s: Seq<char>, c: char)
    ensures
        find(s, c) matches Some(k) ==> k < s.len() && s[k as int] == c,
    decreases s.len(),
{
    if s.len() > 0 && s[0] != c {
        lemma_find_some(s.drop_first(), c);
    }
}

/// An arXiv reference is found in a text that is its own trim; its fetch id
/// is the text, which starts with the id, and normalizing it gives the id.
proof fn lemma_arxiv_ref(t: Seq<char>)
    ensures
        arxiv_ref(t) is Some ==> trim(t) == t,
        arxiv_ref(t) matches Some(RefSpec::Arxiv { id, fetch_id }) ==> starts_with(fetch_id, id)
            && split_version(trim(fetch_id)).0 == id,
{
    if arxiv_ref(t) is Some {
        split_version_parts(t);
        let b = split_version(t).0;
        let v = split_version(t).1;
        assert(b + v == t);
        assert(b.len() > 0 && !crate::text::is_ws(b[0]) && !crate::text::is_ws(b.last())) by {
            if new_style_base(b) {
                assert(is_digit(b[0]));
                assert(is_digit(b[b.len() - 1]));
            } else {
                lemma_find_some(b, '/');
                let k = find(b, '/')->0;
                assert(is_category_char(b[0]));
                assert(is_digit(b[b.len() - 1]));
            }
        }
        assert(t[0] == b[0]);
        if v.len() > 0 {
            assert(t.last() == v[v.len() - 1]);
            assert(is_digit(v[v.len() - 1]));
        } else {
            assert(t.last() == b.last());
        }
        crate::text::lemma_trim_fixed(t);
        assert(t.take(b.len() as int) =~= b);
    }
}

/// Whitespace around the input changes nothing, and an arXiv reference's
/// fetch id starts with its id and normalizes back to it.
pub proof fn classify_laws(input: Seq<char>)
    ensures
        classified(trim(input)) == classified(input),
        classified(input) matches RefSpec::Arxiv { id, fetch_id } ==> starts_with(fetch_id, id)
            && split_version(trim(fetch_id)).0 == id,
{
    crate::text::trim_idempotent(input);
    let s = trim(input);
    match strip_prefix_ci(s, "arxiv:"@) {
        Some(rest) => lemma_arxiv_ref(trim(rest)),
        None => {},
    }
    lemma_arxiv_ref(arxiv_path_id(url_path(s)));
    lemma_arxiv_ref(s);
}

/// Four digits, '.', and four or five digits: a new-style arXiv id.
pub open spec fn four_dot_digits(b: Seq<char>, n: nat) -> bool {
    &&& b.len() == 5 + n
    &&& b[4] == '.'
    &&& forall|i: int| 0 <= i < b.len() && i != 4 ==> is_digit(#[trigger] b[i])
}

/// A new-style arXiv id, four digits, '.', and four digits (as all ids before
/// 2015) or five, is classified as that arXiv id, with itself as the id to
/// fetch; with a version 'v' and digits after it, the id is the part before
/// the version and the version-qualified text is fetched.
pub proof fn classify_new_style_ids(b: Seq<char>, version: Seq<char>)
    requires
        four_dot_digits(b, 4) || four_dot_digits(b, 5),
        version.len() == 0 || (version.len() > 1 && version[0] == 'v' && forall|i: int|
            1 <= i < version.len() ==> is_digit(#[trigger] version[i])),
    ensures
        classified(b + version) == (RefSpec::Arxiv { id: b, fetch_id: b + version }),
{
    let s = b + version;
    reveal_strlit("arxiv:");
    reveal_strlit("doi:");
    reveal_strlit("http://");
    reveal_strlit("https://");
    reveal_strlit("10.");
    assert(s[0] == b[0]);
    assert(is_digit(s[0]));
    assert(!crate::text::is_ws(s[0]));
    let last = s[s.len() - 1];
    if version.len() > 0 {
        assert(last == version[version.len() - 1]);
    } else {
        assert(last == b[b.len() - 1]);
    }
    assert(is_digit(last));
    crate::text::lemma_trim_fixed(s);
    assert(trim(s) == s);
    assert(strip_prefix_ci(s, "arxiv:"@) is None) by {
        assert(lower_ascii(s[0]) == s[0]);
        assert(lower_ascii("arxiv:"@[0]) == 'a');
    }
    assert(strip_prefix_ci(s, "doi:"@) is None) by {
        assert(lower_ascii(s[0]) == s[0]);
        assert(lower_ascii("doi:"@[0]) == 'd');
    }
    assert(!starts_with(s, "http://"@)) by {
        assert(s.take(7)[0] == s[0]);
    }
    assert(!starts_with(s, "https://"@)) by {
        assert(s.take(8)[0] == s[0]);
    }
    // the version splits off exactly
    lemma_rfind(s, 'v');
    if version.len() > 0 {
        lemma_rfind_last_v(b, version);
        assert(s.take(b.len() as int) =~= b);
        assert(s.skip(b.len() as int) =~= version);
    } else {
        lemma_rfind_none(b);
        assert(s =~= b);
    }
    assert(split_version(s).0 == b);
    assert(new_style_base(b));
}

proof fn lemma_find_after(cat: Seq<char>, rest: Seq<char>, c: char)
    requires
        forall|i: int| 0 <= i < cat.len() ==> #[trigger] cat[i] != c,
        rest.len() > 0,
        rest[0] == c,
    ensures
        find(cat + rest, c) == Some(cat.len()),
    decreases cat.len(),
{
    if cat.len() > 0 {
        let t = cat + rest;
        assert(t[0] == cat[0]);
        assert(t.drop_first() =~= cat.drop_first() + rest);
        assert forall|i: int| 0 <= i < cat.drop_first().len() implies #[trigger] cat.drop_first()[i]
            != c by {
            assert(cat.drop_first()[i] == cat[i + 1]);
        }
        lemma_find_after(cat.drop_first(), rest, c);
    } else {
        assert(cat + rest =~= rest);
    }
}

/// An old-style arXiv id, a category of ASCII letters, '-' and '.', then '/'
/// and seven digits (as "math/0211159" or "cs.AI/0301001"), is classified as
/// that arXiv id, with an optional version 'v' and digits after it split off.
pub proof fn classify_old_style_ids(cat: Seq<char>, num: Seq<char>, version: Seq<char>)
    requires
        cat.len() > 0,
        forall|i: int| 0 <= i < cat.len() ==> is_category_char(#[trigger] cat[i]),
        num.len() == 7,
        forall|i: int| 0 <= i < num.len() ==> is_digit(#[trigger] num[i]),
        version.len() == 0 || (version.len() > 1 && version[0] == 'v' && forall|i: int|
            1 <= i < version.len() ==> is_digit(#[trigger] version[i])),
    ensures
        classified(cat + seq!['/'] + num + version) == (RefSpec::Arxiv {
            id: cat + seq!['/'] + num,
            fetch_id: cat + seq!['/'] + num + version,
        }),
{
    let b = cat + seq!['/'] + num;
    let s = b + version;
    reveal_strlit("arxiv:");
    reveal_strlit("doi:");
    reveal_strlit("http://");
    reveal_strlit("https://");
    assert(forall|i: int| 0 <= i < s.len() ==> #[trigger] s[i] != ':') by {
        assert forall|i: int| 0 <= i < s.len() implies #[trigger] s[i] != ':' by {
            if i < cat.len() {
                assert(s[i] == cat[i]);
                assert(is_category_char(cat[i]));
            } else if i == cat.len() {
                assert(s[i] == '/');
            } else if i < b.len() {
                assert(s[i] == num[i - cat.len() - 1]);
                assert(is_digit(num[i - cat.len() - 1]));
            } else {
                assert(s[i] == version[i - b.len()]);
                if i > b.len() {
                    assert(is_digit(version[i - b.len()]));
                }
            }
        }
    }
    assert(s[0] == cat[0]);
    assert(is_category_char(cat[0]));
    let last = s[s.len() - 1];
    if version.len() > 0 {
        assert(last == version[version.len() - 1]);
    } else {
        assert(last == num[6]);
    }
    assert(is_digit(last));
    crate::text::lemma_trim_fixed(s);
    assert(strip_prefix_ci(s, "arxiv:"@) is None) by {
        assert(lower_ascii(s[5]) != lower_ascii("arxiv:"@[5]));
    }
    assert(strip_prefix_ci(s, "doi:"@) is None) by {
        assert(lower_ascii(s[3]) != lower_ascii("doi:"@[3]));
    }
    assert(!starts_with(s, "http://"@)) by {
        assert(s.take(7)[4] == s[4]);
    }
    assert(!starts_with(s, "https://"@)) by {
        assert(s.take(8)[5] == s[5]);
    }
    // the version splits off exactly, and no earlier 'v' does
    lemma_rfind(s, 'v');
    if version.len() > 0 {
        lemma_rfind_last_v(b, version);
        assert(s.take(b.len() as int) =~= b);
        assert(s.skip(b.len() as int) =~= version);
    } else {
        assert(s =~= b);
        match rfind(b, 'v') {
            Some(k) => {
                assert(b[k as int] == 'v');
                assert(k < cat.len()) by {
                    if k == cat.len() {
                        assert(b[k as int] == '/');
                    } else if k > cat.len() {
                        assert(b[k as int] == num[k - cat.len() - 1]);
                        assert(is_digit(num[k - cat.len() - 1]));
                    }
                }
                assert(b[cat.len() as int] == '/');
                assert(!is_digit(b[cat.len() as int]));
            },
            None => {},
        }
    }
    assert(split_version(s).0 == b);
    assert forall|i: int| 0 <= i < cat.len() implies #[trigger] cat[i] != '/' by {
        assert(is_category_char(cat[i]));
    }
    lemma_find_after(cat, seq!['/'] + num, '/');
    assert(cat + (seq!['/'] + num) =~= b);
    assert(find(b, '/') == Some(cat.len()));
    assert forall|i: int| cat.len() < i < b.len() implies is_digit(#[trigger] b[i]) by {
        assert(b[i] == num[i - cat.len() - 1]);
    }
    assert forall|i: int| 0 <= i < cat.len() implies is_category_char(#[trigger] b[i]) by {
        assert(b[i] == cat[i]);
    }
    assert(old_style_base(b));
}

proof fn lemma_rfind_none(b: Seq<char>)
    requires
        forall|i: int| 0 <= i < b.len() ==> is_digit(#[trigger] b[i]) || b[i] == '.',
    ensures
        rfind(b, 'v') is None,
    decreases b.len(),
{
    if b.len() > 0 {
        assert(is_digit(b.last()) || b.last() == '.');
        assert(b.last() != 'v');
        lemma_rfind_none(b.drop_last());
    }
}

proof fn lemma_rfind_last_v(b: Seq<char>, version: Seq<char>)
    requires
        version.len() > 1,
        version[0] == 'v',
        forall|i: int| 1 <= i < version.len() ==> is_digit(#[trigger] version[i]),
    ensures
        rfind(b + version, 'v') == Some(b.len()),
    decreases version.len(),
{
    let s = b + version;
    assert(s.last() == version.last());
    assert(is_digit(version[version.len() - 1]));
    assert(s.last() != 'v');
    assert(s.drop_last() =~= b + version.drop_last());
    if version.len() == 2 {
        let t = b + version.drop_last();
        assert(t.last() == 'v');
        assert(rfind(t, 'v') == Some(b.len()));
    } else {
        assert forall|i: int| 1 <= i < version.drop_last().len() implies is_digit(
            #[trigger] version.drop_last()[i],
        ) by {
            assert(version.drop_last()[i] == version[i]);
        }
        lemma_rfind_last_v(b, version.drop_last());
    }
}

fn classify_url(url: &[char]) -> (r: RefKind)
    ensures
        r@ == url_ref(url@),
{
    proof {
        reveal_strlit("https://");
        reveal_strlit("http://");
        reveal_strlit("www.");
        reveal_strlit("abs/");
        reveal_strlit("pdf/");
        reveal_strlit("html/");
        reveal_strlit(".pdf");
        reveal_strlit("/");
    }
    let https = chars_of("https://");
    let http = chars_of("http://");
    let a = trim_start_matches_chars(url, https.as_slice());
    let ws = trim_start_matches_chars(a.as_slice(), http.as_slice());
    let (host0, path0) = match find_char(ws.as_slice(), '/') {
        Some(i) => (slice_chars(ws.as_slice(), 0, i), slice_chars(ws.as_slice(), i + 1, ws.len())),
        None => (slice_chars(ws.as_slice(), 0, ws.len()), Vec::new()),
    };
    assert(host0@ =~= url_parts(url@).0);
    assert(path0@ =~= url_parts(url@).1);
    let www = chars_of("www.");
    let host_nw = trim_start_matches_chars(host0.as_slice(), www.as_slice());
    let host = lowercase_chars(host_nw.as_slice());
    let seps: Vec<char> = vec!['?', '#'];
    assert(seps@ =~= seq!['?', '#']);
    let pieces = split_any_chars(path0.as_slice(), seps.as_slice());
    proof {
        lemma_split_any_nonempty(path0@, seps@, seq![]);
    }
    assert(views(pieces@)[0] == pieces@[0]@);
    let path = &pieces[0];
    if eq_chars_str(host.as_slice(), "arxiv.org") || eq_chars_str(host.as_slice(), "export.arxiv.org") {
        let abs = chars_of("abs/");
        let pdf = chars_of("pdf/");
        let html = chars_of("html/");
        let dotpdf = chars_of(".pdf");
        let slash = chars_of("/");
        let p1 = trim_start_matches_chars(path.as_slice(), abs.as_slice());
        let p2 = trim_start_matches_chars(p1.as_slice(), pdf.as_slice());
        let p3 = trim_start_matches_chars(p2.as_slice(), html.as_slice());
        let p4 = trim_end_matches_chars(p3.as_slice(), dotpdf.as_slice());
        let id_part = trim_end_matches_chars(p4.as_slice(), slash.as_slice());
        match arxiv_from_chars(id_part.as_slice()) {
            Some(r) => {
                return r;
            },
            None => {},
        }
    }
    if eq_chars_str(host.as_slice(), "doi.org") || eq_chars_str(host.as_slice(), "dx.doi.org") {
        let slash = chars_of("/");
        let trimmed = trim_end_matches_chars(path.as_slice(), slash.as_slice());
        let t = string_of(trimmed.as_slice());
        let doi = percent_decode(t.as_str());
        let dc = chars_of(doi.as_str());
        if looks_like_doi(dc.as_slice()) {
            return RefKind::Doi(doi);
        }
    }
    RefKind::Url(string_of(url))
}

fn eq_chars_str(v: &[char], w: &str) -> (r: bool)
    ensures
        r == (v@ == w@),
{
    crate::text::eq_str(v, w)
}

/// Figure out what the user gave us: arXiv id/URL, DOI, generic URL, or a
/// plain title for a manual entry.
pub fn classify(input: &str) -> (r: RefKind)
    ensures
        r@ == classified(input@),
{
    proof {
        reveal_strlit("arxiv:");
        reveal_strlit("doi:");
    }
    let v = chars_of(input);
    let s = trim_chars(v.as_slice());
    let arxiv_prefix = chars_of("arxiv:");
    match strip_prefix_ci_chars(s.as_slice(), arxiv_prefix.as_slice()) {
        Some(rest) => {
            let rt = trim_chars(rest.as_slice());
            match arxiv_from_chars(rt.as_slice()) {
                Some(r) => {
                    return r;
                },
                None => {},
            }
        },
        None => {},
    }
    let doi_prefix = chars_of("doi:");
    match strip_prefix_ci_chars(s.as_slice(), doi_prefix.as_slice()) {
        Some(rest) => {
            let rt = trim_chars(rest.as_slice());
            if looks_like_doi(rt.as_slice()) {
                return RefKind::Doi(string_of(rt.as_slice()));
            }
        },
        None => {},
    }
    let http = chars_of("http://");
    let https = chars_of("https://");
    if starts_with_chars(s.as_slice(), http.as_slice()) || starts_with_chars(
        s.as_slice(),
        https.as_slice(),
    ) {
        return classify_url(s.as_slice());
    }
    match arxiv_from_chars(s.as_slice()) {
        Some(r) => {
            return r;
        },
        None => {},
    }
    if looks_like_doi(s.as_slice()) {
        return RefKind::Doi(string_of(s.as_slice()));
    }
    RefKind::Title(string_of(s.as_slice()))
}

// ---------------------------------------------------------------------------
// Abstract clean-up
// ---------------------------------------------------------------------------

/// The characters outside `<...>` tags, `in_tag` telling whether a tag is open.
pub open spec fn untagged(s: Seq<char>, in_tag: bool) -> Seq<char>
    decreases s.len(),
{
    if s.len() == 0 {
        seq![]
    } else if s[0] == '<' {
        untagged(s.drop_first(), true)
    } else if s[0] == '>' {
        untagged(s.drop_first(), false)
    } else if !in_tag {
        seq![s[0]] + untagged(s.drop_first(), in_tag)
    } else {
        untagged(s.drop_first(), in_tag)
    }
}

/// The XML character entities `&lt; &gt; &amp; &quot; &apos; &#39;` decoded, in that order.
pub open spec fn unescape_entities(t: Seq<char>) -> Seq<char> {
    replace(
        replace(
            replace(
                replace(replace(replace(t, "&lt;"@, "<"@), "&gt;"@, ">"@), "&amp;"@, "&"@),
                "&quot;"@,
                "\""@,
            ),
            "&apos;"@,
            "'"@,
        ),
        "&#39;"@,
        "'"@,
    )
}

/// Abstract text without JATS/XML markup, entities decoded, whitespace
/// collapsed, and a leading "Abstract " dropped.
pub open spec fn jats_text(s: Seq<char>) -> Seq<char> {
    let out = squish(unescape_entities(untagged(s, false)));
    if starts_with(out, "Abstract "@) {
        out.skip(9)
    } else {
        out
    }
}

fn replace_lit(s: Vec<char>, pat: &str, rep: &str) -> (r: Vec<char>)
    requires
        pat@.len() > 0,
    ensures
        r@ == replace(s@, pat@, rep@),
{
    let p = chars_of(pat);
    let q = chars_of(rep);
    replace_chars(s.as_slice(), p.as_slice(), q.as_slice())
}

/// Strip JATS/XML tags from Crossref abstracts ("<jats:p>text</jats:p>").
pub fn strip_jats(s: &str) -> (r: String)
    ensures
        r@ == jats_text(s@),
{
    let v = chars_of(s);
    let n = v.len();
    let mut out: Vec<char> = Vec::new();
    let mut in_tag = false;
    let mut i: usize = 0;
    assert(v@.skip(0) =~= v@);
    while i < n
        invariant
            i <= n == v@.len(),
            out@ + untagged(v@.skip(i as int), in_tag) == untagged(v@, false),
        decreases n - i,
    {
        let ghost rest = v@.skip(i as int);
        let ghost old_out = out@;
        let ghost old_in = in_tag;
        assert(rest[0] == v@[i as int]);
        assert(rest.drop_first() =~= v@.skip(i + 1));
        let c = v[i];
        if c == '<' {
            in_tag = true;
        } else if c == '>' {
            in_tag = false;
        } else if !in_tag {
            out.push(c);
            assert(out@ + untagged(v@.skip(i + 1), in_tag) =~= old_out + untagged(rest, old_in));
        }
        i += 1;
    }
    assert(v@.skip(n as int) =~= seq![]);
    assert(out@ + seq![] =~= out@);
    proof {
        reveal_strlit("&lt;");
        reveal_strlit("&gt;");
        reveal_strlit("&amp;");
        reveal_strlit("&quot;");
        reveal_strlit("&apos;");
        reveal_strlit("&#39;");
        reveal_strlit("Abstract ");
    }
    let t = replace_lit(out, "&lt;", "<");
    let t = replace_lit(t, "&gt;", ">");
    let t = replace_lit(t, "&amp;", "&");
    let t = replace_lit(t, "&quot;", "\"");
    let t = replace_lit(t, "&apos;", "'");
    let t = replace_lit(t, "&#39;", "'");
    let sq = squish_chars(t.as_slice());
    let prefix = chars_of("Abstract ");
    if starts_with_chars(sq.as_slice(), prefix.as_slice()) {
        let rest = slice_chars(sq.as_slice(), 9, sq.len());
        assert(rest@ =~= sq@.skip(9));
        string_of(rest.as_slice())
    } else {
        string_of(sq.as_slice())
    }
}

} // verus!
