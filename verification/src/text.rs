//! Character-sequence utilities that the rest of the library is built on.
//!
//! Strings are handled as sequences of Unicode scalar values (`Seq<char>`);
//! the executable functions work on `Vec<char>` and convert at the edges.

use vstd::prelude::*;

verus! {

// ---------------------------------------------------------------------------
// Character classes
// ---------------------------------------------------------------------------

/// The Unicode `White_Space` property, as `char::is_whitespace` tests it.
pub open spec fn is_ws(c: char) -> bool {
    let u = c as u32;
    ||| (0x09 <= u && u <= 0x0d)
    ||| u == 0x20
    ||| u == 0x85
    ||| u == 0xa0
    ||| u == 0x1680
    ||| (0x2000 <= u && u <= 0x200a)
    ||| u == 0x2028
    ||| u == 0x2029
    ||| u == 0x202f
    ||| u == 0x205f
    ||| u == 0x3000
}

pub open spec fn is_digit(c: char) -> bool {
    '0' <= c && c <= '9'
}

pub open spec fn is_upper(c: char) -> bool {
    'A' <= c && c <= 'Z'
}

pub open spec fn is_lower(c: char) -> bool {
    'a' <= c && c <= 'z'
}

pub open spec fn is_alpha(c: char) -> bool {
    is_upper(c) || is_lower(c)
}

pub open spec fn is_alnum(c: char) -> bool {
    is_alpha(c) || is_digit(c)
}

pub open spec fn is_ascii(c: char) -> bool {
    (c as u32) < 0x80
}

/// ASCII lowercase of one character; everything else is unchanged.
pub open spec fn lower_ascii(c: char) -> char {
    if is_upper(c) {
        ((c as u32) + 32) as char
    } else {
        c
    }
}

pub fn is_whitespace(c: char) -> (r: bool)
    ensures
        r == is_ws(c),
{
    let u = c as u32;
    (0x09 <= u && u <= 0x0d) || u == 0x20 || u == 0x85 || u == 0xa0 || u == 0x1680 || (0x2000
        <= u && u <= 0x200a) || u == 0x2028 || u == 0x2029 || u == 0x202f || u == 0x205f || u
        == 0x3000
}

pub fn is_ascii_digit(c: char) -> (r: bool)
    ensures
        r == is_digit(c),
{
    '0' <= c && c <= '9'
}

pub fn is_ascii_alphabetic(c: char) -> (r: bool)
    ensures
        r == is_alpha(c),
{
    ('A' <= c && c <= 'Z') || ('a' <= c && c <= 'z')
}

pub fn is_ascii_alphanumeric(c: char) -> (r: bool)
    ensures
        r == is_alnum(c),
{
    is_ascii_alphabetic(c) || is_ascii_digit(c)
}

pub fn to_ascii_lower(c: char) -> (r: char)
    ensures
        r == lower_ascii(c),
{
    if 'A' <= c && c <= 'Z' {
        let b = (c as u8) + 32;
        b as char
    } else {
        c
    }
}

// ---------------------------------------------------------------------------
// Conversions
// ---------------------------------------------------------------------------

/// The characters of `s`, in order.
pub fn chars_of(s: &str) -> (v: Vec<char>)
    ensures
        v@ == s@,
{
    let mut v: Vec<char> = Vec::new();
    for c in it: s.chars()
        invariant
            v@ == it.seq().take(it.index() as int),
            it.seq() == s@,
    {
        v.push(c);
    }
    v
}

/// `String: FromIterator<char>` from std: the string made of these characters.
#[verifier::external_body]
pub(crate) fn string_of(v: &[char]) -> (s: String)
    ensures
        s@ == v@,
{
    v.iter().collect()
}


// ---------------------------------------------------------------------------
// Trimming, words, joining
// ---------------------------------------------------------------------------

/// `s` without its leading whitespace.
pub open spec fn trim_start(s: Seq<char>) -> Seq<char>
    decreases s.len(),
{
    if s.len() > 0 && is_ws(s[0]) {
        trim_start(s.drop_first())
    } else {
        s
    }
}

/// `s` without its trailing whitespace.
pub open spec fn trim_end(s: Seq<char>) -> Seq<char>
    decreases s.len(),
{
    if s.len() > 0 && is_ws(s.last()) {
        trim_end(s.drop_last())
    } else {
        s
    }
}

/// The views of a sequence of character vectors.
pub open spec fn views(v: Seq<Vec<char>>) -> Seq<Seq<char>> {
    v.map_values(|w: Vec<char>| w@)
}

/// `s` without leading and trailing whitespace (`str::trim`).
pub open spec fn trim(s: Seq<char>) -> Seq<char> {
    trim_end(trim_start(s))
}

/// The whitespace-separated words of `s`, `cur` being a word already begun.
pub open spec fn words_from(s: Seq<char>, cur: Seq<char>) -> Seq<Seq<char>>
    decreases s.len(),
{
    if s.len() == 0 {
        if cur.len() > 0 {
            seq![cur]
        } else {
            seq![]
        }
    } else if is_ws(s[0]) {
        if cur.len() > 0 {
            seq![cur] + words_from(s.drop_first(), seq![])
        } else {
            words_from(s.drop_first(), seq![])
        }
    } else {
        words_from(s.drop_first(), cur.push(s[0]))
    }
}

/// The maximal runs of non-whitespace characters of `s` (`str::split_whitespace`).
pub open spec fn words(s: Seq<char>) -> Seq<Seq<char>> {
    words_from(s, seq![])
}

/// The parts joined with `sep` between consecutive ones (`[T]::join`).
pub open spec fn join(parts: Seq<Seq<char>>, sep: Seq<char>) -> Seq<char>
    decreases parts.len(),
{
    if parts.len() == 0 {
        seq![]
    } else if parts.len() == 1 {
        parts[0]
    } else {
        join(parts.drop_last(), sep) + sep + parts.last()
    }
}

/// All whitespace runs collapsed into single spaces, with no space at either end.
pub open spec fn squish(s: Seq<char>) -> Seq<char> {
    join(words(s), seq![' '])
}

/// Where `s` starts once its leading whitespace is skipped.
pub fn first_non_ws(s: &[char]) -> (a: usize)
    ensures
        a <= s@.len(),
        trim_start(s@) == s@.skip(a as int),
{
    let mut a: usize = 0;
    assert(s@.skip(0) =~= s@);
    while a < s.len() && is_whitespace(s[a])
        invariant
            a <= s@.len(),
            trim_start(s@) == trim_start(s@.skip(a as int)),
        decreases s.len() - a,
    {
        assert(s@.skip(a as int).drop_first() =~= s@.skip(a + 1));
        a += 1;
    }
    assert(trim_start(s@) == s@.skip(a as int)) by {
        if a < s.len() {
            assert(s@.skip(a as int)[0] == s@[a as int]);
        }
    }
    a
}

/// The bounds of `trim(s[lo..hi])` within `s`.
pub fn trim_bounds(s: &[char], lo: usize, hi: usize) -> (r: (usize, usize))
    requires
        lo <= hi <= s@.len(),
    ensures
        lo <= r.0 <= r.1 <= hi,
        s@.subrange(r.0 as int, r.1 as int) == trim(s@.subrange(lo as int, hi as int)),
{
    let ghost t = s@.subrange(lo as int, hi as int);
    let mut a: usize = lo;
    assert(t.skip(0) =~= t);
    while a < hi && is_whitespace(s[a])
        invariant
            lo <= a <= hi <= s@.len(),
            t == s@.subrange(lo as int, hi as int),
            trim_start(t) == trim_start(s@.subrange(a as int, hi as int)),
        decreases hi - a,
    {
        assert(s@.subrange(a as int, hi as int).drop_first() =~= s@.subrange(a + 1, hi as int));
        a += 1;
    }
    assert(trim_start(t) == s@.subrange(a as int, hi as int)) by {
        if a < hi {
            assert(s@.subrange(a as int, hi as int)[0] == s@[a as int]);
        }
    }
    let mut b: usize = hi;
    while b > a && is_whitespace(s[b - 1])
        invariant
            lo <= a <= b <= hi <= s@.len(),
            t == s@.subrange(lo as int, hi as int),
            trim(t) == trim_end(s@.subrange(a as int, b as int)),
        decreases b,
    {
        assert(s@.subrange(a as int, b as int).drop_last() =~= s@.subrange(a as int, b - 1));
        b -= 1;
    }
    assert(trim(t) == s@.subrange(a as int, b as int)) by {
        if b > a {
            assert(s@.subrange(a as int, b as int).last() == s@[b - 1]);
        }
    }
    (a, b)
}

pub fn trim_chars(s: &[char]) -> (r: Vec<char>)
    ensures
        r@ == trim(s@),
{
    let (a, b) = trim_bounds(s, 0, s.len());
    assert(s@.subrange(0, s@.len() as int) =~= s@);
    slice_chars(s, a, b)
}

/// `str::trim`.
pub fn trim_str(s: &str) -> (r: String)
    ensures
        r@ == trim(s@),
{
    let v = chars_of(s);
    let t = trim_chars(v.as_slice());
    string_of(t.as_slice())
}

/// `model::squish` on a `str`.
pub fn squish_str(s: &str) -> (r: String)
    ensures
        r@ == squish(s@),
{
    let v = chars_of(s);
    let t = squish_chars(v.as_slice());
    string_of(t.as_slice())
}

pub fn words_of(s: &[char]) -> (r: Vec<Vec<char>>)
    ensures
        views(r@) == words(s@),
{
    let n = s.len();
    let mut acc: Vec<Vec<char>> = Vec::new();
    let mut cur: Vec<char> = Vec::new();
    let mut i: usize = 0;
    assert(s@.skip(0) =~= s@);
    assert(views(acc@) + words_from(s@.skip(0), cur@) =~= words(s@));
    while i < n
        invariant
            i <= n == s@.len(),
            views(acc@) + words_from(s@.skip(i as int), cur@) == words(s@),
        decreases n - i,
    {
        let c = s[i];
        let ghost rest = s@.skip(i as int);
        assert(rest.drop_first() =~= s@.skip(i + 1));
        assert(rest[0] == c);
        let ghost old_acc = views(acc@);
        if is_whitespace(c) {
            if cur.len() > 0 {
                let ghost old_cur = cur@;
                assert(words_from(rest, cur@) == seq![cur@] + words_from(s@.skip(i + 1), seq![]));
                acc.push(cur);
                assert(views(acc@) =~= old_acc.push(old_cur));
                cur = Vec::new();
                assert(cur@ =~= seq![]);
                assert(views(acc@) + words_from(s@.skip(i + 1), cur@) =~= old_acc + words_from(
                    rest,
                    old_cur,
                ));
            } else {
                assert(cur@ =~= seq![]);
                assert(words_from(rest, cur@) == words_from(s@.skip(i + 1), seq![]));
            }
        } else {
            assert(words_from(rest, cur@) == words_from(s@.skip(i + 1), cur@.push(c)));
            cur.push(c);
        }
        i += 1;
    }
    assert(s@.skip(n as int) =~= seq![]);
    if cur.len() > 0 {
        let ghost old_acc = views(acc@);
        acc.push(cur);
        assert(views(acc@) =~= old_acc.push(cur@));
    }
    assert(views(acc@) =~= words(s@));
    acc
}

/// The parts joined with `sep`.
pub fn join_chars(parts: &Vec<Vec<char>>, sep: &[char]) -> (r: Vec<char>)
    ensures
        r@ == join(views(parts@), sep@),
{
    let ghost pv: Seq<Seq<char>> = views(parts@);
    let mut r: Vec<char> = Vec::new();
    let mut i: usize = 0;
    while i < parts.len()
        invariant
            i <= parts@.len() == pv.len(),
            pv == views(parts@),
            r@ == join(pv.take(i as int), sep@),
        decreases parts.len() - i,
    {
        if i > 0 {
            r.extend_from_slice(sep);
        }
        r.extend_from_slice(parts[i].as_slice());
        assert(pv.take(i + 1).drop_last() =~= pv.take(i as int));
        i += 1;
    }
    assert(pv.take(i as int) =~= pv);
    r
}

pub fn squish_chars(s: &[char]) -> (r: Vec<char>)
    ensures
        r@ == squish(s@),
{
    let ws = words_of(s);
    let sep = vec![' '];
    assert(sep@ =~= seq![' ']);
    join_chars(&ws, sep.as_slice())
}


// ---------------------------------------------------------------------------
// Prefixes, search, splitting, replacing
// ---------------------------------------------------------------------------

pub open spec fn starts_with(s: Seq<char>, p: Seq<char>) -> bool {
    p.len() <= s.len() && s.take(p.len() as int) == p
}

/// Index of the first occurrence of `c` in `s`.
pub open spec fn find(s: Seq<char>, c: char) -> Option<nat>
    decreases s.len(),
{
    if s.len() == 0 {
        None
    } else if s[0] == c {
        Some(0)
    } else {
        match find(s.drop_first(), c) {
            Some(k) => Some(k + 1),
            None => None,
        }
    }
}

/// Index of the last occurrence of `c` in `s`.
pub open spec fn rfind(s: Seq<char>, c: char) -> Option<nat>
    decreases s.len(),
{
    if s.len() == 0 {
        None
    } else if s.last() == c {
        Some((s.len() - 1) as nat)
    } else {
        rfind(s.drop_last(), c)
    }
}

/// The pieces of `s` between occurrences of the non-empty `pat`, `cur` being
/// a piece already begun (`str::split` with a string pattern).
pub open spec fn split_from(s: Seq<char>, pat: Seq<char>, cur: Seq<char>) -> Seq<Seq<char>>
    decreases s.len(),
{
    if s.len() == 0 {
        seq![cur]
    } else if pat.len() > 0 && starts_with(s, pat) {
        seq![cur] + split_from(s.skip(pat.len() as int), pat, seq![])
    } else {
        split_from(s.drop_first(), pat, cur.push(s[0]))
    }
}

pub open spec fn split(s: Seq<char>, pat: Seq<char>) -> Seq<Seq<char>> {
    split_from(s, pat, seq![])
}

/// The pieces of `s` between characters that occur in `seps`.
pub open spec fn split_any_from(s: Seq<char>, seps: Seq<char>, cur: Seq<char>) -> Seq<Seq<char>>
    decreases s.len(),
{
    if s.len() == 0 {
        seq![cur]
    } else if seps.contains(s[0]) {
        seq![cur] + split_any_from(s.drop_first(), seps, seq![])
    } else {
        split_any_from(s.drop_first(), seps, cur.push(s[0]))
    }
}

pub open spec fn split_any(s: Seq<char>, seps: Seq<char>) -> Seq<Seq<char>> {
    split_any_from(s, seps, seq![])
}

/// Every non-overlapping occurrence of the non-empty `pat`, scanning from the
/// left, replaced by `rep` (`str::replace`).
pub open spec fn replace(s: Seq<char>, pat: Seq<char>, rep: Seq<char>) -> Seq<char>
    decreases s.len(),
{
    if s.len() == 0 {
        seq![]
    } else if pat.len() > 0 && starts_with(s, pat) {
        rep + replace(s.skip(pat.len() as int), pat, rep)
    } else {
        seq![s[0]] + replace(s.drop_first(), pat, rep)
    }
}

/// `s` without any occurrence of `c`.
pub open spec fn remove_char(s: Seq<char>, c: char) -> Seq<char>
    decreases s.len(),
{
    if s.len() == 0 {
        seq![]
    } else if s[0] == c {
        remove_char(s.drop_first(), c)
    } else {
        seq![s[0]] + remove_char(s.drop_first(), c)
    }
}

/// Whether `p` occurs in `s` at position `i`.
pub fn occurs_at(s: &[char], i: usize, p: &[char]) -> (r: bool)
    requires
        i <= s@.len(),
    ensures
        r == starts_with(s@.skip(i as int), p@),
{
    let n = s.len();
    if p.len() > n - i {
        return false;
    }
    let mut k: usize = 0;
    while k < p.len()
        invariant
            k <= p@.len(),
            n == s@.len(),
            i + p@.len() <= s@.len(),
            forall|j: int| 0 <= j < k ==> s@[i + j] == p@[j],
        decreases p.len() - k,
    {
        if s[i + k] != p[k] {
            assert(s@.skip(i as int).take(p@.len() as int)[k as int] != p@[k as int]);
            return false;
        }
        k += 1;
    }
    assert(s@.skip(i as int).take(p@.len() as int) =~= p@);
    true
}

pub fn starts_with_chars(s: &[char], p: &[char]) -> (r: bool)
    ensures
        r == starts_with(s@, p@),
{
    assert(s@.skip(0) =~= s@);
    occurs_at(s, 0, p)
}

/// Whether the characters are exactly those of `w`.
pub fn eq_str(v: &[char], w: &str) -> (r: bool)
    ensures
        r == (v@ == w@),
{
    let wc = chars_of(w);
    if v.len() != wc.len() {
        return false;
    }
    let mut k: usize = 0;
    while k < v.len()
        invariant
            k <= v@.len() == wc@.len(),
            wc@ == w@,
            forall|j: int| 0 <= j < k ==> v@[j] == wc@[j],
        decreases v.len() - k,
    {
        if v[k] != wc[k] {
            return false;
        }
        k += 1;
    }
    assert(v@ =~= wc@);
    true
}

/// Whether two strings are equal.
pub fn str_eq(a: &str, b: &str) -> (r: bool)
    ensures
        r == (a@ == b@),
{
    let av = chars_of(a);
    eq_str(av.as_slice(), b)
}

pub fn find_char(s: &[char], c: char) -> (r: Option<usize>)
    ensures
        match r {
            Some(k) => find(s@, c) == Some(k as nat) && k < s@.len() && s@[k as int] == c,
            None => find(s@, c) is None,
        },
{
    let mut i: usize = 0;
    assert(s@.skip(0) =~= s@);
    while i < s.len()
        invariant
            i <= s@.len(),
            forall|j: int| 0 <= j < i ==> s@[j] != c,
            find(s@, c) == match find(s@.skip(i as int), c) {
                Some(k) => Some((k + i) as nat),
                None => None::<nat>,
            },
        decreases s.len() - i,
    {
        assert(s@.skip(i as int).drop_first() =~= s@.skip(i + 1));
        if s[i] == c {
            return Some(i);
        }
        i += 1;
    }
    None
}

pub fn rfind_char(s: &[char], c: char) -> (r: Option<usize>)
    ensures
        match r {
            Some(k) => rfind(s@, c) == Some(k as nat) && k < s@.len() && s@[k as int] == c,
            None => rfind(s@, c) is None,
        },
{
    let mut i: usize = s.len();
    assert(s@.take(i as int) =~= s@);
    while i > 0
        invariant
            i <= s@.len(),
            rfind(s@, c) == rfind(s@.take(i as int), c),
        decreases i,
    {
        assert(s@.take(i as int).drop_last() =~= s@.take(i - 1));
        if s[i - 1] == c {
            return Some(i - 1);
        }
        i -= 1;
    }
    None
}

/// The characters of `s` from `lo` up to `hi`.
pub fn slice_chars(s: &[char], lo: usize, hi: usize) -> (r: Vec<char>)
    requires
        lo <= hi <= s@.len(),
    ensures
        r@ == s@.subrange(lo as int, hi as int),
{
    let mut r: Vec<char> = Vec::new();
    let mut i = lo;
    while i < hi
        invariant
            lo <= i <= hi <= s@.len(),
            r@ == s@.subrange(lo as int, i as int),
        decreases hi - i,
    {
        r.push(s[i]);
        i += 1;
        assert(r@ =~= s@.subrange(lo as int, i as int));
    }
    r
}

pub fn split_chars(s: &[char], pat: &[char]) -> (r: Vec<Vec<char>>)
    requires
        pat@.len() > 0,
    ensures
        views(r@) == split(s@, pat@),
{
    let n = s.len();
    let mut acc: Vec<Vec<char>> = Vec::new();
    let mut cur: Vec<char> = Vec::new();
    let mut i: usize = 0;
    assert(s@.skip(0) =~= s@);
    assert(views(acc@) + split_from(s@.skip(0), pat@, cur@) =~= split(s@, pat@));
    while i < n
        invariant
            i <= n == s@.len(),
            pat@.len() > 0,
            views(acc@) + split_from(s@.skip(i as int), pat@, cur@) == split(s@, pat@),
        decreases n - i,
    {
        let ghost rest = s@.skip(i as int);
        let ghost old_acc = views(acc@);
        let ghost old_cur = cur@;
        if occurs_at(s, i, pat) {
            assert(rest.skip(pat@.len() as int) =~= s@.skip(i + pat@.len()));
            acc.push(cur);
            assert(views(acc@) =~= old_acc.push(old_cur));
            cur = Vec::new();
            assert(cur@ =~= seq![]);
            assert(views(acc@) + split_from(s@.skip(i + pat@.len()), pat@, cur@) =~= old_acc
                + split_from(rest, pat@, old_cur));
            i += pat.len();
        } else {
            assert(rest.drop_first() =~= s@.skip(i + 1));
            assert(rest[0] == s@[i as int]);
            cur.push(s[i]);
            i += 1;
        }
    }
    assert(s@.skip(n as int) =~= seq![]);
    let ghost old_acc = views(acc@);
    let ghost old_cur = cur@;
    acc.push(cur);
    assert(views(acc@) =~= old_acc.push(old_cur));
    assert(views(acc@) =~= split(s@, pat@));
    acc
}

pub fn split_any_chars(s: &[char], seps: &[char]) -> (r: Vec<Vec<char>>)
    ensures
        views(r@) == split_any(s@, seps@),
{
    let n = s.len();
    let mut acc: Vec<Vec<char>> = Vec::new();
    let mut cur: Vec<char> = Vec::new();
    let mut i: usize = 0;
    assert(s@.skip(0) =~= s@);
    assert(views(acc@) + split_any_from(s@.skip(0), seps@, cur@) =~= split_any(s@, seps@));
    while i < n
        invariant
            i <= n == s@.len(),
            views(acc@) + split_any_from(s@.skip(i as int), seps@, cur@) == split_any(s@, seps@),
        decreases n - i,
    {
        let ghost rest = s@.skip(i as int);
        let ghost old_acc = views(acc@);
        let ghost old_cur = cur@;
        assert(rest.drop_first() =~= s@.skip(i + 1));
        assert(rest[0] == s@[i as int]);
        if contains_char(seps, s[i]) {
            acc.push(cur);
            assert(views(acc@) =~= old_acc.push(old_cur));
            cur = Vec::new();
            assert(cur@ =~= seq![]);
            assert(views(acc@) + split_any_from(s@.skip(i + 1), seps@, cur@) =~= old_acc
                + split_any_from(rest, seps@, old_cur));
        } else {
            cur.push(s[i]);
        }
        i += 1;
    }
    assert(s@.skip(n as int) =~= seq![]);
    let ghost old_acc = views(acc@);
    let ghost old_cur = cur@;
    acc.push(cur);
    assert(views(acc@) =~= old_acc.push(old_cur));
    assert(views(acc@) =~= split_any(s@, seps@));
    acc
}

pub fn contains_char(s: &[char], c: char) -> (r: bool)
    ensures
        r == s@.contains(c),
{
    let mut i: usize = 0;
    while i < s.len()
        invariant
            i <= s@.len(),
            forall|j: int| 0 <= j < i ==> s@[j] != c,
        decreases s.len() - i,
    {
        if s[i] == c {
            assert(s@[i as int] == c);
            return true;
        }
        i += 1;
    }
    false
}

pub fn replace_chars(s: &[char], pat: &[char], rep: &[char]) -> (r: Vec<char>)
    requires
        pat@.len() > 0,
    ensures
        r@ == replace(s@, pat@, rep@),
{
    let n = s.len();
    let mut out: Vec<char> = Vec::new();
    let mut i: usize = 0;
    assert(s@.skip(0) =~= s@);
    while i < n
        invariant
            i <= n == s@.len(),
            pat@.len() > 0,
            out@ + replace(s@.skip(i as int), pat@, rep@) == replace(s@, pat@, rep@),
        decreases n - i,
    {
        let ghost rest = s@.skip(i as int);
        let ghost old_out = out@;
        if occurs_at(s, i, pat) {
            assert(rest.skip(pat@.len() as int) =~= s@.skip(i + pat@.len()));
            out.extend_from_slice(rep);
            assert(out@ + replace(s@.skip(i + pat@.len()), pat@, rep@) =~= old_out + replace(
                rest,
                pat@,
                rep@,
            ));
            i += pat.len();
        } else {
            assert(rest.drop_first() =~= s@.skip(i + 1));
            assert(rest[0] == s@[i as int]);
            out.push(s[i]);
            assert(out@ + replace(s@.skip(i + 1), pat@, rep@) =~= old_out + replace(
                rest,
                pat@,
                rep@,
            ));
            i += 1;
        }
    }
    assert(s@.skip(n as int) =~= seq![]);
    assert(out@ + seq![] =~= out@);
    out
}

pub fn remove_char_chars(s: &[char], c: char) -> (r: Vec<char>)
    ensures
        r@ == remove_char(s@, c),
{
    let n = s.len();
    let mut out: Vec<char> = Vec::new();
    let mut i: usize = 0;
    assert(s@.skip(0) =~= s@);
    while i < n
        invariant
            i <= n == s@.len(),
            out@ + remove_char(s@.skip(i as int), c) == remove_char(s@, c),
        decreases n - i,
    {
        let ghost rest = s@.skip(i as int);
        let ghost old_out = out@;
        assert(rest.drop_first() =~= s@.skip(i + 1));
        assert(rest[0] == s@[i as int]);
        if s[i] != c {
            out.push(s[i]);
            assert(out@ + remove_char(s@.skip(i + 1), c) =~= old_out + remove_char(rest, c));
        }
        i += 1;
    }
    assert(s@.skip(n as int) =~= seq![]);
    assert(out@ + seq![] =~= out@);
    out
}


pub open spec fn ends_with(s: Seq<char>, p: Seq<char>) -> bool {
    p.len() <= s.len() && s.skip(s.len() - p.len()) == p
}

/// `s` with every leading repetition of the non-empty `p` removed
/// (`str::trim_start_matches`).
pub open spec fn trim_start_matches(s: Seq<char>, p: Seq<char>) -> Seq<char>
    decreases s.len(),
{
    if p.len() > 0 && starts_with(s, p) {
        trim_start_matches(s.skip(p.len() as int), p)
    } else {
        s
    }
}

/// `s` with every trailing repetition of the non-empty `p` removed
/// (`str::trim_end_matches`).
pub open spec fn trim_end_matches(s: Seq<char>, p: Seq<char>) -> Seq<char>
    decreases s.len(),
{
    if p.len() > 0 && ends_with(s, p) {
        trim_end_matches(s.take(s.len() - p.len()), p)
    } else {
        s
    }
}

pub fn trim_start_matches_chars(s: &[char], p: &[char]) -> (r: Vec<char>)
    requires
        p@.len() > 0,
    ensures
        r@ == trim_start_matches(s@, p@),
{
    let mut i: usize = 0;
    let n = s.len();
    assert(s@.skip(0) =~= s@);
    while occurs_at(s, i, p)
        invariant
            i <= s@.len(),
            n == s@.len(),
            p@.len() > 0,
            trim_start_matches(s@, p@) == trim_start_matches(s@.skip(i as int), p@),
        decreases s@.len() - i,
    {
        assert(s@.skip(i as int).skip(p@.len() as int) =~= s@.skip(i + p@.len()));
        i += p.len();
    }
    assert(s@.subrange(i as int, s@.len() as int) =~= s@.skip(i as int));
    slice_chars(s, i, s.len())
}

pub fn trim_end_matches_chars(s: &[char], p: &[char]) -> (r: Vec<char>)
    requires
        p@.len() > 0,
    ensures
        r@ == trim_end_matches(s@, p@),
{
    let mut j: usize = s.len();
    assert(s@.take(j as int) =~= s@);
    loop
        invariant
            j <= s@.len(),
            p@.len() > 0,
            trim_end_matches(s@, p@) == trim_end_matches(s@.take(j as int), p@),
        ensures
            j <= s@.len(),
            trim_end_matches(s@, p@) == s@.take(j as int),
        decreases j,
    {
        if p.len() > j {
            assert(!ends_with(s@.take(j as int), p@));
            break;
        }
        let k = j - p.len();
        let ghost t = s@.take(j as int);
        assert(s@.skip(k as int).take(p@.len() as int) =~= t.skip(k as int));
        if !occurs_at(s, k, p) {
            assert(!ends_with(t, p@));
            break;
        }
        assert(ends_with(t, p@));
        assert(t.take(k as int) =~= s@.take(k as int));
        j = k;
    }
    assert(s@.subrange(0, j as int) =~= s@.take(j as int));
    slice_chars(s, 0, j)
}

/// Whether `pat` occurs somewhere in `s`.
pub open spec fn contains_seq(s: Seq<char>, pat: Seq<char>) -> bool {
    exists|i: int| 0 <= i && i + pat.len() <= s.len() && #[trigger] s.subrange(i, i + pat.len()) == pat
}

/// Whether `pat` occurs in `s` (`str::contains`).
pub fn contains_str(s: &[char], pat: &str) -> (r: bool)
    ensures
        r == contains_seq(s@, pat@),
{
    let p = chars_of(pat);
    let n = s.len();
    if p.len() == 0 {
        assert(s@.subrange(0int, 0int + pat@.len()) =~= pat@);
        return true;
    }
    if p.len() > n {
        return false;
    }
    let mut i: usize = 0;
    while i <= n - p.len()
        invariant
            p@ == pat@,
            p@.len() > 0,
            p@.len() <= n == s@.len(),
            i <= n - p@.len() + 1,
            forall|j: int| 0 <= j < i ==> #[trigger] s@.subrange(j, j + p@.len()) != pat@,
        decreases n - p.len() + 1 - i,
    {
        if occurs_at(s, i, p.as_slice()) {
            assert(s@.skip(i as int).take(p@.len() as int) =~= s@.subrange(i as int, i + p@.len()));
            return true;
        }
        assert(s@.skip(i as int).take(p@.len() as int) =~= s@.subrange(i as int, i + p@.len()));
        i += 1;
    }
    false
}

// ---------------------------------------------------------------------------
// Numbers
// ---------------------------------------------------------------------------

pub open spec fn digit_char(d: int) -> char {
    (48 + d) as char
}

/// The decimal digits of `n`, most significant first.
pub open spec fn nat_str(n: nat) -> Seq<char>
    decreases n,
{
    if n < 10 {
        seq![digit_char(n as int)]
    } else {
        nat_str(n / 10).push(digit_char((n % 10) as int))
    }
}

/// The decimal representation of `n`, with a leading '-' when negative (`i64::to_string`).
pub open spec fn int_str(n: int) -> Seq<char> {
    if n < 0 {
        seq!['-'] + nat_str((-n) as nat)
    } else {
        nat_str(n as nat)
    }
}

/// `10` to the power `k`.
pub open spec fn pow10(k: nat) -> nat
    decreases k,
{
    if k == 0 {
        1
    } else {
        10 * pow10((k - 1) as nat)
    }
}

/// A number below `10^k` has at most `k` digits (and always at least one).
pub proof fn lemma_nat_str_len(n: nat, k: nat)
    requires
        k >= 1,
        n < pow10(k),
    ensures
        1 <= nat_str(n).len() <= k,
    decreases n,
{
    if n >= 10 {
        assert(k >= 2) by {
            if k == 1 {
                assert(pow10(1) == 10 * pow10(0));
            }
        }
        let q = n / 10;
        assert(pow10(k) == 10 * pow10((k - 1) as nat));
        assert(q < pow10((k - 1) as nat)) by (nonlinear_arith)
            requires
                n < 10 * pow10((k - 1) as nat),
                q == n / 10,
        ;
        lemma_nat_str_len(q, (k - 1) as nat);
    }
}

/// The decimal text of an `i64` is at most 20 characters long.
pub proof fn lemma_int_str_len(n: int)
    requires
        i64::MIN <= n <= i64::MAX,
    ensures
        1 <= int_str(n).len() <= 20,
{
    reveal_with_fuel(pow10, 20);
    assert(pow10(19) == 10_000_000_000_000_000_000nat);
    if n < 0 {
        lemma_nat_str_len((-n) as nat, 19);
    } else {
        lemma_nat_str_len(n as nat, 19);
    }
}

pub fn nat_chars(n: u64) -> (r: Vec<char>)
    ensures
        r@ == nat_str(n as nat),
    decreases n,
{
    if n < 10 {
        let c = ((n as u8) + 48) as char;
        let mut r: Vec<char> = Vec::new();
        r.push(c);
        assert(r@ =~= seq![digit_char(n as int)]);
        r
    } else {
        let mut r = nat_chars(n / 10);
        let d = n % 10;
        let c = ((d as u8) + 48) as char;
        r.push(c);
        r
    }
}

pub fn int_chars(n: i64) -> (r: Vec<char>)
    ensures
        r@ == int_str(n as int),
{
    if n < 0 {
        let m: u64 = if n == i64::MIN {
            9223372036854775808u64
        } else {
            (-n) as u64
        };
        let digits = nat_chars(m);
        let mut r: Vec<char> = Vec::new();
        r.push('-');
        r.extend_from_slice(digits.as_slice());
        assert(r@ =~= seq!['-'] + nat_str((-n) as nat));
        r
    } else {
        nat_chars(n as u64)
    }
}

/// `i64::to_string`.
pub fn int_string(n: i64) -> (r: String)
    ensures
        r@ == int_str(n as int),
{
    let v = int_chars(n);
    string_of(v.as_slice())
}

pub open spec fn digit_val(c: char) -> int {
    (c as int) - 48
}

/// The value of a string of decimal digits.
pub open spec fn digits_val(d: Seq<char>) -> int
    decreases d.len(),
{
    if d.len() == 0 {
        0
    } else {
        digits_val(d.drop_last()) * 10 + digit_val(d.last())
    }
}

pub open spec fn all_digits(d: Seq<char>) -> bool {
    forall|i: int| 0 <= i < d.len() ==> is_digit(#[trigger] d[i])
}

/// What `str::parse::<i64>`-style integer parsing accepts: an optional '+' or
/// '-', then one or more ASCII digits. Range is not checked here.
pub open spec fn int_value(s: Seq<char>) -> Option<int> {
    let signed = s.len() > 0 && (s[0] == '+' || s[0] == '-');
    let d = if signed {
        s.drop_first()
    } else {
        s
    };
    if d.len() == 0 || !all_digits(d) {
        None
    } else if signed && s[0] == '-' {
        Some(-digits_val(d))
    } else {
        Some(digits_val(d))
    }
}

/// `str::parse::<i32>`: the value, when the text is an integer that fits.
pub open spec fn parse_i32(s: Seq<char>) -> Option<int> {
    match int_value(s) {
        Some(v) => if i32::MIN <= v <= i32::MAX {
            Some(v)
        } else {
            None
        },
        None => None,
    }
}

proof fn lemma_digits_val_nonneg(d: Seq<char>)
    requires
        all_digits(d),
    ensures
        digits_val(d) >= 0,
    decreases d.len(),
{
    if d.len() > 0 {
        assert(all_digits(d.drop_last()));
        lemma_digits_val_nonneg(d.drop_last());
        assert(is_digit(d[d.len() - 1]));
    }
}

proof fn lemma_digits_val_grows(d: Seq<char>, i: int, j: int)
    requires
        all_digits(d),
        0 <= i <= j <= d.len(),
    ensures
        digits_val(d.take(i)) <= digits_val(d.take(j)),
    decreases j - i,
{
    if i < j {
        lemma_digits_val_grows(d, i, j - 1);
        let t = d.take(j);
        assert(t.drop_last() =~= d.take(j - 1));
        assert(all_digits(d.take(j - 1)));
        lemma_digits_val_nonneg(d.take(j - 1));
        assert(is_digit(d[j - 1]));
    }
}

/// Parses a decimal `i32` as `str::parse::<i32>` does.
pub fn parse_i32_chars(s: &[char]) -> (r: Option<i32>)
    ensures
        match r {
            Some(v) => parse_i32(s@) == Some(v as int),
            None => parse_i32(s@) is None,
        },
{
    let n = s.len();
    let signed = n > 0 && (s[0] == '+' || s[0] == '-');
    let neg = signed && s[0] == '-';
    let start: usize = if signed {
        1
    } else {
        0
    };
    let ghost d = if signed {
        s@.drop_first()
    } else {
        s@
    };
    assert(d =~= s@.skip(start as int));
    if start == n {
        return None;
    }
    let mut acc: i64 = 0;
    let mut i = start;
    assert(!all_digits(d) ==> int_value(s@) is None);
    assert(all_digits(d) ==> int_value(s@) == Some(
        if neg {
            -digits_val(d)
        } else {
            digits_val(d)
        },
    ));
    while i < n
        invariant
            start <= i <= n == s@.len(),
            start < n,
            d == s@.skip(start as int),
            !all_digits(d) ==> int_value(s@) is None,
            all_digits(d) ==> int_value(s@) == Some(
                if neg {
                    -digits_val(d)
                } else {
                    digits_val(d)
                },
            ),
            all_digits(d.take(i - start)),
            acc == digits_val(d.take(i - start)),
            0 <= acc <= 2147483648,
        decreases n - i,
    {
        let c = s[i];
        assert(d[i - start] == c);
        if !is_ascii_digit(c) {
            assert(!all_digits(d));
            return None;
        }
        let ghost t = d.take(i - start + 1);
        assert(t.drop_last() =~= d.take(i - start));
        assert(all_digits(t));
        let v = (c as u32 - 48) as i64;
        assert(digits_val(t) == acc * 10 + v);
        if acc * 10 + v > 2147483648 {
            // Too large whatever follows, unless a non-digit makes it invalid anyway.
            let mut k = i + 1;
            while k < n
                invariant
                    start <= i < k <= n == s@.len(),
                    d == s@.skip(start as int),
                    !all_digits(d) ==> int_value(s@) is None,
                    all_digits(d) ==> int_value(s@) == Some(
                        if neg {
                            -digits_val(d)
                        } else {
                            digits_val(d)
                        },
                    ),
                    digits_val(d.take(i - start + 1)) > 2147483648,
                    all_digits(d.take(k - start)),
                decreases n - k,
            {
                assert(d[k - start] == s@[k as int]);
                if !is_ascii_digit(s[k]) {
                    assert(!all_digits(d));
                    return None;
                }
                assert(d.take(k - start + 1).drop_last() =~= d.take(k - start));
                k += 1;
            }
            assert(d.take(n - start) =~= d);
            proof {
                lemma_digits_val_grows(d, i - start + 1, d.len() as int);
            }
            return None;
        }
        acc = acc * 10 + v;
        i += 1;
    }
    assert(d.take(n - start) =~= d);
    if neg {
        Some((-acc) as i32)
    } else if acc > 2147483647 {
        None
    } else {
        Some(acc as i32)
    }
}

// ---------------------------------------------------------------------------
// Unicode case mapping (std)
// ---------------------------------------------------------------------------

/// What `str::to_lowercase` returns for a string: its Unicode lowercase mapping.
pub uninterp spec fn lowercase(s: Seq<char>) -> Seq<char>;

pub open spec fn all_ascii(s: Seq<char>) -> bool {
    forall|i: int| 0 <= i < s.len() ==> is_ascii(#[trigger] s[i])
}

pub open spec fn ascii_lowercase(s: Seq<char>) -> Seq<char> {
    s.map_values(|c: char| lower_ascii(c))
}

/// `str::to_lowercase` from std. The result is the named `lowercase`; on a
/// string of ASCII characters only 'A'..='Z' change (to 'a'..='z'), since no
/// other ASCII character has a lowercase mapping of its own.
#[verifier::external_body]
pub(crate) fn to_lowercase(s: &str) -> (r: String)
    ensures
        r@ == lowercase(s@),
        all_ascii(s@) ==> r@ == ascii_lowercase(s@),
{
    s.to_lowercase()
}

/// The lowercase mapping of a character sequence.
pub fn lowercase_chars(s: &[char]) -> (r: Vec<char>)
    ensures
        r@ == lowercase(s@),
        all_ascii(s@) ==> r@ == ascii_lowercase(s@),
{
    let st = string_of(s);
    let low = to_lowercase(st.as_str());
    chars_of(low.as_str())
}

// ---------------------------------------------------------------------------
// Laws of trimming, words and joining
// ---------------------------------------------------------------------------

/// No character of `s` is whitespace.
pub open spec fn ws_free(s: Seq<char>) -> bool {
    forall|i: int| 0 <= i < s.len() ==> !is_ws(#[trigger] s[i])
}

/// Every part is non-empty and free of whitespace.
pub open spec fn plain_words(ws: Seq<Seq<char>>) -> bool {
    forall|i: int| 0 <= i < ws.len() ==> (#[trigger] ws[i]).len() > 0 && ws_free(ws[i])
}

proof fn lemma_trim_start_shape(s: Seq<char>)
    ensures
        trim_start(s).len() <= s.len(),
        trim_start(s) == s.skip(s.len() - trim_start(s).len()),
        trim_start(s).len() == 0 || !is_ws(trim_start(s)[0]),
    decreases s.len(),
{
    if s.len() > 0 && is_ws(s[0]) {
        lemma_trim_start_shape(s.drop_first());
        let k = s.len() - trim_start(s).len();
        assert(s.drop_first().skip(k - 1) =~= s.skip(k));
    } else {
        assert(s.skip(0) =~= s);
    }
}

proof fn lemma_trim_end_shape(s: Seq<char>)
    ensures
        trim_end(s).len() <= s.len(),
        trim_end(s) == s.take(trim_end(s).len() as int),
        trim_end(s).len() == 0 || !is_ws(trim_end(s).last()),
    decreases s.len(),
{
    if s.len() > 0 && is_ws(s.last()) {
        lemma_trim_end_shape(s.drop_last());
        assert(s.drop_last().take(trim_end(s).len() as int) =~= s.take(trim_end(s).len() as int));
    } else {
        assert(s.take(s.len() as int) =~= s);
    }
}

/// Trimming twice is trimming once, and a trimmed text is empty or starts
/// and ends with a character that is not whitespace.
pub proof fn trim_idempotent(s: Seq<char>)
    ensures
        trim(trim(s)) == trim(s),
        trim(s).len() == 0 || (!is_ws(trim(s)[0]) && !is_ws(trim(s).last())),
{
    let a = trim_start(s);
    lemma_trim_start_shape(s);
    let b = trim_end(a);
    lemma_trim_end_shape(a);
    if b.len() > 0 {
        assert(b[0] == a.take(b.len() as int)[0]);
        assert(b[0] == a[0]);
    }
    assert(trim_start(b) == b);
    assert(trim_end(b) == b);
}

/// A text that is empty or starts and ends with non-whitespace is its own trim.
pub proof fn lemma_trim_fixed(s: Seq<char>)
    requires
        s.len() == 0 || (!is_ws(s[0]) && !is_ws(s.last())),
    ensures
        trim(s) == s,
{
    assert(trim_start(s) == s);
    assert(trim_end(s) == s);
}

/// The words of any text are non-empty and hold no whitespace.
pub proof fn lemma_words_from_plain(s: Seq<char>, cur: Seq<char>)
    requires
        ws_free(cur),
    ensures
        plain_words(words_from(s, cur)),
    decreases s.len(),
{
    if s.len() == 0 {
        if cur.len() > 0 {
            let one = seq![cur];
            assert(words_from(s, cur) == one);
            assert(one[0] == cur);
        }
    } else if is_ws(s[0]) {
        lemma_words_from_plain(s.drop_first(), seq![]);
        let rest = words_from(s.drop_first(), seq![]);
        if cur.len() > 0 {
            let all = seq![cur] + rest;
            assert(words_from(s, cur) == all);
            assert forall|i: int| 0 <= i < all.len() implies (#[trigger] all[i]).len() > 0
                && ws_free(all[i]) by {
                if i > 0 {
                    assert(all[i] == rest[i - 1]);
                } else {
                    assert(all[i] == cur);
                }
            }
        } else {
            assert(words_from(s, cur) == rest);
        }
    } else {
        let next = cur.push(s[0]);
        assert(ws_free(next)) by {
            assert forall|i: int| 0 <= i < next.len() implies !is_ws(#[trigger] next[i]) by {
                if i < cur.len() {
                    assert(next[i] == cur[i]);
                }
            }
        }
        lemma_words_from_plain(s.drop_first(), next);
        assert(words_from(s, cur) == words_from(s.drop_first(), next));
    }
}

proof fn lemma_words_plain_run(t: Seq<char>, r: Seq<char>, cur: Seq<char>)
    requires
        ws_free(t),
    ensures
        words_from(t + r, cur) == words_from(r, cur + t),
    decreases t.len(),
{
    if t.len() > 0 {
        assert((t + r)[0] == t[0]);
        assert((t + r).drop_first() =~= t.drop_first() + r);
        assert(ws_free(t.drop_first())) by {
            assert forall|i: int| 0 <= i < t.drop_first().len() implies !is_ws(
                #[trigger] t.drop_first()[i],
            ) by {
                assert(t.drop_first()[i] == t[i + 1]);
            }
        }
        assert(!is_ws(t[0]));
        lemma_words_plain_run(t.drop_first(), r, cur.push(t[0]));
        assert(cur.push(t[0]) + t.drop_first() =~= cur + t);
    } else {
        assert(t + r =~= r);
        assert(cur + t =~= cur);
    }
}

/// The words of parts joined by single spaces are the parts themselves.
pub proof fn lemma_words_join(parts: Seq<Seq<char>>)
    requires
        plain_words(parts),
    ensures
        words(join(parts, seq![' '])) == parts,
    decreases parts.len(),
{
    let e: Seq<char> = seq![];
    if parts.len() == 0 {
        assert(join(parts, seq![' ']) == e);
        assert(words(e) =~= parts);
    } else if parts.len() == 1 {
        assert(ws_free(parts[0]));
        lemma_words_plain_run(parts[0], e, e);
        assert(parts[0] + e =~= parts[0]);
        assert(e + parts[0] =~= parts[0]);
        assert(words(parts[0]) =~= parts);
    } else {
        let rest = parts.drop_first();
        lemma_join_front(parts, seq![' ']);
        assert forall|i: int| 0 <= i < rest.len() implies (#[trigger] rest[i]).len() > 0 && ws_free(
            rest[i],
        ) by {
            assert(rest[i] == parts[i + 1]);
        }
        lemma_words_join(rest);
        let tail = join(rest, seq![' ']);
        assert(ws_free(parts[0]));
        assert(parts[0] + seq![' '] + tail =~= parts[0] + (seq![' '] + tail));
        lemma_words_plain_run(parts[0], seq![' '] + tail, e);
        assert(e + parts[0] =~= parts[0]);
        let st = seq![' '] + tail;
        assert(st[0] == ' ');
        assert(is_ws(st[0]));
        assert(st.drop_first() =~= tail);
        assert(words_from(st, parts[0]) == seq![parts[0]] + words_from(tail, e));
        assert(seq![parts[0]] + rest =~= parts);
    }
}

/// `join` seen from the front: the first part, the separator, the rest joined.
pub proof fn lemma_join_front(parts: Seq<Seq<char>>, sep: Seq<char>)
    requires
        parts.len() >= 2,
    ensures
        join(parts, sep) == parts[0] + sep + join(parts.drop_first(), sep),
    decreases parts.len(),
{
    if parts.len() == 2 {
        assert(parts.drop_last() =~= seq![parts[0]]);
        assert(parts.drop_first() =~= seq![parts[1]]);
        assert(join(parts.drop_last(), sep) == parts[0]);
        assert(join(parts.drop_first(), sep) == parts[1]);
    } else {
        lemma_join_front(parts.drop_last(), sep);
        let j = join(parts.drop_last().drop_first(), sep);
        assert(parts.drop_last().drop_first() =~= parts.drop_first().drop_last());
        assert(parts.drop_last()[0] == parts[0]);
        assert(parts.drop_first().last() == parts.last());
        assert(join(parts.drop_first(), sep) == j + sep + parts.last());
        assert(parts[0] + sep + j + sep + parts.last() =~= parts[0] + sep + (j + sep
            + parts.last()));
    }
}

/// Plain words joined by a separator character that is not whitespace: the
/// result holds no whitespace, and is empty only when there are no words.
pub proof fn lemma_join_ws_free(parts: Seq<Seq<char>>, c: char)
    requires
        plain_words(parts),
        !is_ws(c),
    ensures
        ws_free(join(parts, seq![c])),
        parts.len() > 0 ==> join(parts, seq![c]).len() > 0,
    decreases parts.len(),
{
    if parts.len() == 1 {
        assert(ws_free(parts[0]));
    } else if parts.len() > 1 {
        let init = parts.drop_last();
        assert forall|i: int| 0 <= i < init.len() implies (#[trigger] init[i]).len() > 0 && ws_free(
            init[i],
        ) by {
            assert(init[i] == parts[i]);
        }
        lemma_join_ws_free(init, c);
        let j = join(init, seq![c]);
        let l = parts[parts.len() - 1];
        assert(ws_free(l));
        let r = j + seq![c] + l;
        assert forall|i: int| 0 <= i < r.len() implies !is_ws(#[trigger] r[i]) by {
            if i < j.len() {
                assert(r[i] == j[i]);
            } else if i == j.len() {
                assert(r[i] == c);
            } else {
                assert(r[i] == l[i - j.len() - 1]);
            }
        }
    }
}

/// Plain words joined by single spaces: the text starts and ends with a
/// non-whitespace character and has no two spaces in a row.
pub proof fn lemma_join_space_shape(parts: Seq<Seq<char>>)
    requires
        plain_words(parts),
        parts.len() > 0,
    ensures
        join(parts, seq![' ']).len() > 0,
        !is_ws(join(parts, seq![' '])[0]),
        !is_ws(join(parts, seq![' ']).last()),
        forall|i: int|
            0 <= i < join(parts, seq![' ']).len() - 1 ==> !(#[trigger] join(parts, seq![' '])[i]
                == ' ' && join(parts, seq![' '])[i + 1] == ' '),
    decreases parts.len(),
{
    let r = join(parts, seq![' ']);
    if parts.len() == 1 {
        assert(ws_free(parts[0]));
        assert(r == parts[0]);
        assert(!is_ws(r.last()));
        assert forall|i: int| 0 <= i < r.len() - 1 implies !(#[trigger] r[i] == ' ' && r[i + 1]
            == ' ') by {
            assert(!is_ws(r[i]));
        }
    } else {
        let init = parts.drop_last();
        assert forall|i: int| 0 <= i < init.len() implies (#[trigger] init[i]).len() > 0 && ws_free(
            init[i],
        ) by {
            assert(init[i] == parts[i]);
        }
        lemma_join_space_shape(init);
        let j = join(init, seq![' ']);
        let l = parts[parts.len() - 1];
        assert(l.len() > 0 && ws_free(l));
        assert(r == j + seq![' '] + l);
        assert(r[0] == j[0]);
        assert(r.last() == l.last());
        assert(!is_ws(l[l.len() - 1]));
        assert forall|i: int| 0 <= i < r.len() - 1 implies !(#[trigger] r[i] == ' ' && r[i + 1]
            == ' ') by {
            if i < j.len() - 1 {
                assert(r[i] == j[i] && r[i + 1] == j[i + 1]);
            } else if i == j.len() - 1 {
                assert(r[i] == j.last());
            } else if i == j.len() {
                assert(r[i + 1] == l[0]);
                assert(!is_ws(l[0]));
            } else {
                assert(r[i] == l[i - j.len() - 1]);
                assert(!is_ws(l[i - j.len() - 1]));
            }
        }
    }
}

/// `squish` keeps the words, is idempotent, leaves no whitespace at either
/// end and never two spaces in a row.
pub proof fn squish_laws(s: Seq<char>)
    ensures
        words(squish(s)) == words(s),
        squish(squish(s)) == squish(s),
        squish(s) == trim(squish(s)),
        forall|i: int| 0 <= i < squish(s).len() - 1 ==> !(#[trigger] squish(s)[i] == ' ' && squish(s)[
            i + 1] == ' '),
{
    let e: Seq<char> = seq![];
    lemma_words_from_plain(s, e);
    lemma_words_join(words(s));
    let r = squish(s);
    if words(s).len() > 0 {
        lemma_join_space_shape(words(s));
        lemma_trim_fixed(r);
    } else {
        assert(r == e);
        lemma_trim_fixed(r);
    }
}

/// Every character of `s` has the property `p`.
pub open spec fn chars_all(s: Seq<char>, p: spec_fn(char) -> bool) -> bool {
    forall|i: int| 0 <= i < s.len() ==> p(#[trigger] s[i])
}

pub proof fn lemma_chars_all_concat(a: Seq<char>, b: Seq<char>, p: spec_fn(char) -> bool)
    requires
        chars_all(a, p),
        chars_all(b, p),
    ensures
        chars_all(a + b, p),
{
    assert forall|i: int| 0 <= i < (a + b).len() implies p(#[trigger] (a + b)[i]) by {
        if i < a.len() {
            assert((a + b)[i] == a[i]);
        } else {
            assert((a + b)[i] == b[i - a.len()]);
        }
    }
}

proof fn lemma_chars_all_rest(s: Seq<char>, p: spec_fn(char) -> bool)
    requires
        s.len() > 0,
        chars_all(s, p),
    ensures
        chars_all(s.drop_first(), p),
        chars_all(s.drop_last(), p),
        p(s[0]),
        p(s.last()),
{
    assert forall|i: int| 0 <= i < s.drop_first().len() implies p(#[trigger] s.drop_first()[i]) by {
        assert(s.drop_first()[i] == s[i + 1]);
    }
    assert forall|i: int| 0 <= i < s.drop_last().len() implies p(#[trigger] s.drop_last()[i]) by {
        assert(s.drop_last()[i] == s[i]);
    }
}

proof fn lemma_chars_all_push(s: Seq<char>, c: char, p: spec_fn(char) -> bool)
    requires
        chars_all(s, p),
        p(c),
    ensures
        chars_all(s.push(c), p),
{
    assert forall|i: int| 0 <= i < s.push(c).len() implies p(#[trigger] s.push(c)[i]) by {
        if i < s.len() {
            assert(s.push(c)[i] == s[i]);
        }
    }
}

/// The words of a text whose characters all have a property have it too.
pub proof fn lemma_words_chars_all(s: Seq<char>, cur: Seq<char>, p: spec_fn(char) -> bool)
    requires
        chars_all(s, p),
        chars_all(cur, p),
    ensures
        forall|i: int|
            0 <= i < words_from(s, cur).len() ==> chars_all(#[trigger] words_from(s, cur)[i], p),
    decreases s.len(),
{
    if s.len() == 0 {
        if cur.len() > 0 {
            let one = seq![cur];
            assert(words_from(s, cur) == one);
            assert(one[0] == cur);
        }
    } else {
        lemma_chars_all_rest(s, p);
        if is_ws(s[0]) {
            let e: Seq<char> = seq![];
            lemma_words_chars_all(s.drop_first(), e, p);
            let rest = words_from(s.drop_first(), e);
            if cur.len() > 0 {
                let all = seq![cur] + rest;
                assert(words_from(s, cur) == all);
                assert forall|i: int| 0 <= i < all.len() implies chars_all(#[trigger] all[i], p) by {
                    if i > 0 {
                        assert(all[i] == rest[i - 1]);
                    } else {
                        assert(all[i] == cur);
                    }
                }
            } else {
                assert(words_from(s, cur) == rest);
            }
        } else {
            lemma_chars_all_push(cur, s[0], p);
            lemma_words_chars_all(s.drop_first(), cur.push(s[0]), p);
            assert(words_from(s, cur) == words_from(s.drop_first(), cur.push(s[0])));
        }
    }
}

/// The pieces of a split of a text whose characters all have a property have it too.
pub proof fn lemma_split_chars_all(
    s: Seq<char>,
    pat: Seq<char>,
    cur: Seq<char>,
    p: spec_fn(char) -> bool,
)
    requires
        chars_all(s, p),
        chars_all(cur, p),
    ensures
        forall|i: int|
            0 <= i < split_from(s, pat, cur).len() ==> chars_all(
                #[trigger] split_from(s, pat, cur)[i],
                p,
            ),
    decreases s.len(),
{
    if s.len() == 0 {
        let one = seq![cur];
        assert(split_from(s, pat, cur) == one);
        assert(one[0] == cur);
    } else if pat.len() > 0 && starts_with(s, pat) {
        let e: Seq<char> = seq![];
        let rest_s = s.skip(pat.len() as int);
        assert(chars_all(rest_s, p)) by {
            assert forall|i: int| 0 <= i < rest_s.len() implies p(#[trigger] rest_s[i]) by {
                assert(rest_s[i] == s[i + pat.len()]);
            }
        }
        lemma_split_chars_all(rest_s, pat, e, p);
        let rest = split_from(rest_s, pat, e);
        let all = seq![cur] + rest;
        assert(split_from(s, pat, cur) == all);
        assert forall|i: int| 0 <= i < all.len() implies chars_all(#[trigger] all[i], p) by {
            if i > 0 {
                assert(all[i] == rest[i - 1]);
            } else {
                assert(all[i] == cur);
            }
        }
    } else {
        lemma_chars_all_rest(s, p);
        lemma_chars_all_push(cur, s[0], p);
        lemma_split_chars_all(s.drop_first(), pat, cur.push(s[0]), p);
        assert(split_from(s, pat, cur) == split_from(s.drop_first(), pat, cur.push(s[0])));
    }
}

/// Parts and separator whose characters all have a property join into a text that has it.
pub proof fn lemma_join_chars_all(parts: Seq<Seq<char>>, sep: Seq<char>, p: spec_fn(char) -> bool)
    requires
        forall|i: int| 0 <= i < parts.len() ==> chars_all(#[trigger] parts[i], p),
        chars_all(sep, p),
    ensures
        chars_all(join(parts, sep), p),
    decreases parts.len(),
{
    if parts.len() == 1 {
        assert(chars_all(parts[0], p));
    } else if parts.len() > 1 {
        let init = parts.drop_last();
        assert forall|i: int| 0 <= i < init.len() implies chars_all(#[trigger] init[i], p) by {
            assert(init[i] == parts[i]);
        }
        lemma_join_chars_all(init, sep, p);
        assert(chars_all(parts[parts.len() - 1], p));
        lemma_chars_all_concat(join(init, sep), sep, p);
        lemma_chars_all_concat(join(init, sep) + sep, parts.last(), p);
    }
}

/// Trimming keeps a property of all characters.
pub proof fn lemma_trim_chars_all(s: Seq<char>, p: spec_fn(char) -> bool)
    requires
        chars_all(s, p),
    ensures
        chars_all(trim(s), p),
{
    lemma_trim_start_shape(s);
    let a = trim_start(s);
    assert forall|i: int| 0 <= i < a.len() implies p(#[trigger] a[i]) by {
        assert(a[i] == s[i + s.len() - a.len()]);
    }
    lemma_trim_end_shape(a);
    let b = trim_end(a);
    assert forall|i: int| 0 <= i < b.len() implies p(#[trigger] b[i]) by {
        assert(b[i] == a[i]);
    }
}

/// Removing a character keeps a property of all the others, and leaves none
/// of the removed one.
pub proof fn lemma_remove_char_chars_all(s: Seq<char>, c: char, p: spec_fn(char) -> bool)
    requires
        chars_all(s, p),
    ensures
        chars_all(remove_char(s, c), p),
        chars_all(remove_char(s, c), |x: char| x != c),
    decreases s.len(),
{
    if s.len() > 0 {
        lemma_chars_all_rest(s, p);
        lemma_remove_char_chars_all(s.drop_first(), c, p);
        if s[0] != c {
            let one: Seq<char> = seq![s[0]];
            lemma_chars_all_concat(one, remove_char(s.drop_first(), c), p);
            lemma_chars_all_concat(one, remove_char(s.drop_first(), c), |x: char| x != c);
        }
    }
}

/// Removing a character that does not occur changes nothing.
pub proof fn lemma_remove_char_absent(s: Seq<char>, c: char)
    requires
        chars_all(s, |x: char| x != c),
    ensures
        remove_char(s, c) == s,
    decreases s.len(),
{
    if s.len() > 0 {
        lemma_chars_all_rest(s, |x: char| x != c);
        lemma_remove_char_absent(s.drop_first(), c);
        assert(seq![s[0]] + s.drop_first() =~= s);
    }
}

/// The words of a non-empty text without whitespace are that text alone.
pub proof fn lemma_words_single(s: Seq<char>)
    requires
        ws_free(s),
    ensures
        words(s) == (if s.len() > 0 {
            seq![s]
        } else {
            Seq::<Seq<char>>::empty()
        }),
{
    let e: Seq<char> = seq![];
    lemma_words_plain_run(s, e, e);
    assert(s + e =~= s);
    assert(e + s =~= s);
}

/// `join` with one more part at the end.
pub proof fn lemma_join_push(a: Seq<Seq<char>>, x: Seq<char>, sep: Seq<char>)
    ensures
        join(a.push(x), sep) == if a.len() == 0 {
            x
        } else {
            join(a, sep) + sep + x
        },
{
    assert(a.push(x).drop_last() =~= a);
    if a.len() == 0 {
        assert(a.push(x)[0] == x);
    }
}

/// Joining two non-empty lists of parts is joining each and putting the
/// separator between.
pub proof fn lemma_join_append(a: Seq<Seq<char>>, b: Seq<Seq<char>>, sep: Seq<char>)
    requires
        a.len() > 0,
        b.len() > 0,
    ensures
        join(a + b, sep) == join(a, sep) + sep + join(b, sep),
    decreases b.len(),
{
    if b.len() == 1 {
        assert(a + b =~= a.push(b[0]));
        lemma_join_push(a, b[0], sep);
    } else {
        let bl = b.drop_last();
        assert(a + b =~= (a + bl).push(b.last()));
        lemma_join_push(a + bl, b.last(), sep);
        lemma_join_append(a, bl, sep);
        lemma_join_push(bl, b.last(), sep);
        assert(bl.push(b.last()) =~= b);
        assert(join(a, sep) + sep + join(bl, sep) + sep + b.last() =~= join(a, sep) + sep + (join(
            bl,
            sep,
        ) + sep + b.last()));
    }
}


proof fn lemma_split_plain(t: Seq<char>, r: Seq<char>, cur: Seq<char>, c: char)
    requires
        !t.contains(c),
    ensures
        split_from(t + r, seq![c], cur) == split_from(r, seq![c], cur + t),
    decreases t.len(),
{
    if t.len() > 0 {
        assert((t + r)[0] == t[0]);
        assert(!starts_with(t + r, seq![c])) by {
            if starts_with(t + r, seq![c]) {
                assert((t + r).take(1)[0] == c);
                assert(t[0] == c);
                assert(t.contains(c));
            }
        }
        assert((t + r).drop_first() =~= t.drop_first() + r);
        assert(!t.drop_first().contains(c)) by {
            if t.drop_first().contains(c) {
                let k = choose|k: int| 0 <= k < t.drop_first().len() && t.drop_first()[k] == c;
                assert(t[k + 1] == c);
            }
        }
        lemma_split_plain(t.drop_first(), r, cur.push(t[0]), c);
        assert(cur.push(t[0]) + t.drop_first() =~= cur + t);
    } else {
        assert(t + r =~= r);
        assert(cur + t =~= cur);
    }
}

proof fn lemma_split_sep(r: Seq<char>, cur: Seq<char>, c: char)
    ensures
        split_from(seq![c] + r, seq![c], cur) == seq![cur] + split_from(r, seq![c], seq![]),
{
    let s = seq![c] + r;
    assert(s.take(1) =~= seq![c]);
    assert(s.skip(1) =~= r);
}

proof fn lemma_split_end(t: Seq<char>, cur: Seq<char>, c: char)
    requires
        !t.contains(c),
    ensures
        split_from(t, seq![c], cur) == seq![cur + t],
{
    lemma_split_plain(t, seq![], cur, c);
    assert(t + seq![] =~= t);
}

/// Splitting parts joined by a character that none of them holds gives the parts back.
pub proof fn lemma_split_join(parts: Seq<Seq<char>>, c: char)
    requires
        parts.len() > 0,
        forall|i: int| 0 <= i < parts.len() ==> !(#[trigger] parts[i]).contains(c),
    ensures
        split(join(parts, seq![c]), seq![c]) == parts,
    decreases parts.len(),
{
    if parts.len() == 1 {
        lemma_split_end(parts[0], seq![], c);
        assert(seq![] + parts[0] =~= parts[0]);
        assert(seq![parts[0]] =~= parts);
    } else {
        let rest = parts.drop_first();
        lemma_join_front(parts, seq![c]);
        assert forall|i: int| 0 <= i < rest.len() implies !(#[trigger] rest[i]).contains(c) by {
            assert(rest[i] == parts[i + 1]);
        }
        lemma_split_join(rest, c);
        let tail = join(rest, seq![c]);
        assert(parts[0] + seq![c] + tail =~= parts[0] + (seq![c] + tail));
        lemma_split_plain(parts[0], seq![c] + tail, seq![], c);
        lemma_split_sep(tail, seq![] + parts[0], c);
        assert(seq![] + parts[0] =~= parts[0]);
        assert(seq![parts[0]] + rest =~= parts);
    }
}


/// Not holding `c` is having every character other than `c`.
pub proof fn lemma_contains_chars_all(x: Seq<char>, c: char)
    ensures
        !x.contains(c) <==> chars_all(x, |y: char| y != c),
{
    if x.contains(c) {
        let k = choose|k: int| 0 <= k < x.len() && x[k] == c;
        assert(!(|y: char| y != c)(x[k]));
    }
    if !chars_all(x, |y: char| y != c) {
        let k = choose|k: int| 0 <= k < x.len() && !(|y: char| y != c)(#[trigger] x[k]);
        assert(x[k] == c);
    }
}

} // verus!
