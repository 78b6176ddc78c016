//! BibTeX: export of papers, and a tolerant import parser (brace counting,
//! TeX accent decoding).

use vstd::prelude::*;
use unicode_normalization::UnicodeNormalization;
use crate::text::{
    chars_of, eq_str, find, find_char, is_alpha, is_ascii_alphabetic, is_ws, is_whitespace, join,
    lowercase, lowercase_chars, remove_char, remove_char_chars, replace, replace_chars, slice_chars,
    squish, squish_chars, starts_with, str_eq, string_of, trim, trim_chars, is_lower, is_alnum,
    is_ascii, all_ascii, ascii_lowercase, is_ascii_alphanumeric, int_str, int_chars, words,
    words_of, views, int_string, contains_seq, contains_str, is_digit, nat_str,
};
use crate::model::{
    Paper, author_names, last_name_of, last_name, strs_view, strings_view, contains_string,
};

verus! {

// ---------------------------------------------------------------------------
// Brace balance and escaping
// ---------------------------------------------------------------------------

pub open spec fn brace_step(c: char) -> int {
    if c == '{' {
        1
    } else if c == '}' {
        -1
    } else {
        0
    }
}

/// Opening braces minus closing braces.
pub open spec fn brace_net(s: Seq<char>) -> int
    decreases s.len(),
{
    if s.len() == 0 {
        0
    } else {
        brace_step(s[0]) + brace_net(s.drop_first())
    }
}

/// Starting at depth `d`, the brace depth never drops below zero.
pub open spec fn never_below(s: Seq<char>, d: int) -> bool
    decreases s.len(),
{
    if s.len() == 0 {
        true
    } else {
        d + brace_step(s[0]) >= 0 && never_below(s.drop_first(), d + brace_step(s[0]))
    }
}

/// Every '}' closes an earlier '{' and every '{' is closed.
pub open spec fn balanced(s: Seq<char>) -> bool {
    never_below(s, 0) && brace_net(s) == 0
}

pub open spec fn no_braces(s: Seq<char>) -> bool {
    forall|i: int| 0 <= i < s.len() ==> s[i] != '{' && s[i] != '}'
}

pub proof fn lemma_concat_braces(x: Seq<char>, y: Seq<char>, d: int)
    ensures
        brace_net(x + y) == brace_net(x) + brace_net(y),
        never_below(x + y, d) == (never_below(x, d) && never_below(y, d + brace_net(x))),
    decreases x.len(),
{
    if x.len() == 0 {
        assert(x + y =~= y);
    } else {
        assert((x + y).drop_first() =~= x.drop_first() + y);
        assert((x + y)[0] == x[0]);
        lemma_concat_braces(x.drop_first(), y, d + brace_step(x[0]));
    }
}

pub proof fn lemma_never_below_mono(x: Seq<char>, d1: int, d2: int)
    requires
        d1 <= d2,
        never_below(x, d1),
    ensures
        never_below(x, d2),
    decreases x.len(),
{
    if x.len() > 0 {
        lemma_never_below_mono(x.drop_first(), d1 + brace_step(x[0]), d2 + brace_step(x[0]));
    }
}

pub proof fn lemma_no_braces_balanced(s: Seq<char>, d: int)
    requires
        no_braces(s),
        d >= 0,
    ensures
        never_below(s, d),
        brace_net(s) == 0,
    decreases s.len(),
{
    if s.len() > 0 {
        assert(no_braces(s.drop_first()));
        lemma_no_braces_balanced(s.drop_first(), d);
    }
}

/// A balanced piece in front changes nothing about the balance of what follows.
pub proof fn lemma_balanced_prefix(x: Seq<char>, y: Seq<char>, d: int)
    requires
        balanced(x),
        d >= 0,
    ensures
        never_below(x + y, d) == never_below(y, d),
        brace_net(x + y) == brace_net(y),
{
    lemma_concat_braces(x, y, d);
    lemma_never_below_mono(x, 0, d);
}

/// Replacing a balanced pattern by a balanced text keeps the balance.
pub proof fn lemma_replace_balance(s: Seq<char>, pat: Seq<char>, rep: Seq<char>, d: int)
    requires
        balanced(pat),
        balanced(rep),
        d >= 0,
    ensures
        never_below(replace(s, pat, rep), d) == never_below(s, d),
        brace_net(replace(s, pat, rep)) == brace_net(s),
    decreases s.len(),
{
    if s.len() == 0 {
    } else if pat.len() > 0 && starts_with(s, pat) {
        let rest = s.skip(pat.len() as int);
        assert(s =~= pat + rest);
        lemma_replace_balance(rest, pat, rep, d);
        lemma_balanced_prefix(rep, replace(rest, pat, rep), d);
        lemma_balanced_prefix(pat, rest, d);
    } else {
        let c = s[0];
        let r = replace(s.drop_first(), pat, rep);
        assert((seq![c] + r).drop_first() =~= r);
        assert((seq![c] + r)[0] == c);
        if d + brace_step(c) >= 0 {
            lemma_replace_balance(s.drop_first(), pat, rep, d + brace_step(c));
        } else {
            lemma_replace_balance(s.drop_first(), pat, rep, 0);
        }
    }
}

pub proof fn lemma_remove_char_keeps(s: Seq<char>, c: char, x: char)
    requires
        x != c,
        forall|i: int| 0 <= i < s.len() ==> s[i] != x,
    ensures
        forall|i: int| 0 <= i < remove_char(s, c).len() ==> remove_char(s, c)[i] != x,
        forall|i: int| 0 <= i < remove_char(s, c).len() ==> remove_char(s, c)[i] != c,
    decreases s.len(),
{
    if s.len() > 0 {
        lemma_remove_char_keeps(s.drop_first(), c, x);
        let r = remove_char(s.drop_first(), c);
        assert(s[0] != x);
        if s[0] != c {
            assert forall|i: int| 0 <= i < (seq![s[0]] + r).len() implies (seq![s[0]] + r)[i]
                != x && (seq![s[0]] + r)[i] != c by {
                if i > 0 {
                    assert((seq![s[0]] + r)[i] == r[i - 1]);
                }
            }
        }
    }
}

pub proof fn lemma_remove_char_gone(s: Seq<char>, c: char)
    ensures
        forall|i: int| 0 <= i < remove_char(s, c).len() ==> remove_char(s, c)[i] != c,
    decreases s.len(),
{
    if s.len() > 0 {
        lemma_remove_char_gone(s.drop_first(), c);
        let r = remove_char(s.drop_first(), c);
        if s[0] != c {
            assert forall|i: int| 0 <= i < (seq![s[0]] + r).len() implies (seq![s[0]] + r)[i]
                != c by {
                if i > 0 {
                    assert((seq![s[0]] + r)[i] == r[i - 1]);
                }
            }
        }
    }
}

/// Braces are kept when balanced (protective `{DNA}`) and dropped otherwise,
/// then the characters that commonly break BibTeX are escaped.
pub open spec fn bib_escaped(s: Seq<char>) -> Seq<char> {
    let t = if balanced(s) {
        s
    } else {
        remove_char(remove_char(s, '{'), '}')
    };
    replace(
        replace(
            replace(replace(replace(t, "\\"@, "\\textbackslash{}"@), "&"@, "\\&"@), "%"@, "\\%"@),
            "#"@,
            "\\#"@,
        ),
        "_"@,
        "\\_"@,
    )
}

/// Whether every brace in `s` is matched.
pub fn braces_balanced(s: &str) -> (r: bool)
    ensures
        r == balanced(s@),
{
    let v = chars_of(s);
    let n = v.len();
    let mut depth: usize = 0;
    let mut i: usize = 0;
    assert(v@.skip(0) =~= v@);
    while i < n
        invariant
            i <= n == v@.len(),
            v@ == s@,
            depth <= i,
            balanced(v@) == (never_below(v@.skip(i as int), depth as int) && depth + brace_net(
                v@.skip(i as int),
            ) == 0),
        decreases n - i,
    {
        let ghost rest = v@.skip(i as int);
        assert(rest[0] == v@[i as int]);
        assert(rest.drop_first() =~= v@.skip(i + 1));
        if v[i] == '{' {
            depth += 1;
        } else if v[i] == '}' {
            if depth == 0 {
                assert(brace_step(rest[0]) == -1);
                assert(!never_below(rest, depth as int));
                return false;
            }
            depth -= 1;
        }
        i += 1;
    }
    assert(v@.skip(n as int) =~= seq![]);
    depth == 0
}

fn replace_text(s: Vec<char>, pat: &str, rep: &str) -> (r: Vec<char>)
    requires
        pat@.len() > 0,
    ensures
        r@ == replace(s@, pat@, rep@),
{
    let p = chars_of(pat);
    let q = chars_of(rep);
    replace_chars(s.as_slice(), p.as_slice(), q.as_slice())
}

/// Escape a value for a BibTeX field.
pub fn bib_escape(s: &str) -> (r: String)
    ensures
        r@ == bib_escaped(s@),
{
    proof {
        reveal_strlit("\\");
        reveal_strlit("&");
        reveal_strlit("%");
        reveal_strlit("#");
        reveal_strlit("_");
    }
    let v = chars_of(s);
    let t = if braces_balanced(s) {
        v
    } else {
        let a = remove_char_chars(v.as_slice(), '{');
        remove_char_chars(a.as_slice(), '}')
    };
    let t = replace_text(t, "\\", "\\textbackslash{}");
    let t = replace_text(t, "&", "\\&");
    let t = replace_text(t, "%", "\\%");
    let t = replace_text(t, "#", "\\#");
    let t = replace_text(t, "_", "\\_");
    string_of(t.as_slice())
}

proof fn lemma_replace_absent(s: Seq<char>, c: char, rep: Seq<char>)
    requires
        crate::text::chars_all(s, |x: char| x != c),
    ensures
        replace(s, seq![c], rep) == s,
    decreases s.len(),
{
    if s.len() > 0 {
        assert(s[0] != c);
        assert(!starts_with(s, seq![c])) by {
            if starts_with(s, seq![c]) {
                assert(s.take(1)[0] == s[0]);
            }
        }
        let r = s.drop_first();
        assert(crate::text::chars_all(r, |x: char| x != c)) by {
            assert forall|i: int| 0 <= i < r.len() implies (|x: char| x != c)(#[trigger] r[i]) by {
                assert(r[i] == s[i + 1]);
            }
        }
        lemma_replace_absent(r, c, rep);
        assert(seq![s[0]] + r =~= s);
    }
}

/// A character that `bib_escape` rewrites: a backslash, '&', '%', '#' or '_'.
pub open spec fn bib_special(c: char) -> bool {
    c == '\\' || c == '&' || c == '%' || c == '#' || c == '_'
}

/// A value with balanced braces and none of the characters that need
/// escaping is written as it is.
pub proof fn bib_escape_keeps_plain_text(s: Seq<char>)
    requires
        balanced(s),
        forall|i: int| 0 <= i < s.len() ==> !bib_special(#[trigger] s[i]),
    ensures
        bib_escaped(s) == s,
{
    reveal_strlit("\\");
    reveal_strlit("&");
    reveal_strlit("%");
    reveal_strlit("#");
    reveal_strlit("_");
    assert("\\"@ =~= seq!['\\']);
    assert("&"@ =~= seq!['&']);
    assert("%"@ =~= seq!['%']);
    assert("#"@ =~= seq!['#']);
    assert("_"@ =~= seq!['_']);
    assert forall|i: int| 0 <= i < s.len() implies (|x: char| x != '\\')(#[trigger] s[i]) && (|
        x: char,
    | x != '&')(s[i]) && (|x: char| x != '%')(s[i]) && (|x: char| x != '#')(s[i]) && (|x: char|
        x != '_')(s[i]) by {
        assert(!bib_special(s[i]));
    }
    lemma_replace_absent(s, '\\', "\\textbackslash{}"@);
    lemma_replace_absent(s, '&', "\\&"@);
    lemma_replace_absent(s, '%', "\\%"@);
    lemma_replace_absent(s, '#', "\\#"@);
    lemma_replace_absent(s, '_', "\\_"@);
}

proof fn lemma_literal_balanced(s: Seq<char>)
    requires
        no_braces(s),
    ensures
        balanced(s),
{
    lemma_no_braces_balanced(s, 0);
}

/// Whatever the input, an escaped field value is brace-balanced, so it can
/// never end its field early.
pub proof fn bib_escape_balanced(s: Seq<char>)
    ensures
        balanced(bib_escaped(s)),
{
    reveal_strlit("\\");
    reveal_strlit("\\textbackslash");
    reveal_strlit("\\textbackslash{}");
    reveal_strlit("&");
    reveal_strlit("\\&");
    reveal_strlit("%");
    reveal_strlit("\\%");
    reveal_strlit("#");
    reveal_strlit("\\#");
    reveal_strlit("_");
    reveal_strlit("\\_");
    let t = if balanced(s) {
        s
    } else {
        remove_char(remove_char(s, '{'), '}')
    };
    if !balanced(s) {
        lemma_remove_char_gone(s, '{');
        lemma_remove_char_keeps(remove_char(s, '{'), '}', '{');
        lemma_no_braces_balanced(t, 0);
    }
    assert(balanced(t));
    let tb = "\\textbackslash"@;
    assert(no_braces(tb));
    lemma_literal_balanced(tb);
    assert(balanced(seq!['{', '}'])) by {
        reveal_with_fuel(never_below, 3);
        reveal_with_fuel(brace_net, 3);
    }
    assert("\\textbackslash{}"@ =~= tb + seq!['{', '}']);
    lemma_concat_braces(tb, seq!['{', '}'], 0);
    lemma_literal_balanced("\\"@);
    lemma_literal_balanced("&"@);
    lemma_literal_balanced("\\&"@);
    lemma_literal_balanced("%"@);
    lemma_literal_balanced("\\%"@);
    lemma_literal_balanced("#"@);
    lemma_literal_balanced("\\#"@);
    lemma_literal_balanced("_"@);
    lemma_literal_balanced("\\_"@);
    let t1 = replace(t, "\\"@, "\\textbackslash{}"@);
    lemma_replace_balance(t, "\\"@, "\\textbackslash{}"@, 0);
    let t2 = replace(t1, "&"@, "\\&"@);
    lemma_replace_balance(t1, "&"@, "\\&"@, 0);
    let t3 = replace(t2, "%"@, "\\%"@);
    lemma_replace_balance(t2, "%"@, "\\%"@, 0);
    let t4 = replace(t3, "#"@, "\\#"@);
    lemma_replace_balance(t3, "#"@, "\\#"@, 0);
    lemma_replace_balance(t4, "_"@, "\\_"@, 0);
}

// ---------------------------------------------------------------------------
// Cite keys
// ---------------------------------------------------------------------------

/// 1 -> "a", 2 -> "b", ... 26 -> "z", 27 -> "aa": bijective base-26 in letters.
pub open spec fn suffix_of(n: nat) -> Seq<char>
    decreases n,
{
    if n == 0 {
        seq![]
    } else {
        suffix_of(((n - 1) / 26) as nat).push((97 + (n - 1) % 26) as char)
    }
}

fn suffix_chars(n: u128) -> (r: Vec<char>)
    ensures
        r@ == suffix_of(n as nat),
    decreases n,
{
    if n == 0 {
        Vec::new()
    } else {
        let mut r = suffix_chars((n - 1) / 26);
        let d = ((n - 1) % 26) as u8;
        r.push((97 + d) as char);
        r
    }
}

/// 1 -> "a", 2 -> "b", ... 26 -> "z", 27 -> "aa" (never produces non-letters,
/// no matter how many keys collide).
pub fn bijective_suffix(n: usize) -> (r: String)
    ensures
        r@ == suffix_of(n as nat),
{
    let v = suffix_chars(n as u128);
    string_of(v.as_slice())
}

/// Different numbers have different suffixes.
pub proof fn suffix_injective(a: nat, b: nat)
    requires
        suffix_of(a) == suffix_of(b),
    ensures
        a == b,
    decreases a + b,
{
    if a == 0 || b == 0 {
        if a != b {
            let m = if a == 0 {
                b
            } else {
                a
            };
            assert(suffix_of(m) == suffix_of(((m - 1) / 26) as nat).push(
                (97 + (m - 1) % 26) as char,
            ));
            assert(suffix_of(m).len() > 0);
            assert(suffix_of(0).len() == 0);
        }
    } else {
        let pa = ((a - 1) / 26) as nat;
        let pb = ((b - 1) / 26) as nat;
        let sa = suffix_of(a);
        let sb = suffix_of(b);
        assert(sa.last() == sb.last());
        assert(sa.last() == (97 + (a - 1) % 26) as char);
        assert(((97 + (a - 1) % 26) as char) as int == 97 + (a - 1) % 26);
        assert(((97 + (b - 1) % 26) as char) as int == 97 + (b - 1) % 26);
        assert((a - 1) % 26 == (b - 1) % 26);
        assert(sa.drop_last() =~= suffix_of(pa));
        assert(sb.drop_last() =~= suffix_of(pb));
        suffix_injective(pa, pb);
    }
}

/// Every suffix is made of lowercase ASCII letters.
pub proof fn suffix_letters(n: nat)
    ensures
        forall|i: int| 0 <= i < suffix_of(n).len() ==> is_lower(#[trigger] suffix_of(n)[i]),
    decreases n,
{
    if n > 0 {
        let pre = suffix_of(((n - 1) / 26) as nat);
        suffix_letters(((n - 1) / 26) as nat);
        let c = (97 + (n - 1) % 26) as char;
        assert(c as int == 97 + (n - 1) % 26);
        assert forall|i: int| 0 <= i < suffix_of(n).len() implies is_lower(
            #[trigger] suffix_of(n)[i],
        ) by {
            if i < pre.len() {
                assert(suffix_of(n)[i] == pre[i]);
            } else {
                assert(suffix_of(n)[i] == c);
            }
        }
    }
}

/// The `m`-th candidate key for a base: the base itself, then base+"b", base+"c", ...
pub open spec fn candidate(base: Seq<char>, m: nat) -> Seq<char> {
    if m <= 1 {
        base
    } else {
        base + suffix_of(m)
    }
}

pub proof fn lemma_candidate_injective(base: Seq<char>, a: nat, b: nat)
    requires
        a >= 1,
        b >= 1,
        candidate(base, a) == candidate(base, b),
    ensures
        a == b,
{
    if a > 1 && b > 1 {
        assert(suffix_of(a) =~= candidate(base, a).skip(base.len() as int));
        assert(suffix_of(b) =~= candidate(base, b).skip(base.len() as int));
        suffix_injective(a, b);
    } else if a != b {
        let m = if a > 1 { a } else { b };
        assert(suffix_of(m).len() > 0);
        assert(candidate(base, a).len() != candidate(base, b).len());
    }
}

/// The first candidate `m` is free in `used` while all before it are taken.
pub open spec fn first_free(base: Seq<char>, used: Seq<Seq<char>>, m: nat) -> bool {
    &&& m >= 1
    &&& !used.contains(candidate(base, m))
    &&& forall|j: nat| 1 <= j < m ==> used.contains(#[trigger] candidate(base, j))
}

/// At most `used.len()` candidates can all be taken.
pub proof fn lemma_taken_bound(base: Seq<char>, used: Seq<Seq<char>>, n: nat)
    requires
        forall|j: nat| 1 <= j < n ==> used.contains(#[trigger] candidate(base, j)),
        n >= 1,
    ensures
        n - 1 <= used.len(),
{
    let tried = Seq::new((n - 1) as nat, |k: int| candidate(base, (k + 1) as nat));
    assert(tried.no_duplicates()) by {
        assert forall|x: int, y: int| 0 <= x < tried.len() && 0 <= y < tried.len() && x != y
            implies tried[x] != tried[y] by {
            if tried[x] == tried[y] {
                lemma_candidate_injective(base, (x + 1) as nat, (y + 1) as nat);
            }
        }
    }
    tried.unique_seq_to_set();
    assert(tried.to_set().subset_of(used.to_set())) by {
        assert forall|c: Seq<char>| tried.to_set().contains(c) implies used.to_set().contains(c) by {
            let k = choose|k: int| 0 <= k < tried.len() && tried[k] == c;
            assert(used.contains(candidate(base, (k + 1) as nat)));
        }
    }
    vstd::set_lib::lemma_len_subset(tried.to_set(), used.to_set());
    used.lemma_cardinality_of_set();
}

pub proof fn lemma_first_free_unique(base: Seq<char>, used: Seq<Seq<char>>, a: nat, b: nat)
    requires
        first_free(base, used, a),
        first_free(base, used, b),
    ensures
        a == b,
{
    if a < b {
        assert(used.contains(candidate(base, a)));
    } else if b < a {
        assert(used.contains(candidate(base, b)));
    }
}

/// The key chosen for `base` when the keys in `used` are taken.
pub open spec fn free_key(base: Seq<char>, used: Seq<Seq<char>>) -> Seq<char> {
    candidate(base, choose|m: nat| first_free(base, used, m))
}

/// The ASCII letters and digits of `s`.
pub open spec fn keep_alnum(s: Seq<char>) -> Seq<char>
    decreases s.len(),
{
    if s.len() == 0 {
        seq![]
    } else if is_alnum(s[0]) {
        seq![s[0]] + keep_alnum(s.drop_first())
    } else {
        keep_alnum(s.drop_first())
    }
}

/// A word as it goes into a key: its ASCII letters and digits, lowercased.
pub open spec fn key_word(w: Seq<char>) -> Seq<char> {
    ascii_lowercase(keep_alnum(w))
}

/// Small words never used as the title part of a key.
pub open spec fn is_stopword(w: Seq<char>) -> bool {
    ||| w == "a"@ || w == "an"@ || w == "the"@ || w == "on"@ || w == "of"@ || w == "for"@
    ||| w == "and"@ || w == "or"@ || w == "in"@ || w == "to"@ || w == "with"@ || w == "is"@
    ||| w == "are"@ || w == "at"@ || w == "by"@ || w == "from"@ || w == "via"@ || w == "towards"@
    ||| w == "toward"@ || w == "do"@ || w == "does"@ || w == "what"@ || w == "how"@ || w == "why"@
}

/// The first title word, as a key word, that is longer than one character
/// and not a stopword ("" if none).
pub open spec fn first_key_word(ws: Seq<Seq<char>>) -> Seq<char>
    decreases ws.len(),
{
    if ws.len() == 0 {
        seq![]
    } else if key_word(ws[0]).len() > 1 && !is_stopword(key_word(ws[0])) {
        key_word(ws[0])
    } else {
        first_key_word(ws.drop_first())
    }
}

/// First author's last name, year and first significant title word, e.g.
/// "vaswani2017attention".
pub open spec fn key_base(p: Paper) -> Seq<char> {
    let names = author_names(p.authors@);
    let last = if names.len() > 0 {
        last_name_of(names[0])
    } else {
        "unknown"@
    };
    let a = key_word(last);
    let author = if a.len() == 0 {
        "unknown"@
    } else {
        a
    };
    let year = match p.year {
        Some(y) => int_str(y as int),
        None => seq![],
    };
    author + year + first_key_word(words(p.title@))
}

/// The cite key of `p` when the keys in `used` are taken.
pub open spec fn cite_key_for(p: Paper, used: Seq<Seq<char>>) -> Seq<char> {
    free_key(key_base(p), used)
}

/// A cite key is the paper's base key followed by a suffix of lowercase
/// letters (empty for the first paper with that base).
pub proof fn cite_key_shape(p: Paper, used: Seq<Seq<char>>)
    ensures
        key_base(p).len() <= cite_key_for(p, used).len(),
        cite_key_for(p, used).take(key_base(p).len() as int) == key_base(p),
        forall|i: int|
            key_base(p).len() <= i < cite_key_for(p, used).len() ==> is_lower(
                #[trigger] cite_key_for(p, used)[i],
            ),
{
    let base = key_base(p);
    let m = choose|m: nat| first_free(base, used, m);
    let k = cite_key_for(p, used);
    if m <= 1 {
        assert(k == base);
        assert(base.take(base.len() as int) =~= base);
    } else {
        suffix_letters(m);
        assert(k == base + suffix_of(m));
        assert(k.take(base.len() as int) =~= base);
        assert forall|i: int| base.len() <= i < k.len() implies is_lower(#[trigger] k[i]) by {
            assert(k[i] == suffix_of(m)[i - base.len()]);
        }
    }
}

/// A character a cite key is made of: an ASCII digit or lowercase letter.
pub open spec fn key_char(c: char) -> bool {
    is_digit(c) || is_lower(c)
}

proof fn lemma_key_word_chars(w: Seq<char>)
    ensures
        crate::text::chars_all(key_word(w), |c: char| key_char(c)),
{
    lemma_keep_alnum_ascii(w);
    let k = keep_alnum(w);
    assert forall|i: int| 0 <= i < key_word(w).len() implies key_char(#[trigger] key_word(w)[i]) by {
        let c = k[i];
        assert(is_alnum(c));
        assert(key_word(w)[i] == crate::text::lower_ascii(c));
        if 'A' <= c && c <= 'Z' {
            assert(crate::text::lower_ascii(c) as u32 == (c as u32) + 32);
        }
    }
}

proof fn lemma_nat_str_digits(n: nat)
    ensures
        crate::text::chars_all(nat_str(n), |c: char| key_char(c)),
    decreases n,
{
    if n < 10 {
        assert(crate::text::digit_char(n as int) as u32 == 48 + n);
        assert(key_char(nat_str(n)[0]));
    } else {
        lemma_nat_str_digits(n / 10);
        let d = (n % 10) as int;
        assert(crate::text::digit_char(d) as u32 == 48 + d);
        crate::text::lemma_chars_all_concat(nat_str(n / 10), seq![crate::text::digit_char(d)], |c: char| key_char(c));
        assert(nat_str(n / 10) + seq![crate::text::digit_char(d)] =~= nat_str(n));
    }
}

proof fn lemma_first_key_word_chars(ws: Seq<Seq<char>>)
    ensures
        crate::text::chars_all(first_key_word(ws), |c: char| key_char(c)),
    decreases ws.len(),
{
    if ws.len() > 0 {
        lemma_key_word_chars(ws[0]);
        lemma_first_key_word_chars(ws.drop_first());
    }
}

/// For a paper with no year or a year of 0 or more, every character of its
/// cite key is an ASCII digit or lowercase letter; and its base key is used
/// as it is when no key taken so far equals it.
pub proof fn cite_key_chars(p: Paper, used: Seq<Seq<char>>)
    requires
        p.year matches Some(y) ==> y >= 0,
    ensures
        forall|i: int|
            0 <= i < cite_key_for(p, used).len() ==> key_char(#[trigger] cite_key_for(p, used)[i]),
        !used.contains(key_base(p)) ==> cite_key_for(p, used) == key_base(p),
{
    let kc = |c: char| key_char(c);
    let names = author_names(p.authors@);
    let last = if names.len() > 0 {
        last_name_of(names[0])
    } else {
        "unknown"@
    };
    let a = key_word(last);
    lemma_key_word_chars(last);
    reveal_strlit("unknown");
    let unknown = "unknown"@;
    assert(crate::text::chars_all(unknown, kc)) by {
        assert forall|i: int| 0 <= i < unknown.len() implies kc(#[trigger] unknown[i]) by {
            assert(unknown =~= seq!['u', 'n', 'k', 'n', 'o', 'w', 'n']);
        }
    }
    let author = if a.len() == 0 {
        unknown
    } else {
        a
    };
    let year = match p.year {
        Some(y) => int_str(y as int),
        None => seq![],
    };
    match p.year {
        Some(y) => {
            lemma_nat_str_digits(y as nat);
        },
        None => {},
    }
    assert(crate::text::chars_all(year, kc));
    lemma_first_key_word_chars(words(p.title@));
    crate::text::lemma_chars_all_concat(author, year, kc);
    crate::text::lemma_chars_all_concat(author + year, first_key_word(words(p.title@)), kc);
    let base = key_base(p);
    assert(base == author + year + first_key_word(words(p.title@)));
    cite_key_shape(p, used);
    let k = cite_key_for(p, used);
    assert forall|i: int| 0 <= i < k.len() implies key_char(#[trigger] k[i]) by {
        if i < base.len() {
            assert(k[i] == k.take(base.len() as int)[i]);
            assert(kc(base[i]));
        } else {
            assert(is_lower(k[i]));
        }
    }
    if !used.contains(base) {
        assert(first_free(base, used, 1));
        let m = choose|m: nat| first_free(base, used, m);
        lemma_first_free_unique(base, used, m, 1);
    }
}

fn keep_alnum_chars(s: &[char]) -> (r: Vec<char>)
    ensures
        r@ == keep_alnum(s@),
{
    let n = s.len();
    let mut out: Vec<char> = Vec::new();
    let mut i: usize = 0;
    assert(s@.skip(0) =~= s@);
    while i < n
        invariant
            i <= n == s@.len(),
            out@ + keep_alnum(s@.skip(i as int)) == keep_alnum(s@),
        decreases n - i,
    {
        let ghost rest = s@.skip(i as int);
        let ghost old_out = out@;
        assert(rest[0] == s@[i as int]);
        assert(rest.drop_first() =~= s@.skip(i + 1));
        if is_ascii_alphanumeric(s[i]) {
            out.push(s[i]);
            assert(out@ + keep_alnum(s@.skip(i + 1)) =~= old_out + keep_alnum(rest));
        }
        i += 1;
    }
    assert(s@.skip(n as int) =~= seq![]);
    assert(out@ + seq![] =~= out@);
    out
}

proof fn lemma_keep_alnum_ascii(s: Seq<char>)
    ensures
        all_ascii(keep_alnum(s)),
        forall|i: int| 0 <= i < keep_alnum(s).len() ==> is_alnum(#[trigger] keep_alnum(s)[i]),
    decreases s.len(),
{
    if s.len() > 0 {
        lemma_keep_alnum_ascii(s.drop_first());
        let r = keep_alnum(s.drop_first());
        if is_alnum(s[0]) {
            assert forall|i: int| 0 <= i < (seq![s[0]] + r).len() implies is_ascii(
                #[trigger] (seq![s[0]] + r)[i],
            ) && is_alnum((seq![s[0]] + r)[i]) by {
                if i > 0 {
                    assert((seq![s[0]] + r)[i] == r[i - 1]);
                }
            }
        }
    }
}

fn key_word_chars(w: &[char]) -> (r: Vec<char>)
    ensures
        r@ == key_word(w@),
{
    let k = keep_alnum_chars(w);
    proof {
        lemma_keep_alnum_ascii(w@);
    }
    lowercase_chars(k.as_slice())
}

fn is_stopword_chars(w: &[char]) -> (r: bool)
    ensures
        r == is_stopword(w@),
{
    eq_str(w, "a") || eq_str(w, "an") || eq_str(w, "the") || eq_str(w, "on") || eq_str(w, "of")
        || eq_str(w, "for") || eq_str(w, "and") || eq_str(w, "or") || eq_str(w, "in") || eq_str(
        w,
        "to",
    ) || eq_str(w, "with") || eq_str(w, "is") || eq_str(w, "are") || eq_str(w, "at") || eq_str(
        w,
        "by",
    ) || eq_str(w, "from") || eq_str(w, "via") || eq_str(w, "towards") || eq_str(w, "toward")
        || eq_str(w, "do") || eq_str(w, "does") || eq_str(w, "what") || eq_str(w, "how")
        || eq_str(w, "why")
}

fn key_base_chars(p: &Paper) -> (r: Vec<char>)
    ensures
        r@ == key_base(*p),
{
    let names = p.author_list();
    let last: &str = if names.len() > 0 {
        assert(strs_view(names@)[0] == names@[0]@);
        last_name(names[0])
    } else {
        "unknown"
    };
    let lc = chars_of(last);
    let mut out = key_word_chars(lc.as_slice());
    if out.len() == 0 {
        out = chars_of("unknown");
    }
    match p.year {
        Some(y) => {
            let yc = int_chars(y as i64);
            out.extend_from_slice(yc.as_slice());
        },
        None => {},
    }
    let ghost before = out@;
    let tc = chars_of(p.title.as_str());
    let ws = words_of(tc.as_slice());
    let mut i: usize = 0;
    let ghost wv = views(ws@);
    assert(wv.skip(0) =~= wv);
    assert(before + first_key_word(wv) == key_base(*p));
    while i < ws.len()
        invariant
            i <= ws@.len() == wv.len(),
            wv == views(ws@),
            first_key_word(wv) == first_key_word(wv.skip(i as int)),
            out@ == before,
            before + first_key_word(wv) == key_base(*p),
        decreases ws.len() - i,
    {
        assert(wv.skip(i as int)[0] == ws@[i as int]@);
        assert(wv.skip(i as int).drop_first() =~= wv.skip(i + 1));
        let k = key_word_chars(ws[i].as_slice());
        if k.len() > 1 && !is_stopword_chars(k.as_slice()) {
            out.extend_from_slice(k.as_slice());
            return out;
        }
        i += 1;
    }
    assert(wv.skip(i as int) =~= seq![]);
    assert(out@ + seq![] =~= out@);
    out
}

/// The cite key for `p`: its base key, or with "b", "c", ... appended until it
/// is not yet in `used`; the key is then added to `used`.
pub fn cite_key(p: &Paper, used: &mut Vec<String>) -> (r: String)
    ensures
        r@ == cite_key_for(*p, strings_view(old(used)@)),
        !strings_view(old(used)@).contains(r@),
        final(used)@ == old(used)@.push(r),
{
    let base = key_base_chars(p);
    let ghost uv = strings_view(used@);
    let mut key = string_of(base.as_slice());
    let ulen = used.len();
    let mut n: u128 = 2;
    proof {
        assert(key@ == candidate(base@, 1));
    }
    while contains_string(used, &key)
        invariant
            2 <= n,
            ulen == uv.len(),
            uv == strings_view(used@),
            key@ == candidate(base@, (n - 1) as nat),
            forall|j: nat| 1 <= j < n - 1 ==> uv.contains(#[trigger] candidate(base@, j)),
        decreases uv.len() + 2 - n,
    {
        proof {
            assert forall|j: nat| 1 <= j < n implies uv.contains(#[trigger] candidate(base@, j)) by {
                if j == n - 1 {
                } else {
                }
            }
            lemma_taken_bound(base@, uv, n as nat);
            assert(uv.len() == used@.len());
        }
        let suf = suffix_chars(n);
        let mut kc = base.clone();
        kc.extend_from_slice(suf.as_slice());
        key = string_of(kc.as_slice());
        assert(key@ == candidate(base@, n as nat));
        n += 1;
    }
    proof {
        assert(first_free(base@, uv, (n - 1) as nat));
        let m = choose|m: nat| first_free(base@, uv, m);
        lemma_first_free_unique(base@, uv, m, (n - 1) as nat);
    }
    used.push(key.clone());
    key
}

// ---------------------------------------------------------------------------
// Export
// ---------------------------------------------------------------------------

/// An arXiv paper with no venue of its own (or the venue "arXiv").
pub open spec fn arxiv_only(p: Paper) -> bool {
    p.arxiv_id is Some && match p.venue {
        Some(v) => v@ == "arXiv"@,
        None => true,
    }
}

/// A venue that names proceedings, a conference, workshop, symposium or meeting.
pub open spec fn proceedings_venue(p: Paper) -> bool {
    match p.venue {
        Some(v) => {
            let l = lowercase(v@);
            ||| contains_seq(l, "proceedings"@)
            ||| contains_seq(l, "conference"@)
            ||| contains_seq(l, "workshop"@)
            ||| contains_seq(l, "symposium"@)
            ||| contains_seq(l, "meeting"@)
        },
        None => false,
    }
}

pub open spec fn entry_type_of(p: Paper) -> Seq<char> {
    if arxiv_only(p) {
        "misc"@
    } else if proceedings_venue(p) {
        "inproceedings"@
    } else if p.venue is Some {
        "article"@
    } else {
        "misc"@
    }
}

/// The field the venue goes in for an entry type.
pub open spec fn venue_field(entry_type: Seq<char>) -> Seq<char> {
    if entry_type == "article"@ {
        "journal"@
    } else if entry_type == "inproceedings"@ {
        "booktitle"@
    } else {
        "howpublished"@
    }
}

/// The exported fields that come before the venue: title, authors, year.
pub open spec fn head_fields(p: Paper) -> Seq<(Seq<char>, Seq<char>)> {
    let names = author_names(p.authors@);
    seq![("title"@, seq!['{'] + bib_escaped(p.title@) + seq!['}'])] + (if names.len() > 0 {
        seq![("author"@, bib_escaped(join(names, " and "@)))]
    } else {
        seq![]
    }) + (match p.year {
        Some(y) => seq![("year"@, int_str(y as int))],
        None => seq![],
    })
}

/// The venue field, in the field that the entry type calls for.
pub open spec fn venue_fields(p: Paper) -> Seq<(Seq<char>, Seq<char>)> {
    match p.venue {
        Some(v) => if !arxiv_only(p) {
            seq![(venue_field(entry_type_of(p)), bib_escaped(v@))]
        } else {
            seq![]
        },
        None => seq![],
    }
}

/// The exported fields that come after the venue: eprint, DOI, URL,
/// keywords, abstract.
pub open spec fn tail_fields(p: Paper) -> Seq<(Seq<char>, Seq<char>)> {
    (match p.arxiv_id {
        Some(a) => seq![("eprint"@, a@), ("archivePrefix"@, "arXiv"@)],
        None => seq![],
    }) + (match p.doi {
        Some(d) => seq![("doi"@, d@)],
        None => seq![],
    }) + (match p.url {
        Some(u) => seq![("url"@, u@)],
        None => seq![],
    }) + (if p.tags@.len() > 0 {
        seq![("keywords"@, join(strings_view(p.tags@), ", "@))]
    } else {
        seq![]
    }) + (match p.abstract_ {
        Some(a) => seq![("abstract"@, bib_escaped(a@))],
        None => seq![],
    })
}

/// The fields exported for a paper, in order, as (name, value).
pub open spec fn export_fields(p: Paper) -> Seq<(Seq<char>, Seq<char>)> {
    head_fields(p) + venue_fields(p) + tail_fields(p)
}

/// `  name = {value},` lines.
pub open spec fn field_lines(fs: Seq<(Seq<char>, Seq<char>)>) -> Seq<char>
    decreases fs.len(),
{
    if fs.len() == 0 {
        seq![]
    } else {
        "  "@ + fs[0].0 + " = {"@ + fs[0].1 + "},\n"@ + field_lines(fs.drop_first())
    }
}

/// One exported entry.
pub open spec fn entry_text(p: Paper, key: Seq<char>) -> Seq<char> {
    "@"@ + entry_type_of(p) + "{"@ + key + ",\n"@ + field_lines(export_fields(p)) + "}\n\n"@
}

/// The entries of `ps`, cite keys chosen so as not to clash with `used` or
/// with each other.
pub open spec fn export_from(ps: Seq<Paper>, used: Seq<Seq<char>>) -> Seq<char>
    decreases ps.len(),
{
    if ps.len() == 0 {
        seq![]
    } else {
        let k = cite_key_for(ps[0], used);
        entry_text(ps[0], k) + export_from(ps.drop_first(), used.push(k))
    }
}

/// The BibTeX export of a list of papers.
pub open spec fn export_text(ps: Seq<Paper>) -> Seq<char> {
    export_from(ps, seq![])
}

/// The line an exported field is written on.
pub open spec fn field_line(name: Seq<char>, value: Seq<char>) -> Seq<char> {
    "  "@ + name + " = {"@ + value + "},\n"@
}

proof fn lemma_field_lines_contain(fs: Seq<(Seq<char>, Seq<char>)>, k: int)
    requires
        0 <= k < fs.len(),
    ensures
        contains_seq(field_lines(fs), field_line(fs[k].0, fs[k].1)),
    decreases fs.len(),
{
    let line = field_line(fs[k].0, fs[k].1);
    let head = "  "@ + fs[0].0 + " = {"@ + fs[0].1 + "},\n"@;
    let rest = field_lines(fs.drop_first());
    assert(field_lines(fs) == head + rest);
    if k == 0 {
        let w = 0int;
        assert(line == head);
        assert((head + rest).subrange(w, w + line.len()) =~= line);
    } else {
        lemma_field_lines_contain(fs.drop_first(), k - 1);
        assert(fs.drop_first()[k - 1] == fs[k]);
        let i = choose|i: int|
            0 <= i && i + line.len() <= rest.len() && #[trigger] rest.subrange(i, i + line.len())
                == line;
        let w = head.len() + i;
        assert((head + rest).subrange(w, w + line.len()) =~= line);
    }
}

proof fn lemma_contains_within(a: Seq<char>, b: Seq<char>, c: Seq<char>, pat: Seq<char>)
    requires
        contains_seq(b, pat),
    ensures
        contains_seq(a + b + c, pat),
{
    let i = choose|i: int|
        0 <= i && i + pat.len() <= b.len() && #[trigger] b.subrange(i, i + pat.len()) == pat;
    let w = a.len() + i;
    assert((a + b + c).subrange(w, w + pat.len()) =~= pat);
}

proof fn lemma_venue_in_fields(p: Paper, v: Seq<char>)
    requires
        p.venue matches Some(x) && x@ == v,
        !arxiv_only(p),
    ensures
        exists|k: int|
            0 <= k < export_fields(p).len() && #[trigger] export_fields(p)[k] == (
                venue_field(entry_type_of(p)),
                bib_escaped(v),
            ),
{
    let fs = export_fields(p);
    let k = head_fields(p).len() as int;
    assert(venue_fields(p)[0] == (venue_field(entry_type_of(p)), bib_escaped(v)));
    assert(fs[k] == venue_fields(p)[0]);
}

proof fn lemma_venue_line_in_entry(p: Paper, key: Seq<char>, v: Seq<char>)
    requires
        p.venue matches Some(x) && x@ == v,
        !arxiv_only(p),
    ensures
        contains_seq(entry_text(p, key), field_line(venue_field(entry_type_of(p)), bib_escaped(v))),
{
    let fs = export_fields(p);
    lemma_venue_in_fields(p, v);
    let k = choose|k: int|
        0 <= k < fs.len() && #[trigger] fs[k] == (venue_field(entry_type_of(p)), bib_escaped(v));
    lemma_field_lines_contain(fs, k);
    let head = "@"@ + entry_type_of(p) + "{"@ + key + ",\n"@;
    lemma_contains_within(head, field_lines(fs), "}\n\n"@, field_line(fs[k].0, fs[k].1));
}

/// In an export, an `@article` entry carries the paper's venue in a
/// `journal` field and an `@inproceedings` entry in a `booktitle` field.
pub proof fn export_puts_venue_in_its_field(p: Paper, v: Seq<char>)
    requires
        p.venue matches Some(x) && x@ == v,
    ensures
        starts_with(export_text(seq![p]), "@article{"@) ==> contains_seq(
            export_text(seq![p]),
            "  journal = {"@ + bib_escaped(v) + "},\n"@,
        ),
        starts_with(export_text(seq![p]), "@inproceedings{"@) ==> contains_seq(
            export_text(seq![p]),
            "  booktitle = {"@ + bib_escaped(v) + "},\n"@,
        ),
{
    let k = cite_key_for(p, seq![]);
    let t = export_text(seq![p]);
    let ps = seq![p];
    assert(ps.drop_first() =~= Seq::<Paper>::empty());
    assert(t == entry_text(p, k) + export_from(ps.drop_first(), seq![k]));
    assert(t =~= entry_text(p, k));
    let et = entry_type_of(p);
    reveal_strlit("@");
    reveal_strlit("misc");
    reveal_strlit("article");
    reveal_strlit("inproceedings");
    assert(et.len() > 0);
    assert(t[1] == et[0]);
    if starts_with(t, "@article{"@) || starts_with(t, "@inproceedings{"@) {
        reveal_strlit("@article{");
        reveal_strlit("@inproceedings{");
        let a = starts_with(t, "@article{"@);
        if a {
            assert(t.take(9)[1] == 'a');
        } else {
            assert(t.take(15)[1] == 'i');
        }
        assert(et != "misc"@);
        assert(!arxiv_only(p));
        lemma_venue_line_in_entry(p, k, v);
        reveal_strlit("journal");
        reveal_strlit("booktitle");
        reveal_strlit("  ");
        reveal_strlit(" = {");
        reveal_strlit("},\n");
        reveal_strlit("  journal = {");
        reveal_strlit("  booktitle = {");
        if a {
            assert(et == "article"@);
            assert(field_line(venue_field(et), bib_escaped(v)) =~= "  journal = {"@ + bib_escaped(v)
                + "},\n"@);
        } else {
            assert(et == "inproceedings"@);
            assert(field_line(venue_field(et), bib_escaped(v)) =~= "  booktitle = {"@
                + bib_escaped(v) + "},\n"@);
        }
    }
}

fn push_str(out: &mut Vec<char>, s: &str)
    ensures
        final(out)@ == old(out)@ + s@,
{
    let c = chars_of(s);
    out.extend_from_slice(c.as_slice());
}

fn is_proceedings(p: &Paper) -> (r: bool)
    ensures
        r == proceedings_venue(*p),
{
    match &p.venue {
        Some(v) => {
            proof {
                reveal_strlit("proceedings");
                reveal_strlit("conference");
                reveal_strlit("workshop");
                reveal_strlit("symposium");
                reveal_strlit("meeting");
            }
            let vc = chars_of(v.as_str());
            let l = lowercase_chars(vc.as_slice());
            let l = l.as_slice();
            contains_str(l, "proceedings") || contains_str(l, "conference") || contains_str(
                l,
                "workshop",
            ) || contains_str(l, "symposium") || contains_str(l, "meeting")
        },
        None => false,
    }
}

fn join_strings(parts: &Vec<String>, sep: &str) -> (r: Vec<char>)
    ensures
        r@ == join(strings_view(parts@), sep@),
{
    let ghost pv = strings_view(parts@);
    let mut r: Vec<char> = Vec::new();
    let mut i: usize = 0;
    while i < parts.len()
        invariant
            i <= parts@.len() == pv.len(),
            pv == strings_view(parts@),
            r@ == join(pv.take(i as int), sep@),
        decreases parts.len() - i,
    {
        if i > 0 {
            push_str(&mut r, sep);
        }
        push_str(&mut r, parts[i].as_str());
        assert(pv.take(i + 1).drop_last() =~= pv.take(i as int));
        i += 1;
    }
    assert(pv.take(i as int) =~= pv);
    r
}

fn join_strs(parts: &Vec<&str>, sep: &str) -> (r: Vec<char>)
    ensures
        r@ == join(strs_view(parts@), sep@),
{
    let ghost pv = strs_view(parts@);
    let mut r: Vec<char> = Vec::new();
    let mut i: usize = 0;
    while i < parts.len()
        invariant
            i <= parts@.len() == pv.len(),
            pv == strs_view(parts@),
            r@ == join(pv.take(i as int), sep@),
        decreases parts.len() - i,
    {
        if i > 0 {
            push_str(&mut r, sep);
        }
        push_str(&mut r, parts[i]);
        assert(pv.take(i + 1).drop_last() =~= pv.take(i as int));
        i += 1;
    }
    assert(pv.take(i as int) =~= pv);
    r
}

fn owned(s: &str) -> (r: String)
    ensures
        r@ == s@,
{
    s.to_owned()
}

fn head_fields_of(p: &Paper) -> (r: Vec<(String, String)>)
    ensures
        fields_view(r@) == head_fields(*p),
{
    proof {
        reveal_strlit("{");
        reveal_strlit("}");
    }
    let mut fields: Vec<(String, String)> = Vec::new();
    let mut title = String::new();
    title.append("{");
    title.append(bib_escape(p.title.as_str()).as_str());
    title.append("}");
    fields.push((owned("title"), title));
    let ghost f1 = fields_view(fields@);
    assert("{"@ =~= seq!['{']);
    assert(title@ =~= seq!['{'] + bib_escaped(p.title@) + seq!['}']);
    assert(fields@.len() == 1);
    assert(f1[0] == (fields@[0].0@, fields@[0].1@));
    assert(f1 =~= seq![("title"@, seq!['{'] + bib_escaped(p.title@) + seq!['}'])]);
    let authors = p.author_list();
    if authors.len() > 0 {
        let joined = join_strs(&authors, " and ");
        let js = string_of(joined.as_slice());
        fields.push((owned("author"), bib_escape(js.as_str())));
    }
    let ghost f2 = fields_view(fields@);
    assert(strs_view(authors@).len() == authors@.len());
    assert(f2 =~= f1 + (if author_names(p.authors@).len() > 0 {
        seq![("author"@, bib_escaped(join(author_names(p.authors@), " and "@)))]
    } else {
        seq![]
    }));
    match p.year {
        Some(y) => {
            fields.push((owned("year"), int_string(y as i64)));
        },
        None => {},
    }
    let ghost f3 = fields_view(fields@);
    assert(f3 =~= f2 + (match p.year {
        Some(y) => seq![("year"@, int_str(y as int))],
        None => seq![],
    }));
    assert(f3 == head_fields(*p));
    fields
}

fn venue_fields_of(p: &Paper, entry_type: &str) -> (r: Vec<(String, String)>)
    requires
        entry_type@ == entry_type_of(*p),
    ensures
        fields_view(r@) == venue_fields(*p),
{
    let mut fields: Vec<(String, String)> = Vec::new();
    let ghost f3 = fields_view(fields@);
    let arxiv_only_entry = p.arxiv_id.is_some() && match &p.venue {
        Some(v) => str_eq(v.as_str(), "arXiv"),
        None => true,
    };
    match &p.venue {
        Some(v) => {
            if !arxiv_only_entry {
                let field = if str_eq(entry_type, "article") {
                    "journal"
                } else if str_eq(entry_type, "inproceedings") {
                    "booktitle"
                } else {
                    "howpublished"
                };
                fields.push((owned(field), bib_escape(v.as_str())));
            }
        },
        None => {},
    }
    let ghost f4 = fields_view(fields@);
    assert(arxiv_only_entry == arxiv_only(*p));
    assert(f4 =~= f3 + venue_fields(*p));
    assert(f3 =~= Seq::<(Seq<char>, Seq<char>)>::empty());
    fields
}

fn tail_fields_of(p: &Paper) -> (r: Vec<(String, String)>)
    ensures
        fields_view(r@) == tail_fields(*p),
{
    let mut fields: Vec<(String, String)> = Vec::new();
    let ghost f4 = fields_view(fields@);
    assert(f4 =~= Seq::<(Seq<char>, Seq<char>)>::empty());
    match &p.arxiv_id {
        Some(a) => {
            fields.push((owned("eprint"), a.clone()));
            fields.push((owned("archivePrefix"), owned("arXiv")));
        },
        None => {},
    }
    let ghost f5 = fields_view(fields@);
    assert(f5 =~= f4 + (match p.arxiv_id {
        Some(a) => seq![("eprint"@, a@), ("archivePrefix"@, "arXiv"@)],
        None => seq![],
    }));
    match &p.doi {
        Some(d) => {
            fields.push((owned("doi"), d.clone()));
        },
        None => {},
    }
    let ghost f6 = fields_view(fields@);
    assert(f6 =~= f5 + (match p.doi {
        Some(d) => seq![("doi"@, d@)],
        None => seq![],
    }));
    match &p.url {
        Some(u) => {
            fields.push((owned("url"), u.clone()));
        },
        None => {},
    }
    let ghost f7 = fields_view(fields@);
    assert(f7 =~= f6 + (match p.url {
        Some(u) => seq![("url"@, u@)],
        None => seq![],
    }));
    if p.tags.len() > 0 {
        let joined = join_strings(&p.tags, ", ");
        fields.push((owned("keywords"), string_of(joined.as_slice())));
    }
    let ghost f8 = fields_view(fields@);
    assert(f8 =~= f7 + (if p.tags@.len() > 0 {
        seq![("keywords"@, join(strings_view(p.tags@), ", "@))]
    } else {
        seq![]
    }));
    match &p.abstract_ {
        Some(a) => {
            fields.push((owned("abstract"), bib_escape(a.as_str())));
        },
        None => {},
    }
    assert(fields_view(fields@) =~= f4 + tail_fields(*p));
    fields
}

fn fields_of(p: &Paper, entry_type: &str) -> (r: Vec<(String, String)>)
    requires
        entry_type@ == entry_type_of(*p),
    ensures
        fields_view(r@) == export_fields(*p),
{
    let mut fields = head_fields_of(p);
    let mut venue = venue_fields_of(p, entry_type);
    let mut tail = tail_fields_of(p);
    let ghost a = fields@;
    let ghost b = venue@;
    let ghost c = tail@;
    fields.append(&mut venue);
    fields.append(&mut tail);
    assert(fields@ == a + b + c);
    assert(fields_view(fields@) =~= fields_view(a) + fields_view(b) + fields_view(c));
    fields
}

fn entry_kind(p: &Paper) -> (r: &'static str)
    ensures
        r@ == entry_type_of(*p),
{
    let arxiv_only_entry = p.arxiv_id.is_some() && match &p.venue {
        Some(v) => str_eq(v.as_str(), "arXiv"),
        None => true,
    };
    if arxiv_only_entry {
        "misc"
    } else if is_proceedings(p) {
        "inproceedings"
    } else if p.venue.is_some() {
        "article"
    } else {
        "misc"
    }
}

fn render_entry(p: &Paper, key: &String, out: &mut Vec<char>)
    ensures
        final(out)@ == old(out)@ + entry_text(*p, key@),
{
    let ghost old_out = out@;
    let kind = entry_kind(p);
    push_str(out, "@");
    push_str(out, kind);
    push_str(out, "{");
    push_str(out, key.as_str());
    push_str(out, ",\n");
    let fields = fields_of(p, kind);
    let ghost fv = fields_view(fields@);
    let ghost head = out@;
    let mut j: usize = 0;
    assert(fv.skip(0) =~= fv);
    while j < fields.len()
        invariant
            j <= fields@.len() == fv.len(),
            fv == fields_view(fields@),
            out@ + field_lines(fv.skip(j as int)) == head + field_lines(fv),
        decreases fields.len() - j,
    {
        let ghost before = out@;
        assert(fv.skip(j as int)[0] == (fields@[j as int].0@, fields@[j as int].1@));
        assert(fv.skip(j as int).drop_first() =~= fv.skip(j + 1));
        push_str(out, "  ");
        push_str(out, fields[j].0.as_str());
        push_str(out, " = {");
        push_str(out, fields[j].1.as_str());
        push_str(out, "},\n");
        assert(out@ + field_lines(fv.skip(j + 1)) =~= before + field_lines(fv.skip(j as int)));
        j += 1;
    }
    assert(fv.skip(j as int) =~= seq![]);
    push_str(out, "}\n\n");
    assert(out@ =~= old_out + entry_text(*p, key@));
}

/// BibTeX for the papers, one entry each, with unique cite keys.
pub fn export(papers: &[Paper]) -> (r: String)
    ensures
        r@ == export_text(papers@),
{
    let mut used_keys: Vec<String> = Vec::new();
    let mut out: Vec<char> = Vec::new();
    let mut i: usize = 0;
    assert(papers@.skip(0) =~= papers@);
    assert(strings_view(used_keys@) =~= seq![]);
    assert(out@ + export_from(papers@, seq![]) =~= export_text(papers@));
    while i < papers.len()
        invariant
            i <= papers@.len(),
            out@ + export_from(papers@.skip(i as int), strings_view(used_keys@)) == export_text(
                papers@,
            ),
        decreases papers.len() - i,
    {
        let p = &papers[i];
        let ghost used_before = strings_view(used_keys@);
        let ghost old_out = out@;
        assert(papers@.skip(i as int)[0] == *p);
        assert(papers@.skip(i as int).drop_first() =~= papers@.skip(i + 1));
        let key = cite_key(p, &mut used_keys);
        assert(strings_view(used_keys@) =~= used_before.push(key@));
        render_entry(p, &key, &mut out);
        assert(out@ + export_from(papers@.skip(i + 1), strings_view(used_keys@)) =~= old_out
            + export_from(papers@.skip(i as int), used_before));
        i += 1;
    }
    assert(papers@.skip(i as int) =~= seq![]);
    assert(out@ + seq![] =~= out@);
    string_of(out.as_slice())
}

// ---------------------------------------------------------------------------
// Unicode helpers (outside code)
// ---------------------------------------------------------------------------

/// What `UnicodeNormalization::nfc` (unicode-normalization) yields for a
/// string: its Unicode Normalization Form C.
pub uninterp spec fn nfc(s: Seq<char>) -> Seq<char>;

/// `UnicodeNormalization::nfc` of the unicode-normalization crate, collected
/// into a string. Its result is the named `nfc` of the input; ASCII text comes
/// back unchanged, since no ASCII character decomposes or combines.
#[verifier::external_body]
fn nfc_string(s: &str) -> (r: String)
    ensures
        r@ == nfc(s@),
        all_ascii(s@) ==> r@ == s@,
{
    s.nfc().collect()
}

/// Whether a character has the Unicode `Alphabetic` property (`char::is_alphabetic`).
pub uninterp spec fn alphabetic(c: char) -> bool;

/// `char::is_alphabetic` from std; its result is the named `alphabetic`.
#[verifier::external_body]
fn is_alphabetic(c: char) -> (r: bool)
    ensures
        r == alphabetic(c),
{
    c.is_alphabetic()
}

// ---------------------------------------------------------------------------
// TeX decoding
// ---------------------------------------------------------------------------

/// Combining mark for each TeX accent command, e.g. \' -> U+0301.
pub open spec fn accent_mark_of(cmd: char) -> Option<char> {
    if cmd == '\'' {
        Some('\u{0301}')
    } else if cmd == '`' {
        Some('\u{0300}')
    } else if cmd == '^' {
        Some('\u{0302}')
    } else if cmd == '"' {
        Some('\u{0308}')
    } else if cmd == '~' {
        Some('\u{0303}')
    } else if cmd == '=' {
        Some('\u{0304}')
    } else if cmd == '.' {
        Some('\u{0307}')
    } else if cmd == 'u' {
        Some('\u{0306}')
    } else if cmd == 'v' {
        Some('\u{030C}')
    } else if cmd == 'H' {
        Some('\u{030B}')
    } else if cmd == 'r' {
        Some('\u{030A}')
    } else if cmd == 'c' {
        Some('\u{0327}')
    } else if cmd == 'k' {
        Some('\u{0328}')
    } else if cmd == 'b' {
        Some('\u{0331}')
    } else if cmd == 'd' {
        Some('\u{0323}')
    } else {
        None
    }
}

/// Combining mark for each TeX accent command, e.g. \' -> U+0301.
pub fn accent_mark(cmd: char) -> (r: Option<char>)
    ensures
        r == accent_mark_of(cmd),
{
    if cmd == '\'' {
        Some('\u{0301}')
    } else if cmd == '`' {
        Some('\u{0300}')
    } else if cmd == '^' {
        Some('\u{0302}')
    } else if cmd == '"' {
        Some('\u{0308}')
    } else if cmd == '~' {
        Some('\u{0303}')
    } else if cmd == '=' {
        Some('\u{0304}')
    } else if cmd == '.' {
        Some('\u{0307}')
    } else if cmd == 'u' {
        Some('\u{0306}')
    } else if cmd == 'v' {
        Some('\u{030C}')
    } else if cmd == 'H' {
        Some('\u{030B}')
    } else if cmd == 'r' {
        Some('\u{030A}')
    } else if cmd == 'c' {
        Some('\u{0327}')
    } else if cmd == 'k' {
        Some('\u{0328}')
    } else if cmd == 'b' {
        Some('\u{0331}')
    } else if cmd == 'd' {
        Some('\u{0323}')
    } else {
        None
    }
}

/// The letter an accent applies to at `cs[at..]` -- `e`, `{e}` or `{\i}` --
/// and the index after it.
pub open spec fn accent_target_of(cs: Seq<char>, at: int) -> Option<(char, int)> {
    if at < 0 || at >= cs.len() {
        None
    } else if cs[at] == '{' {
        if at + 2 < cs.len() && cs[at + 1] == '\\' && at + 3 < cs.len() && cs[at + 3] == '}' {
            Some((cs[at + 2], at + 4))
        } else if at + 2 < cs.len() && cs[at + 2] == '}' && alphabetic(cs[at + 1]) {
            Some((cs[at + 1], at + 3))
        } else {
            None
        }
    } else if alphabetic(cs[at]) {
        Some((cs[at], at + 1))
    } else {
        None
    }
}

/// Parse the letter an accent applies to, at `chars[at..]`: either `e`,
/// `{e}`, or `{\i}`. Returns (letter, index after it).
pub fn accent_target(chars: &[char], at: usize) -> (r: Option<(char, usize)>)
    ensures
        match r {
            Some((c, next)) => accent_target_of(chars@, at as int) == Some((c, next as int)),
            None => accent_target_of(chars@, at as int) is None,
        },
{
    let n = chars.len();
    if at >= n {
        return None;
    }
    if chars[at] == '{' {
        if n - at > 2 && chars[at + 1] == '\\' && n - at > 3 && chars[at + 3] == '}' {
            return Some((chars[at + 2], at + 4));
        }
        if n - at > 2 && chars[at + 2] == '}' && is_alphabetic(chars[at + 1]) {
            return Some((chars[at + 1], at + 3));
        }
        return None;
    }
    if is_alphabetic(chars[at]) {
        return Some((chars[at], at + 1));
    }
    None
}

/// The Unicode text of a TeX letter command such as `\ss` or `\o`.
pub open spec fn tex_word_of(w: Seq<char>) -> Option<Seq<char>> {
    if w == "ss"@ {
        Some("ß"@)
    } else if w == "ae"@ {
        Some("æ"@)
    } else if w == "AE"@ {
        Some("Æ"@)
    } else if w == "oe"@ {
        Some("œ"@)
    } else if w == "OE"@ {
        Some("Œ"@)
    } else if w == "aa"@ {
        Some("å"@)
    } else if w == "AA"@ {
        Some("Å"@)
    } else if w == "o"@ {
        Some("ø"@)
    } else if w == "O"@ {
        Some("Ø"@)
    } else if w == "l"@ {
        Some("ł"@)
    } else if w == "L"@ {
        Some("Ł"@)
    } else if w == "i"@ {
        Some("ı"@)
    } else if w == "j"@ {
        Some("ȷ"@)
    } else {
        None
    }
}

fn tex_word(w: &[char]) -> (r: Option<&'static str>)
    ensures
        match r {
            Some(s) => tex_word_of(w@) == Some(s@),
            None => tex_word_of(w@) is None,
        },
{
    if eq_str(w, "ss") {
        Some("ß")
    } else if eq_str(w, "ae") {
        Some("æ")
    } else if eq_str(w, "AE") {
        Some("Æ")
    } else if eq_str(w, "oe") {
        Some("œ")
    } else if eq_str(w, "OE") {
        Some("Œ")
    } else if eq_str(w, "aa") {
        Some("å")
    } else if eq_str(w, "AA") {
        Some("Å")
    } else if eq_str(w, "o") {
        Some("ø")
    } else if eq_str(w, "O") {
        Some("Ø")
    } else if eq_str(w, "l") {
        Some("ł")
    } else if eq_str(w, "L") {
        Some("Ł")
    } else if eq_str(w, "i") {
        Some("ı")
    } else if eq_str(w, "j") {
        Some("ȷ")
    } else {
        None
    }
}

/// The number of ASCII letters starting at `cs[j]`.
pub open spec fn alpha_run(cs: Seq<char>, j: int) -> nat
    decreases cs.len() - j,
{
    if j < 0 || j >= cs.len() || !is_alpha(cs[j]) {
        0
    } else {
        1 + alpha_run(cs, j + 1)
    }
}

/// A run of letters never reaches past the end.
pub proof fn lemma_alpha_run_bound(cs: Seq<char>, j: int)
    requires
        0 <= j,
    ensures
        j + alpha_run(cs, j) <= if j <= cs.len() {
            cs.len() as int
        } else {
            j
        },
    decreases cs.len() - j,
{
    if j < cs.len() && is_alpha(cs[j]) {
        lemma_alpha_run_bound(cs, j + 1);
    }
}

/// The number of spaces starting at `cs[j]`.
pub open spec fn space_run(cs: Seq<char>, j: int) -> nat
    decreases cs.len() - j,
{
    if j < 0 || j >= cs.len() || cs[j] != ' ' {
        0
    } else {
        1 + space_run(cs, j + 1)
    }
}

/// The decoding of `cs[i..]`: TeX diacritics (`{\'{e}}`, `\"u`, `\v{s}`) become
/// a letter plus a combining mark, letter commands (`\ss`, `\o`) their
/// letter; anything else passes through.
pub open spec fn tex_decode_from(cs: Seq<char>, i: int) -> Seq<char>
    decreases cs.len() - i,
{
    if i < 0 || i >= cs.len() {
        seq![]
    } else if cs[i] != '\\' || i + 1 >= cs.len() {
        seq![cs[i]] + tex_decode_from(cs, i + 1)
    } else {
        let cmd = cs[i + 1];
        if !is_alpha(cmd) {
            match (accent_mark_of(cmd), accent_target_of(cs, i + 2)) {
                (Some(m), Some((b, next))) => seq![b, m] + tex_decode_from(cs, next),
                _ => seq!['\\'] + tex_decode_from(cs, i + 1),
            }
        } else {
            let we = i + 1 + alpha_run(cs, i + 1);
            proof {
                lemma_alpha_run_bound(cs, i + 1);
            }
            let word = cs.subrange(i + 1, we);
            match tex_word_of(word) {
                Some(repl) => repl + tex_decode_from(
                    cs,
                    if we < cs.len() && cs[we] == ' ' {
                        we + 1
                    } else {
                        we
                    },
                ),
                None => {
                    let j = i + 2 + space_run(cs, i + 2);
                    let accent = if word.len() == 1 {
                        accent_mark_of(cmd)
                    } else {
                        None
                    };
                    match (accent, accent_target_of(cs, j)) {
                        (Some(m), Some((b, next))) => if j < cs.len() && (cs[j] == '{' || is_alpha(
                            cs[j],
                        )) {
                            seq![b, m] + tex_decode_from(cs, next)
                        } else {
                            seq!['\\'] + tex_decode_from(cs, i + 1)
                        },
                        _ => seq!['\\'] + tex_decode_from(cs, i + 1),
                    }
                },
            }
        }
    }
}

/// TeX diacritics and letter commands decoded (before normalization).
pub open spec fn tex_decoded(s: Seq<char>) -> Seq<char> {
    tex_decode_from(s, 0)
}

/// Decode TeX diacritics ({\'{e}}, \"u, \v{s}) and letter commands (\ss, \o)
/// to a letter followed by its combining mark. Unknown commands pass through
/// untouched.
pub fn decode_tex_commands(s: &str) -> (r: String)
    ensures
        r@ == tex_decoded(s@),
{
    let cs = chars_of(s);
    let n = cs.len();
    let mut out: Vec<char> = Vec::new();
    let mut i: usize = 0;
    while i < n
        invariant
            i <= n == cs@.len(),
            out@ + tex_decode_from(cs@, i as int) == tex_decoded(cs@),
        decreases n - i,
    {
        let ghost old_out = out@;
        if cs[i] != '\\' || n - i < 2 {
            out.push(cs[i]);
            assert(out@ + tex_decode_from(cs@, i + 1) =~= old_out + tex_decode_from(cs@, i as int));
            i += 1;
            continue;
        }
        let cmd = cs[i + 1];
        if !is_ascii_alphabetic(cmd) {
            match accent_mark(cmd) {
                Some(mark) => {
                    match accent_target(cs.as_slice(), i + 2) {
                        Some((base, next)) => {
                            out.push(base);
                            out.push(mark);
                            assert(out@ + tex_decode_from(cs@, next as int) =~= old_out
                                + tex_decode_from(cs@, i as int));
                            i = next;
                            continue;
                        },
                        None => {},
                    }
                },
                None => {},
            }
            out.push('\\');
            assert(out@ + tex_decode_from(cs@, i + 1) =~= old_out + tex_decode_from(cs@, i as int));
            i += 1;
            continue;
        }
        // Word commands: \ss, \o, \ae ... end at a non-letter.
        let mut we = i + 1;
        while we < n && is_ascii_alphabetic(cs[we])
            invariant
                i + 1 <= we <= n == cs@.len(),
                alpha_run(cs@, i + 1) == (we - (i + 1)) + alpha_run(cs@, we as int),
            decreases n - we,
        {
            we += 1;
        }
        let word = slice_chars(cs.as_slice(), i + 1, we);
        match tex_word(word.as_slice()) {
            Some(repl) => {
                let rc = chars_of(repl);
                out.extend_from_slice(rc.as_slice());
                let next = if we < n && cs[we] == ' ' {
                    we + 1
                } else {
                    we
                };
                assert(out@ + tex_decode_from(cs@, next as int) =~= old_out + tex_decode_from(
                    cs@,
                    i as int,
                ));
                i = next;
                continue;
            },
            None => {},
        }
        // Letter-named accents require a braced or spaced argument: \v{s}, \c c.
        let mut j = i + 2;
        while j < n && cs[j] == ' '
            invariant
                i + 2 <= j <= n == cs@.len(),
                space_run(cs@, i + 2) == (j - (i + 2)) + space_run(cs@, j as int),
            decreases n - j,
        {
            j += 1;
        }
        if word.len() == 1 {
            match accent_mark(cmd) {
                Some(mark) => {
                    if j < n && (cs[j] == '{' || is_ascii_alphabetic(cs[j])) {
                        match accent_target(cs.as_slice(), j) {
                            Some((base, next)) => {
                                out.push(base);
                                out.push(mark);
                                assert(out@ + tex_decode_from(cs@, next as int) =~= old_out
                                    + tex_decode_from(cs@, i as int));
                                i = next;
                                continue;
                            },
                            None => {},
                        }
                    }
                },
                None => {},
            }
        }
        out.push('\\');
        assert(out@ + tex_decode_from(cs@, i + 1) =~= old_out + tex_decode_from(cs@, i as int));
        i += 1;
    }
    assert(out@ + seq![] =~= out@);
    string_of(out.as_slice())
}

/// TeX diacritics decoded and the result brought to NFC, so decoded accents
/// match what arXiv/Crossref deliver (é, not e+◌́).
pub open spec fn tex_to_unicode(s: Seq<char>) -> Seq<char> {
    nfc(tex_decoded(s))
}

/// Decode TeX diacritics and letter commands to Unicode in NFC.
pub fn decode_tex(s: &str) -> (r: String)
    ensures
        r@ == tex_to_unicode(s@),
        all_ascii(tex_decoded(s@)) ==> r@ == tex_decoded(s@),
{
    let raw = decode_tex_commands(s);
    nfc_string(raw.as_str())
}

/// What is left of decoded text once braces go, TeX escapes are undone and
/// whitespace is collapsed.
pub open spec fn cleaned(decoded: Seq<char>) -> Seq<char> {
    let no_braces = remove_char(remove_char(decoded, '{'), '}');
    squish(
        replace(
            replace(
                replace(
                    replace(replace(no_braces, "\\&"@, "&"@), "\\%"@, "%"@),
                    "\\#"@,
                    "#"@,
                ),
                "\\_"@,
                "_"@,
            ),
            "\\textbackslash"@,
            "\\"@,
        ),
    )
}

fn replace_lit(s: Vec<char>, pat: &str, rep: &str) -> (r: Vec<char>)
    requires
        pat@.len() > 0,
    ensures
        r@ == replace(s@, pat@, rep@),
{
    let p = chars_of(pat);
    let q = chars_of(rep);
    replace_chars(s.as_slice(), p.as_slice(), q.as_slice())
}

/// Braces stripped, TeX escapes undone and whitespace collapsed, on text
/// whose accent commands are already decoded.
pub fn clean_decoded(decoded: &str) -> (r: String)
    ensures
        r@ == cleaned(decoded@),
{
    proof {
        reveal_strlit("\\&");
        reveal_strlit("\\%");
        reveal_strlit("\\#");
        reveal_strlit("\\_");
        reveal_strlit("\\textbackslash");
    }
    let v = chars_of(decoded);
    let a = remove_char_chars(v.as_slice(), '{');
    let b = remove_char_chars(a.as_slice(), '}');
    let t = replace_lit(b, "\\&", "&");
    let t = replace_lit(t, "\\%", "%");
    let t = replace_lit(t, "\\#", "#");
    let t = replace_lit(t, "\\_", "_");
    let t = replace_lit(t, "\\textbackslash", "\\");
    let sq = squish_chars(t.as_slice());
    string_of(sq.as_slice())
}

/// A field value as stored: accents decoded (NFC), braces and TeX escapes
/// removed, whitespace collapsed.
pub open spec fn clean_value_of(v: Seq<char>) -> Seq<char> {
    cleaned(tex_to_unicode(v))
}

/// Strip braces and TeX escapes, decode accent commands, collapse whitespace.
pub fn clean_value(v: &str) -> (r: String)
    ensures
        r@ == clean_value_of(v@),
        all_ascii(tex_decoded(v@)) ==> r@ == cleaned(tex_decoded(v@)),
{
    let decoded = decode_tex(v);
    clean_decoded(decoded.as_str())
}

/// "Last, First" -> "First Last"; other names only get their whitespace collapsed.
pub open spec fn normalized_author(name: Seq<char>) -> Seq<char> {
    match find(name, ',') {
        Some(k) => squish(trim(name.skip(k + 1 as int)) + seq![' '] + trim(name.take(k as int))),
        None => squish(name),
    }
}

/// "Last, First" -> "First Last"; passthrough otherwise.
pub fn normalize_author(name: &str) -> (r: String)
    ensures
        r@ == normalized_author(name@),
{
    let v = chars_of(name);
    let n = v.len();
    match find_char(v.as_slice(), ',') {
        Some(k) => {
            let last = slice_chars(v.as_slice(), 0, k);
            let first = slice_chars(v.as_slice(), k + 1, n);
            assert(last@ =~= v@.take(k as int));
            assert(first@ =~= v@.skip(k + 1 as int));
            let mut joined = trim_chars(first.as_slice());
            let ghost ft = joined@;
            joined.push(' ');
            let lt = trim_chars(last.as_slice());
            joined.extend_from_slice(lt.as_slice());
            assert(joined@ =~= ft + seq![' '] + lt@);
            let sq = squish_chars(joined.as_slice());
            string_of(sq.as_slice())
        },
        None => {
            let sq = squish_chars(v.as_slice());
            string_of(sq.as_slice())
        },
    }
}


// ---------------------------------------------------------------------------
// Import: a tolerant hand-rolled parser (brace counting, no grammar games)
// ---------------------------------------------------------------------------

/// One parsed entry: its type and its fields in the order they appear.
/// A field name that occurs twice counts with its last value.
#[derive(Debug)]
pub struct BibEntry {
    pub entry_type: String,
    pub fields: Vec<(String, String)>,
}

/// An entry taken as character sequences.
pub struct EntryView {
    pub entry_type: Seq<char>,
    pub fields: Seq<(Seq<char>, Seq<char>)>,
}

pub open spec fn fields_view(f: Seq<(String, String)>) -> Seq<(Seq<char>, Seq<char>)> {
    f.map_values(|p: (String, String)| (p.0@, p.1@))
}

impl View for BibEntry {
    type V = EntryView;

    open spec fn view(&self) -> EntryView {
        EntryView { entry_type: self.entry_type@, fields: fields_view(self.fields@) }
    }
}

pub open spec fn entries_view(v: Seq<BibEntry>) -> Seq<EntryView> {
    v.map_values(|e: BibEntry| e@)
}

/// The value of the last field named `name`.
pub open spec fn field_lookup(fields: Seq<(Seq<char>, Seq<char>)>, name: Seq<char>) -> Option<
    Seq<char>,
>
    decreases fields.len(),
{
    if fields.len() == 0 {
        None
    } else if fields.last().0 == name {
        Some(fields.last().1)
    } else {
        field_lookup(fields.drop_last(), name)
    }
}

impl BibEntry {
    /// The value of the field `name` (the last one, if it occurs twice).
    pub fn get(&self, name: &str) -> (r: Option<&String>)
        ensures
            match r {
                Some(v) => field_lookup(fields_view(self.fields@), name@) == Some(v@),
                None => field_lookup(fields_view(self.fields@), name@) is None,
            },
    {
        let mut i = self.fields.len();
        let ghost fv = fields_view(self.fields@);
        assert(fv.take(i as int) =~= fv);
        while i > 0
            invariant
                i <= self.fields@.len(),
                fv == fields_view(self.fields@),
                field_lookup(fv, name@) == field_lookup(fv.take(i as int), name@),
            decreases i,
        {
            assert(fv.take(i as int).drop_last() =~= fv.take(i - 1));
            assert(fv.take(i as int).last() == fv[i - 1]);
            if str_eq(self.fields[i - 1].0.as_str(), name) {
                return Some(&self.fields[i - 1].1);
            }
            i -= 1;
        }
        None
    }
}

/// Characters from `cs[i]` up to the first `a` or `b` (or the end).
pub open spec fn scan_to(cs: Seq<char>, i: int, a: char, b: char) -> nat
    decreases cs.len() - i,
{
    if i < 0 || i >= cs.len() || cs[i] == a || cs[i] == b {
        0
    } else {
        1 + scan_to(cs, i + 1, a, b)
    }
}

/// Whitespace and commas from `cs[i]` on.
pub open spec fn ws_comma_run(cs: Seq<char>, i: int) -> nat
    decreases cs.len() - i,
{
    if i < 0 || i >= cs.len() || !(is_ws(cs[i]) || cs[i] == ',') {
        0
    } else {
        1 + ws_comma_run(cs, i + 1)
    }
}

/// Whitespace from `cs[i]` on.
pub open spec fn ws_run(cs: Seq<char>, i: int) -> nat
    decreases cs.len() - i,
{
    if i < 0 || i >= cs.len() || !is_ws(cs[i]) {
        0
    } else {
        1 + ws_run(cs, i + 1)
    }
}

/// The rest of a `{...}` value from `cs[i]`, `depth` braces being open: its
/// text (inner braces kept) and how many characters it spans, closing brace
/// included.
pub open spec fn braced_from(cs: Seq<char>, i: int, depth: nat) -> (Seq<char>, nat)
    decreases cs.len() - i,
{
    if i < 0 || i >= cs.len() || depth == 0 {
        (seq![], 0)
    } else if cs[i] == '{' {
        let (v, k) = braced_from(cs, i + 1, depth + 1);
        (seq!['{'] + v, k + 1)
    } else if cs[i] == '}' {
        let (v, k) = braced_from(cs, i + 1, (depth - 1) as nat);
        (if depth > 1 {
            seq!['}'] + v
        } else {
            v
        }, k + 1)
    } else {
        let (v, k) = braced_from(cs, i + 1, depth);
        (seq![cs[i]] + v, k + 1)
    }
}

/// The rest of a `"..."` value from `cs[i]`: its text and how many characters
/// it spans before the closing quote. A quote closes only outside braces, and
/// a stray '}' never takes the brace depth below zero.
pub open spec fn quoted_from(cs: Seq<char>, i: int, depth: nat) -> (Seq<char>, nat)
    decreases cs.len() - i,
{
    if i < 0 || i >= cs.len() {
        (seq![], 0)
    } else if cs[i] == '{' {
        let (v, k) = quoted_from(cs, i + 1, depth + 1);
        (seq!['{'] + v, k + 1)
    } else if cs[i] == '}' {
        let (v, k) = quoted_from(cs, i + 1, if depth > 0 {
            (depth - 1) as nat
        } else {
            0
        });
        (seq!['}'] + v, k + 1)
    } else if cs[i] == '"' && depth == 0 {
        (seq![], 0)
    } else {
        let (v, k) = quoted_from(cs, i + 1, depth);
        (seq![cs[i]] + v, k + 1)
    }
}

/// How many characters of a skipped body (`@comment{...}`) remain from `cs[i]`.
pub open spec fn skip_body(cs: Seq<char>, i: int, depth: nat, close: char) -> nat
    decreases cs.len() - i,
{
    if i < 0 || i >= cs.len() || depth == 0 {
        0
    } else {
        let nd: nat = if cs[i] == '{' {
            depth + 1
        } else if cs[i] == '}' {
            (depth - 1) as nat
        } else if cs[i] == close && depth == 1 {
            0
        } else {
            depth
        };
        1 + skip_body(cs, i + 1, nd, close)
    }
}

/// The index after `x`, but never past the end.
pub open spec fn step(x: int, len: int) -> int {
    if x < len {
        x + 1
    } else {
        len
    }
}

/// A field value at `cs[v0]` (braced, quoted or bare) and the index after it.
pub open spec fn field_value(cs: Seq<char>, v0: int, close: char) -> (Seq<char>, int) {
    if cs[v0] == '{' {
        let (v, k) = braced_from(cs, v0 + 1, 1);
        (v, v0 + 1 + k)
    } else if cs[v0] == '"' {
        let (v, k) = quoted_from(cs, v0 + 1, 0);
        (v, step(v0 + 1 + k, cs.len() as int))
    } else {
        let k = scan_to(cs, v0, ',', close);
        (cs.subrange(v0, v0 + k), v0 + k)
    }
}

pub proof fn lemma_scan_to_bound(cs: Seq<char>, i: int, a: char, b: char)
    requires
        0 <= i <= cs.len(),
    ensures
        i + scan_to(cs, i, a, b) <= cs.len(),
    decreases cs.len() - i,
{
    if i < cs.len() && cs[i] != a && cs[i] != b {
        lemma_scan_to_bound(cs, i + 1, a, b);
    }
}

pub proof fn lemma_ws_comma_run_bound(cs: Seq<char>, i: int)
    requires
        0 <= i <= cs.len(),
    ensures
        i + ws_comma_run(cs, i) <= cs.len(),
    decreases cs.len() - i,
{
    if i < cs.len() && (is_ws(cs[i]) || cs[i] == ',') {
        lemma_ws_comma_run_bound(cs, i + 1);
    }
}

pub proof fn lemma_ws_run_bound(cs: Seq<char>, i: int)
    requires
        0 <= i <= cs.len(),
    ensures
        i + ws_run(cs, i) <= cs.len(),
    decreases cs.len() - i,
{
    if i < cs.len() && is_ws(cs[i]) {
        lemma_ws_run_bound(cs, i + 1);
    }
}

pub proof fn lemma_braced_bound(cs: Seq<char>, i: int, depth: nat)
    requires
        0 <= i <= cs.len(),
    ensures
        i + braced_from(cs, i, depth).1 <= cs.len(),
    decreases cs.len() - i,
{
    if i < cs.len() && depth > 0 {
        if cs[i] == '{' {
            lemma_braced_bound(cs, i + 1, depth + 1);
        } else if cs[i] == '}' {
            lemma_braced_bound(cs, i + 1, (depth - 1) as nat);
        } else {
            lemma_braced_bound(cs, i + 1, depth);
        }
    }
}

pub proof fn lemma_quoted_bound(cs: Seq<char>, i: int, depth: nat)
    requires
        0 <= i <= cs.len(),
    ensures
        i + quoted_from(cs, i, depth).1 <= cs.len(),
    decreases cs.len() - i,
{
    if i < cs.len() {
        if cs[i] == '{' {
            lemma_quoted_bound(cs, i + 1, depth + 1);
        } else if cs[i] == '}' {
            lemma_quoted_bound(cs, i + 1, if depth > 0 { (depth - 1) as nat } else { 0 });
        } else if !(cs[i] == '"' && depth == 0) {
            lemma_quoted_bound(cs, i + 1, depth);
        }
    }
}

pub proof fn lemma_skip_body_bound(cs: Seq<char>, i: int, depth: nat, close: char)
    requires
        0 <= i <= cs.len(),
    ensures
        i + skip_body(cs, i, depth, close) <= cs.len(),
    decreases cs.len() - i,
{
    if i < cs.len() && depth > 0 {
        let nd: nat = if cs[i] == '{' {
            depth + 1
        } else if cs[i] == '}' {
            (depth - 1) as nat
        } else if cs[i] == close && depth == 1 {
            0
        } else {
            depth
        };
        lemma_skip_body_bound(cs, i + 1, nd, close);
    }
}

pub proof fn lemma_field_value_bound(cs: Seq<char>, v0: int, close: char)
    requires
        0 <= v0 < cs.len(),
    ensures
        v0 < field_value(cs, v0, close).1 <= cs.len() || (field_value(cs, v0, close).1 == v0
            && cs[v0] != '{' && cs[v0] != '"'),
        v0 <= field_value(cs, v0, close).1 <= cs.len(),
{
    lemma_braced_bound(cs, v0 + 1, 1);
    lemma_quoted_bound(cs, v0 + 1, 0);
    lemma_scan_to_bound(cs, v0, ',', close);
}

/// The fields from `cs[i]` on, up to the entry's closing character, and the
/// index after them.
pub open spec fn fields_from(cs: Seq<char>, i: int, close: char) -> (
    Seq<(Seq<char>, Seq<char>)>,
    int,
)
    decreases cs.len() - i,
{
    if i < 0 || i > cs.len() {
        (seq![], cs.len() as int)
    } else {
        let a = i + ws_comma_run(cs, i);
        proof {
            lemma_ws_comma_run_bound(cs, i);
        }
        if a >= cs.len() || cs[a] == close {
            (seq![], step(a, cs.len() as int))
        } else {
            let e = a + scan_to(cs, a, '=', close);
            proof {
                lemma_scan_to_bound(cs, a, '=', close);
            }
            if e >= cs.len() || cs[e] == close {
                (seq![], step(e, cs.len() as int))
            } else {
                let name = lowercase(trim(cs.subrange(a, e)));
                let v0 = e + 1 + ws_run(cs, e + 1);
                proof {
                    lemma_ws_run_bound(cs, e + 1);
                }
                if v0 >= cs.len() {
                    (seq![], v0)
                } else {
                    let (value, after) = field_value(cs, v0, close);
                    proof {
                        lemma_field_value_bound(cs, v0, close);
                    }
                    let (rest, next) = fields_from(cs, after, close);
                    (if name.len() > 0 {
                        seq![(name, clean_value_of(value))] + rest
                    } else {
                        rest
                    }, next)
                }
            }
        }
    }
}

pub proof fn lemma_fields_from_bound(cs: Seq<char>, i: int, close: char)
    requires
        0 <= i <= cs.len(),
    ensures
        i <= fields_from(cs, i, close).1 <= cs.len(),
    decreases cs.len() - i,
{
    lemma_ws_comma_run_bound(cs, i);
    let a = i + ws_comma_run(cs, i);
    if a < cs.len() && cs[a] != close {
        lemma_scan_to_bound(cs, a, '=', close);
        let e = a + scan_to(cs, a, '=', close);
        if e < cs.len() && cs[e] != close {
            lemma_ws_run_bound(cs, e + 1);
            let v0 = e + 1 + ws_run(cs, e + 1);
            if v0 < cs.len() {
                lemma_field_value_bound(cs, v0, close);
                lemma_fields_from_bound(cs, field_value(cs, v0, close).1, close);
            }
        }
    }
}

/// The entries from `cs[i]` on. Text outside `@type{...}` is ignored; comment,
/// preamble and string blocks are skipped; entries with an empty type are
/// dropped.
pub open spec fn entries_from(cs: Seq<char>, i: int) -> Seq<EntryView>
    decreases cs.len() - i,
{
    if i < 0 || i >= cs.len() {
        seq![]
    } else if cs[i] != '@' {
        entries_from(cs, i + 1)
    } else {
        let ts = i + 1;
        let te = ts + scan_to(cs, ts, '{', '(');
        proof {
            lemma_scan_to_bound(cs, ts, '{', '(');
        }
        let etype = lowercase(trim(cs.subrange(ts, te)));
        if te >= cs.len() {
            seq![]
        } else {
            let close = if cs[te] == '{' {
                '}'
            } else {
                ')'
            };
            let j = te + 1;
            if etype == "comment"@ || etype == "preamble"@ || etype == "string"@ {
                proof {
                    lemma_skip_body_bound(cs, j, 1, close);
                }
                entries_from(cs, j + skip_body(cs, j, 1, close))
            } else {
                let ke = j + scan_to(cs, j, ',', close);
                proof {
                    lemma_scan_to_bound(cs, j, ',', close);
                }
                let j2 = if ke < cs.len() && cs[ke] == ',' {
                    ke + 1
                } else {
                    ke
                };
                let (fields, next) = fields_from(cs, j2, close);
                proof {
                    lemma_fields_from_bound(cs, j2, close);
                }
                let rest = entries_from(cs, next);
                if etype.len() > 0 {
                    seq![EntryView { entry_type: etype, fields: fields }] + rest
                } else {
                    rest
                }
            }
        }
    }
}

/// A block that BibTeX files use for something other than a reference:
/// `@comment`, `@preamble` and `@string`.
pub open spec fn non_reference_block(t: Seq<char>) -> bool {
    t == "comment"@ || t == "preamble"@ || t == "string"@
}

proof fn lemma_entries_from_kinds(cs: Seq<char>, i: int)
    ensures
        forall|k: int|
            0 <= k < entries_from(cs, i).len() ==> !non_reference_block(
                (#[trigger] entries_from(cs, i)[k]).entry_type,
            ) && entries_from(cs, i)[k].entry_type.len() > 0,
    decreases cs.len() - i,
{
    if i < 0 || i >= cs.len() {
    } else if cs[i] != '@' {
        lemma_entries_from_kinds(cs, i + 1);
        assert(entries_from(cs, i) == entries_from(cs, i + 1));
    } else {
        let ts = i + 1;
        lemma_scan_to_bound(cs, ts, '{', '(');
        let te = ts + scan_to(cs, ts, '{', '(');
        let etype = lowercase(trim(cs.subrange(ts, te)));
        if te >= cs.len() {
            assert(entries_from(cs, i) == Seq::<EntryView>::empty());
        } else {
            let close = if cs[te] == '{' {
                '}'
            } else {
                ')'
            };
            let j = te + 1;
            if etype == "comment"@ || etype == "preamble"@ || etype == "string"@ {
                lemma_skip_body_bound(cs, j, 1, close);
                lemma_entries_from_kinds(cs, j + skip_body(cs, j, 1, close));
                assert(entries_from(cs, i) == entries_from(cs, j + skip_body(cs, j, 1, close)));
            } else {
                lemma_scan_to_bound(cs, j, ',', close);
                let ke = j + scan_to(cs, j, ',', close);
                let j2 = if ke < cs.len() && cs[ke] == ',' {
                    ke + 1
                } else {
                    ke
                };
                lemma_fields_from_bound(cs, j2, close);
                let next = fields_from(cs, j2, close).1;
                lemma_entries_from_kinds(cs, next);
                let rest = entries_from(cs, next);
                if etype.len() > 0 {
                    let all = seq![EntryView { entry_type: etype, fields: fields_from(cs, j2, close).0 }]
                        + rest;
                    assert(entries_from(cs, i) == all);
                    assert forall|k: int| 0 <= k < all.len() implies !non_reference_block(
                        (#[trigger] all[k]).entry_type,
                    ) && all[k].entry_type.len() > 0 by {
                        if k > 0 {
                            assert(all[k] == rest[k - 1]);
                        }
                    }
                } else {
                    assert(entries_from(cs, i) == rest);
                }
            }
        }
    }
}

/// `@comment`, `@preamble` and `@string` blocks (in any case) are skipped:
/// no entry that `parse` returns has one of those types, and none has an
/// empty type.
pub proof fn parse_skips_non_reference_blocks(input: Seq<char>)
    ensures
        forall|k: int|
            0 <= k < bib_entries(input).len() ==> !non_reference_block(
                (#[trigger] bib_entries(input)[k]).entry_type,
            ) && bib_entries(input)[k].entry_type.len() > 0,
{
    lemma_entries_from_kinds(input, 0);
}

/// The entries of a BibTeX text.
pub open spec fn bib_entries(input: Seq<char>) -> Seq<EntryView> {
    entries_from(input, 0)
}


fn scan_to_exec(cs: &[char], i: usize, a: char, b: char) -> (r: usize)
    requires
        i <= cs@.len(),
    ensures
        r == i + scan_to(cs@, i as int, a, b),
        r <= cs@.len(),
{
    let mut j = i;
    while j < cs.len() && cs[j] != a && cs[j] != b
        invariant
            i <= j <= cs@.len(),
            scan_to(cs@, i as int, a, b) == (j - i) + scan_to(cs@, j as int, a, b),
        decreases cs@.len() - j,
    {
        j += 1;
    }
    j
}

fn ws_comma_exec(cs: &[char], i: usize) -> (r: usize)
    requires
        i <= cs@.len(),
    ensures
        r == i + ws_comma_run(cs@, i as int),
        r <= cs@.len(),
{
    let mut j = i;
    while j < cs.len() && (is_whitespace(cs[j]) || cs[j] == ',')
        invariant
            i <= j <= cs@.len(),
            ws_comma_run(cs@, i as int) == (j - i) + ws_comma_run(cs@, j as int),
        decreases cs@.len() - j,
    {
        j += 1;
    }
    j
}

fn ws_exec(cs: &[char], i: usize) -> (r: usize)
    requires
        i <= cs@.len(),
    ensures
        r == i + ws_run(cs@, i as int),
        r <= cs@.len(),
{
    let mut j = i;
    while j < cs.len() && is_whitespace(cs[j])
        invariant
            i <= j <= cs@.len(),
            ws_run(cs@, i as int) == (j - i) + ws_run(cs@, j as int),
        decreases cs@.len() - j,
    {
        j += 1;
    }
    j
}

fn braced_exec(cs: &[char], i: usize) -> (r: (Vec<char>, usize))
    requires
        1 <= i <= cs@.len(),
    ensures
        r.0@ == braced_from(cs@, i as int, 1).0,
        r.1 == i + braced_from(cs@, i as int, 1).1,
        r.1 <= cs@.len(),
{
    let n = cs.len();
    let mut j = i;
    let mut depth: usize = 1;
    let mut v: Vec<char> = Vec::new();
    while j < n && depth > 0
        invariant
            i <= j <= n == cs@.len(),
            1 <= i,
            depth <= j - i + 1,
            v@ + braced_from(cs@, j as int, depth as nat).0 == braced_from(cs@, i as int, 1).0,
            (j - i) + braced_from(cs@, j as int, depth as nat).1 == braced_from(
                cs@,
                i as int,
                1,
            ).1,
        decreases n - j,
    {
        let ghost old_v = v@;
        let c = cs[j];
        if c == '{' {
            depth += 1;
            v.push('{');
        } else if c == '}' {
            depth -= 1;
            if depth > 0 {
                v.push('}');
            }
        } else {
            v.push(c);
        }
        assert(v@ + braced_from(cs@, j + 1, depth as nat).0 =~= old_v + braced_from(
            cs@,
            j as int,
            if c == '{' {
                (depth - 1) as nat
            } else if c == '}' {
                (depth + 1) as nat
            } else {
                depth as nat
            },
        ).0);
        j += 1;
    }
    assert(v@ + seq![] =~= v@);
    (v, j)
}

fn quoted_exec(cs: &[char], i: usize) -> (r: (Vec<char>, usize))
    requires
        i <= cs@.len(),
    ensures
        r.0@ == quoted_from(cs@, i as int, 0).0,
        r.1 == i + quoted_from(cs@, i as int, 0).1,
        r.1 <= cs@.len(),
{
    let n = cs.len();
    let mut j = i;
    let mut depth: usize = 0;
    let mut v: Vec<char> = Vec::new();
    while j < n
        invariant
            i <= j <= n == cs@.len(),
            depth <= j - i,
            v@ + quoted_from(cs@, j as int, depth as nat).0 == quoted_from(cs@, i as int, 0).0,
            (j - i) + quoted_from(cs@, j as int, depth as nat).1 == quoted_from(
                cs@,
                i as int,
                0,
            ).1,
        ensures
            i <= j <= n,
            v@ == quoted_from(cs@, i as int, 0).0,
            j - i == quoted_from(cs@, i as int, 0).1,
        decreases n - j,
    {
        let ghost old_v = v@;
        let ghost old_d = depth;
        let c = cs[j];
        if c == '{' {
            depth += 1;
            v.push('{');
        } else if c == '}' {
            if depth > 0 {
                depth -= 1;
            }
            v.push('}');
        } else if c == '"' && depth == 0 {
            assert(v@ + seq![] =~= v@);
            break;
        } else {
            v.push(c);
        }
        assert(v@ + quoted_from(cs@, j + 1, depth as nat).0 =~= old_v + quoted_from(
            cs@,
            j as int,
            old_d as nat,
        ).0);
        j += 1;
    }
    assert(v@ + seq![] =~= v@);
    (v, j)
}

fn skip_body_exec(cs: &[char], i: usize, close: char) -> (r: usize)
    requires
        1 <= i <= cs@.len(),
    ensures
        r == i + skip_body(cs@, i as int, 1, close),
        r <= cs@.len(),
{
    let n = cs.len();
    let mut j = i;
    let mut depth: usize = 1;
    while j < n && depth > 0
        invariant
            i <= j <= n == cs@.len(),
            1 <= i,
            depth <= j - i + 1,
            (j - i) + skip_body(cs@, j as int, depth as nat, close) == skip_body(
                cs@,
                i as int,
                1,
                close,
            ),
        decreases n - j,
    {
        let c = cs[j];
        if c == '{' {
            depth += 1;
        } else if c == '}' {
            depth -= 1;
        } else if c == close && depth == 1 {
            depth = 0;
        }
        j += 1;
    }
    j
}

/// The fields of one entry from `cs[i]`, and the index after them.
fn fields_exec(cs: &[char], i: usize, close: char) -> (r: (Vec<(String, String)>, usize))
    requires
        i <= cs@.len(),
    ensures
        fields_view(r.0@) == fields_from(cs@, i as int, close).0,
        r.1 == fields_from(cs@, i as int, close).1,
{
    let n = cs.len();
    let mut acc: Vec<(String, String)> = Vec::new();
    let mut j = i;
    assert(fields_view(acc@) + fields_from(cs@, i as int, close).0 =~= fields_from(
        cs@,
        i as int,
        close,
    ).0);
    loop
        invariant
            i <= j <= n == cs@.len(),
            fields_view(acc@) + fields_from(cs@, j as int, close).0 == fields_from(
                cs@,
                i as int,
                close,
            ).0,
            fields_from(cs@, j as int, close).1 == fields_from(cs@, i as int, close).1,
        decreases n - j,
    {
        let a = ws_comma_exec(cs, j);
        if a >= n || cs[a] == close {
            let next = if a < n {
                a + 1
            } else {
                n
            };
            assert(fields_view(acc@) + seq![] =~= fields_view(acc@));
            return (acc, next);
        }
        let e = scan_to_exec(cs, a, '=', close);
        if e >= n || cs[e] == close {
            let next = if e < n {
                e + 1
            } else {
                n
            };
            assert(fields_view(acc@) + seq![] =~= fields_view(acc@));
            return (acc, next);
        }
        let raw_name = slice_chars(cs, a, e);
        let tn = trim_chars(raw_name.as_slice());
        let name = lowercase_chars(tn.as_slice());
        let v0 = ws_exec(cs, e + 1);
        if v0 >= n {
            assert(fields_view(acc@) + seq![] =~= fields_view(acc@));
            return (acc, v0);
        }
        let (value, after) = if cs[v0] == '{' {
            braced_exec(cs, v0 + 1)
        } else if cs[v0] == '"' {
            let (v, k) = quoted_exec(cs, v0 + 1);
            (v, if k < n {
                k + 1
            } else {
                n
            })
        } else {
            let k = scan_to_exec(cs, v0, ',', close);
            (slice_chars(cs, v0, k), k)
        };
        proof {
            lemma_field_value_bound(cs@, v0 as int, close);
        }
        assert(value@ == field_value(cs@, v0 as int, close).0);
        assert(after == field_value(cs@, v0 as int, close).1);
        let ghost old_acc = fields_view(acc@);
        if name.len() > 0 {
            let vs = string_of(value.as_slice());
            let cleaned_value = clean_value(vs.as_str());
            acc.push((string_of(name.as_slice()), cleaned_value));
            assert(fields_view(acc@) =~= old_acc.push((name@, clean_value_of(value@))));
            assert(fields_view(acc@) + fields_from(cs@, after as int, close).0 =~= old_acc + (seq![
                (name@, clean_value_of(value@))] + fields_from(cs@, after as int, close).0));
        }
        j = after;
    }
}

/// Parse BibTeX text into its entries. The parser is tolerant: it never
/// fails, skipping what it cannot read.
pub fn parse(input: &str) -> (r: Vec<BibEntry>)
    ensures
        entries_view(r@) == bib_entries(input@),
{
    let cs = chars_of(input);
    let n = cs.len();
    let mut entries: Vec<BibEntry> = Vec::new();
    let mut i: usize = 0;
    assert(entries_view(entries@) + entries_from(cs@, 0) =~= bib_entries(input@));
    while i < n
        invariant
            i <= n == cs@.len(),
            cs@ == input@,
            entries_view(entries@) + entries_from(cs@, i as int) == bib_entries(input@),
        ensures
            entries_view(entries@) == bib_entries(input@),
        decreases n - i,
    {
        if cs[i] != '@' {
            i += 1;
            continue;
        }
        let ts = i + 1;
        let te = scan_to_exec(cs.as_slice(), ts, '{', '(');
        let raw_type = slice_chars(cs.as_slice(), ts, te);
        let tt = trim_chars(raw_type.as_slice());
        let etype = lowercase_chars(tt.as_slice());
        if te >= n {
            assert(entries_view(entries@) + seq![] =~= entries_view(entries@));
            break;
        }
        let close = if cs[te] == '{' {
            '}'
        } else {
            ')'
        };
        let j = te + 1;
        if eq_str(etype.as_slice(), "comment") || eq_str(etype.as_slice(), "preamble") || eq_str(
            etype.as_slice(),
            "string",
        ) {
            i = skip_body_exec(cs.as_slice(), j, close);
            continue;
        }
        let ke = scan_to_exec(cs.as_slice(), j, ',', close);
        let j2 = if ke < n && cs[ke] == ',' {
            ke + 1
        } else {
            ke
        };
        let (fields, next) = fields_exec(cs.as_slice(), j2, close);
        proof {
            lemma_fields_from_bound(cs@, j2 as int, close);
        }
        let ghost old_e = entries_view(entries@);
        if etype.len() > 0 {
            let entry = BibEntry { entry_type: string_of(etype.as_slice()), fields };
            let ghost ev = entry@;
            entries.push(entry);
            assert(entries_view(entries@) =~= old_e.push(ev));
            assert(entries_view(entries@) + entries_from(cs@, next as int) =~= old_e + (seq![ev]
                + entries_from(cs@, next as int)));
        }
        i = next;
    }
    entries
}

} // verus!
