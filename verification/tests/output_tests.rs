use rlist::output::{
    bar, date_of, pad, paint, priority_style, rating_stars, status_style, truncate, wrap,
    wrap_first, wrap_hanging,
};
use rlist::model::{Priority, Status};

#[test]
fn painting() {
    assert_eq!(paint(true, "31", "x"), "\x1b[31mx\x1b[0m");
    assert_eq!(paint(true, "31", ""), "");
    assert_eq!(paint(false, "31", "x"), "x");
    assert_eq!(status_style(Status::Read), "32");
    assert_eq!(priority_style(Priority::Normal), "0");
}

#[test]
fn truncation_counts_columns() {
    assert_eq!(truncate("hello world", 5), "hell…");
    assert_eq!(truncate("hello", 5), "hello");
    assert_eq!(truncate("hello", 0), "");
    assert_eq!(truncate("日本語テキスト", 5), "日本…");
}

#[test]
fn padding_counts_columns() {
    assert_eq!(pad("ab", 4), "ab  ");
    assert_eq!(pad("日本", 5), "日本 ");
    assert_eq!(pad("abcdef", 3), "abcdef");
}

#[test]
fn stars_and_bars() {
    assert_eq!(rating_stars(Some(3)), "★★★☆☆");
    assert_eq!(rating_stars(Some(9)), "★★★★★");
    assert_eq!(rating_stars(None), "");
    assert_eq!(bar(3, 10, 20), "██████");
    assert_eq!(bar(1, 3, 20), "███████");
    assert_eq!(bar(5, 0, 20), "");
}

#[test]
fn wrapping() {
    assert_eq!(wrap("aa bb cc", 5, "> "), "> aa bb\n> cc");
    assert_eq!(wrap_first("aa bb cc", 5), "aa bb\n  cc");
    assert_eq!(wrap_hanging("aa bb cc dd", 8, 3), "aa bb\n     cc dd");
    assert_eq!(date_of("2024-05-01 10:00:00"), "2024-05-01");
    assert_eq!(date_of("2024"), "2024");
}

#[test]
fn wrapping_keeps_words_and_indent() {
    assert_eq!(wrap("aa bb cc", 5, "> "), "> aa bb\n> cc");
    let text = "the quick  brown fox\tjumps over the lazy dog";
    let w = wrap(text, 10, "  ");
    assert!(w.split('\n').all(|l| l.starts_with("  ")));
    let words: Vec<&str> = w.split_whitespace().collect();
    assert_eq!(words, text.split_whitespace().collect::<Vec<_>>());
    assert_eq!(wrap("  \n ", 10, "> "), "");
}
