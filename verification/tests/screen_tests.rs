use rlist::model::{Note, Paper, Priority, Status};
use rlist::screen::{confirm_text, detail_lines, paper_summary, table_lines, tag_lines};
use rlist::stats::TagCount;

fn sample() -> Paper {
    Paper {
        id: 1,
        title: "Attention Is All You Need".into(),
        authors: "Ashish Vaswani; Noam Shazeer".into(),
        year: Some(2017),
        venue: None,
        arxiv_id: Some("1706.03762".into()),
        doi: None,
        url: Some("https://arxiv.org/abs/1706.03762".into()),
        pdf_url: None,
        abstract_: None,
        status: Status::ToRead,
        priority: Priority::Normal,
        rating: None,
        tags: vec!["transformers".into()],
        added_at: "2026-01-01 00:00:00".into(),
        started_at: None,
        finished_at: None,
        notes: vec![],
    }
}

#[test]
fn the_table() {
    assert_eq!(
        table_lines(&[], 100, false),
        vec!["nothing here, add a paper with `rlist add <arxiv-id|doi|url|title>`"]
    );
    let lines = table_lines(&[sample()], 100, false);
    assert_eq!(
        lines,
        vec![
            "ID      TITLE                                            AUTHORS            YEAR  TAGS",
            "1   ○   Attention Is All You Need                        Vaswani, Shazeer   2017  transformers",
        ]
    );
    let colored = table_lines(&[sample()], 100, true);
    assert!(colored[0].starts_with("\x1b[2mID"));
}

#[test]
fn the_detail_view() {
    let lines = detail_lines(&sample(), 80, false);
    assert_eq!(
        lines,
        vec![
            "",
            "  Attention Is All You Need",
            "  Ashish Vaswani, Noam Shazeer",
            "  2017",
            "",
            "  status     ○ to-read",
            "  priority   normal",
            "  tags       transformers",
            "  arxiv      1706.03762",
            "  url        https://arxiv.org/abs/1706.03762",
            "  added      2026-01-01",
            "",
        ]
    );
    let mut p = sample();
    p.status = Status::Read;
    p.finished_at = Some("2026-02-03 04:05:06".into());
    p.rating = Some(4);
    p.abstract_ = Some("A short abstract.".into());
    p.notes = vec![Note { created_at: "2026-02-04 10:00:00".into(), body: "nice".into() }];
    let lines = detail_lines(&p, 80, false);
    assert_eq!(lines[5], "  status     ● read (finished 2026-02-03)");
    assert_eq!(lines[7], "  rating     ★★★★☆");
    let n = lines.len();
    assert_eq!(lines[n - 7..].to_vec(), vec![
        "",
        "  abstract",
        "  A short abstract.",
        "",
        "  notes (1)",
        "  [2026-02-04] nice",
        "",
    ]);
}

#[test]
fn confirmations_and_summaries() {
    assert_eq!(confirm_text("added", &sample(), 80, false), "added #1 Attention Is All You Need");
    assert_eq!(confirm_text("read ✓", &sample(), 24, false), "read ✓ #1 Attenti…");
    assert_eq!(
        paper_summary(&sample(), true).as_deref(),
        Some("Vaswani, Shazeer · 2017 · [transformers]")
    );
    let mut bare = sample();
    bare.authors = String::new();
    bare.year = None;
    assert_eq!(paper_summary(&bare, false), None);
}

#[test]
fn the_tag_list() {
    assert_eq!(
        tag_lines(&[], false),
        vec!["no tags yet, add one with `rlist add ... -t <tag>`"]
    );
    let counts = vec![
        TagCount { name: "ml".into(), total: 2, read: 1 },
        TagCount { name: "nlp".into(), total: 1, read: 0 },
    ];
    let lines = tag_lines(&counts, false);
    assert_eq!(lines[0], format!("  ml     2 (1 read)  {}", "█".repeat(20)));
    assert_eq!(lines[1], format!("  nlp    1 (0 read)  {}", "█".repeat(10)));
}
