use rlist::model::{last_name, normalize_tag, normalize_tags, squish, Paper, Priority, Status};

fn paper(authors: &str) -> Paper {
    Paper {
        id: 1,
        title: "Attention Is All You Need".into(),
        authors: authors.into(),
        year: Some(2017),
        venue: None,
        arxiv_id: None,
        doi: None,
        url: None,
        pdf_url: None,
        abstract_: None,
        status: Status::ToRead,
        priority: Priority::Normal,
        rating: None,
        tags: vec![],
        added_at: "2026-01-01 00:00:00".into(),
        started_at: None,
        finished_at: None,
        notes: vec![],
    }
}

#[test]
fn status_names_parse_back() {
    for s in [Status::ToRead, Status::Reading, Status::Read, Status::Dropped] {
        assert_eq!(Status::parse(s.as_str()), Some(s));
    }
}

#[test]
fn status_words_are_case_insensitive() {
    assert_eq!(Status::parse("TO-READ"), Some(Status::ToRead));
    assert_eq!(Status::parse("Finished"), Some(Status::Read));
    assert_eq!(Status::parse("x"), Some(Status::Dropped));
    assert_eq!(Status::parse("In-Progress"), Some(Status::Reading));
    assert_eq!(Status::parse("later"), None);
}

#[test]
fn priorities_roundtrip_by_name_and_number() {
    for p in [Priority::Low, Priority::Normal, Priority::High] {
        assert_eq!(Priority::parse(p.as_str()), Some(p));
        assert_eq!(Priority::from_int(p.to_int()), p);
    }
    assert_eq!(Priority::parse("H"), Some(Priority::High));
    assert_eq!(Priority::parse("medium"), Some(Priority::Normal));
    assert_eq!(Priority::from_int(7), Priority::Normal);
    assert_eq!(Priority::High.to_int(), 2);
    assert_eq!(Priority::parse("urgent"), None);
}

#[test]
fn glyphs() {
    assert_eq!(Status::Reading.glyph(), "◐");
    assert_eq!(Priority::High.glyph(), "↑");
    assert_eq!(Priority::Normal.glyph(), " ");
}

#[test]
fn short_authors_forms() {
    assert_eq!(paper("Ashish Vaswani; Noam Shazeer; Niki Parmar").short_authors(), "Vaswani +2");
    assert_eq!(paper("Ashish Vaswani;Noam Shazeer").short_authors(), "Vaswani, Shazeer");
    assert_eq!(paper(" Plato ").short_authors(), "Plato");
    assert_eq!(paper(" ; ").short_authors(), "");
    assert_eq!(paper("A B; ;C D").author_list(), vec!["A B", "C D"]);
}

#[test]
fn best_url_prefers_page_or_pdf() {
    let mut p = paper("");
    assert_eq!(p.best_url(false), None);
    p.pdf_url = Some("pdf".into());
    assert_eq!(p.best_url(false), Some("pdf"));
    p.url = Some("page".into());
    assert_eq!(p.best_url(false), Some("page"));
    assert_eq!(p.best_url(true), Some("pdf"));
}

#[test]
fn last_names() {
    assert_eq!(last_name("Ada Lovelace"), "Lovelace");
    assert_eq!(last_name("Plato"), "Plato");
}

#[test]
fn tags_are_normalized() {
    assert_eq!(normalize_tag("  Deep   Learning "), "deep-learning");
    assert_eq!(normalize_tag("C,S"), "cs");
    let tags: Vec<String> = vec![
        "Machine Learning, NLP".into(),
        "nlp".into(),
        " ".into(),
        "a,b".into(),
    ];
    assert_eq!(normalize_tags(&tags), vec!["machine-learning", "nlp", "a", "b"]);
}

#[test]
fn squish_collapses_whitespace() {
    assert_eq!(squish("  a \n b\tc "), "a b c");
    assert_eq!(squish("   "), "");
}

#[test]
fn normal_forms_are_stable() {
    let t = normalize_tag(" Deep  Learning, ");
    assert_eq!(t, "deep-learning");
    assert_eq!(normalize_tag(&t), t);
    let tags = normalize_tags(&["ML, nlp".to_string(), "ml".to_string(), " ".to_string()]);
    assert_eq!(tags, vec!["ml", "nlp"]);
    for t in &tags {
        assert_eq!(&normalize_tag(t), t);
    }
    let s = squish(" a \n\t b  c ");
    assert_eq!(s, "a b c");
    assert_eq!(squish(&s), s);
}
