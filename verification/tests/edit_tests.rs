use rlist::commands::CliError;
use rlist::edit::{apply_edit, edit_arxiv, edit_doi, new_paper, tidy_author_list, AddOptions, PaperEdit};
use rlist::fetch::{Fetched, RefKind};
use rlist::model::{Paper, Priority, Status};

fn opts() -> AddOptions {
    AddOptions {
        title: None,
        authors: None,
        year: None,
        venue: None,
        url: None,
        tags: vec![],
        priority: None,
        status: None,
        rating: None,
    }
}

fn no_edit() -> PaperEdit {
    PaperEdit {
        title: None,
        authors: None,
        year: None,
        venue: None,
        url: None,
        pdf_url: None,
        doi: None,
        arxiv: None,
        add_tags: vec![],
        rm_tags: vec![],
        priority: None,
        status: None,
        rating: None,
    }
}

fn stored() -> Paper {
    Paper {
        id: 7,
        title: "Old Title".into(),
        authors: "Ada Lovelace".into(),
        year: Some(1843),
        venue: Some("Notes".into()),
        arxiv_id: None,
        doi: None,
        url: Some("https://example.com".into()),
        pdf_url: None,
        abstract_: Some("abs".into()),
        status: Status::Read,
        priority: Priority::Normal,
        rating: Some(3),
        tags: vec!["ml".into(), "math".into()],
        added_at: "2024-01-01 10:00:00".into(),
        started_at: Some("2024-01-02 10:00:00".into()),
        finished_at: Some("2024-01-03 10:00:00".into()),
        notes: vec![],
    }
}

#[test]
fn plain_title_makes_a_manual_entry() {
    let mut o = opts();
    o.tags = vec!["NLP, ml".into()];
    let p = new_paper(&RefKind::Title("  A Title  ".into()), None, o, "now").unwrap();
    assert_eq!(p.title, "A Title");
    assert_eq!(p.status, Status::ToRead);
    assert_eq!(p.priority, Priority::Normal);
    assert_eq!(p.tags, vec!["nlp", "ml"]);
    assert_eq!(p.added_at, "now");
    assert_eq!(p.started_at, None);
    assert_eq!(p.url, None);
}

#[test]
fn a_url_needs_a_title() {
    let kind = RefKind::Url("https://example.com/p.pdf".into());
    assert_eq!(new_paper(&kind, None, opts(), "now").err(), Some(CliError::UrlNeedsTitle));
    let mut o = opts();
    o.title = Some("Given".into());
    let p = new_paper(&kind, None, o, "now").unwrap();
    assert_eq!(p.title, "Given");
    assert_eq!(p.url.as_deref(), Some("https://example.com/p.pdf"));
}

#[test]
fn unfetched_arxiv_and_doi_entries() {
    let kind = RefKind::Arxiv { id: "1706.03762".into(), fetch_id: "1706.03762v5".into() };
    let p = new_paper(&kind, None, opts(), "now").unwrap();
    assert_eq!(p.title, "arXiv:1706.03762");
    assert_eq!(p.arxiv_id.as_deref(), Some("1706.03762"));
    assert_eq!(p.url.as_deref(), Some("https://arxiv.org/abs/1706.03762"));
    assert_eq!(p.pdf_url.as_deref(), Some("https://arxiv.org/pdf/1706.03762"));
    assert_eq!(p.venue.as_deref(), Some("arXiv"));
    let p = new_paper(&RefKind::Doi("10.1/x".into()), None, opts(), "now").unwrap();
    assert_eq!(p.title, "doi:10.1/x");
    assert_eq!(p.doi.as_deref(), Some("10.1/x"));
    assert_eq!(p.url.as_deref(), Some("https://doi.org/10.1/x"));
}

#[test]
fn fetched_metadata_is_used_and_overridden() {
    let f = Fetched {
        title: "Fetched".into(),
        authors: vec!["A One".into(), "B Two".into()],
        year: Some(2017),
        venue: None,
        abstract_: Some("abstract".into()),
        url: Some("u".into()),
        pdf_url: Some("p".into()),
        doi: None,
        arxiv_id: Some("1706.03762".into()),
    };
    let kind = RefKind::Arxiv { id: "1706.03762".into(), fetch_id: "1706.03762".into() };
    let p = new_paper(&kind, Some(f.clone()), opts(), "now").unwrap();
    assert_eq!(p.title, "Fetched");
    assert_eq!(p.authors, "A One; B Two");
    assert_eq!(p.venue.as_deref(), Some("arXiv"));
    assert_eq!(p.abstract_.as_deref(), Some("abstract"));
    let mut o = opts();
    o.authors = Some(" X Y ;; Z ".into());
    o.year = Some(2018);
    o.venue = Some("NeurIPS".into());
    o.rating = Some(5);
    o.status = Some("reading".into());
    let p = new_paper(&kind, Some(f), o, "now").unwrap();
    assert_eq!(p.authors, "X Y; Z");
    assert_eq!(p.year, Some(2018));
    assert_eq!(p.venue.as_deref(), Some("NeurIPS"));
    assert_eq!(p.status, Status::Read);
    assert_eq!(p.finished_at.as_deref(), Some("now"));
    assert_eq!(p.started_at, None);
    assert_eq!(p.rating, Some(5));
}

#[test]
fn add_refusals_in_order() {
    let kind = RefKind::Title("T".into());
    let mut o = opts();
    o.year = Some(20);
    o.priority = Some("urgent".into());
    assert_eq!(new_paper(&kind, None, o, "now").err(), Some(CliError::BadYear(20)));
    let mut o = opts();
    o.priority = Some("urgent".into());
    o.status = Some("later".into());
    assert_eq!(new_paper(&kind, None, o, "now").err(), Some(CliError::UnknownPriority("urgent".into())));
    let mut o = opts();
    o.status = Some("later".into());
    assert_eq!(new_paper(&kind, None, o, "now").err(), Some(CliError::UnknownStatus("later".into())));
    let mut o = opts();
    o.rating = Some(9);
    assert_eq!(new_paper(&kind, None, o, "now").err(), Some(CliError::BadRating));
    let mut o = opts();
    o.title = Some("   ".into());
    assert_eq!(new_paper(&kind, None, o, "now").err(), Some(CliError::EmptyTitle));
    let mut o = opts();
    o.status = Some("Reading".into());
    let p = new_paper(&kind, None, o, "now").unwrap();
    assert_eq!(p.started_at.as_deref(), Some("now"));
}

#[test]
fn author_lists_are_tidied() {
    assert_eq!(tidy_author_list(" a ;b;; c "), "a; b; c");
    assert_eq!(tidy_author_list(""), "");
}

#[test]
fn an_empty_edit_changes_nothing() {
    assert_eq!(apply_edit(stored(), no_edit(), None, None, "now").err(), Some(CliError::NothingToChange));
}

#[test]
fn edits_replace_and_clear_fields() {
    let mut e = no_edit();
    e.title = Some("  New  ".into());
    e.year = Some(0);
    e.venue = Some("  ".into());
    e.url = Some(" https://x ".into());
    e.rating = Some(0);
    e.priority = Some("high".into());
    let q = apply_edit(stored(), e, None, None, "now").unwrap();
    assert_eq!(q.title, "New");
    assert_eq!(q.year, None);
    assert_eq!(q.venue, None);
    assert_eq!(q.url.as_deref(), Some("https://x"));
    assert_eq!(q.rating, None);
    assert_eq!(q.priority, Priority::High);
    assert_eq!(q.id, 7);
    assert_eq!(q.abstract_.as_deref(), Some("abs"));
}

#[test]
fn edits_add_then_remove_tags() {
    let mut e = no_edit();
    e.add_tags = vec!["NLP".into(), "ml".into()];
    e.rm_tags = vec!["math".into(), "absent".into()];
    let q = apply_edit(stored(), e, None, None, "now").unwrap();
    assert_eq!(q.tags, vec!["ml", "nlp"]);
}

#[test]
fn status_moves_keep_timestamps_in_step() {
    let mut e = no_edit();
    e.status = Some("reading".into());
    let q = apply_edit(stored(), e, None, None, "now").unwrap();
    assert_eq!(q.status, Status::Reading);
    assert_eq!(q.started_at.as_deref(), Some("now"));
    assert_eq!(q.finished_at, None);
    let mut e = no_edit();
    e.status = Some("to-read".into());
    let q = apply_edit(stored(), e, None, None, "now").unwrap();
    assert_eq!(q.started_at, None);
    assert_eq!(q.finished_at, None);
    let mut e = no_edit();
    e.status = Some("read".into());
    let q = apply_edit(stored(), e, None, None, "now").unwrap();
    assert_eq!(q.finished_at.as_deref(), Some("2024-01-03 10:00:00"));
}

#[test]
fn identifiers_must_be_free() {
    let mut e = no_edit();
    e.doi = Some(" 10.1/x ".into());
    assert_eq!(edit_doi(&e).as_deref(), Some("10.1/x"));
    assert_eq!(
        apply_edit(stored(), e, Some(3), None, "now").err(),
        Some(CliError::DoiTaken("10.1/x".into(), 3))
    );
    let mut e = no_edit();
    e.doi = Some("10.1/x".into());
    let q = apply_edit(stored(), e, Some(7), None, "now").unwrap();
    assert_eq!(q.doi.as_deref(), Some("10.1/x"));
    let mut e = no_edit();
    e.arxiv = Some(" 1706.03762v3 ".into());
    assert_eq!(edit_arxiv(&e).as_deref(), Some("1706.03762"));
    assert_eq!(
        apply_edit(stored(), e, None, Some(1), "now").err(),
        Some(CliError::ArxivTaken("1706.03762".into(), 1))
    );
    let mut e = no_edit();
    e.arxiv = Some("".into());
    assert_eq!(edit_arxiv(&e), None);
    let q = apply_edit(stored(), e, None, None, "now").unwrap();
    assert_eq!(q.arxiv_id, None);
}

#[test]
fn edit_refusals_in_order() {
    let mut e = no_edit();
    e.title = Some(" ".into());
    e.year = Some(5);
    assert_eq!(apply_edit(stored(), e, None, None, "now").err(), Some(CliError::EmptyTitle));
    let mut e = no_edit();
    e.year = Some(5);
    e.rating = Some(8);
    assert_eq!(apply_edit(stored(), e, None, None, "now").err(), Some(CliError::BadYear(5)));
    let mut e = no_edit();
    e.status = Some("someday".into());
    assert_eq!(apply_edit(stored(), e, None, None, "now").err(), Some(CliError::UnknownStatus("someday".into())));
    let mut e = no_edit();
    e.rating = Some(8);
    assert_eq!(apply_edit(stored(), e, None, None, "now").err(), Some(CliError::BadRating));
}
