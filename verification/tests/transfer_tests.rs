use rlist::bibtex::parse;
use rlist::commands::CliError;
use rlist::model::{Paper, Priority, Status};
use rlist::transfer::{
    export_csv, export_kind, import_format, import_kind, import_summary, is_title_twin,
    paper_from_bib, papers_from_bibtex, ExportFormat, ImportFormat,
};

fn paper(title: &str, authors: &str, year: Option<i32>) -> Paper {
    Paper {
        id: 3,
        title: title.into(),
        authors: authors.into(),
        year,
        venue: None,
        arxiv_id: None,
        doi: None,
        url: None,
        pdf_url: None,
        abstract_: None,
        status: Status::ToRead,
        priority: Priority::High,
        rating: Some(4),
        tags: vec!["ml".into(), "nlp".into()],
        added_at: "2024-01-01 10:00:00".into(),
        started_at: None,
        finished_at: None,
        notes: vec![],
    }
}

#[test]
fn csv_export_quotes_what_needs_it() {
    let mut p = paper("Commas, \"Quotes\"", "A B", Some(2017));
    p.arxiv_id = Some("1706.03762".into());
    let csv = export_csv(&[p]);
    assert_eq!(
        csv,
        "id,title,authors,year,venue,arxiv_id,doi,url,pdf_url,status,priority,rating,tags,added_at,started_at,finished_at\n\
         3,\"Commas, \"\"Quotes\"\"\",A B,2017,,1706.03762,,,,to-read,high,4,\"ml,nlp\",2024-01-01 10:00:00,,\n"
    );
    assert_eq!(export_csv(&[]).lines().count(), 1);
}

#[test]
fn bibtex_entries_become_papers() {
    let src = r#"
    @article{a,
      title = {Attention Is All You Need},
      author = {Vaswani, Ashish and  Noam   Shazeer},
      year = {2017},
      eprint = {1706.03762v5},
      archivePrefix = {arXiv},
      keywords = {ML; Deep Learning, nlp},
      booktitle = {NeurIPS}
    }
    @misc{b, title = {Other}, eprint = {hal-01}, archiveprefix = {HAL}, year = {n.d.}}
    @misc{c, note = {no title}}
    "#;
    let entries = parse(src);
    assert_eq!(entries.len(), 3);
    let p = paper_from_bib(&entries[0], "now").unwrap();
    assert_eq!(p.title, "Attention Is All You Need");
    assert_eq!(p.authors, "Ashish Vaswani; Noam Shazeer");
    assert_eq!(p.year, Some(2017));
    assert_eq!(p.arxiv_id.as_deref(), Some("1706.03762"));
    assert_eq!(p.url.as_deref(), Some("https://arxiv.org/abs/1706.03762"));
    assert_eq!(p.venue.as_deref(), Some("NeurIPS"));
    assert_eq!(p.tags, vec!["ml", "deep-learning", "nlp"]);
    assert_eq!(p.added_at, "now");
    let q = paper_from_bib(&entries[1], "now").unwrap();
    assert_eq!(q.arxiv_id, None);
    assert_eq!(q.url, None);
    assert_eq!(q.year, None);
    assert!(paper_from_bib(&entries[2], "now").is_none());
    let (papers, skipped) = papers_from_bibtex(src, "now");
    assert_eq!(papers.len(), 2);
    assert_eq!(skipped, 1);
}

#[test]
fn import_formats() {
    assert_eq!(import_format(Some("bibtex".into()), "json", "[]"), "bibtex");
    assert_eq!(import_format(None, "json", ""), "json");
    assert_eq!(import_format(None, "bib", "[]"), "bibtex");
    assert_eq!(import_format(None, "txt", "  \n[{}]"), "json");
    assert_eq!(import_format(None, "txt", "@misc{"), "bibtex");
    assert_eq!(import_kind("bib"), Ok(ImportFormat::Bibtex));
    assert_eq!(import_kind("json"), Ok(ImportFormat::Json));
    assert_eq!(import_kind("xml"), Err(CliError::UnknownImportFormat("xml".into())));
    assert_eq!(export_kind("csv"), Ok(ExportFormat::Csv));
    assert_eq!(export_kind("bibtex"), Ok(ExportFormat::Bibtex));
    assert_eq!(export_kind("yaml"), Err(CliError::UnknownExportFormat("yaml".into())));
}

#[test]
fn title_twins() {
    let p = paper("T", "Ada  LOVELACE", None);
    assert!(is_title_twin(&p, &[p.clone()]));
    assert!(is_title_twin(&p, &[paper("t", "ada lovelace", Some(1))]));
    assert!(!is_title_twin(&p, &[paper("T", "Alan Turing", None)]));
    let q = paper("T", "", Some(2000));
    assert!(!is_title_twin(&q, &[paper("T", "", Some(2001))]));
    assert!(is_title_twin(&q, &[paper("T", "", None)]));
    assert!(!is_title_twin(&q, &[]));
}

#[test]
fn import_summaries() {
    assert_eq!(import_summary(1, 0, 0), "imported 1 paper");
    assert_eq!(
        import_summary(3, 2, 1),
        "imported 3 papers, skipped 2 duplicates, skipped 1 entry without a title"
    );
    assert_eq!(
        import_summary(0, 1, 2),
        "imported 0 papers, skipped 1 duplicate, skipped 2 entries without a title"
    );
}
