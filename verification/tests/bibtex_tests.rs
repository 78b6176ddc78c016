use rlist::bibtex::{bijective_suffix, clean_value, cite_key, export, normalize_author, parse};
use rlist::model::{Paper, Priority, Status};

fn field<'a>(e: &'a rlist::bibtex::BibEntry, name: &str) -> &'a str {
    e.get(name).map(|s| s.as_str()).unwrap()
}

#[test]
fn parses_basic_entry() {
    let src = r#"
    @article{vaswani2017attention,
      title = {Attention Is All You Need},
      author = {Vaswani, Ashish and Shazeer, Noam},
      year = 2017,
      journal = "NeurIPS",
    }
    "#;
    let entries = parse(src);
    assert_eq!(entries.len(), 1);
    let e = &entries[0];
    assert_eq!(e.entry_type, "article");
    assert_eq!(field(e, "title"), "Attention Is All You Need");
    assert_eq!(field(e, "year"), "2017");
    assert_eq!(field(e, "journal"), "NeurIPS");
    assert_eq!(normalize_author("Vaswani, Ashish"), "Ashish Vaswani");
}

#[test]
fn parses_nested_braces_and_comments() {
    let src = r#"
    @comment{ this { is } ignored }
    @misc{key1,
      title = {{Deep {Learning}} for \& by Everyone},
      note = {multi
              line}
    }
    "#;
    let entries = parse(src);
    assert_eq!(entries.len(), 1);
    assert_eq!(field(&entries[0], "title"), "Deep Learning for & by Everyone");
    assert_eq!(field(&entries[0], "note"), "multi line");
}

#[test]
fn decodes_tex_accents() {
    assert_eq!(clean_value(r"Th{\'{e}}venaz, Cl{\'e}ment"), "Thévenaz, Clément");
    assert_eq!(clean_value(r#"M\"uller and G\"{o}del"#), "Müller and Gödel");
    assert_eq!(clean_value(r"\v{S}koda \c{c} \~n \o str\o m"), "Škoda ç ñ østrøm");
    assert_eq!(clean_value(r"{\ss} and \ae"), "ß and æ");
    assert_eq!(clean_value(r"\'{\i}ndice"), "índice");
    // Unknown commands pass through.
    assert_eq!(clean_value(r"uses \alpha decay"), r"uses \alpha decay");
}

#[test]
fn stray_brace_in_quoted_value_does_not_swallow_file() {
    let src = "@article{a,\n  title = \"Survey of C} languages\",\n  year = \"2020\"\n}\n\
               @article{b,\n  title = {Second Paper},\n  year = {2021}\n}\n";
    let entries = parse(src);
    assert_eq!(entries.len(), 2);
    assert_eq!(field(&entries[1], "title"), "Second Paper");
}

fn sample_paper() -> Paper {
    Paper {
        id: 1,
        title: "Attention Is All You Need".into(),
        authors: "Ashish Vaswani; Noam Shazeer".into(),
        year: Some(2017),
        venue: None,
        arxiv_id: Some("1706.03762".into()),
        doi: None,
        url: Some("https://arxiv.org/abs/1706.03762".into()),
        pdf_url: None,
        abstract_: None,
        status: Status::ToRead,
        priority: Priority::Normal,
        rating: None,
        tags: vec!["transformers".into()],
        added_at: "2026-01-01 00:00:00".into(),
        started_at: None,
        finished_at: None,
        notes: vec![],
    }
}

#[test]
fn export_escapes_unbalanced_braces() {
    let mut p = sample_paper();
    p.title = "A Lone Closing Brace } in a Title".into();
    p.arxiv_id = None;
    let bib = export(&[p]);
    let depth = bib.chars().fold(0i64, |d, c| match c {
        '{' => d + 1,
        '}' => d - 1,
        _ => d,
    });
    assert_eq!(depth, 0, "export must stay brace-balanced:\n{bib}");
    // Balanced protective braces survive.
    let mut p2 = sample_paper();
    p2.title = "About {DNA} folding".into();
    assert!(export(&[p2]).contains("About {DNA} folding"));
}

#[test]
fn cite_key_suffixes_stay_alphabetic() {
    let mut used = vec![];
    let p = sample_paper();
    let keys: Vec<String> = (0..30).map(|_| cite_key(&p, &mut used)).collect();
    assert!(
        keys.iter().all(|k| k.chars().all(|c| c.is_ascii_alphanumeric())),
        "{keys:?}"
    );
    assert_eq!(
        keys.len(),
        keys.iter().collect::<std::collections::HashSet<_>>().len()
    );
}

#[test]
fn export_roundtrip() {
    let p = Paper {
        id: 1,
        title: "Attention Is All You Need".into(),
        authors: "Ashish Vaswani; Noam Shazeer".into(),
        year: Some(2017),
        venue: None,
        arxiv_id: Some("1706.03762".into()),
        doi: None,
        url: Some("https://arxiv.org/abs/1706.03762".into()),
        pdf_url: None,
        abstract_: None,
        status: Status::ToRead,
        priority: Priority::Normal,
        rating: None,
        tags: vec!["transformers".into()],
        added_at: "2026-01-01 00:00:00".into(),
        started_at: None,
        finished_at: None,
        notes: vec![],
    };
    let bib = export(&[p]);
    assert!(bib.contains("@misc{vaswani2017attention,"));
    let entries = parse(&bib);
    assert_eq!(field(&entries[0], "title"), "Attention Is All You Need");
    assert_eq!(field(&entries[0], "eprint"), "1706.03762");
    assert_eq!(
        normalize_author(field(&entries[0], "author").split(" and ").next().unwrap()),
        "Ashish Vaswani"
    );
}

#[test]
fn bijective_suffixes() {
    assert_eq!(bijective_suffix(0), "");
    assert_eq!(bijective_suffix(1), "a");
    assert_eq!(bijective_suffix(26), "z");
    assert_eq!(bijective_suffix(27), "aa");
    assert_eq!(bijective_suffix(702), "zz");
    assert_eq!(bijective_suffix(703), "aaa");
}

#[test]
fn plain_values_are_not_escaped() {
    assert_eq!(rlist::bibtex::bib_escape("Deep {DNA} nets"), "Deep {DNA} nets");
    assert_eq!(rlist::bibtex::bib_escape("a & b_c"), "a \\& b\\_c");
}
