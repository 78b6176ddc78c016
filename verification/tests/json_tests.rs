use rlist::commands::CliError;
use rlist::json::{
    crossref_record, crossref_url, doi_org_record, doi_org_url, fetch_doi, finish_doi,
    paper_from_json, DoiLookup, Json,
};
use rlist::model::{Priority, Status};

fn s(x: &str) -> Json {
    Json::Str(x.into())
}

fn obj(members: Vec<(&str, Json)>) -> Json {
    Json::Object(members.into_iter().map(|(k, v)| (k.to_string(), v)).collect())
}

fn arr(items: Vec<Json>) -> Json {
    Json::Array(items)
}

fn date(y: i64) -> Json {
    obj(vec![("date-parts", arr(vec![arr(vec![Json::Int(y), Json::Int(5)])]))])
}

fn crossref_reply() -> Json {
    obj(vec![(
        "message",
        obj(vec![
            ("title", arr(vec![s("  Deep   learning ")])),
            (
                "author",
                arr(vec![
                    obj(vec![("given", s("Yann")), ("family", s("LeCun"))]),
                    obj(vec![("name", s("  Some   Consortium "))]),
                    obj(vec![("given", s(" "))]),
                ]),
            ),
            ("published-online", date(2015)),
            ("created", date(2014)),
            ("container-title", arr(vec![s("Nature")])),
            ("abstract", s("<jats:p>Abstract Deep learning allows &amp; more.</jats:p>")),
            (
                "link",
                arr(vec![
                    obj(vec![("content-type", s("text/html")), ("URL", s("https://x/html"))]),
                    obj(vec![("content-type", s("application/pdf")), ("URL", s("https://x/pdf"))]),
                ]),
            ),
            ("DOI", s("10.1038/NATURE14539")),
        ]),
    )])
}

#[test]
fn crossref_records() {
    let f = crossref_record("10.1038/nature14539", &crossref_reply()).unwrap();
    assert_eq!(f.title, "Deep learning");
    assert_eq!(f.authors, vec!["Yann LeCun", "Some Consortium"]);
    assert_eq!(f.year, Some(2015));
    assert_eq!(f.venue.as_deref(), Some("Nature"));
    assert_eq!(f.abstract_.as_deref(), Some("Deep learning allows & more."));
    assert_eq!(f.url.as_deref(), Some("https://doi.org/10.1038/nature14539"));
    assert_eq!(f.pdf_url.as_deref(), Some("https://x/pdf"));
    assert_eq!(f.doi.as_deref(), Some("10.1038/NATURE14539"));
    assert_eq!(f.arxiv_id, None);
    let untitled = obj(vec![("message", obj(vec![("title", arr(vec![]))]))]);
    assert_eq!(
        crossref_record("10.1/x", &untitled).err().as_deref(),
        Some("Crossref record for 10.1/x has no title")
    );
}

#[test]
fn doi_org_records() {
    let reply = obj(vec![
        ("title", s("Data  set")),
        ("author", arr(vec![obj(vec![("literal", s("CERN"))]), obj(vec![("family", s("Doe"))])])),
        ("issued", date(2020)),
        ("container-title", s("Zenodo")),
    ]);
    let f = doi_org_record("10.5281/zenodo.1", &reply).unwrap();
    assert_eq!(f.title, "Data set");
    assert_eq!(f.authors, vec!["CERN", "Doe"]);
    assert_eq!(f.year, Some(2020));
    assert_eq!(f.venue.as_deref(), Some("Zenodo"));
    assert_eq!(f.doi.as_deref(), Some("10.5281/zenodo.1"));
    assert_eq!(f.pdf_url, None);
    assert_eq!(
        doi_org_record("10.1/x", &obj(vec![])).err().as_deref(),
        Some("doi.org record for 10.1/x has no title")
    );
}

#[test]
fn doi_lookup_falls_back_to_doi_org() {
    assert_eq!(crossref_url("10.1000/a b"), "https://api.crossref.org/works/10.1000/a%20b");
    assert_eq!(doi_org_url("10.1000/x"), "https://doi.org/10.1000/x");
    match fetch_doi("10.1038/nature14539", Ok(crossref_reply())) {
        DoiLookup::Found(f) => assert_eq!(f.title, "Deep learning"),
        _ => panic!("expected a record"),
    }
    let (url, crossref_error) = match fetch_doi("10.1/x", Err("querying Crossref: 404".into())) {
        DoiLookup::AskDoiOrg { url, crossref_error } => (url, crossref_error),
        _ => panic!("expected the fallback"),
    };
    assert_eq!(url, "https://doi.org/10.1/x");
    assert_eq!(crossref_error, "querying Crossref: 404");
    assert_eq!(
        finish_doi("10.1/x", &crossref_error, Err("timeout".into())).err().as_deref(),
        Some("could not resolve DOI 10.1/x\n  crossref: querying Crossref: 404\n  doi.org: timeout")
    );
    let ok = finish_doi("10.1/x", &crossref_error, Ok(obj(vec![("title", s("T"))]))).unwrap();
    assert_eq!(ok.title, "T");
}

#[test]
fn papers_from_json_exports() {
    let v = obj(vec![
        ("title", s("Attention")),
        ("authors", s("A; B")),
        ("year", Json::Int(2017)),
        ("arxiv_id", s(" 1706.03762v2 ")),
        ("doi", s("")),
        ("status", s("Reading")),
        ("priority", s("urgent")),
        ("rating", Json::Int(9)),
        ("tags", arr(vec![s("NLP, ml"), Json::Int(3), s("ml")])),
        (
            "notes",
            arr(vec![
                obj(vec![("body", s("first")), ("created_at", s("2024-01-01"))]),
                obj(vec![("created_at", s("x"))]),
                obj(vec![("body", s("second"))]),
            ]),
        ),
    ]);
    let p = paper_from_json(&v, "now").unwrap();
    assert_eq!(p.title, "Attention");
    assert_eq!(p.authors, "A; B");
    assert_eq!(p.year, Some(2017));
    assert_eq!(p.arxiv_id.as_deref(), Some("1706.03762"));
    assert_eq!(p.doi, None);
    assert_eq!(p.status, Status::Reading);
    assert_eq!(p.priority, Priority::Normal);
    assert_eq!(p.rating, None);
    assert_eq!(p.tags, vec!["nlp", "ml"]);
    assert_eq!(p.added_at, "now");
    assert_eq!(p.notes.len(), 2);
    assert_eq!(p.notes[0].created_at, "2024-01-01");
    assert_eq!(p.notes[1].body, "second");
    assert_eq!(p.notes[1].created_at, "");
    assert_eq!(paper_from_json(&obj(vec![("title", s(""))]), "now").err(), Some(CliError::MissingJsonTitle));
}
