use rlist::atom::{arxiv_query_url, read_arxiv};

const FEED: &str = r#"<?xml version="1.0" encoding="UTF-8"?>
<feed xmlns="http://www.w3.org/2005/Atom" xmlns:arxiv="http://arxiv.org/schemas/atom">
  <title>ArXiv Query</title>
  <entry>
    <id>http://arxiv.org/abs/1706.03762v7</id>
    <published>2017-06-12T17:57:34Z</published>
    <title>Attention Is All
      You Need</title>
    <summary>  The dominant sequence
      transduction models.  </summary>
    <author><name>Ashish Vaswani</name></author>
    <author><name>  Noam   Shazeer </name></author>
    <author><name>   </name></author>
    <arxiv:doi>10.48550/arXiv.1706.03762</arxiv:doi>
    <link href="http://arxiv.org/abs/1706.03762v7" rel="alternate" type="text/html"/>
    <link title="pdf" href="http://arxiv.org/pdf/1706.03762v7" rel="related" type="application/pdf"/>
    <arxiv:journal_ref>NeurIPS 2017</arxiv:journal_ref>
  </entry>
</feed>"#;

#[test]
fn reads_the_first_entry() {
    let f = read_arxiv(FEED, "1706.03762v7", "1706.03762").unwrap();
    assert_eq!(f.title, "Attention Is All You Need");
    assert_eq!(f.authors, vec!["Ashish Vaswani", "Noam Shazeer"]);
    assert_eq!(f.year, Some(2017));
    assert_eq!(f.venue.as_deref(), Some("NeurIPS 2017"));
    assert_eq!(f.abstract_.as_deref(), Some("The dominant sequence transduction models."));
    assert_eq!(f.url.as_deref(), Some("http://arxiv.org/abs/1706.03762v7"));
    assert_eq!(f.pdf_url.as_deref(), Some("http://arxiv.org/pdf/1706.03762v7"));
    assert_eq!(f.doi.as_deref(), Some("10.48550/arXiv.1706.03762"));
    assert_eq!(f.arxiv_id.as_deref(), Some("1706.03762"));
}

#[test]
fn links_fall_back_to_the_base_id() {
    let feed = r#"<feed xmlns="http://www.w3.org/2005/Atom"><entry><title>T</title></entry></feed>"#;
    let f = read_arxiv(feed, "2406.01234v2", "2406.01234").unwrap();
    assert_eq!(f.url.as_deref(), Some("https://arxiv.org/abs/2406.01234"));
    assert_eq!(f.pdf_url.as_deref(), Some("https://arxiv.org/pdf/2406.01234"));
    assert_eq!(f.year, None);
    assert!(f.authors.is_empty());
}

#[test]
fn arxiv_errors() {
    let error_feed = r#"<feed xmlns="http://www.w3.org/2005/Atom"><entry>
        <id>http://arxiv.org/api/errors#incorrect_id_format_for_x</id>
        <title>Error</title><summary>incorrect id format for x</summary></entry></feed>"#;
    assert_eq!(
        read_arxiv(error_feed, "x", "x").err().as_deref(),
        Some("arXiv error for x: incorrect id format for x")
    );
    let empty = r#"<feed xmlns="http://www.w3.org/2005/Atom"><title>none</title></feed>"#;
    assert_eq!(
        read_arxiv(empty, "9999.99999", "9999.99999").err().as_deref(),
        Some("arXiv returned no entry for 9999.99999 — is the id correct?")
    );
    let untitled = r#"<feed xmlns="http://www.w3.org/2005/Atom"><entry><title> </title></entry></feed>"#;
    assert_eq!(
        read_arxiv(untitled, "1", "1").err().as_deref(),
        Some("arXiv entry for 1 has no title")
    );
    let other_ns = r#"<feed><entry><title>T</title></entry></feed>"#;
    assert!(read_arxiv(other_ns, "1", "1").is_err());
    let broken = read_arxiv("<feed><entry>", "1", "1").err().unwrap();
    assert!(broken.starts_with("parsing arXiv response XML: "), "{broken}");
}

#[test]
fn query_url() {
    assert_eq!(
        arxiv_query_url("1706.03762"),
        "https://export.arxiv.org/api/query?id_list=1706.03762&max_results=1"
    );
}
