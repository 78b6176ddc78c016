use rlist::fetch::{classify, normalize_arxiv_id, strip_jats, RefKind};

#[test]
fn classify_arxiv_ids() {
    assert_eq!(
        classify("1706.03762"),
        RefKind::Arxiv { id: "1706.03762".into(), fetch_id: "1706.03762".into() }
    );
    assert_eq!(
        classify("2406.01234v2"),
        RefKind::Arxiv { id: "2406.01234".into(), fetch_id: "2406.01234v2".into() }
    );
    assert_eq!(
        classify("arXiv:1706.03762"),
        RefKind::Arxiv { id: "1706.03762".into(), fetch_id: "1706.03762".into() }
    );
    assert_eq!(
        classify("math/0211159"),
        RefKind::Arxiv { id: "math/0211159".into(), fetch_id: "math/0211159".into() }
    );
    assert_eq!(
        classify("cs.AI/0301001v1"),
        RefKind::Arxiv { id: "cs.AI/0301001".into(), fetch_id: "cs.AI/0301001v1".into() }
    );
}

#[test]
fn classify_arxiv_urls() {
    for url in [
        "https://arxiv.org/abs/1706.03762",
        "https://arxiv.org/pdf/1706.03762.pdf",
        "https://arxiv.org/pdf/1706.03762",
        "http://www.arxiv.org/abs/1706.03762v5",
        "https://arxiv.org/abs/1706.03762?context=cs.LG",
    ] {
        match classify(url) {
            RefKind::Arxiv { id, .. } => assert_eq!(id, "1706.03762", "{url}"),
            other => panic!("{url} classified as {other:?}"),
        }
    }
}

#[test]
fn classify_dois() {
    assert_eq!(classify("10.1038/nature14539"), RefKind::Doi("10.1038/nature14539".into()));
    assert_eq!(classify("doi:10.1038/nature14539"), RefKind::Doi("10.1038/nature14539".into()));
    assert_eq!(
        classify("https://doi.org/10.1038/nature14539"),
        RefKind::Doi("10.1038/nature14539".into())
    );
    assert_eq!(
        classify("https://doi.org/10.1145/3292500.3330701"),
        RefKind::Doi("10.1145/3292500.3330701".into())
    );
}

#[test]
fn classify_other() {
    assert_eq!(
        classify("https://example.com/paper.pdf"),
        RefKind::Url("https://example.com/paper.pdf".into())
    );
    assert_eq!(
        classify("Attention Is All You Need"),
        RefKind::Title("Attention Is All You Need".into())
    );
    // Things that look numeric but aren't arXiv ids stay titles.
    assert_eq!(classify("12.34"), RefKind::Title("12.34".into()));
    assert_eq!(classify("10.5"), RefKind::Title("10.5".into()));
}

#[test]
fn classify_never_panics_on_multibyte_input() {
    for s in [
        "arxivé test paper",
        "ArXiv’s effect on preprints",
        "doié accents",
        "深層学習による調査",
        "café résumé study",
        "🤖 robots reading papers",
        "Метод обучения",
    ] {
        assert_eq!(classify(s), RefKind::Title(s.into()));
    }
    // percent_decode must not slice mid-character after '%'.
    assert_eq!(classify("https://doi.org/10.1234/%€x"), RefKind::Doi("10.1234/%€x".into()));
    assert_eq!(classify("https://doi.org/%€"), RefKind::Url("https://doi.org/%€".into()));
}

#[test]
fn arxiv_id_normalization() {
    assert_eq!(normalize_arxiv_id("1706.03762v5"), "1706.03762");
    assert_eq!(normalize_arxiv_id(" 2406.01234 "), "2406.01234");
    assert_eq!(normalize_arxiv_id("cs.AI/0301001v2"), "cs.AI/0301001");
}

#[test]
fn jats_stripping() {
    assert_eq!(
        strip_jats("<jats:p>Deep learning is &amp; stays <jats:i>great</jats:i>.</jats:p>"),
        "Deep learning is & stays great."
    );
}

#[test]
fn percent_encoding_round_trips() {
    for s in ["10.1000/ünï code", "a%b/c?d", "10.1234/(x):y;z,~"] {
        let e = rlist::fetch::percent_encode_path(s);
        assert!(e.is_ascii());
        assert_eq!(rlist::fetch::percent_decode(&e), s);
    }
}

#[test]
fn classify_ignores_surrounding_whitespace() {
    let a = classify("  1706.03762v5 \n");
    let b = classify("1706.03762v5");
    assert_eq!(a, b);
    match a {
        RefKind::Arxiv { id, fetch_id } => {
            assert!(fetch_id.starts_with(&id));
            assert_eq!(normalize_arxiv_id(&fetch_id), id);
        }
        other => panic!("expected an arXiv id, got {other:?}"),
    }
}
