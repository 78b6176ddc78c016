use rlist::model::Status;
use rlist::store::{fts_query, like_pattern, merge_ids, stored_status, stored_tags, tags_column};

#[test]
fn tag_columns_read_back() {
    let tags: Vec<String> = vec!["ml".into(), "deep-learning".into()];
    let column = tags_column(&tags);
    assert_eq!(column, "ml,deep-learning");
    assert_eq!(stored_tags(&column), tags);
    assert_eq!(stored_tags(""), Vec::<String>::new());
    assert_eq!(stored_tags(",a,,b,"), vec!["a", "b"]);
}

#[test]
fn status_columns() {
    assert_eq!(stored_status("reading"), Status::Reading);
    assert_eq!(stored_status("DROPPED"), Status::Dropped);
    assert_eq!(stored_status("???"), Status::ToRead);
}

#[test]
fn search_queries() {
    assert_eq!(fts_query("  attention   is "), Some("\"attention\" \"is\"*".to_string()));
    assert_eq!(fts_query("say \"hi\""), Some("\"say\" \"\"\"hi\"\"\"*".to_string()));
    assert_eq!(fts_query(" \t "), None);
    assert_eq!(like_pattern("50%_a\\b"), "%50\\%\\_a\\\\b%");
    assert_eq!(merge_ids(vec![3, 1], &[1, 4, 4, 2]), vec![3, 1, 4, 2]);
}

#[test]
fn normalized_tags_survive_the_column() {
    let raw: Vec<String> = vec!["  Deep  Learning ".into(), "ml, NLP".into(), "ml".into(), ",,".into()];
    let tags = rlist::model::normalize_tags(&raw);
    assert_eq!(tags, vec!["deep-learning", "ml", "nlp"]);
    let column = tags_column(&tags);
    assert_eq!(stored_tags(&column), tags);
}
