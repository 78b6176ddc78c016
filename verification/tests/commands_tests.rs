use rlist::commands::{
    export_selection, filter_papers, list_footer, list_papers, mark_status, parse_priority,
    parse_status, sort_papers, validate_rating, validate_year, CliError,
};
use rlist::model::{Paper, Priority, Status};

fn paper(id: i64, title: &str, priority: Priority, added: &str, status: Status) -> Paper {
    Paper {
        id,
        title: title.into(),
        authors: "Ada Lovelace; Alan Turing".into(),
        year: Some(2000 + id as i32),
        venue: None,
        arxiv_id: None,
        doi: None,
        url: None,
        pdf_url: None,
        abstract_: None,
        status,
        priority,
        rating: None,
        tags: vec![],
        added_at: added.into(),
        started_at: None,
        finished_at: None,
        notes: vec![],
    }
}

fn ids(ps: &[Paper]) -> Vec<i64> {
    ps.iter().map(|p| p.id).collect()
}

fn words(ws: &[&str]) -> Vec<String> {
    ws.iter().map(|w| w.to_string()).collect()
}

#[test]
fn unknown_words_are_refused() {
    assert_eq!(parse_status("later"), Err(CliError::UnknownStatus("later".into())));
    assert_eq!(parse_priority("urgent"), Err(CliError::UnknownPriority("urgent".into())));
    assert_eq!(parse_status("done"), Ok(Status::Read));
}

#[test]
fn ratings_and_years_are_checked() {
    assert_eq!(validate_rating(0), Err(CliError::BadRating));
    assert_eq!(validate_rating(6), Err(CliError::BadRating));
    assert_eq!(validate_rating(5), Ok(5));
    assert_eq!(validate_year(999), Err(CliError::BadYear(999)));
    assert_eq!(validate_year(2101), Err(CliError::BadYear(2101)));
    assert_eq!(validate_year(1000), Ok(1000));
}

#[test]
fn priority_sort_puts_high_and_old_first() {
    let mut ps = vec![
        paper(1, "a", Priority::Normal, "2024-01-02", Status::ToRead),
        paper(2, "b", Priority::High, "2024-01-03", Status::ToRead),
        paper(3, "c", Priority::Normal, "2024-01-01", Status::ToRead),
        paper(4, "d", Priority::Low, "2024-01-01", Status::ToRead),
        paper(5, "e", Priority::High, "2024-01-03", Status::ToRead),
    ];
    sort_papers(&mut ps, "priority").unwrap();
    assert_eq!(ids(&ps), vec![2, 5, 3, 1, 4]);
}

#[test]
fn other_sort_keys() {
    let mut ps = vec![
        paper(1, "beta", Priority::Normal, "2024-01-02", Status::ToRead),
        paper(2, "Alpha", Priority::Normal, "2024-01-03", Status::ToRead),
        paper(3, "gamma", Priority::Normal, "2024-01-01", Status::ToRead),
    ];
    sort_papers(&mut ps, "t").unwrap();
    assert_eq!(ids(&ps), vec![2, 1, 3]);
    sort_papers(&mut ps, "added").unwrap();
    assert_eq!(ids(&ps), vec![2, 1, 3]);
    sort_papers(&mut ps, "year").unwrap();
    assert_eq!(ids(&ps), vec![3, 2, 1]);
    ps[0].rating = Some(2);
    ps[2].rating = Some(5);
    sort_papers(&mut ps, "rating").unwrap();
    assert_eq!(ids(&ps), vec![1, 3, 2]);
}

#[test]
fn unknown_sort_key_leaves_the_list() {
    let mut ps = vec![
        paper(2, "b", Priority::Normal, "x", Status::ToRead),
        paper(1, "a", Priority::Normal, "x", Status::ToRead),
    ];
    assert_eq!(sort_papers(&mut ps, "size"), Err(CliError::UnknownSort("size".into())));
    assert_eq!(ids(&ps), vec![2, 1]);
}

#[test]
fn sorting_keeps_every_paper() {
    let mut ps: Vec<Paper> = (1..=7)
        .map(|i| paper(i, "t", if i % 2 == 0 { Priority::High } else { Priority::Low }, "2024", Status::ToRead))
        .collect();
    sort_papers(&mut ps, "p").unwrap();
    let mut got = ids(&ps);
    assert_eq!(got[..3], [2, 4, 6]);
    got.sort();
    assert_eq!(got, vec![1, 2, 3, 4, 5, 6, 7]);
}

#[test]
fn filters_combine() {
    let mut a = paper(1, "a", Priority::Normal, "x", Status::ToRead);
    a.tags = vec!["ml".into(), "nlp".into()];
    let mut b = paper(2, "b", Priority::Normal, "x", Status::Read);
    b.tags = vec!["ml".into()];
    let mut c = paper(3, "c", Priority::Normal, "x", Status::ToRead);
    c.authors = "Grace Hopper".into();
    c.tags = vec!["ml".into()];
    let all = vec![a, b, c];
    let ml = vec!["ml".to_string()];
    let kept = filter_papers(all.clone(), &[Status::ToRead], &ml, None, None);
    assert_eq!(ids(&kept), vec![1, 3]);
    let kept = filter_papers(all.clone(), &[], &ml, Some("HOPPER"), None);
    assert_eq!(ids(&kept), vec![3]);
    let kept = filter_papers(all.clone(), &[], &[], None, Some(2002));
    assert_eq!(ids(&kept), vec![2]);
}

#[test]
fn status_changes_stamp_times() {
    let mut p = paper(1, "a", Priority::Normal, "x", Status::Read);
    p.finished_at = Some("old".into());
    let r = mark_status(p, Status::Reading, None, "now");
    assert_eq!(r.status, Status::Reading);
    assert_eq!(r.started_at.as_deref(), Some("now"));
    assert_eq!(r.finished_at, None);
    let d = mark_status(r, Status::Read, Some(4), "later");
    assert_eq!(d.finished_at.as_deref(), Some("later"));
    assert_eq!(d.started_at.as_deref(), Some("now"));
    assert_eq!(d.rating, Some(4));
    let x = mark_status(d, Status::Dropped, None, "end");
    assert_eq!(x.finished_at.as_deref(), Some("later"));
    assert_eq!(x.rating, Some(4));
}

#[test]
fn list_defaults_to_the_queue() {
    let ps = vec![
        paper(1, "a", Priority::Normal, "2024-01-01", Status::Read),
        paper(2, "b", Priority::Normal, "2024-01-02", Status::Reading),
        paper(3, "c", Priority::High, "2024-01-03", Status::ToRead),
        paper(4, "d", Priority::Normal, "2024-01-04", Status::ToRead),
    ];
    let (shown, total) =
        list_papers(ps.clone(), &[], &[], None, None, "priority", false, None, false).unwrap();
    assert_eq!(ids(&shown), vec![3, 2, 4]);
    assert_eq!(total, 3);
    let (shown, total) =
        list_papers(ps.clone(), &[], &[], None, None, "priority", true, Some(2), true).unwrap();
    assert_eq!(ids(&shown), vec![4, 2]);
    assert_eq!(total, 4);
    let (shown, _) =
        list_papers(ps.clone(), &words(&["read"]), &[], None, None, "a", false, None, false).unwrap();
    assert_eq!(ids(&shown), vec![1]);
    assert_eq!(
        list_papers(ps.clone(), &words(&["read", "soon"]), &[], None, None, "zzz", false, None, false)
            .err(),
        Some(CliError::UnknownStatus("soon".into()))
    );
    assert_eq!(
        list_papers(ps, &[], &[], None, None, "zzz", false, None, false).err(),
        Some(CliError::UnknownSort("zzz".into()))
    );
}

#[test]
fn list_footers() {
    assert_eq!(list_footer(0, 4).as_deref(), Some("4 papers hidden by -n; raise the limit"));
    assert_eq!(list_footer(2, 5).as_deref(), Some("… and 3 more (use -n to adjust)"));
    assert_eq!(list_footer(3, 3), None);
}

#[test]
fn export_selects_by_status_and_tag() {
    let mut a = paper(1, "a", Priority::Normal, "x", Status::Read);
    a.tags = vec!["ml".into()];
    let b = paper(2, "b", Priority::Normal, "x", Status::ToRead);
    let all = vec![a, b];
    assert_eq!(ids(&export_selection(all.clone(), &[], &[]).unwrap()), vec![1, 2]);
    assert_eq!(ids(&export_selection(all.clone(), &[], &words(&["ML"])).unwrap()), vec![1]);
    assert_eq!(ids(&export_selection(all.clone(), &words(&["to-read"]), &[]).unwrap()), vec![2]);
    assert_eq!(
        export_selection(all, &words(&["nope"]), &[]).err(),
        Some(CliError::UnknownStatus("nope".into()))
    );
}
