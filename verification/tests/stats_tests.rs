use rlist::model::{Paper, Priority, Status};
use rlist::stats::{
    count_finished_with_prefix, count_with_status, current_reading, month_label_of, next_queue,
    oldest_queued, pick_next, pick_random, rating_totals, recent_months, tag_counts,
};

fn paper(id: i64, status: Status, added: &str) -> Paper {
    Paper {
        id,
        title: format!("Paper {id}"),
        authors: String::new(),
        year: None,
        venue: None,
        arxiv_id: None,
        doi: None,
        url: None,
        pdf_url: None,
        abstract_: None,
        status,
        priority: Priority::Normal,
        rating: None,
        tags: vec![],
        added_at: added.into(),
        started_at: None,
        finished_at: None,
        notes: vec![],
    }
}

#[test]
fn counts_by_status_and_finish_time() {
    let mut a = paper(1, Status::Read, "2024-01-01");
    a.finished_at = Some("2024-05-03 10:00:00".into());
    let mut b = paper(2, Status::Read, "2024-01-01");
    b.finished_at = Some("2023-05-03 10:00:00".into());
    let mut c = paper(3, Status::Dropped, "2024-01-01");
    c.finished_at = Some("2024-05-04 10:00:00".into());
    let d = paper(4, Status::ToRead, "2024-01-01");
    let ps = vec![a, b, c, d];
    assert_eq!(count_with_status(&ps, Status::Read), 2);
    assert_eq!(count_with_status(&ps, Status::Reading), 0);
    assert_eq!(count_finished_with_prefix(&ps, "2024-05"), 1);
    assert_eq!(count_finished_with_prefix(&ps, "2024"), 1);
    assert_eq!(count_finished_with_prefix(&ps, ""), 2);
}

#[test]
fn rating_totals_sum_and_count() {
    let mut a = paper(1, Status::Read, "x");
    a.rating = Some(5);
    let mut b = paper(2, Status::Read, "x");
    b.rating = Some(2);
    let c = paper(3, Status::Read, "x");
    assert_eq!(rating_totals(&[a, b, c]), (7, 2));
    assert_eq!(rating_totals(&[]), (0, 0));
}

#[test]
fn oldest_in_queue_is_the_first_earliest() {
    let ps = vec![
        paper(1, Status::Read, "2020-01-01"),
        paper(2, Status::ToRead, "2024-03-01"),
        paper(3, Status::ToRead, "2024-02-01"),
        paper(4, Status::ToRead, "2024-02-01"),
    ];
    assert_eq!(oldest_queued(&ps), Some(2));
    assert_eq!(oldest_queued(&ps[..1]), None);
}

#[test]
fn month_labels() {
    assert_eq!(month_label_of(2024, 3), "2024-03");
    assert_eq!(month_label_of(7, 11), "0007-11");
    assert_eq!(month_label_of(-5, 12), "-005-12");
    let months = recent_months(2024, 3);
    assert_eq!(months.len(), 12);
    assert_eq!(months[0], "2023-04");
    assert_eq!(months[9], "2024-01");
    assert_eq!(months[11], "2024-03");
}

#[test]
fn next_picks_by_priority() {
    let mut a = paper(1, Status::ToRead, "2024-01-02");
    a.tags = vec!["ml".into()];
    let mut b = paper(2, Status::ToRead, "2024-01-03");
    b.priority = Priority::High;
    b.tags = vec!["ml".into()];
    let mut c = paper(3, Status::Reading, "2024-01-01");
    c.tags = vec!["ml".into()];
    let d = paper(4, Status::ToRead, "2024-01-01");
    let all = vec![a, b, c, d];
    let queue = next_queue(all.clone(), &["ML".to_string()]);
    assert_eq!(queue.iter().map(|p| p.id).collect::<Vec<_>>(), vec![1, 2]);
    assert_eq!(pick_next(queue.clone()).id, 2);
    assert_eq!(pick_random(queue, 5).id, 2);
    let everything = next_queue(all.clone(), &[]);
    assert_eq!(pick_next(everything).id, 2);
    assert_eq!(current_reading(&all), Some(2));
}

#[test]
fn tags_are_counted_and_ranked() {
    let mut a = paper(1, Status::Read, "x");
    a.tags = vec!["nlp".into(), "ml".into()];
    let mut b = paper(2, Status::ToRead, "x");
    b.tags = vec!["ml".into()];
    let mut c = paper(3, Status::Read, "x");
    c.tags = vec!["cv".into(), "nlp".into()];
    let counts = tag_counts(&[a, b, c]);
    let got: Vec<(String, usize, usize)> =
        counts.into_iter().map(|t| (t.name, t.total, t.read)).collect();
    assert_eq!(
        got,
        vec![("ml".to_string(), 2, 1), ("nlp".to_string(), 2, 2), ("cv".to_string(), 1, 1)]
    );
    assert!(tag_counts(&[]).is_empty());
}

#[test]
fn largest_counts() {
    assert_eq!(rlist::stats::largest_count(&[]), 0);
    assert_eq!(rlist::stats::largest_count(&[0, 3, 1, 3, 2]), 3);
}
