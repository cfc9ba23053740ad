use gl::commit::CommitRecord;
use gl::count::{commit_count, TimeRange};

fn record(id: &str, parents: &[&str], time: i64) -> Option<CommitRecord> {
    Some(CommitRecord {
        id: id.to_string(),
        parent_ids: parents.iter().map(|p| p.to_string()).collect(),
        author_email: "a@x.com".to_string(),
        author_name: "A".to_string(),
        title: "t".to_string(),
        committer_time: time,
        committer_offset: 0,
    })
}

fn history() -> Vec<Option<CommitRecord>> {
    vec![
        record("c5", &["c4"], 500),
        record("c4", &["c3", "m"], 400),
        None,
        record("c3", &["c2"], 300),
        record("c2", &["c1"], 200),
        record("c1", &[], 100),
    ]
}

#[test]
fn counts_all_non_merges_without_a_range() {
    // The merge (two parents) and the corrupt entry are not counted.
    assert_eq!(commit_count(&history(), &None), 4);
}

#[test]
fn window_bounds_are_inclusive() {
    // Commits sitting exactly on either end of the window are counted.
    let range = Some(TimeRange { start: 200, end: 300 });
    assert_eq!(commit_count(&history(), &range), 2);
    let start_only = Some(TimeRange { start: 500, end: 500 });
    assert_eq!(commit_count(&history(), &start_only), 1);
}

#[test]
fn window_excludes_the_outside() {
    let range = Some(TimeRange { start: 201, end: 299 });
    assert_eq!(commit_count(&history(), &range), 0);
    let early = Some(TimeRange { start: 0, end: 99 });
    assert_eq!(commit_count(&history(), &early), 0);
}

#[test]
fn empty_window_counts_nothing() {
    let range = Some(TimeRange { start: 300, end: 200 });
    assert_eq!(commit_count(&history(), &range), 0);
}

#[test]
fn empty_history_counts_zero() {
    assert_eq!(commit_count(&Vec::new(), &None), 0);
}
