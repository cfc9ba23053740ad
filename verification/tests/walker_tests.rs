use gl::commit::{git_log, git_log_at, CommitRecord};
use gl::opts::GitLogOptions;
use gl::refindex::{RefEntry, RefIndex};
use gl::GlError;

fn record(id: &str, parents: &[&str], email: &str, name: &str, title: &str, time: i64) -> CommitRecord {
    CommitRecord {
        id: id.to_string(),
        parent_ids: parents.iter().map(|p| p.to_string()).collect(),
        author_email: email.to_string(),
        author_name: name.to_string(),
        title: title.to_string(),
        committer_time: time,
        committer_offset: 0,
    }
}

fn sample() -> Vec<Option<CommitRecord>> {
    vec![
        Some(record("c4", &["c3"], "a@x.com", "Bob", "fix login bug", 4000)),
        Some(record("c3", &["c2", "m1"], "a@x.com", "Bob", "merge branch", 3000)),
        None,
        Some(record("c2", &["c1"], "carol@y.org", "Carol", "fix login", 2000)),
        Some(record("c1", &[], "carol@y.org", "Carol", "initial", 1000)),
    ]
}

fn empty_index() -> RefIndex {
    RefIndex::build(&Vec::new())
}

fn opts() -> GitLogOptions {
    GitLogOptions {
        relative: true,
        colour: false,
        reverse: false,
        all: true,
        authors: Vec::new(),
        needles: Vec::new(),
    }
}

#[test]
fn merges_and_corrupt_objects_are_skipped() {
    let out = git_log_at(&sample(), &empty_index(), 5000, None, &opts()).unwrap();
    let hashes: Vec<&str> = out.iter().map(|c| c.hash.as_str()).collect();
    // c3 is a merge (two parents); the corrupt entry is silently dropped.
    assert_eq!(hashes, ["c4", "c2", "c1"]);
}

#[test]
fn decoration_carries_title_author_and_dates() {
    let out = git_log_at(&sample(), &empty_index(), 5000, None, &opts()).unwrap();
    let c = &out[0];
    assert_eq!(c.message, "fix login bug");
    assert_eq!(c.id.email, "a@x.com");
    assert_eq!(c.id.names, ["Bob"]);
    assert!(c.refs.is_empty());
    assert_eq!(gl::date::to_epoch_seconds(&c.date.abs), 4000);
    assert_eq!(c.date.rel, "17 minutes ago");
}

#[test]
fn ref_names_are_attached() {
    let entries = vec![
        RefEntry { name: "main".to_string(), target: Some("c4".to_string()) },
        RefEntry { name: "v1".to_string(), target: Some("c1".to_string()) },
    ];
    let index = RefIndex::build(&entries);
    let out = git_log_at(&sample(), &index, 5000, None, &opts()).unwrap();
    assert_eq!(out[0].refs, ["main"]);
    assert!(out[1].refs.is_empty());
    assert_eq!(out[2].refs, ["v1"]);
}

#[test]
fn reverse_then_reverse_is_identity() {
    let mut o = opts();
    o.reverse = true;
    let reversed = git_log_at(&sample(), &empty_index(), 5000, None, &o).unwrap();
    let plain = git_log_at(&sample(), &empty_index(), 5000, None, &opts()).unwrap();
    let mut re_reversed: Vec<String> = reversed.iter().map(|c| c.hash.clone()).collect();
    re_reversed.reverse();
    let plain_hashes: Vec<String> = plain.iter().map(|c| c.hash.clone()).collect();
    assert_eq!(re_reversed, plain_hashes);
}

#[test]
fn limit_is_a_prefix_of_the_unlimited_walk() {
    let mut o = opts();
    o.all = false;
    let limited = git_log_at(&sample(), &empty_index(), 5000, Some(2), &o).unwrap();
    let full = git_log_at(&sample(), &empty_index(), 5000, None, &opts()).unwrap();
    assert_eq!(limited.len(), 2);
    for (a, b) in limited.iter().zip(full.iter()) {
        assert_eq!(a.hash, b.hash);
    }
    // A limit beyond the total keeps everything.
    let wide = git_log_at(&sample(), &empty_index(), 5000, Some(10), &o).unwrap();
    assert_eq!(wide.len(), full.len());
}

#[test]
fn all_overrides_the_limit() {
    let out = git_log_at(&sample(), &empty_index(), 5000, Some(1), &opts()).unwrap();
    assert_eq!(out.len(), 3);
}

#[test]
fn author_filter_matches_email_or_name() {
    // A commit with email "a@x.com" and name "Bob" matches the needle
    // list ["Bob"] even though the email does not contain it.
    let mut o = opts();
    o.authors = vec!["Bob".to_string()];
    let out = git_log_at(&sample(), &empty_index(), 5000, None, &o).unwrap();
    let hashes: Vec<&str> = out.iter().map(|c| c.hash.as_str()).collect();
    assert_eq!(hashes, ["c4"]);

    o.authors = vec!["carol@".to_string()];
    let out = git_log_at(&sample(), &empty_index(), 5000, None, &o).unwrap();
    let hashes: Vec<&str> = out.iter().map(|c| c.hash.as_str()).collect();
    assert_eq!(hashes, ["c2", "c1"]);

    // Any one of several needles suffices.
    o.authors = vec!["nobody".to_string(), "Bob".to_string()];
    let out = git_log_at(&sample(), &empty_index(), 5000, None, &o).unwrap();
    assert_eq!(out.len(), 1);
}

#[test]
fn message_filter_needs_every_needle() {
    let mut o = opts();
    o.needles = vec!["fix".to_string(), "bug".to_string()];
    let out = git_log_at(&sample(), &empty_index(), 5000, None, &o).unwrap();
    let hashes: Vec<&str> = out.iter().map(|c| c.hash.as_str()).collect();
    // "fix login bug" matches both needles; "fix login" lacks "bug".
    assert_eq!(hashes, ["c4"]);
}

#[test]
fn bad_timestamp_aborts_the_walk() {
    let objs = vec![Some(record("z1", &[], "a@x.com", "Bob", "bad", -5))];
    assert!(matches!(
        git_log_at(&objs, &empty_index(), 0, None, &opts()),
        Err(GlError::MalformedTimestamp)
    ));
    // ... unless the offending commit is filtered out anyway.
    let mut o = opts();
    o.authors = vec!["nobody".to_string()];
    assert!(git_log_at(&objs, &empty_index(), 0, None, &o).unwrap().is_empty());
}

#[test]
fn walk_against_the_machine_clock() {
    let out = git_log(&sample(), &empty_index(), Some(2), None).unwrap();
    assert_eq!(out.len(), 2);
    assert_eq!(out[0].hash, "c4");
    let all = git_log(&sample(), &empty_index(), None, Some(&opts())).unwrap();
    assert_eq!(all.len(), 3);
}

#[test]
fn empty_history_yields_nothing() {
    let out = git_log_at(&Vec::new(), &empty_index(), 0, None, &opts()).unwrap();
    assert!(out.is_empty());
}
