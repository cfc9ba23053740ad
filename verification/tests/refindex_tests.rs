use gl::refindex::{RefEntry, RefIndex};

fn entry(name: &str, target: Option<&str>) -> RefEntry {
    RefEntry { name: name.to_string(), target: target.map(|t| t.to_string()) }
}

#[test]
fn buckets_follow_enumeration_order() {
    let entries = vec![
        entry("main", Some("aaa")),
        entry("feature", Some("bbb")),
        entry("v1.0", Some("aaa")),
        entry("origin/main", Some("aaa")),
    ];
    let index = RefIndex::build(&entries);
    assert_eq!(index.get(&"aaa".to_string()).unwrap(), &["main", "v1.0", "origin/main"]);
    assert_eq!(index.get(&"bbb".to_string()).unwrap(), &["feature"]);
    assert!(index.get(&"ccc".to_string()).is_none());
}

#[test]
fn unresolved_references_are_skipped_silently() {
    let entries = vec![
        entry("dangling", None),
        entry("main", Some("aaa")),
        entry("broken", None),
    ];
    let index = RefIndex::build(&entries);
    assert_eq!(index.get(&"aaa".to_string()).unwrap(), &["main"]);
}

#[test]
fn duplicate_names_are_kept() {
    // Aliases may resolve to the same commit under the same shortened name.
    let entries = vec![entry("main", Some("aaa")), entry("main", Some("aaa"))];
    let index = RefIndex::build(&entries);
    assert_eq!(index.get(&"aaa".to_string()).unwrap(), &["main", "main"]);
}

#[test]
fn every_referenced_commit_has_a_nonempty_bucket() {
    let entries = vec![
        entry("a", Some("x")),
        entry("b", None),
        entry("c", Some("y")),
        entry("d", Some("x")),
    ];
    let index = RefIndex::build(&entries);
    for e in &entries {
        if let Some(t) = &e.target {
            let bucket = index.get(t).expect("referenced commit must have a bucket");
            assert!(!bucket.is_empty());
            assert!(bucket.contains(&e.name));
        }
    }
}

#[test]
fn empty_namespace_builds_an_empty_index() {
    let index = RefIndex::build(&Vec::new());
    assert!(index.get(&"anything".to_string()).is_none());
}
