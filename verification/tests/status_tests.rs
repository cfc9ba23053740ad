use gl::status::{
    classify, sort_changes, DirectoryEntryStatus, GitChange, ModificationStatus, RawStatusItem,
};
use gl::GlError;

fn modification(path: &str, status: ModificationStatus) -> GitChange {
    GitChange::Modification { relative_path: path.to_string(), status }
}

fn directory(path: &str, status: DirectoryEntryStatus) -> GitChange {
    GitChange::DirectoryContents { relative_path: path.to_string(), status }
}

fn display_all(changes: &[GitChange]) -> Vec<String> {
    changes.iter().map(|c| c.display().unwrap()).collect()
}

#[test]
fn classify_maps_each_notification() {
    let items = vec![
        RawStatusItem::Modification {
            relative_path: "src/main.rs".to_string(),
            status: ModificationStatus::Changed,
        },
        RawStatusItem::DirectoryContents {
            relative_path: "notes.txt".to_string(),
            status: DirectoryEntryStatus::Untracked,
        },
    ];
    let changes = classify(&items).unwrap();
    assert_eq!(changes.len(), 2);
    assert_eq!(changes[0].path(), "src/main.rs");
    assert_eq!(changes[0].priority(), 0);
    assert_eq!(changes[1].path(), "notes.txt");
    assert_eq!(changes[1].priority(), 1);
}

#[test]
fn rewrite_notifications_fail_loudly() {
    let items = vec![
        RawStatusItem::Modification {
            relative_path: "a".to_string(),
            status: ModificationStatus::Changed,
        },
        RawStatusItem::Rewrite { relative_path: "b".to_string() },
    ];
    assert!(matches!(classify(&items), Err(GlError::UnhandledStatusShape)));
}

#[test]
fn modifications_sort_before_directory_contents() {
    let mut changes = vec![
        directory("a-very-early-path", DirectoryEntryStatus::Untracked),
        modification("zzz", ModificationStatus::IntentToAdd),
        directory("b", DirectoryEntryStatus::Ignored),
        modification("aaa", ModificationStatus::Changed),
    ];
    sort_changes(&mut changes);
    let prios: Vec<u8> = changes.iter().map(|c| c.priority()).collect();
    assert_eq!(prios, [0, 0, 1, 1]);
}

#[test]
fn full_three_key_order() {
    let mut changes = vec![
        directory("b", DirectoryEntryStatus::Untracked),
        modification("b", ModificationStatus::Conflicted),
        modification("a", ModificationStatus::IntentToAdd),
        directory("a", DirectoryEntryStatus::Pruned),
        modification("c", ModificationStatus::Changed),
        modification("a", ModificationStatus::Changed),
        directory("a", DirectoryEntryStatus::Untracked),
    ];
    sort_changes(&mut changes);
    let keys: Vec<(u8, u8, String)> = changes
        .iter()
        .map(|c| (c.priority(), c.status_key(), c.path().clone()))
        .collect();
    assert_eq!(
        keys,
        [
            (0, 0, "a".to_string()),
            (0, 0, "c".to_string()),
            (0, 1, "b".to_string()),
            (0, 3, "a".to_string()),
            (1, 0, "a".to_string()),
            (1, 0, "b".to_string()),
            (1, 2, "a".to_string()),
        ]
    );
}

#[test]
fn sorting_twice_is_identical() {
    let mut once = vec![
        directory("x", DirectoryEntryStatus::Ignored),
        modification("m", ModificationStatus::Changed),
        directory("x", DirectoryEntryStatus::Untracked),
        modification("m", ModificationStatus::NeedsUpdate),
    ];
    sort_changes(&mut once);
    let first: Vec<(u8, u8, String)> =
        once.iter().map(|c| (c.priority(), c.status_key(), c.path().clone())).collect();
    sort_changes(&mut once);
    let second: Vec<(u8, u8, String)> =
        once.iter().map(|c| (c.priority(), c.status_key(), c.path().clone())).collect();
    assert_eq!(first, second);
}

#[test]
fn display_codes() {
    let lines = display_all(&[
        modification("f1", ModificationStatus::Changed),
        modification("f2", ModificationStatus::Conflicted),
        modification("f3", ModificationStatus::IntentToAdd),
        directory("f4", DirectoryEntryStatus::Untracked),
        directory("f5", DirectoryEntryStatus::TrackedNew),
        directory("f6", DirectoryEntryStatus::Pruned),
        directory("f7", DirectoryEntryStatus::Ignored),
    ]);
    assert_eq!(
        lines,
        [" M f1", "UU f2", " A f3", "?? f4", "A  f5", "D  f6", "!! f7"]
    );
}

#[test]
fn bare_codes_follow_the_mapping() {
    assert_eq!(ModificationStatus::Changed.code().unwrap(), "M");
    assert_eq!(ModificationStatus::Conflicted.code().unwrap(), "UU");
    assert_eq!(ModificationStatus::IntentToAdd.code().unwrap(), "A");
    assert_eq!(DirectoryEntryStatus::Untracked.code(), "??");
    assert_eq!(DirectoryEntryStatus::TrackedNew.code(), "A");
    assert_eq!(DirectoryEntryStatus::Pruned.code(), "D");
    assert_eq!(DirectoryEntryStatus::Ignored.code(), "!!");
}

#[test]
fn needs_update_display_fails_loudly() {
    assert!(matches!(
        ModificationStatus::NeedsUpdate.code(),
        Err(GlError::UnhandledStatusShape)
    ));
    let c = modification("f", ModificationStatus::NeedsUpdate);
    assert!(matches!(c.display(), Err(GlError::UnhandledStatusShape)));
    // It still orders fine between conflicted and intent-to-add.
    assert_eq!(c.status_key(), 2);
}

#[test]
fn sorting_nothing_is_fine() {
    let mut empty: Vec<GitChange> = Vec::new();
    sort_changes(&mut empty);
    assert!(empty.is_empty());
}
