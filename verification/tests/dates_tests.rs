use gl::commit::GitCommit;
use gl::date::{to_absolute, CivilDate, CommitDate};
use gl::dates::{find_first_commit_before_date, parse_date};
use gl::identity::GitIdentity;

#[test]
fn parse_well_formed_dates() {
    let d = parse_date("2024-02-29").unwrap();
    assert_eq!((d.year, d.month, d.day), (2024, 2, 29));
    let d = parse_date("1999-12-01").unwrap();
    assert_eq!((d.year, d.month, d.day), (1999, 12, 1));
    let d = parse_date("0001-01-01").unwrap();
    assert_eq!((d.year, d.month, d.day), (1, 1, 1));
}

#[test]
fn parse_rejects_malformed_dates() {
    for bad in [
        "",
        "2024",
        "2024-2-29",
        "24-02-29",
        "2024/02/29",
        "2023-02-29",
        "2024-13-01",
        "2024-00-10",
        "2024-01-00",
        "2024-01-32",
        "2024-02-29x",
        "abcd-ef-gh",
    ] {
        let e = parse_date(bad).unwrap_err();
        assert_eq!(e, "Invalid date format: expected YYYY-MM-DD", "input: {bad:?}");
    }
}

fn commit_on(hash: &str, ts: i64) -> GitCommit {
    GitCommit {
        hash: hash.to_string(),
        message: String::new(),
        refs: Vec::new(),
        date: CommitDate { abs: to_absolute(ts, 0).unwrap(), rel: String::new() },
        id: GitIdentity { email: String::new(), names: Vec::new() },
    }
}

const DAY: i64 = 86400;

#[test]
fn finds_the_commit_current_at_a_date() {
    // Oldest-first log: days 10, 20, 30 of 1970.
    let logs = vec![commit_on("old", 9 * DAY), commit_on("mid", 19 * DAY), commit_on("new", 29 * DAY)];
    // Target between mid and new.
    let at = parse_date("1970-01-25").unwrap();
    let hit = find_first_commit_before_date(&logs, &at).unwrap();
    assert_eq!(hit.hash, "mid");
}

#[test]
fn target_before_repository_start() {
    let logs = vec![commit_on("old", 9 * DAY), commit_on("new", 29 * DAY)];
    let at = parse_date("1970-01-05").unwrap();
    assert!(find_first_commit_before_date(&logs, &at).is_none());
}

#[test]
fn target_after_every_commit() {
    let logs = vec![commit_on("old", 9 * DAY), commit_on("new", 29 * DAY)];
    let at = parse_date("1970-02-15").unwrap();
    let hit = find_first_commit_before_date(&logs, &at).unwrap();
    assert_eq!(hit.hash, "new");
}

#[test]
fn empty_log_finds_nothing() {
    let at = CivilDate { year: 2024, month: 1, day: 1 };
    assert!(find_first_commit_before_date(&Vec::new(), &at).is_none());
}
