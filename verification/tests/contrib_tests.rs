use gl::commit::GitCommit;
use gl::contrib::{
    git_contributors, merge_shortlog_identities, parse_numstat_line, parse_shortlog_line,
    GitContributions, GitContributor, GitFileContributions,
};
use gl::date::{to_absolute, CommitDate};
use gl::identity::GitIdentity;

fn commit_by(email: &str, ts: i64) -> GitCommit {
    GitCommit {
        hash: format!("h{ts}"),
        message: String::new(),
        refs: Vec::new(),
        date: CommitDate { abs: to_absolute(ts, 0).unwrap(), rel: String::new() },
        id: GitIdentity { email: email.to_string(), names: vec!["N".to_string()] },
    }
}

fn fc(added: u64, deleted: u64) -> GitFileContributions {
    GitFileContributions {
        lines_added: added,
        lines_deleted: deleted,
        lines_written: added as i64 - deleted as i64,
    }
}

const DAY: i64 = 86400;

#[test]
fn stats_fold_line_counts_and_days() {
    let contributor = GitContributor {
        id: GitIdentity { email: "a@x.com".to_string(), names: vec![] },
        contributions: GitContributions {
            commits: vec![
                commit_by("a@x.com", 0),
                commit_by("a@x.com", 3600),
                commit_by("a@x.com", 2 * DAY),
            ],
            file_contributions: vec![fc(10, 4), fc(0, 7), fc(5, 0)],
        },
    };
    assert_eq!(contributor.commits(), 3);
    let totals = contributor.file_contributions();
    assert_eq!(totals.lines_added, 15);
    assert_eq!(totals.lines_deleted, 11);
    assert_eq!(totals.lines_written, 4);
    let stats = contributor.contribution_stats();
    assert_eq!(stats.commits, 3);
    assert_eq!(stats.file_contributions.lines_written, 4);
    // Two commits on 1970-01-01, one on 1970-01-03.
    assert_eq!(stats.commit_dates.len(), 2);
    assert_eq!(stats.commit_dates[0].0.day, 1);
    assert_eq!(stats.commit_dates[0].1, 2);
    assert_eq!(stats.commit_dates[1].0.day, 3);
    assert_eq!(stats.commit_dates[1].1, 1);
}

#[test]
fn numstat_lines_parse_leniently() {
    let c = parse_numstat_line("12\t7\tsrc/main.rs");
    assert_eq!((c.lines_added, c.lines_deleted, c.lines_written), (12, 7, 5));
    // A binary file shows dashes; they read as zero.
    let b = parse_numstat_line("-\t-\tlogo.png");
    assert_eq!((b.lines_added, b.lines_deleted, b.lines_written), (0, 0, 0));
    // Deletions can outnumber additions.
    let d = parse_numstat_line("0\t42\told.rs");
    assert_eq!(d.lines_written, -42);
    // Odd lines read as zero rather than failing.
    let e = parse_numstat_line("");
    assert_eq!((e.lines_added, e.lines_deleted), (0, 0));
    let f = parse_numstat_line("  3   nonsense  path");
    assert_eq!((f.lines_added, f.lines_deleted, f.lines_written), (3, 0, 3));
    // An absurd count reads as zero too.
    let g = parse_numstat_line("99999999999999999999999\t1\tp");
    assert_eq!((g.lines_added, g.lines_deleted), (0, 1));
}

#[test]
fn shortlog_lines_parse_exactly() {
    let (freq, author, email) = parse_shortlog_line("    42\tJane Doe <jane@example.com>").unwrap();
    assert_eq!(freq, 42);
    assert_eq!(author, "Jane Doe");
    assert_eq!(email, "jane@example.com");

    // An empty author and an empty email are still canonical.
    let (freq, author, email) = parse_shortlog_line("1 <>").unwrap();
    assert_eq!((freq, author.as_str(), email.as_str()), (1, "", ""));

    // The email is what stands between the last '<' and the closing '>'.
    let (_, author, email) = parse_shortlog_line("7 A <B> C <c@d>").unwrap();
    assert_eq!(author, "A <B> C");
    assert_eq!(email, "c@d");
}

#[test]
fn shortlog_rejects_non_summary_lines() {
    for bad in ["", ">", "no count <a@b>", "12 name a@b", "12 name <a@b> trailing", "12<a@b>"] {
        assert!(parse_shortlog_line(bad).is_none(), "input: {bad:?}");
    }
}

#[test]
fn identities_merge_by_exact_email() {
    let parsed = vec![
        (10u64, "Jane Doe".to_string(), "jane@x.com".to_string()),
        (3, "Bob".to_string(), "bob@y.org".to_string()),
        (2, "J. Doe".to_string(), "jane@x.com".to_string()),
    ];
    let ids = merge_shortlog_identities(&parsed);
    assert_eq!(ids.len(), 2);
    assert_eq!(ids[0].email, "jane@x.com");
    assert_eq!(ids[0].names, ["Jane Doe", "J. Doe"]);
    assert_eq!(ids[1].email, "bob@y.org");
    assert_eq!(ids[1].names, ["Bob"]);
}

#[test]
fn contributors_group_commits_by_email() {
    let logs = vec![
        commit_by("a@x.com", 100),
        commit_by("b@y.org", 200),
        commit_by("a@x.com", 300),
    ];
    let authors = vec![
        GitIdentity { email: "a@x.com".to_string(), names: vec!["A".to_string()] },
        GitIdentity { email: "b@y.org".to_string(), names: vec!["B".to_string()] },
        GitIdentity { email: "nobody@z".to_string(), names: vec![] },
    ];
    let contribs = vec![vec![fc(1, 0)], vec![fc(2, 1)], vec![]];
    let out = git_contributors(&logs, &authors, &contribs);
    assert_eq!(out.len(), 3);
    assert_eq!(out[0].commits(), 2);
    assert_eq!(out[0].contributions.commits[0].hash, "h100");
    assert_eq!(out[0].contributions.commits[1].hash, "h300");
    assert_eq!(out[1].commits(), 1);
    assert_eq!(out[1].contributions.commits[0].hash, "h200");
    assert_eq!(out[2].commits(), 0);
    assert_eq!(out[0].contributions.file_contributions, vec![fc(1, 0)]);
}
