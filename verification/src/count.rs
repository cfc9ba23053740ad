//! The commit counter: a streaming fold over an enumerated ancestry that
//! counts non-merge commits, optionally restricted to a closed time window
//! over committer time (not author time).  No commit records are
//! materialized.

use vstd::prelude::*;
use vstd::seq_lib::*;

use crate::commit::{is_merge, lemma_readable_step, spec_readable, CommitRecord};

verus! {

/// A closed interval of epoch seconds: both ends are included.
#[derive(Clone, Copy, Debug, PartialEq, Eq, Structural)]
pub struct TimeRange {
    pub start: i64,
    pub end: i64,
}

/// Whether `t` falls in the window; an absent window means all history.
/// Both comparisons are inclusive.
pub open spec fn in_range(t: int, range: Option<TimeRange>) -> bool {
    match range {
        Some(w) => w.start as int <= t && t <= w.end as int,
        None => true,
    }
}

/// A record the counter counts: not a merge, committer time in the window.
pub open spec fn counted(r: CommitRecord, range: Option<TimeRange>) -> bool {
    !is_merge(r) && in_range(r.committer_time as int, range)
}

/// How many enumerated commits the counter counts.
pub open spec fn spec_commit_count(objs: Seq<Option<CommitRecord>>, range: Option<TimeRange>) -> int {
    spec_readable(objs).filter(|r: CommitRecord| counted(r, range)).len() as int
}

/// Counts the non-merge commits whose committer time lies in `range`
/// (inclusive at both ends), or all non-merge commits when no range is
/// given.  Corrupt entries are skipped, as in the walker.
pub fn commit_count(objs: &Vec<Option<CommitRecord>>, range: &Option<TimeRange>) -> (r: usize)
    ensures
        r as int == spec_commit_count(objs@, *range),
{
    let total = objs.len();
    let mut count: usize = 0;
    let mut i: usize = 0;
    while i < total
        invariant
            total == objs@.len(),
            0 <= i <= total,
            count <= i,
            count as int == spec_commit_count(objs@.take(i as int), *range),
        decreases total - i,
    {
        let ghost pred = |r: CommitRecord| counted(r, *range);
        proof {
            lemma_readable_step(objs@, i as int);
            if objs@[i as int] is Some {
                spec_readable(objs@.take(i as int)).lemma_filter_push(objs@[i as int]->0, pred);
            }
        }
        match &objs[i] {
            None => {},
            Some(rec) => {
                if rec.parent_ids.len() < 2 {
                    let inside = match range {
                        Some(w) => w.start <= rec.committer_time && rec.committer_time <= w.end,
                        None => true,
                    };
                    if inside {
                        count += 1;
                    }
                }
            },
        }
        i += 1;
    }
    proof {
        assert(objs@.take(total as int) =~= objs@);
    }
    count
}

/// Merge exclusion, the counter's half: whatever the window, a counted
/// record has at most one parent.
pub proof fn lemma_counted_excludes_merges(r: CommitRecord, range: Option<TimeRange>)
    requires
        counted(r, range),
    ensures
        r.parent_ids@.len() <= 1,
{
}

/// Count window inclusivity: a non-merge commit whose committer time sits
/// exactly on either end of a well-formed window is counted.
pub proof fn lemma_count_window_inclusive(
    objs: Seq<Option<CommitRecord>>,
    range: TimeRange,
    i: int,
)
    requires
        0 <= i < objs.len(),
        objs[i] is Some,
        !is_merge(objs[i]->0),
        range.start <= range.end,
        objs[i]->0.committer_time == range.start || objs[i]->0.committer_time == range.end,
    ensures
        counted(objs[i]->0, Some(range)),
        spec_commit_count(objs, Some(range)) > 0,
{
    let pred = |r: CommitRecord| counted(r, Some(range));
    let readable = |o: Option<CommitRecord>| o is Some;
    objs.lemma_filter_contains(readable, i);
    let pos = choose|p: int|
        0 <= p < objs.filter(readable).len() && objs.filter(readable)[p] == objs[i];
    assert(spec_readable(objs)[pos] == objs[i]->0);
    spec_readable(objs).lemma_filter_contains(pred, pos);
    assert(spec_readable(objs).filter(pred).contains(objs[i]->0));
}

} // verus!
