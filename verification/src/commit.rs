//! The history walker: traverses an already-enumerated commit ancestry,
//! applies the structural merge-exclusion rule and the author/message
//! filters, decorates each surviving commit with its reference names and its
//! dates, and yields an ordered, optionally reversed and bounded sequence.
//!
//! The ancestry arrives newest-first from the repository-access collaborator,
//! one entry per reachable commit; an entry is `None` when the underlying
//! object failed to decode — such corruption is recoverable and the commit is
//! skipped silently.  Results are materialized newest-first and reversed as a
//! final step when the oldest-first order is requested (a documented
//! trade-off inherited from the walk primitive, which only streams
//! newest-first); the limit keeps the leading entries of whichever order was
//! selected.

use vstd::prelude::*;
use vstd::seq_lib::*;

use crate::date::{valid_timestamp, CommitDate};
use crate::identity::GitIdentity;
use crate::opts::GitLogOptions;
use crate::refindex::RefIndex;
use crate::relative::spec_relative;
use crate::text::{contains_substring, str_contains};
use crate::GlError;

verus! {

/// One decoded ancestor, as the repository-access collaborator reports it.
#[derive(Clone)]
pub struct CommitRecord {
    /// Commit identifier (content hash, in display form).
    pub id: String,
    /// Identifiers of the parent commits.
    pub parent_ids: Vec<String>,
    pub author_email: String,
    pub author_name: String,
    /// First line of the commit message.
    pub title: String,
    /// Committer timestamp, epoch seconds.
    pub committer_time: i64,
    /// Committer UTC offset, signed seconds.
    pub committer_offset: i32,
}

/// A commit yielded by the walker: immutable once constructed, decorated
/// with its reference names and both date forms.
#[derive(Clone)]
pub struct GitCommit {
    pub hash: String,
    pub message: String,
    pub refs: Vec<String>,
    pub date: CommitDate,
    pub id: GitIdentity,
}

/// A merge commit: two or more parents.  Merges are excluded structurally,
/// irrespective of any user-facing filter.
pub open spec fn is_merge(r: CommitRecord) -> bool {
    r.parent_ids@.len() >= 2
}

/// The author filter: vacuously true without needles, otherwise at least one
/// needle occurs in the author's email or display name.
pub open spec fn author_matches(r: CommitRecord, authors: Seq<Seq<char>>) -> bool {
    authors.len() == 0 || exists|i: int|
        0 <= i < authors.len() && (contains_substring(r.author_email@, authors[i])
            || contains_substring(r.author_name@, authors[i]))
}

/// The message filter: every needle occurs in the commit's title.
pub open spec fn message_matches(r: CommitRecord, needles: Seq<Seq<char>>) -> bool {
    forall|i: int| 0 <= i < needles.len() ==> contains_substring(r.title@, needles[i])
}

/// A commit survives the walk: not a merge, and both filters pass.
pub open spec fn passes_filters(
    r: CommitRecord,
    authors: Seq<Seq<char>>,
    needles: Seq<Seq<char>>,
) -> bool {
    &&& !is_merge(r)
    &&& author_matches(r, authors)
    &&& message_matches(r, needles)
}

/// The decodable records of an enumerated ancestry, in walk order.
pub open spec fn spec_readable(objs: Seq<Option<CommitRecord>>) -> Seq<CommitRecord> {
    objs.filter(|o: Option<CommitRecord>| o is Some).map_values(|o: Option<CommitRecord>| o->0)
}

/// The records the walker keeps, in walk order.
pub open spec fn spec_selected(
    objs: Seq<Option<CommitRecord>>,
    authors: Seq<Seq<char>>,
    needles: Seq<Seq<char>>,
) -> Seq<CommitRecord> {
    spec_readable(objs).filter(|r: CommitRecord| passes_filters(r, authors, needles))
}

/// The selected records after direction and limit post-processing: reversal
/// happens on the materialized sequence, and the limit keeps the leading
/// entries of the selected order.
pub open spec fn spec_limited(
    objs: Seq<Option<CommitRecord>>,
    authors: Seq<Seq<char>>,
    needles: Seq<Seq<char>>,
    reverse: bool,
    limit: Option<int>,
) -> Seq<CommitRecord> {
    let sel = spec_selected(objs, authors, needles);
    let ordered = if reverse {
        sel.reverse()
    } else {
        sel
    };
    match limit {
        Some(k) => ordered.take(
            if k <= ordered.len() {
                k
            } else {
                ordered.len() as int
            },
        ),
        None => ordered,
    }
}

/// Every selected record has a timestamp the date converter accepts.
pub open spec fn spec_dates_valid(
    objs: Seq<Option<CommitRecord>>,
    authors: Seq<Seq<char>>,
    needles: Seq<Seq<char>>,
) -> bool {
    forall|i: int|
        0 <= i < spec_selected(objs, authors, needles).len() ==> valid_timestamp(
            #[trigger] spec_selected(objs, authors, needles)[i].committer_time as int,
            spec_selected(objs, authors, needles)[i].committer_offset as int,
        )
}

/// `c` is the decoration of record `r`: same hash and title, the reference
/// names of `r`'s bucket, the exact absolute date, and the author identity.
pub open spec fn decorates_abs(c: GitCommit, r: CommitRecord, refs: Seq<Seq<char>>) -> bool {
    &&& c.hash@ == r.id@
    &&& c.message@ == r.title@
    &&& c.refs.deep_view() == refs
    &&& c.date.abs.wf()
    &&& c.date.abs.offset == r.committer_offset
    &&& c.date.abs.spec_epoch_seconds() == r.committer_time as int
    &&& c.id.email@ == r.author_email@
    &&& c.id.names.deep_view() == seq![r.author_name@]
}

/// As `decorates_abs`, with the relative date fixed at clock reading `now`.
pub open spec fn decorates(c: GitCommit, r: CommitRecord, refs: Seq<Seq<char>>, now: int) -> bool {
    &&& decorates_abs(c, r, refs)
    &&& c.date.rel@ == spec_relative(r.committer_time as int, now)
}

/// `v` is exactly the walk's output: the selected records after direction
/// and limit post-processing, each decorated with its bucket and its dates
/// at clock reading `now`.
pub open spec fn spec_walk_output(
    v: Seq<GitCommit>,
    objs: Seq<Option<CommitRecord>>,
    index: RefIndex,
    authors: Seq<Seq<char>>,
    needles: Seq<Seq<char>>,
    reverse: bool,
    limit: Option<int>,
    now: int,
) -> bool {
    let limited = spec_limited(objs, authors, needles, reverse, limit);
    &&& v.len() == limited.len()
    &&& forall|i: int|
        0 <= i < limited.len() ==> decorates(
            #[trigger] v[i],
            limited[i],
            index.names_of(limited[i].id@),
            now,
        )
}

/// Whether at least one author needle matches this record.
fn author_match(rec: &CommitRecord, authors: &Vec<String>) -> (r: bool)
    ensures
        r == author_matches(*rec, authors.deep_view()),
{
    if authors.len() == 0 {
        return true;
    }
    let n = authors.len();
    let mut i: usize = 0;
    while i < n
        invariant
            n == authors@.len(),
            0 <= i <= n,
            forall|l: int|
                0 <= l < i ==> !contains_substring(rec.author_email@, authors.deep_view()[l])
                    && !contains_substring(rec.author_name@, authors.deep_view()[l]),
        decreases n - i,
    {
        if str_contains(rec.author_email.as_str(), authors[i].as_str()) || str_contains(
            rec.author_name.as_str(),
            authors[i].as_str(),
        ) {
            proof {
                assert(authors.deep_view()[i as int] == authors@[i as int]@);
            }
            return true;
        }
        proof {
            assert(authors.deep_view()[i as int] == authors@[i as int]@);
        }
        i += 1;
    }
    false
}

/// Whether every message needle matches this record's title.
fn message_match(rec: &CommitRecord, needles: &Vec<String>) -> (r: bool)
    ensures
        r == message_matches(*rec, needles.deep_view()),
{
    let n = needles.len();
    let mut i: usize = 0;
    while i < n
        invariant
            n == needles@.len(),
            0 <= i <= n,
            forall|l: int| 0 <= l < i ==> contains_substring(rec.title@, needles.deep_view()[l]),
        decreases n - i,
    {
        if !str_contains(rec.title.as_str(), needles[i].as_str()) {
            proof {
                assert(needles.deep_view()[i as int] == needles@[i as int]@);
            }
            return false;
        }
        proof {
            assert(needles.deep_view()[i as int] == needles@[i as int]@);
        }
        i += 1;
    }
    true
}

/// An element-wise copy of a vector of strings.
pub(crate) fn clone_strings(v: &Vec<String>) -> (r: Vec<String>)
    ensures
        r.deep_view() == v.deep_view(),
{
    let n = v.len();
    let mut out: Vec<String> = Vec::new();
    let mut i: usize = 0;
    while i < n
        invariant
            n == v@.len(),
            0 <= i <= n,
            out@.len() == i,
            forall|j: int| 0 <= j < i ==> out@[j]@ == v@[j]@,
        decreases n - i,
    {
        out.push(v[i].clone());
        i += 1;
    }
    proof {
        assert(out.deep_view() =~= v.deep_view());
    }
    out
}

/// The same commits in the opposite order.
fn reverse_commits(v: Vec<GitCommit>) -> (r: Vec<GitCommit>)
    ensures
        r@ == v@.reverse(),
{
    let ghost orig = v@;
    let mut input = v;
    let mut out: Vec<GitCommit> = Vec::new();
    while input.len() > 0
        invariant
            input@.len() + out@.len() == orig.len(),
            forall|j: int| 0 <= j < input@.len() ==> input@[j] == orig[j],
            forall|j: int| 0 <= j < out@.len() ==> out@[j] == orig[orig.len() - 1 - j],
        decreases input@.len(),
    {
        let x = input.pop().unwrap();
        out.push(x);
    }
    proof {
        assert(out@ =~= orig.reverse());
    }
    out
}

/// One more enumerated object extends the readable records exactly when it
/// decodes.
pub proof fn lemma_readable_step(objs: Seq<Option<CommitRecord>>, i: int)
    requires
        0 <= i < objs.len(),
    ensures
        spec_readable(objs.take(i + 1)) == if objs[i] is Some {
            spec_readable(objs.take(i)).push(objs[i]->0)
        } else {
            spec_readable(objs.take(i))
        },
{
    let readable = |o: Option<CommitRecord>| o is Some;
    let unwrap = |o: Option<CommitRecord>| o->0;
    assert(objs.take(i + 1) =~= objs.take(i).push(objs[i]));
    objs.take(i).lemma_filter_push(objs[i], readable);
    if objs[i] is Some {
        assert(objs.take(i).filter(readable).push(objs[i]).map_values(unwrap) =~= objs.take(
            i,
        ).filter(readable).map_values(unwrap).push(objs[i]->0));
    }
}

/// One more enumerated object extends the selection exactly when it decodes
/// and passes the filters.
proof fn lemma_selected_step(
    objs: Seq<Option<CommitRecord>>,
    i: int,
    authors: Seq<Seq<char>>,
    needles: Seq<Seq<char>>,
)
    requires
        0 <= i < objs.len(),
    ensures
        spec_selected(objs.take(i + 1), authors, needles) == if objs[i] is Some && passes_filters(
            objs[i]->0,
            authors,
            needles,
        ) {
            spec_selected(objs.take(i), authors, needles).push(objs[i]->0)
        } else {
            spec_selected(objs.take(i), authors, needles)
        },
{
    let passes = |r: CommitRecord| passes_filters(r, authors, needles);
    lemma_readable_step(objs, i);
    if objs[i] is Some {
        spec_readable(objs.take(i)).lemma_filter_push(objs[i]->0, passes);
    }
}

/// A longer enumeration only extends the selection.
proof fn lemma_selected_prefix(
    objs: Seq<Option<CommitRecord>>,
    i: int,
    authors: Seq<Seq<char>>,
    needles: Seq<Seq<char>>,
)
    requires
        0 <= i <= objs.len(),
    ensures
        spec_selected(objs.take(i), authors, needles).is_prefix_of(
            spec_selected(objs, authors, needles),
        ),
    decreases objs.len() - i,
{
    if i == objs.len() {
        assert(objs.take(i) =~= objs);
    } else {
        lemma_selected_step(objs, i, authors, needles);
        lemma_selected_prefix(objs, i + 1, authors, needles);
    }
}

/// The walk against an explicit clock reading `now`.
///
/// Fails, with the fatal `MalformedTimestamp`, exactly when some selected
/// commit carries a timestamp outside the date converter's range; otherwise
/// yields the selected records in walk order, reversed on request and then
/// truncated to the limit (unless all entries were requested), each decorated
/// with its reference bucket and its dates.
pub fn git_log_at(
    objs: &Vec<Option<CommitRecord>>,
    index: &RefIndex,
    now: i64,
    n: Option<usize>,
    opts: &GitLogOptions,
) -> (r: Result<Vec<GitCommit>, GlError>)
    ensures
        r is Ok <==> spec_dates_valid(objs@, opts.authors.deep_view(), opts.needles.deep_view()),
        r is Err ==> r == Result::<Vec<GitCommit>, GlError>::Err(GlError::MalformedTimestamp),
        r matches Ok(v) ==> spec_walk_output(
            v@,
            objs@,
            *index,
            opts.authors.deep_view(),
            opts.needles.deep_view(),
            opts.reverse,
            spec_effective_limit(n, opts.all),
            now as int,
        ),
{
    let ghost authors = opts.authors.deep_view();
    let ghost needles = opts.needles.deep_view();
    let total = objs.len();
    let mut out: Vec<GitCommit> = Vec::new();
    let mut i: usize = 0;
    while i < total
        invariant
            total == objs@.len(),
            0 <= i <= total,
            out@.len() == spec_selected(objs@.take(i as int), authors, needles).len(),
            forall|j: int|
                0 <= j < out@.len() ==> decorates(
                    #[trigger] out@[j],
                    spec_selected(objs@.take(i as int), authors, needles)[j],
                    index.names_of(spec_selected(objs@.take(i as int), authors, needles)[j].id@),
                    now as int,
                ),
            forall|j: int|
                0 <= j < spec_selected(objs@.take(i as int), authors, needles).len()
                    ==> valid_timestamp(
                    #[trigger] spec_selected(objs@.take(i as int), authors, needles)[j].committer_time as int,
                    spec_selected(objs@.take(i as int), authors, needles)[j].committer_offset as int,
                ),
            authors == opts.authors.deep_view(),
            needles == opts.needles.deep_view(),
        decreases total - i,
    {
        let ghost sel_old = spec_selected(objs@.take(i as int), authors, needles);
        proof {
            lemma_selected_step(objs@, i as int, authors, needles);
        }
        match &objs[i] {
            None => {},
            Some(rec) => {
                let keep = rec.parent_ids.len() < 2 && author_match(rec, &opts.authors)
                    && message_match(rec, &opts.needles);
                if keep {
                    match CommitDate::new(rec.committer_time, rec.committer_offset, now) {
                        Err(e) => {
                            proof {
                                assert(objs@[i as int]->0 == *rec);
                                assert(spec_selected(objs@.take(i + 1), authors, needles)
                                    == sel_old.push(*rec));
                                lemma_selected_prefix(objs@, i + 1, authors, needles);
                                let sel = spec_selected(objs@, authors, needles);
                                assert(spec_selected(objs@.take(i + 1), authors, needles)
                                    == sel.take(sel_old.len() as int + 1));
                                assert(sel_old.push(*rec)[sel_old.len() as int] == *rec);
                                assert(sel.take(sel_old.len() as int + 1)[sel_old.len() as int]
                                    == sel[sel_old.len() as int]);
                                assert(sel[sel_old.len() as int] == *rec);
                            }
                            return Err(e);
                        },
                        Ok(date) => {
                            let refs = match index.get(&rec.id) {
                                Some(names) => clone_strings(names),
                                None => Vec::new(),
                            };
                            let commit = GitCommit {
                                hash: rec.id.clone(),
                                message: rec.title.clone(),
                                refs,
                                date,
                                id: GitIdentity {
                                    email: rec.author_email.clone(),
                                    names: vec![rec.author_name.clone()],
                                },
                            };
                            proof {
                                assert(commit.id.names.deep_view() =~= seq![rec.author_name@]);
                                if index.spec_get(rec.id@) is None {
                                    assert(commit.refs.deep_view() =~= index.names_of(rec.id@));
                                }
                            }
                            out.push(commit);
                        },
                    }
                }
            },
        }
        i += 1;
    }
    proof {
        assert(objs@.take(total as int) =~= objs@);
    }

    let mut result = out;
    if opts.reverse {
        result = reverse_commits(result);
    }
    let mut limited_now = false;
    if let Some(k) = n {
        if !opts.all {
            result.truncate(k);
            limited_now = true;
        }
    }
    proof {
        let sel = spec_selected(objs@, authors, needles);
        let ordered = if opts.reverse {
            sel.reverse()
        } else {
            sel
        };
        let limited = spec_limited(
            objs@,
            authors,
            needles,
            opts.reverse,
            spec_effective_limit(n, opts.all),
        );
        assert forall|j: int| 0 <= j < limited.len() implies decorates(
            #[trigger] result@[j],
            limited[j],
            index.names_of(limited[j].id@),
            now as int,
        ) by {
            if opts.reverse {
                assert(ordered[j] == sel[sel.len() - 1 - j]);
            }
        }
    }
    Ok(result)
}

/// The limit actually applied: none when all entries were requested or no
/// count was given.
pub open spec fn spec_effective_limit(n: Option<usize>, all: bool) -> Option<int> {
    if all {
        None
    } else {
        match n {
            Some(k) => Some(k as int),
            None => None,
        }
    }
}

/// The author needles in force: none when no options were given.
pub open spec fn spec_effective_authors(opts: Option<&GitLogOptions>) -> Seq<Seq<char>> {
    match opts {
        Some(o) => o.authors.deep_view(),
        None => Seq::empty(),
    }
}

/// The message needles in force: none when no options were given.
pub open spec fn spec_effective_needles(opts: Option<&GitLogOptions>) -> Seq<Seq<char>> {
    match opts {
        Some(o) => o.needles.deep_view(),
        None => Seq::empty(),
    }
}

/// The direction in force: newest first when no options were given.
pub open spec fn spec_effective_reverse(opts: Option<&GitLogOptions>) -> bool {
    match opts {
        Some(o) => o.reverse,
        None => false,
    }
}

/// Whether the whole history was requested: not without options.
pub open spec fn spec_effective_all(opts: Option<&GitLogOptions>) -> bool {
    match opts {
        Some(o) => o.all,
        None => false,
    }
}

/// The walk against the machine clock.  As `git_log_at`, except that the
/// relative date strings are rendered at whatever single reading the clock
/// gave.
pub fn git_log(
    objs: &Vec<Option<CommitRecord>>,
    index: &RefIndex,
    n: Option<usize>,
    opts: Option<&GitLogOptions>,
) -> (r: Result<Vec<GitCommit>, GlError>)
    ensures
        r is Ok <==> spec_dates_valid(
            objs@,
            spec_effective_authors(opts),
            spec_effective_needles(opts),
        ),
        r is Err ==> r == Result::<Vec<GitCommit>, GlError>::Err(GlError::MalformedTimestamp),
        r matches Ok(v) ==> exists|now: int|
            #[trigger] spec_walk_output(
                v@,
                objs@,
                *index,
                spec_effective_authors(opts),
                spec_effective_needles(opts),
                spec_effective_reverse(opts),
                spec_effective_limit(n, spec_effective_all(opts)),
                now,
            ),
{
    let now = crate::date::now_epoch_seconds();
    let default_opts = GitLogOptions::default();
    let effective = match opts {
        Some(o) => o,
        None => &default_opts,
    };
    proof {
        if opts is None {
            assert(effective.authors.deep_view() =~= spec_effective_authors(opts));
            assert(effective.needles.deep_view() =~= spec_effective_needles(opts));
        }
    }
    let r = git_log_at(objs, index, now, n, effective);
    proof {
        assert(r matches Ok(v) ==> spec_walk_output(
            v@,
            objs@,
            *index,
            spec_effective_authors(opts),
            spec_effective_needles(opts),
            spec_effective_reverse(opts),
            spec_effective_limit(n, spec_effective_all(opts)),
            now as int,
        ));
    }
    r
}

/// Merge exclusion: every record the walker or the counter keeps has at most
/// one parent, whatever the filters say.
pub proof fn lemma_merge_exclusion(
    objs: Seq<Option<CommitRecord>>,
    authors: Seq<Seq<char>>,
    needles: Seq<Seq<char>>,
    i: int,
)
    requires
        0 <= i < spec_selected(objs, authors, needles).len(),
    ensures
        spec_selected(objs, authors, needles)[i].parent_ids@.len() <= 1,
{
    let passes = |r: CommitRecord| passes_filters(r, authors, needles);
    spec_readable(objs).lemma_filter_pred(passes, i);
}

/// Reversing twice is the identity: an unfiltered-or-filtered, unlimited walk
/// in reverse order, reversed again, is the plain walk.
pub proof fn lemma_reverse_round_trip(
    objs: Seq<Option<CommitRecord>>,
    authors: Seq<Seq<char>>,
    needles: Seq<Seq<char>>,
)
    ensures
        spec_limited(objs, authors, needles, true, None).reverse() == spec_limited(
            objs,
            authors,
            needles,
            false,
            None,
        ),
{
    let sel = spec_selected(objs, authors, needles);
    assert(sel.reverse().reverse() =~= sel);
}

/// Limit idempotence: a bounded walk is a prefix of the unbounded walk under
/// the same filters and direction.
pub proof fn lemma_limit_prefix(
    objs: Seq<Option<CommitRecord>>,
    authors: Seq<Seq<char>>,
    needles: Seq<Seq<char>>,
    reverse: bool,
    k: int,
)
    requires
        k >= 0,
    ensures
        spec_limited(objs, authors, needles, reverse, Some(k)).is_prefix_of(
            spec_limited(objs, authors, needles, reverse, None),
        ),
{
    let unlimited = spec_limited(objs, authors, needles, reverse, None);
    let limited = spec_limited(objs, authors, needles, reverse, Some(k));
    assert(limited =~= unlimited.take(limited.len() as int));
}

} // verus!
