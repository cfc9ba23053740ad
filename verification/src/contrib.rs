//! Authorship statistics: per-author commit grouping and line-contribution
//! aggregation.
//!
//! The identity key is the author email, byte-exact; display names are
//! carried but never compared.  Raw per-file line counts arrive from the
//! repository-access collaborator (one batch per author); this module groups
//! the walked commits by author and folds the counts.

use vstd::prelude::*;
use vstd::string::StringExecFns;

use crate::commit::GitCommit;
use crate::date::CivilDate;
use crate::identity::GitIdentity;

verus! {

/// Line counts of one file touched by one author, as reported by the
/// repository's numstat output.
#[derive(Clone, Copy, Debug, PartialEq, Eq, Structural)]
pub struct GitFileContributions {
    pub lines_added: u64,
    pub lines_deleted: u64,
    /// Net lines: added minus deleted.
    pub lines_written: i64,
}

/// Everything one author contributed: their commits and their per-file line
/// counts.
pub struct GitContributions {
    pub commits: Vec<GitCommit>,
    pub file_contributions: Vec<GitFileContributions>,
}

/// One author with their contributions.
pub struct GitContributor {
    pub id: GitIdentity,
    pub contributions: GitContributions,
}

/// A contributor's digest: commit count, folded line counts, and commits
/// per calendar day.
pub struct ContributionStats {
    pub commits: usize,
    pub file_contributions: GitFileContributions,
    pub commit_dates: Vec<(CivilDate, usize)>,
}

/// Total added lines over a batch.
pub open spec fn sum_added(s: Seq<GitFileContributions>) -> int
    decreases s.len(),
{
    if s.len() == 0 {
        0
    } else {
        sum_added(s.drop_last()) + s.last().lines_added as int
    }
}

/// Total deleted lines over a batch.
pub open spec fn sum_deleted(s: Seq<GitFileContributions>) -> int
    decreases s.len(),
{
    if s.len() == 0 {
        0
    } else {
        sum_deleted(s.drop_last()) + s.last().lines_deleted as int
    }
}

/// Total net lines over a batch.
pub open spec fn sum_written(s: Seq<GitFileContributions>) -> int
    decreases s.len(),
{
    if s.len() == 0 {
        0
    } else {
        sum_written(s.drop_last()) + s.last().lines_written as int
    }
}

/// `a` and `b` carry the same commit, field for field.
pub open spec fn commit_eq_view(a: GitCommit, b: GitCommit) -> bool {
    &&& a.hash@ == b.hash@
    &&& a.message@ == b.message@
    &&& a.refs.deep_view() == b.refs.deep_view()
    &&& a.date.abs == b.date.abs
    &&& a.date.rel@ == b.date.rel@
    &&& a.id.email@ == b.id.email@
    &&& a.id.names.deep_view() == b.id.names.deep_view()
}

/// A field-by-field copy of a commit.
fn clone_commit(c: &GitCommit) -> (r: GitCommit)
    ensures
        commit_eq_view(*c, r),
{
    let r = GitCommit {
        hash: c.hash.clone(),
        message: c.message.clone(),
        refs: crate::commit::clone_strings(&c.refs),
        date: crate::date::CommitDate { abs: c.date.abs, rel: c.date.rel.clone() },
        id: GitIdentity {
            email: c.id.email.clone(),
            names: crate::commit::clone_strings(&c.id.names),
        },
    };
    r
}

/// The commits authored under `email`, in walk order.
pub open spec fn spec_commits_of(logs: Seq<GitCommit>, email: Seq<char>) -> Seq<GitCommit> {
    logs.filter(|c: GitCommit| c.id.email@ == email)
}

/// Collects the commits whose author email is exactly `email`, preserving
/// walk order.
pub fn commits_for_author(logs: &Vec<GitCommit>, email: &String) -> (r: Vec<GitCommit>)
    ensures
        r@.len() == spec_commits_of(logs@, email@).len(),
        forall|i: int|
            0 <= i < r@.len() ==> commit_eq_view(
                spec_commits_of(logs@, email@)[i],
                #[trigger] r@[i],
            ),
{
    let ghost pred = |c: GitCommit| c.id.email@ == email@;
    let n = logs.len();
    let mut out: Vec<GitCommit> = Vec::new();
    let mut i: usize = 0;
    while i < n
        invariant
            n == logs@.len(),
            0 <= i <= n,
            pred == (|c: GitCommit| c.id.email@ == email@),
            out@.len() == logs@.take(i as int).filter(pred).len(),
            forall|j: int|
                0 <= j < out@.len() ==> commit_eq_view(
                    logs@.take(i as int).filter(pred)[j],
                    #[trigger] out@[j],
                ),
        decreases n - i,
    {
        proof {
            assert(logs@.take(i + 1) =~= logs@.take(i as int).push(logs@[i as int]));
            logs@.take(i as int).lemma_filter_push(logs@[i as int], pred);
        }
        if logs[i].id.email == *email {
            out.push(clone_commit(&logs[i]));
        }
        i += 1;
    }
    proof {
        assert(logs@.take(n as int) =~= logs@);
    }
    out
}

impl GitContributor {
    /// How many commits this contributor authored.
    pub fn commits(&self) -> (r: usize)
        ensures
            r == self.contributions.commits@.len(),
    {
        self.contributions.commits.len()
    }

    /// Folds the per-file line counts into one total.
    pub fn file_contributions(&self) -> (r: GitFileContributions)
        requires
            sum_added(self.contributions.file_contributions@) <= u64::MAX,
            sum_deleted(self.contributions.file_contributions@) <= u64::MAX,
            forall|k: int|
                0 <= k <= self.contributions.file_contributions@.len() ==> i64::MIN <= sum_written(
                    #[trigger] self.contributions.file_contributions@.take(k),
                ) <= i64::MAX,
        ensures
            r.lines_added as int == sum_added(self.contributions.file_contributions@),
            r.lines_deleted as int == sum_deleted(self.contributions.file_contributions@),
            r.lines_written as int == sum_written(self.contributions.file_contributions@),
    {
        let batch = &self.contributions.file_contributions;
        let n = batch.len();
        let mut added: u64 = 0;
        let mut deleted: u64 = 0;
        let mut written: i64 = 0;
        let mut i: usize = 0;
        while i < n
            invariant
                n == batch@.len(),
                0 <= i <= n,
                added as int == sum_added(batch@.take(i as int)),
                deleted as int == sum_deleted(batch@.take(i as int)),
                written as int == sum_written(batch@.take(i as int)),
                sum_added(batch@) <= u64::MAX,
                sum_deleted(batch@) <= u64::MAX,
                forall|k: int|
                    0 <= k <= batch@.len() ==> i64::MIN <= sum_written(#[trigger] batch@.take(k))
                        <= i64::MAX,
            decreases n - i,
        {
            proof {
                lemma_sums_monotonic(batch@, i + 1);
                assert(batch@.take(i + 1).drop_last() =~= batch@.take(i as int));
                assert(batch@.take(i + 1).last() == batch@[i as int]);
                assert(i64::MIN <= sum_written(batch@.take(i + 1)) <= i64::MAX);
            }
            added = added + batch[i].lines_added;
            deleted = deleted + batch[i].lines_deleted;
            written = written + batch[i].lines_written;
            i += 1;
        }
        proof {
            assert(batch@.take(n as int) =~= batch@);
        }
        GitFileContributions { lines_added: added, lines_deleted: deleted, lines_written: written }
    }
}

/// Commits authored on day `day`.
pub open spec fn spec_day_count(commits: Seq<GitCommit>, day: CivilDate) -> int {
    commits.filter(|c: GitCommit| crate::dates::commit_day(c) == day).len() as int
}

/// A per-day commit table for `commits`: one row per distinct authoring
/// day, each with the exact number of commits of that day, and no day of
/// any commit missing.
pub open spec fn day_table_ok(commits: Seq<GitCommit>, table: Seq<(CivilDate, usize)>) -> bool {
    &&& forall|i: int, j: int| 0 <= i < j < table.len() ==> (#[trigger] table[i]).0 != (
    #[trigger] table[j]).0
    &&& forall|i: int|
        0 <= i < table.len() ==> (#[trigger] table[i]).1 as int == spec_day_count(
            commits,
            table[i].0,
        ) && table[i].1 > 0
    &&& forall|j: int|
        0 <= j < commits.len() ==> day_in_table(
            table,
            crate::dates::commit_day(#[trigger] commits[j]),
        )
}

/// `day` has a row in the table.
pub open spec fn day_in_table(table: Seq<(CivilDate, usize)>, day: CivilDate) -> bool {
    exists|i: int| 0 <= i < table.len() && (#[trigger] table[i]).0 == day
}

/// A row stays in the table when another is appended.
proof fn lemma_day_in_table_push(table: Seq<(CivilDate, usize)>, x: (CivilDate, usize), day: CivilDate)
    requires
        day_in_table(table, day),
    ensures
        day_in_table(table.push(x), day),
{
    let w = choose|i: int| 0 <= i < table.len() && (#[trigger] table[i]).0 == day;
    assert((table.push(x)[w]).0 == day);
}

/// Whether a day already has a row.
fn contains_day(table: &Vec<(CivilDate, usize)>, day: &CivilDate) -> (r: bool)
    ensures
        r == day_in_table(table@, *day),
{
    let n = table.len();
    let mut i: usize = 0;
    while i < n
        invariant
            n == table@.len(),
            0 <= i <= n,
            forall|l: int| 0 <= l < i ==> (#[trigger] table@[l]).0 != *day,
        decreases n - i,
    {
        if table[i].0 == *day {
            proof {
                assert((table@[i as int]).0 == *day);
            }
            return true;
        }
        i += 1;
    }
    false
}

/// How many of the commits were authored on `day`.
fn count_day(commits: &Vec<GitCommit>, day: &CivilDate) -> (r: usize)
    ensures
        r as int == spec_day_count(commits@, *day),
        r <= commits@.len(),
{
    let ghost pred = |c: GitCommit| crate::dates::commit_day(c) == *day;
    let n = commits.len();
    let mut count: usize = 0;
    let mut i: usize = 0;
    while i < n
        invariant
            n == commits@.len(),
            0 <= i <= n,
            count <= i,
            pred == (|c: GitCommit| crate::dates::commit_day(c) == *day),
            count as int == commits@.take(i as int).filter(pred).len(),
        decreases n - i,
    {
        proof {
            assert(commits@.take(i + 1) =~= commits@.take(i as int).push(commits@[i as int]));
            commits@.take(i as int).lemma_filter_push(commits@[i as int], pred);
        }
        let here = commits[i].date.abs.date_naive();
        proof {
            assert(here == crate::dates::commit_day(commits@[i as int]));
        }
        if here == *day {
            count += 1;
        }
        i += 1;
    }
    proof {
        assert(commits@.take(n as int) =~= commits@);
    }
    count
}

impl GitContributor {
    /// Tabulates this contributor's commits per calendar day: one row per
    /// distinct day, counted exactly, first-seen order.
    pub fn commit_dates(&self) -> (r: Vec<(CivilDate, usize)>)
        ensures
            day_table_ok(self.contributions.commits@, r@),
    {
        let commits = &self.contributions.commits;
        let n = commits.len();
        let mut out: Vec<(CivilDate, usize)> = Vec::new();
        let mut i: usize = 0;
        while i < n
            invariant
                n == commits@.len(),
                0 <= i <= n,
                forall|u: int, v: int| 0 <= u < v < out@.len() ==> (#[trigger] out@[u]).0 != (
                #[trigger] out@[v]).0,
                forall|u: int|
                    0 <= u < out@.len() ==> (#[trigger] out@[u]).1 as int == spec_day_count(
                        commits@,
                        out@[u].0,
                    ) && out@[u].1 > 0,
                forall|j: int|
                    0 <= j < i ==> day_in_table(
                        out@,
                        crate::dates::commit_day(#[trigger] commits@[j]),
                    ),
            decreases n - i,
        {
            let day = commits[i].date.abs.date_naive();
            let ghost prev = out@;
            proof {
                assert(day == crate::dates::commit_day(commits@[i as int]));
            }
            if !contains_day(&out, &day) {
                let c = count_day(commits, &day);
                proof {
                    let pred = |c: GitCommit| crate::dates::commit_day(c) == day;
                    commits@.lemma_filter_contains(pred, i as int);
                    assert(commits@.filter(pred).len() > 0);
                }
                out.push((day, c));
                proof {
                    assert forall|j: int| 0 <= j < i + 1 implies day_in_table(
                        out@,
                        crate::dates::commit_day(#[trigger] commits@[j]),
                    ) by {
                        if j < i {
                            lemma_day_in_table_push(
                                prev,
                                (day, c),
                                crate::dates::commit_day(commits@[j]),
                            );
                        } else {
                            assert((out@[out@.len() - 1]).0 == crate::dates::commit_day(
                                commits@[j],
                            ));
                        }
                    }
                }
            } else {
                proof {
                    assert forall|j: int| 0 <= j < i + 1 implies day_in_table(
                        out@,
                        crate::dates::commit_day(#[trigger] commits@[j]),
                    ) by {
                    }
                }
            }
            i += 1;
        }
        proof {
            assert(day_table_ok(commits@, out@));
        }
        out
    }

    /// The whole digest: commit count, folded line counts, per-day table.
    pub fn contribution_stats(&self) -> (r: ContributionStats)
        requires
            sum_added(self.contributions.file_contributions@) <= u64::MAX,
            sum_deleted(self.contributions.file_contributions@) <= u64::MAX,
            forall|k: int|
                0 <= k <= self.contributions.file_contributions@.len() ==> i64::MIN <= sum_written(
                    #[trigger] self.contributions.file_contributions@.take(k),
                ) <= i64::MAX,
        ensures
            r.commits == self.contributions.commits@.len(),
            r.file_contributions.lines_added as int == sum_added(
                self.contributions.file_contributions@,
            ),
            r.file_contributions.lines_deleted as int == sum_deleted(
                self.contributions.file_contributions@,
            ),
            r.file_contributions.lines_written as int == sum_written(
                self.contributions.file_contributions@,
            ),
            day_table_ok(self.contributions.commits@, r.commit_dates@),
    {
        ContributionStats {
            commits: self.commits(),
            file_contributions: self.file_contributions(),
            commit_dates: self.commit_dates(),
        }
    }
}

/// An element-wise copy of a batch of line counts.
fn copy_contributions(v: &Vec<GitFileContributions>) -> (r: Vec<GitFileContributions>)
    ensures
        r@ == v@,
{
    let n = v.len();
    let mut out: Vec<GitFileContributions> = Vec::new();
    let mut i: usize = 0;
    while i < n
        invariant
            n == v@.len(),
            0 <= i <= n,
            out@ =~= v@.take(i as int),
        decreases n - i,
    {
        out.push(v[i]);
        i += 1;
    }
    proof {
        assert(out@ =~= v@);
    }
    out
}

/// `c` is the contributor assembled for `id`: that identity, the commits
/// authored under its email, and the given line counts.
pub open spec fn contributor_ok(
    c: GitContributor,
    logs: Seq<GitCommit>,
    id: GitIdentity,
    contribs: Seq<GitFileContributions>,
) -> bool {
    &&& c.id.email@ == id.email@
    &&& c.id.names.deep_view() == id.names.deep_view()
    &&& c.contributions.commits@.len() == spec_commits_of(logs, id.email@).len()
    &&& forall|j: int|
        0 <= j < c.contributions.commits@.len() ==> commit_eq_view(
            spec_commits_of(logs, id.email@)[j],
            #[trigger] c.contributions.commits@[j],
        )
    &&& c.contributions.file_contributions@ == contribs
}

/// Assembles one contributor per given identity: the commits grouped by
/// that identity's email (the sole identity key), paired with the line
/// counts reported for it.
pub fn git_contributors(
    logs: &Vec<GitCommit>,
    authors: &Vec<GitIdentity>,
    file_contribs: &Vec<Vec<GitFileContributions>>,
) -> (r: Vec<GitContributor>)
    requires
        authors@.len() == file_contribs@.len(),
    ensures
        r@.len() == authors@.len(),
        forall|i: int|
            0 <= i < r@.len() ==> contributor_ok(
                #[trigger] r@[i],
                logs@,
                authors@[i],
                file_contribs@[i]@,
            ),
{
    let n = authors.len();
    let mut out: Vec<GitContributor> = Vec::new();
    let mut i: usize = 0;
    while i < n
        invariant
            n == authors@.len(),
            n == file_contribs@.len(),
            0 <= i <= n,
            out@.len() == i,
            forall|l: int|
                0 <= l < i ==> contributor_ok(
                    #[trigger] out@[l],
                    logs@,
                    authors@[l],
                    file_contribs@[l]@,
                ),
        decreases n - i,
    {
        let id = GitIdentity {
            email: authors[i].email.clone(),
            names: crate::commit::clone_strings(&authors[i].names),
        };
        let commits = commits_for_author(logs, &authors[i].email);
        let contributions = GitContributions {
            commits,
            file_contributions: copy_contributions(&file_contribs[i]),
        };
        out.push(GitContributor { id, contributions });
        i += 1;
    }
    out
}

/// Blank characters of the repository tool's tabular outputs.
pub open spec fn is_blank(c: char) -> bool {
    c == ' ' || c == '\t'
}

/// The first position at or after `i` that is not blank, or the end.
pub open spec fn spec_skip_blanks(s: Seq<char>, i: int) -> int
    decreases s.len() - i,
{
    if i < 0 || i >= s.len() {
        s.len() as int
    } else if is_blank(s[i]) {
        spec_skip_blanks(s, i + 1)
    } else {
        i
    }
}

/// The first blank position at or after `i`, or the end.
pub open spec fn spec_token_end(s: Seq<char>, i: int) -> int
    decreases s.len() - i,
{
    if i < 0 || i >= s.len() {
        s.len() as int
    } else if is_blank(s[i]) {
        i
    } else {
        spec_token_end(s, i + 1)
    }
}

proof fn lemma_skip_blanks_bounds(s: Seq<char>, i: int)
    requires
        0 <= i <= s.len(),
    ensures
        i <= spec_skip_blanks(s, i) <= s.len(),
        i <= spec_token_end(s, i) <= s.len(),
    decreases s.len() - i,
{
    if i < s.len() {
        lemma_skip_blanks_bounds(s, i + 1);
    }
}

/// Whether the character at `j` is blank.
fn blank_at(s: &str, j: usize) -> (r: bool)
    requires
        j < s@.len(),
    ensures
        r == is_blank(s@[j as int]),
{
    let c = s.get_char(j);
    c == ' ' || c == '\t'
}

fn skip_blanks(s: &str, i: usize) -> (r: usize)
    requires
        i <= s@.len(),
        s@.len() <= usize::MAX,
    ensures
        r as int == spec_skip_blanks(s@, i as int),
        i <= r <= s@.len(),
{
    let n = s.unicode_len();
    let mut j = i;
    while j < n && blank_at(s, j)
        invariant
            n == s@.len(),
            i <= j <= n,
            spec_skip_blanks(s@, i as int) == spec_skip_blanks(s@, j as int),
        decreases n - j,
    {
        j += 1;
    }
    proof {
        lemma_skip_blanks_bounds(s@, i as int);
    }
    j
}

fn token_end(s: &str, i: usize) -> (r: usize)
    requires
        i <= s@.len(),
        s@.len() <= usize::MAX,
    ensures
        r as int == spec_token_end(s@, i as int),
        i <= r <= s@.len(),
{
    let n = s.unicode_len();
    let mut j = i;
    while j < n && !blank_at(s, j)
        invariant
            n == s@.len(),
            i <= j <= n,
            spec_token_end(s@, i as int) == spec_token_end(s@, j as int),
        decreases n - j,
    {
        j += 1;
    }
    proof {
        lemma_skip_blanks_bounds(s@, i as int);
    }
    j
}

/// The number a digit string spells.
pub open spec fn spec_dec_value(s: Seq<char>) -> int
    decreases s.len(),
{
    if s.len() == 0 {
        0
    } else {
        spec_dec_value(s.drop_last()) * 10 + (s.last() as int - '0' as int)
    }
}

/// A token that counts lines: non-empty, all digits, and small enough that
/// net-line arithmetic cannot overflow.  Anything else (the binary-file
/// marker "-", an absurd count) reads leniently as zero.
pub open spec fn spec_is_count(s: Seq<char>) -> bool {
    &&& s.len() > 0
    &&& forall|i: int| 0 <= i < s.len() ==> crate::dates::is_digit(#[trigger] s[i])
    &&& spec_dec_value(s) <= i64::MAX as int
}

/// The count a token denotes: its value when it is a count, zero otherwise.
pub open spec fn spec_count_of(s: Seq<char>) -> int {
    if spec_is_count(s) {
        spec_dec_value(s)
    } else {
        0
    }
}

/// A digit string's value never shrinks as digits are appended.
proof fn lemma_dec_value_monotonic(s: Seq<char>, k: int)
    requires
        0 <= k <= s.len(),
        forall|i: int| 0 <= i < s.len() ==> crate::dates::is_digit(#[trigger] s[i]),
    ensures
        0 <= spec_dec_value(s.take(k)) <= spec_dec_value(s),
    decreases s.len() - k,
{
    lemma_dec_value_nonneg(s.take(k));
    if k == s.len() {
        assert(s.take(k) =~= s);
    } else {
        lemma_dec_value_monotonic(s, k + 1);
        assert(s.take(k + 1).drop_last() =~= s.take(k));
        assert(s.take(k + 1).last() == s[k]);
    }
}

proof fn lemma_dec_value_nonneg(s: Seq<char>)
    requires
        forall|i: int| 0 <= i < s.len() ==> crate::dates::is_digit(#[trigger] s[i]),
    ensures
        spec_dec_value(s) >= 0,
    decreases s.len(),
{
    if s.len() > 0 {
        assert(forall|i: int|
            0 <= i < s.drop_last().len() ==> crate::dates::is_digit(#[trigger] s.drop_last()[i]));
        lemma_dec_value_nonneg(s.drop_last());
    }
}

/// Reads a count token exactly: its value, or nothing when the token is not
/// a well-formed count.
fn parse_count_strict(s: &str) -> (r: Option<u64>)
    ensures
        r is Some <==> spec_is_count(s@),
        r matches Some(v) ==> v as int == spec_dec_value(s@),
{
    let n = s.unicode_len();
    if n == 0 {
        return None;
    }
    let mut acc: u64 = 0;
    let mut i: usize = 0;
    while i < n
        invariant
            n == s@.len(),
            0 < n,
            0 <= i <= n,
            acc as int == spec_dec_value(s@.take(i as int)),
            acc <= i64::MAX as u64,
            forall|l: int| 0 <= l < i ==> crate::dates::is_digit(#[trigger] s@[l]),
        decreases n - i,
    {
        let c = s.get_char(i);
        if c < '0' || c > '9' {
            return None;
        }
        let d = c as u64 - '0' as u64;
        proof {
            assert(s@.take(i + 1).drop_last() =~= s@.take(i as int));
            assert(s@.take(i + 1).last() == s@[i as int]);
        }
        if acc > (i64::MAX as u64 - d) / 10 {
            proof {
                lemma_overflow_means_no_count(s@, i + 1);
            }
            return None;
        }
        acc = acc * 10 + d;
        i += 1;
    }
    proof {
        assert(s@.take(n as int) =~= s@);
    }
    Some(acc)
}

/// Reads a line-count token leniently: the number it spells, or zero when
/// it is not a well-formed count.
fn parse_count(s: &str) -> (r: u64)
    ensures
        r as int == spec_count_of(s@),
{
    match parse_count_strict(s) {
        Some(v) => v,
        None => 0,
    }
}

/// Once a digit prefix passes the bound, the whole token cannot be a count.
proof fn lemma_overflow_means_no_count(s: Seq<char>, k: int)
    requires
        0 < k <= s.len(),
        spec_dec_value(s.take(k)) > i64::MAX as int,
    ensures
        !spec_is_count(s),
{
    if spec_is_count(s) {
        lemma_dec_value_monotonic(s, k);
    }
}

/// What a numstat line says: its first token as added lines, its second as
/// deleted lines, each read leniently.
pub open spec fn spec_numstat_added(s: Seq<char>) -> int {
    let a0 = spec_skip_blanks(s, 0);
    let a1 = spec_token_end(s, a0);
    spec_count_of(s.subrange(a0, a1))
}

pub open spec fn spec_numstat_deleted(s: Seq<char>) -> int {
    let a0 = spec_skip_blanks(s, 0);
    let a1 = spec_token_end(s, a0);
    let b0 = spec_skip_blanks(s, a1);
    let b1 = spec_token_end(s, b0);
    spec_count_of(s.subrange(b0, b1))
}

/// Reads one line of the repository tool's numstat output: the first two
/// blank-separated tokens are the added and deleted line counts (a token
/// that is not a plain count, such as the binary-file marker, reads as
/// zero), and the rest is the path, which the statistics do not use.
pub fn parse_numstat_line(s: &str) -> (r: GitFileContributions)
    ensures
        r.lines_added as int == spec_numstat_added(s@),
        r.lines_deleted as int == spec_numstat_deleted(s@),
        r.lines_written as int == spec_numstat_added(s@) - spec_numstat_deleted(s@),
{
    let n = s.unicode_len();
    proof {
        assert(s@.len() == n);
    }
    let a0 = skip_blanks(s, 0);
    let a1 = token_end(s, a0);
    let b0 = skip_blanks(s, a1);
    let b1 = token_end(s, b0);
    let added = parse_count(s.substring_char(a0, a1));
    let deleted = parse_count(s.substring_char(b0, b1));
    GitFileContributions {
        lines_added: added,
        lines_deleted: deleted,
        lines_written: added as i64 - deleted as i64,
    }
}

/// The index of the last `<` in `s`, or -1 when there is none.
pub open spec fn spec_last_lt(s: Seq<char>) -> int
    decreases s.len(),
{
    if s.len() == 0 {
        -1
    } else if s.last() == '<' {
        s.len() - 1
    } else {
        spec_last_lt(s.drop_last())
    }
}

proof fn lemma_last_lt_bounds(s: Seq<char>)
    ensures
        -1 <= spec_last_lt(s) < s.len(),
        spec_last_lt(s) >= 0 ==> s[spec_last_lt(s)] == '<',
    decreases s.len(),
{
    if s.len() > 0 && s.last() != '<' {
        lemma_last_lt_bounds(s.drop_last());
    }
}

/// The length of `s` with trailing blanks removed.
pub open spec fn spec_rtrim(s: Seq<char>) -> int
    decreases s.len(),
{
    if s.len() == 0 {
        0
    } else if is_blank(s.last()) {
        spec_rtrim(s.drop_last())
    } else {
        s.len() as int
    }
}

proof fn lemma_rtrim_bounds(s: Seq<char>)
    ensures
        0 <= spec_rtrim(s) <= s.len(),
    decreases s.len(),
{
    if s.len() > 0 && is_blank(s.last()) {
        lemma_rtrim_bounds(s.drop_last());
    }
}

/// A canonical summary line of the repository tool's per-author commit
/// frequencies: optional leading blanks, a commit count, at least one blank,
/// an optional author name, at least one blank, and `<email>` closing the
/// line.  Anything else is not a summary line and is skipped by callers.
pub open spec fn shortlog_line_ok(s: Seq<char>) -> bool {
    let lt = spec_last_lt(s.take(s.len() - 1));
    &&& s.len() >= 2
    &&& s.last() == '>'
    &&& lt >= 0
    &&& {
        let head = s.take(lt);
        let f0 = spec_skip_blanks(head, 0);
        let f1 = spec_token_end(head, f0);
        &&& spec_is_count(head.subrange(f0, f1))
        &&& f1 < head.len()
        &&& is_blank(head[head.len() - 1])
    }
}

/// The commit count the line reports.
pub open spec fn spec_shortlog_freq(s: Seq<char>) -> int {
    let head = s.take(spec_last_lt(s.take(s.len() - 1)));
    let f0 = spec_skip_blanks(head, 0);
    let f1 = spec_token_end(head, f0);
    spec_dec_value(head.subrange(f0, f1))
}

/// The author name the line reports, with surrounding blanks removed.
pub open spec fn spec_shortlog_author(s: Seq<char>) -> Seq<char> {
    let head = s.take(spec_last_lt(s.take(s.len() - 1)));
    let f0 = spec_skip_blanks(head, 0);
    let f1 = spec_token_end(head, f0);
    let a = spec_skip_blanks(head, f1);
    let e = spec_rtrim(head);
    if a < e {
        head.subrange(a, e)
    } else {
        Seq::empty()
    }
}

/// The email the line reports: what stands between the last `<` and the
/// closing `>`.
pub open spec fn spec_shortlog_email(s: Seq<char>) -> Seq<char> {
    s.subrange(spec_last_lt(s.take(s.len() - 1)) + 1, s.len() - 1)
}

/// The position of the last `<` strictly inside `s`, if any.
fn find_last_lt(s: &str, end: usize) -> (r: Option<usize>)
    requires
        end <= s@.len(),
        s@.len() <= usize::MAX,
    ensures
        match r {
            Some(j) => j as int == spec_last_lt(s@.take(end as int)),
            None => spec_last_lt(s@.take(end as int)) == -1,
        },
{
    let mut found: Option<usize> = None;
    let mut i: usize = 0;
    while i < end
        invariant
            end <= s@.len(),
            0 <= i <= end,
            match found {
                Some(j) => j as int == spec_last_lt(s@.take(i as int)),
                None => spec_last_lt(s@.take(i as int)) == -1,
            },
        decreases end - i,
    {
        proof {
            assert(s@.take(i + 1).drop_last() =~= s@.take(i as int));
            assert(s@.take(i + 1).last() == s@[i as int]);
        }
        if s.get_char(i) == '<' {
            found = Some(i);
        }
        i += 1;
    }
    found
}

/// The length of `s` with trailing blanks removed.
fn rtrim(s: &str) -> (r: usize)
    requires
        s@.len() <= usize::MAX,
    ensures
        r as int == spec_rtrim(s@),
{
    let n = s.unicode_len();
    let mut e = n;
    proof {
        assert(s@.take(n as int) =~= s@);
    }
    while e > 0 && blank_at(s, e - 1)
        invariant
            n == s@.len(),
            0 <= e <= n,
            spec_rtrim(s@) == spec_rtrim(s@.take(e as int)),
        decreases e,
    {
        proof {
            assert(s@.take(e as int).drop_last() =~= s@.take(e as int - 1));
            assert(s@.take(e as int).last() == s@[e as int - 1]);
        }
        e -= 1;
    }
    proof {
        if e > 0 {
            assert(s@.take(e as int).last() == s@[e as int - 1]);
        }
    }
    e
}

/// Reads one per-author summary line: the commit count, the author's
/// display name, and the email.  Returns nothing when the line is not a
/// canonical summary line; callers skip such lines.
pub fn parse_shortlog_line(s: &str) -> (r: Option<(u64, String, String)>)
    ensures
        r is Some <==> shortlog_line_ok(s@),
        r matches Some(t) ==> {
            &&& t.0 as int == spec_shortlog_freq(s@)
            &&& t.1@ == spec_shortlog_author(s@)
            &&& t.2@ == spec_shortlog_email(s@)
        },
{
    let n = s.unicode_len();
    if n < 2 {
        return None;
    }
    if s.get_char(n - 1) != '>' {
        return None;
    }
    let lt = match find_last_lt(s, n - 1) {
        Some(j) => j,
        None => {
            return None;
        },
    };
    proof {
        lemma_last_lt_bounds(s@.take(n as int - 1));
    }
    let head = s.substring_char(0, lt);
    let head_len = lt;
    let f0 = skip_blanks(head, 0);
    let f1 = token_end(head, f0);
    if f1 >= head_len {
        return None;
    }
    if !blank_at(head, head_len - 1) {
        return None;
    }
    let freq = match parse_count_strict(head.substring_char(f0, f1)) {
        Some(v) => v,
        None => {
            return None;
        },
    };
    let a = skip_blanks(head, f1);
    let e = rtrim(head);
    proof {
        lemma_rtrim_bounds(head@);
    }
    let author = if a < e {
        head.substring_char(a, e).to_owned()
    } else {
        String::new()
    };
    let email = s.substring_char(lt + 1, n - 1).to_owned();
    Some((freq, author, email))
}

/// The display names reported for `email`, in line order.
pub open spec fn spec_names_for(parsed: Seq<(u64, String, String)>, email: Seq<char>) -> Seq<
    Seq<char>,
> {
    parsed.filter(|t: (u64, String, String)| t.2@ == email).map_values(
        |t: (u64, String, String)| t.1@,
    )
}

/// `email` already has an identity in the list.
pub open spec fn email_in_list(ids: Seq<GitIdentity>, email: Seq<char>) -> bool {
    exists|k: int| 0 <= k < ids.len() && (#[trigger] ids[k]).email@ == email
}

/// An identity stays listed when another is appended.
proof fn lemma_email_in_list_push(ids: Seq<GitIdentity>, x: GitIdentity, email: Seq<char>)
    requires
        email_in_list(ids, email),
    ensures
        email_in_list(ids.push(x), email),
{
    let w = choose|k: int| 0 <= k < ids.len() && (#[trigger] ids[k]).email@ == email;
    assert((ids.push(x)[w]).email@ == email);
}

/// Collects the display names of the entries reporting `email`, in order.
fn names_for(parsed: &Vec<(u64, String, String)>, email: &String) -> (r: Vec<String>)
    ensures
        r.deep_view() == spec_names_for(parsed@, email@),
{
    let ghost pred = |t: (u64, String, String)| t.2@ == email@;
    let n = parsed.len();
    let mut out: Vec<String> = Vec::new();
    let mut i: usize = 0;
    while i < n
        invariant
            n == parsed@.len(),
            0 <= i <= n,
            pred == (|t: (u64, String, String)| t.2@ == email@),
            out.deep_view() =~= spec_names_for(parsed@.take(i as int), email@),
        decreases n - i,
    {
        proof {
            assert(parsed@.take(i + 1) =~= parsed@.take(i as int).push(parsed@[i as int]));
            parsed@.take(i as int).lemma_filter_push(parsed@[i as int], pred);
        }
        if parsed[i].2 == *email {
            out.push(parsed[i].1.clone());
            proof {
                let extract = |t: (u64, String, String)| t.1@;
                assert(parsed@.take(i as int).filter(pred).push(parsed@[i as int]).map_values(
                    extract,
                ) =~= parsed@.take(i as int).filter(pred).map_values(extract).push(
                    parsed@[i as int].1@,
                ));
                assert(out.deep_view() =~= spec_names_for(parsed@.take(i + 1), email@));
            }
        } else {
            proof {
                assert(out.deep_view() =~= spec_names_for(parsed@.take(i + 1), email@));
            }
        }
        i += 1;
    }
    proof {
        assert(parsed@.take(n as int) =~= parsed@);
        assert(out.deep_view() =~= spec_names_for(parsed@, email@));
    }
    out
}

/// Merges parsed summary lines into one identity per distinct email, in
/// first-seen order; every line's display name lands on its email's
/// identity, in line order.  Emails are compared byte-exact: they are the
/// sole identity key.
pub fn merge_shortlog_identities(parsed: &Vec<(u64, String, String)>) -> (r: Vec<GitIdentity>)
    ensures
        forall|u: int, v: int|
            0 <= u < v < r@.len() ==> (#[trigger] r@[u]).email@ != (#[trigger] r@[v]).email@,
        forall|k: int|
            0 <= k < r@.len() ==> (#[trigger] r@[k]).names.deep_view() == spec_names_for(
                parsed@,
                r@[k].email@,
            ) && spec_names_for(parsed@, r@[k].email@).len() > 0,
        forall|j: int|
            0 <= j < parsed@.len() ==> email_in_list(r@, (#[trigger] parsed@[j]).2@),
{
    let n = parsed.len();
    let mut out: Vec<GitIdentity> = Vec::new();
    let mut i: usize = 0;
    while i < n
        invariant
            n == parsed@.len(),
            0 <= i <= n,
            forall|u: int, v: int|
                0 <= u < v < out@.len() ==> (#[trigger] out@[u]).email@ != (
                #[trigger] out@[v]).email@,
            forall|k: int|
                0 <= k < out@.len() ==> (#[trigger] out@[k]).names.deep_view() == spec_names_for(
                    parsed@,
                    out@[k].email@,
                ) && spec_names_for(parsed@, out@[k].email@).len() > 0,
            forall|j: int| 0 <= j < i ==> email_in_list(out@, (#[trigger] parsed@[j]).2@),
        decreases n - i,
    {
        let email = &parsed[i].2;
        let ghost prev = out@;
        if !has_email(&out, email) {
            let names = names_for(parsed, email);
            proof {
                let pred = |t: (u64, String, String)| t.2@ == email@;
                parsed@.lemma_filter_contains(pred, i as int);
                assert(parsed@.filter(pred).len() > 0);
            }
            out.push(GitIdentity { email: email.clone(), names });
            proof {
                assert forall|j: int| 0 <= j < i + 1 implies email_in_list(
                    out@,
                    (#[trigger] parsed@[j]).2@,
                ) by {
                    if j < i {
                        lemma_email_in_list_push(prev, out@.last(), parsed@[j].2@);
                    } else {
                        assert((out@[out@.len() - 1]).email@ == parsed@[j].2@);
                    }
                }
            }
        } else {
            proof {
                assert forall|j: int| 0 <= j < i + 1 implies email_in_list(
                    out@,
                    (#[trigger] parsed@[j]).2@,
                ) by {
                }
            }
        }
        i += 1;
    }
    out
}

/// Whether some identity already carries `email`.
fn has_email(ids: &Vec<GitIdentity>, email: &String) -> (r: bool)
    ensures
        r == email_in_list(ids@, email@),
{
    let n = ids.len();
    let mut k: usize = 0;
    while k < n
        invariant
            n == ids@.len(),
            0 <= k <= n,
            forall|l: int| 0 <= l < k ==> (#[trigger] ids@[l]).email@ != email@,
        decreases n - k,
    {
        if ids[k].email == *email {
            proof {
                assert((ids@[k as int]).email@ == email@);
            }
            return true;
        }
        k += 1;
    }
    false
}

/// The added and deleted counts sum to something non-negative.
proof fn lemma_sums_nonneg(s: Seq<GitFileContributions>)
    ensures
        sum_added(s) >= 0,
        sum_deleted(s) >= 0,
    decreases s.len(),
{
    if s.len() > 0 {
        lemma_sums_nonneg(s.drop_last());
    }
}

/// Prefix sums of the non-negative counts never pass the total.
proof fn lemma_sums_monotonic(s: Seq<GitFileContributions>, k: int)
    requires
        0 <= k <= s.len(),
    ensures
        0 <= sum_added(s.take(k)) <= sum_added(s),
        0 <= sum_deleted(s.take(k)) <= sum_deleted(s),
    decreases s.len() - k,
{
    lemma_sums_nonneg(s.take(k));
    if k == s.len() {
        assert(s.take(k) =~= s);
    } else {
        lemma_sums_monotonic(s, k + 1);
        assert(s.take(k + 1).drop_last() =~= s.take(k));
        assert(s.take(k + 1).last() == s[k]);
    }
}

} // verus!
