//! Working-tree status: classification of raw index/worktree change
//! notifications into a closed tagged union, and a total order over changes
//! for stable, deterministic display.
//!
//! The order is lexicographic over three ascending keys: the variant
//! (modifications before directory contents, whatever the other keys say),
//! the status kind within the variant, and finally the path, byte-wise.
//!
//! A rewrite notification has no defined display form and aborts
//! classification loudly; a needs-update entry orders fine but has no
//! display code, so rendering it fails loudly instead of printing garbage.

use vstd::prelude::*;
use vstd::seq_lib::lemma_multiset_commutative;
use vstd::string::StringExecFns;

use crate::text::{
    lemma_str_le_antisymmetric, lemma_str_le_reflexive, lemma_str_le_total,
    lemma_str_le_transitive, spec_str_le, str_le,
};
use crate::GlError;

verus! {

/// Outcome of comparing a tracked path's index entry with the worktree.
#[derive(Clone, Copy, Debug, PartialEq, Eq, Structural)]
pub enum ModificationStatus {
    Changed,
    Conflicted,
    NeedsUpdate,
    IntentToAdd,
}

/// Status of a directory-contents entry.
#[derive(Clone, Copy, Debug, PartialEq, Eq, Structural)]
pub enum DirectoryEntryStatus {
    Untracked,
    TrackedNew,
    Pruned,
    Ignored,
}

/// A classified working-tree change.  Produced fresh per status query and
/// never mutated.
#[derive(Clone, Debug)]
pub enum GitChange {
    /// A path already tracked, with its comparison outcome.
    Modification { relative_path: String, status: ModificationStatus },
    /// A path entry with a coarser status.
    DirectoryContents { relative_path: String, status: DirectoryEntryStatus },
}

/// A raw notification from the repository-access collaborator's
/// index/worktree comparison.
#[derive(Clone, Debug)]
pub enum RawStatusItem {
    Modification { relative_path: String, status: ModificationStatus },
    DirectoryContents { relative_path: String, status: DirectoryEntryStatus },
    /// A rename (possibly with edits): currently an unhandled shape.
    Rewrite { relative_path: String },
}

impl GitChange {
    /// First ordering key: the variant.  Modifications sort before directory
    /// contents regardless of any other key.
    pub open spec fn spec_priority(self) -> int {
        match self {
            GitChange::Modification { .. } => 0,
            GitChange::DirectoryContents { .. } => 1,
        }
    }

    /// The variant priority.
    pub fn priority(&self) -> (r: u8)
        ensures
            r as int == self.spec_priority(),
    {
        match self {
            GitChange::Modification { .. } => 0,
            GitChange::DirectoryContents { .. } => 1,
        }
    }

    /// Second ordering key: the status kind within the variant.
    pub open spec fn spec_status_key(self) -> int {
        match self {
            GitChange::Modification { status, .. } => match status {
                ModificationStatus::Changed => 0,
                ModificationStatus::Conflicted => 1,
                ModificationStatus::NeedsUpdate => 2,
                ModificationStatus::IntentToAdd => 3,
            },
            GitChange::DirectoryContents { status, .. } => match status {
                DirectoryEntryStatus::Untracked => 0,
                DirectoryEntryStatus::TrackedNew => 1,
                DirectoryEntryStatus::Pruned => 2,
                DirectoryEntryStatus::Ignored => 3,
            },
        }
    }

    /// The status kind key.
    pub fn status_key(&self) -> (r: u8)
        ensures
            r as int == self.spec_status_key(),
    {
        match self {
            GitChange::Modification { status, .. } => match status {
                ModificationStatus::Changed => 0,
                ModificationStatus::Conflicted => 1,
                ModificationStatus::NeedsUpdate => 2,
                ModificationStatus::IntentToAdd => 3,
            },
            GitChange::DirectoryContents { status, .. } => match status {
                DirectoryEntryStatus::Untracked => 0,
                DirectoryEntryStatus::TrackedNew => 1,
                DirectoryEntryStatus::Pruned => 2,
                DirectoryEntryStatus::Ignored => 3,
            },
        }
    }

    /// The path the change is about.
    pub open spec fn spec_path(self) -> Seq<char> {
        match self {
            GitChange::Modification { relative_path, .. } => relative_path@,
            GitChange::DirectoryContents { relative_path, .. } => relative_path@,
        }
    }

    /// The relevant path, the final tie-break of the order.
    pub fn path(&self) -> (r: &String)
        ensures
            r@ == self.spec_path(),
    {
        match self {
            GitChange::Modification { relative_path, .. } => relative_path,
            GitChange::DirectoryContents { relative_path, .. } => relative_path,
        }
    }

    /// The three-key lexicographic comparison.
    pub fn le(&self, other: &Self) -> (r: bool)
        ensures
            r == spec_change_le(*self, *other),
    {
        let pa = self.priority();
        let pb = other.priority();
        if pa != pb {
            pa < pb
        } else {
            let ka = self.status_key();
            let kb = other.status_key();
            if ka != kb {
                ka < kb
            } else {
                str_le(self.path().as_str(), other.path().as_str())
            }
        }
    }
}

/// The total order over changes: variant priority, then status kind, then
/// path.
pub open spec fn spec_change_le(a: GitChange, b: GitChange) -> bool {
    if a.spec_priority() != b.spec_priority() {
        a.spec_priority() < b.spec_priority()
    } else if a.spec_status_key() != b.spec_status_key() {
        a.spec_status_key() < b.spec_status_key()
    } else {
        spec_str_le(a.spec_path(), b.spec_path())
    }
}

/// Two changes that the order cannot tell apart: same variant, same status
/// kind, same path.
pub open spec fn change_like(a: GitChange, b: GitChange) -> bool {
    &&& a.spec_priority() == b.spec_priority()
    &&& a.spec_status_key() == b.spec_status_key()
    &&& a.spec_path() == b.spec_path()
}

/// Ascending by the change order.
pub open spec fn spec_sorted(s: Seq<GitChange>) -> bool {
    forall|i: int, j: int| 0 <= i < j < s.len() ==> spec_change_le(#[trigger] s[i], #[trigger] s[j])
}

/// The order is total.
pub proof fn lemma_change_le_total(a: GitChange, b: GitChange)
    ensures
        spec_change_le(a, b) || spec_change_le(b, a),
{
    lemma_str_le_total(a.spec_path(), b.spec_path());
}

/// The order is transitive.
pub proof fn lemma_change_le_transitive(a: GitChange, b: GitChange, c: GitChange)
    requires
        spec_change_le(a, b),
        spec_change_le(b, c),
    ensures
        spec_change_le(a, c),
{
    if a.spec_priority() == b.spec_priority() && b.spec_priority() == c.spec_priority()
        && a.spec_status_key() == b.spec_status_key() && b.spec_status_key()
        == c.spec_status_key() {
        lemma_str_le_transitive(a.spec_path(), b.spec_path(), c.spec_path());
    }
}

/// Changes ordered both ways are indistinguishable to the order.
pub proof fn lemma_change_le_antisymmetric(a: GitChange, b: GitChange)
    requires
        spec_change_le(a, b),
        spec_change_le(b, a),
    ensures
        change_like(a, b),
{
    lemma_str_le_antisymmetric(a.spec_path(), b.spec_path());
}

/// Indistinguishable changes order both ways.
pub proof fn lemma_change_like_le(a: GitChange, b: GitChange)
    requires
        change_like(a, b),
    ensures
        spec_change_le(a, b),
        spec_change_le(b, a),
{
    lemma_str_le_reflexive(a.spec_path());
}

/// `c` is the classification of raw item `it`.
pub open spec fn classifies(c: GitChange, it: RawStatusItem) -> bool {
    match it {
        RawStatusItem::Modification { relative_path, status } => c matches GitChange::Modification {
            relative_path: p,
            status: s,
        } && p@ == relative_path@ && s == status,
        RawStatusItem::DirectoryContents { relative_path, status } => c
            matches GitChange::DirectoryContents { relative_path: p, status: s } && p@
            == relative_path@ && s == status,
        RawStatusItem::Rewrite { .. } => false,
    }
}

/// Maps each raw notification to exactly one change, in input order.
/// A rewrite notification is an unhandled shape: it aborts the whole
/// classification with the fatal `UnhandledStatusShape`, never silently
/// drops.
pub fn classify(items: &Vec<RawStatusItem>) -> (r: Result<Vec<GitChange>, GlError>)
    ensures
        r is Ok <==> (forall|i: int| 0 <= i < items@.len() ==> !(items@[i] is Rewrite)),
        r is Err ==> r == Result::<Vec<GitChange>, GlError>::Err(GlError::UnhandledStatusShape),
        r matches Ok(v) ==> v@.len() == items@.len() && (forall|i: int|
            0 <= i < items@.len() ==> classifies(#[trigger] v@[i], items@[i])),
{
    let total = items.len();
    let mut out: Vec<GitChange> = Vec::new();
    let mut i: usize = 0;
    while i < total
        invariant
            total == items@.len(),
            0 <= i <= total,
            out@.len() == i,
            forall|l: int| 0 <= l < i ==> !(items@[l] is Rewrite),
            forall|l: int| 0 <= l < i ==> classifies(#[trigger] out@[l], items@[l]),
        decreases total - i,
    {
        match &items[i] {
            RawStatusItem::Modification { relative_path, status } => {
                out.push(GitChange::Modification {
                    relative_path: relative_path.clone(),
                    status: *status,
                });
            },
            RawStatusItem::DirectoryContents { relative_path, status } => {
                out.push(GitChange::DirectoryContents {
                    relative_path: relative_path.clone(),
                    status: *status,
                });
            },
            RawStatusItem::Rewrite { .. } => {
                return Err(GlError::UnhandledStatusShape);
            },
        }
        i += 1;
    }
    Ok(out)
}

/// Inserting an element anywhere adds exactly it to the multiset.
proof fn lemma_insert_to_multiset(s: Seq<GitChange>, pos: int, x: GitChange)
    requires
        0 <= pos <= s.len(),
    ensures
        s.insert(pos, x).to_multiset() == s.to_multiset().insert(x),
{
    broadcast use vstd::seq_lib::group_to_multiset_ensures;

    let front = s.subrange(0, pos);
    let back = s.subrange(pos, s.len() as int);
    lemma_multiset_commutative(front.push(x), back);
    lemma_multiset_commutative(front, back);
    assert(s =~= front + back);
    assert(s.insert(pos, x).to_multiset() =~= s.to_multiset().insert(x));
}

/// Sorts changes ascending by the three-key order: the result is sorted and
/// holds exactly the same changes.
pub fn sort_changes(changes: &mut Vec<GitChange>)
    ensures
        spec_sorted(final(changes)@),
        final(changes)@.to_multiset() == old(changes)@.to_multiset(),
{
    broadcast use vstd::seq_lib::group_to_multiset_ensures;

    let n = changes.len();
    if n <= 1 {
        return;
    }
    let mut i: usize = 1;
    while i < n
        invariant
            n == changes@.len(),
            1 <= i <= n,
            spec_sorted(changes@.take(i as int)),
            changes@.to_multiset() == old(changes)@.to_multiset(),
        decreases n - i,
    {
        let ghost before = changes@;
        let mut pos: usize = i;
        while pos > 0 && !changes[pos - 1].le(&changes[i])
            invariant
                n == changes@.len(),
                1 <= i < n,
                0 <= pos <= i,
                forall|l: int| pos <= l < i ==> !spec_change_le(changes@[l], changes@[i as int]),
            decreases pos,
        {
            pos -= 1;
        }
        let ghost x = changes@[i as int];
        let moved = changes.remove(i);
        changes.insert(pos, moved);
        proof {
            let now_v = changes@;
            assert(now_v =~= before.subrange(0, pos as int).push(x) + before.subrange(
                pos as int,
                i as int,
            ) + before.subrange(i + 1, n as int));
            // Sortedness of the grown prefix.
            let ghost p = pos as int;
            let ghost prefix = before.take(i as int);
            assert forall|u: int, v: int| 0 <= u < v < i + 1 implies spec_change_le(
                #[trigger] now_v[u],
                #[trigger] now_v[v],
            ) by {
                if v < p {
                    assert(spec_change_le(prefix[u], prefix[v]));
                } else if u == p {
                    // x against a later element of the old prefix, which the
                    // scan found not below x
                    assert(now_v[v] == before[v - 1]);
                    lemma_change_le_total(before[v - 1], x);
                } else if v == p {
                    // an earlier element against x: through before[p - 1]
                    assert(now_v[u] == before[u]);
                    if u < p - 1 {
                        assert(spec_change_le(prefix[u], prefix[p - 1]));
                        lemma_change_le_transitive(before[u], before[p - 1], x);
                    }
                } else if u < p {
                    assert(now_v[u] == before[u]);
                    assert(now_v[v] == before[v - 1]);
                    assert(spec_change_le(prefix[u], prefix[v - 1]));
                } else {
                    assert(now_v[u] == before[u - 1]);
                    assert(now_v[v] == before[v - 1]);
                    assert(spec_change_le(prefix[u - 1], prefix[v - 1]));
                }
            }
            // Multiset preservation: remove then insert the same element.
            before.to_multiset_ensures();
            lemma_insert_to_multiset(before.remove(i as int), pos as int, x);
            assert(changes@.to_multiset() =~= before.to_multiset());
        }
        i += 1;
    }
    proof {
        assert(changes@.take(n as int) =~= changes@);
    }
}

/// Status ordering determinism: two sorted arrangements of the same changes
/// agree at every position on variant, status kind, and path — sorting is
/// deterministic up to everything the order observes.
pub proof fn lemma_sorted_unique(a: Seq<GitChange>, b: Seq<GitChange>)
    requires
        spec_sorted(a),
        spec_sorted(b),
        a.to_multiset() == b.to_multiset(),
    ensures
        a.len() == b.len(),
        forall|i: int| 0 <= i < a.len() ==> change_like(#[trigger] a[i], b[i]),
    decreases a.len(),
{
    broadcast use vstd::seq_lib::group_to_multiset_ensures;

    if a.len() == 0 {
        assert(b.to_multiset().len() == 0);
    } else {
        let x = a[0];
        assert(a.contains(x));
        assert(b.to_multiset().count(x) > 0);
        assert(b.contains(x));
        let j = choose|j: int| 0 <= j < b.len() && b[j] == x;
        // The heads are alike: each is bounded by the other.
        assert(b.contains(b[0]));
        assert(a.to_multiset().count(b[0]) > 0);
        assert(a.contains(b[0]));
        let k = choose|k: int| 0 <= k < a.len() && a[k] == b[0];
        if j > 0 {
            assert(spec_change_le(b[0], x));
        } else {
            lemma_change_le_total(x, x);
        }
        if k > 0 {
            assert(spec_change_le(x, b[0]));
        } else {
            lemma_change_le_total(x, x);
        }
        lemma_change_le_antisymmetric(x, b[0]);
        // Everything in b up to j is alike x.
        assert forall|l: int| 0 <= l <= j implies change_like(x, b[l]) by {
            if l > 0 {
                assert(spec_change_le(b[l], b[j]));
            } else {
                lemma_change_le_total(x, x);
            }
            if l < j {
                assert(spec_change_le(b[0], b[l]));
                lemma_change_like_le(x, b[0]);
                lemma_change_le_transitive(x, b[0], b[l]);
            } else {
                lemma_change_like_le(x, b[l]);
            }
            lemma_change_le_antisymmetric(x, b[l]);
        }
        // Drop the matched pair and recurse.
        let a_rest = a.drop_first();
        let b_rest = b.remove(j);
        assert(a_rest =~= a.remove(0));
        a.to_multiset_ensures();
        b.to_multiset_ensures();
        assert(a_rest.to_multiset() =~= a.to_multiset().remove(x));
        assert(b_rest.to_multiset() =~= b.to_multiset().remove(x));
        assert(a_rest.to_multiset() == b_rest.to_multiset());
        assert forall|u: int, v: int| 0 <= u < v < a_rest.len() implies spec_change_le(
            #[trigger] a_rest[u],
            #[trigger] a_rest[v],
        ) by {
            assert(a_rest[u] == a[u + 1]);
            assert(a_rest[v] == a[v + 1]);
        }
        assert forall|u: int, v: int| 0 <= u < v < b_rest.len() implies spec_change_le(
            #[trigger] b_rest[u],
            #[trigger] b_rest[v],
        ) by {
            if v < j {
                assert(b_rest[u] == b[u] && b_rest[v] == b[v]);
            } else if u >= j {
                assert(b_rest[u] == b[u + 1] && b_rest[v] == b[v + 1]);
            } else {
                assert(b_rest[u] == b[u] && b_rest[v] == b[v + 1]);
            }
        }
        lemma_sorted_unique(a_rest, b_rest);
        // Transport the alignment back to b.
        assert forall|i: int| 0 <= i < a.len() implies change_like(#[trigger] a[i], b[i]) by {
            if i == 0 {
                assert(change_like(x, b[0]));
            } else if i - 1 >= j {
                assert(b_rest[i - 1] == b[i]);
                assert(change_like(a_rest[i - 1], b_rest[i - 1]));
            } else {
                // i <= j: both b[i - 1] and b[i] are alike x, hence alike
                // each other; a[i] is alike b_rest[i - 1] == b[i - 1].
                assert(b_rest[i - 1] == b[i - 1]);
                assert(change_like(a_rest[i - 1], b_rest[i - 1]));
                assert(change_like(x, b[i - 1]));
                assert(change_like(x, b[i]));
                assert(a_rest[i - 1] == a[i]);
            }
        }
    }
}

/// In a sorted result, no modification follows a directory-contents entry:
/// once the directory-contents block starts it runs to the end.
pub proof fn lemma_modifications_precede(s: Seq<GitChange>, i: int, j: int)
    requires
        spec_sorted(s),
        0 <= i <= j < s.len(),
        s[i] is DirectoryContents,
    ensures
        s[j] is DirectoryContents,
{
    if i < j {
        assert(spec_change_le(s[i], s[j]));
    }
}

impl ModificationStatus {
    /// The display code of the shapes that have one.
    pub open spec fn spec_code(self) -> Seq<char> {
        match self {
            ModificationStatus::Changed => "M"@,
            ModificationStatus::Conflicted => "UU"@,
            ModificationStatus::IntentToAdd => "A"@,
            ModificationStatus::NeedsUpdate => Seq::empty(),
        }
    }

    /// The display code.  A needs-update entry has no defined display form:
    /// it fails loudly rather than print garbage.
    pub fn code(&self) -> (r: Result<&'static str, GlError>)
        ensures
            r is Err <==> *self is NeedsUpdate,
            r is Err ==> r == Result::<&'static str, GlError>::Err(GlError::UnhandledStatusShape),
            r matches Ok(c) ==> c@ == self.spec_code(),
    {
        match self {
            ModificationStatus::Changed => Ok("M"),
            ModificationStatus::Conflicted => Ok("UU"),
            ModificationStatus::IntentToAdd => Ok("A"),
            ModificationStatus::NeedsUpdate => Err(GlError::UnhandledStatusShape),
        }
    }
}

impl DirectoryEntryStatus {
    /// The display code.
    pub open spec fn spec_code(self) -> Seq<char> {
        match self {
            DirectoryEntryStatus::Untracked => "??"@,
            DirectoryEntryStatus::TrackedNew => "A"@,
            DirectoryEntryStatus::Pruned => "D"@,
            DirectoryEntryStatus::Ignored => "!!"@,
        }
    }

    /// The display code: every directory-contents shape has one.
    pub fn code(&self) -> (r: &'static str)
        ensures
            r@ == self.spec_code(),
    {
        match self {
            DirectoryEntryStatus::Untracked => "??",
            DirectoryEntryStatus::TrackedNew => "A",
            DirectoryEntryStatus::Pruned => "D",
            DirectoryEntryStatus::Ignored => "!!",
        }
    }
}

impl GitChange {
    /// The display code padded to two columns: modification codes right
    /// aligned, directory-contents codes left aligned.
    pub open spec fn spec_padded_code(self) -> Seq<char> {
        match self {
            GitChange::Modification { status, .. } => match status {
                ModificationStatus::Changed => " M"@,
                ModificationStatus::Conflicted => "UU"@,
                ModificationStatus::IntentToAdd => " A"@,
                ModificationStatus::NeedsUpdate => Seq::empty(),
            },
            GitChange::DirectoryContents { status, .. } => match status {
                DirectoryEntryStatus::Untracked => "??"@,
                DirectoryEntryStatus::TrackedNew => "A "@,
                DirectoryEntryStatus::Pruned => "D "@,
                DirectoryEntryStatus::Ignored => "!!"@,
            },
        }
    }

    /// The whole display line: padded code, a space, the path.
    pub open spec fn spec_display(self) -> Seq<char> {
        self.spec_padded_code() + " "@ + self.spec_path()
    }

    /// Renders one change for display.  Fails, loudly, exactly on the
    /// needs-update shape, whose display form is undefined.
    pub fn display(&self) -> (r: Result<String, GlError>)
        ensures
            r is Err <==> self matches GitChange::Modification {
                status: ModificationStatus::NeedsUpdate,
                ..
            },
            r is Err ==> r == Result::<String, GlError>::Err(GlError::UnhandledStatusShape),
            r matches Ok(s) ==> s@ == self.spec_display(),
    {
        let padded: &'static str = match self {
            GitChange::Modification { status, .. } => match status {
                ModificationStatus::Changed => " M",
                ModificationStatus::Conflicted => "UU",
                ModificationStatus::IntentToAdd => " A",
                ModificationStatus::NeedsUpdate => {
                    return Err(GlError::UnhandledStatusShape);
                },
            },
            GitChange::DirectoryContents { status, .. } => match status {
                DirectoryEntryStatus::Untracked => "??",
                DirectoryEntryStatus::TrackedNew => "A ",
                DirectoryEntryStatus::Pruned => "D ",
                DirectoryEntryStatus::Ignored => "!!",
            },
        };
        let mut s = padded.to_owned();
        s.append(" ");
        s.append(self.path().as_str());
        proof {
            assert(s@ =~= self.spec_display());
        }
        Ok(s)
    }
}

} // verus!
