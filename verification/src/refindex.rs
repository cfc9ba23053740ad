//! A reverse index from commit identifier to the symbolic reference names
//! that resolve (peel) to it.
//!
//! The index is rebuilt in full for each query from one enumeration of the
//! repository's reference namespace.  A reference that could not be resolved
//! is skipped silently — it never aborts index construction.  Bucket contents
//! keep enumeration order and are not deduplicated: aliases may legitimately
//! produce the same name twice.

use vstd::prelude::*;
use vstd::seq_lib::*;

verus! {

/// One enumerated reference: its shortened display name, and the commit
/// identifier it peels to — `None` when resolution failed (say, a dangling
/// symbolic reference).
#[derive(Clone)]
pub struct RefEntry {
    pub name: String,
    pub target: Option<String>,
}

/// `e` resolved to the commit identified by `id`.
pub open spec fn points_at(e: RefEntry, id: Seq<char>) -> bool {
    e.target is Some && e.target->0@ == id
}

/// The names of the references that resolve to `id`, in enumeration order.
pub open spec fn spec_refs_of(entries: Seq<RefEntry>, id: Seq<char>) -> Seq<Seq<char>> {
    entries.filter(|e: RefEntry| points_at(e, id)).map_values(|e: RefEntry| e.name@)
}

/// One bucket of the index: a commit identifier and the names pointing at it.
#[derive(Clone)]
pub struct RefBucket {
    pub id: String,
    pub names: Vec<String>,
}

/// The index itself: buckets keyed by commit identifier.
pub struct RefIndex {
    buckets: Vec<RefBucket>,
}

impl RefIndex {
    /// The names held for `k` by the first bucket whose identifier is `k`.
    pub closed spec fn spec_find(buckets: Seq<RefBucket>, k: Seq<char>) -> Option<Seq<Seq<char>>>
        decreases buckets.len(),
    {
        if buckets.len() == 0 {
            None
        } else if buckets[0].id@ == k {
            Some(buckets[0].names.deep_view())
        } else {
            Self::spec_find(buckets.drop_first(), k)
        }
    }

    /// The bucket of commit `k`: `None` when no reference points at it.
    pub closed spec fn spec_get(self, k: Seq<char>) -> Option<Seq<Seq<char>>> {
        Self::spec_find(self.buckets@, k)
    }

    /// The names attached to commit `k`, possibly none.
    pub open spec fn names_of(self, k: Seq<char>) -> Seq<Seq<char>> {
        match self.spec_get(k) {
            Some(ns) => ns,
            None => Seq::empty(),
        }
    }

    /// The index is a faithful reading of `entries`: a commit has a bucket
    /// exactly when some entry resolves to it, and the bucket holds the
    /// resolving names in enumeration order.
    pub open spec fn indexes(self, entries: Seq<RefEntry>) -> bool {
        forall|k: Seq<char>| #[trigger]
            self.spec_get(k) == if spec_refs_of(entries, k).len() > 0 {
                Some(spec_refs_of(entries, k))
            } else {
                None::<Seq<Seq<char>>>
            }
    }

    /// Builds the index from one enumeration of the reference namespace.
    /// Unresolved entries are skipped silently; everything else lands in its
    /// target's bucket, in order.
    pub fn build(entries: &Vec<RefEntry>) -> (r: RefIndex)
        ensures
            r.indexes(entries@),
    {
        let mut buckets: Vec<RefBucket> = Vec::new();
        let n = entries.len();
        let mut i: usize = 0;
        while i < n
            invariant
                n == entries@.len(),
                0 <= i <= n,
                forall|k: Seq<char>| #[trigger]
                    Self::spec_find(buckets@, k) == if spec_refs_of(
                        entries@.take(i as int),
                        k,
                    ).len() > 0 {
                        Some(spec_refs_of(entries@.take(i as int), k))
                    } else {
                        None::<Seq<Seq<char>>>
                    },
            decreases n - i,
        {
            let ghost prev = buckets@;
            let ghost taken = entries@.take(i as int);
            let entry = &entries[i];
            match &entry.target {
                Some(target) => {
                    match Self::find_bucket(&buckets, target) {
                        Some(j) => {
                            let ghost old_bucket = buckets@[j as int];
                            buckets[j].names.push(entry.name.clone());
                            proof {
                                let b = buckets@[j as int];
                                assert(b.names.deep_view() =~= old_bucket.names.deep_view().push(
                                    entry.name@,
                                ));
                                assert(buckets@ =~= prev.update(j as int, b));
                                Self::lemma_find_first(prev, j as int, target@);
                                assert forall|k: Seq<char>| #[trigger]
                                    Self::spec_find(buckets@, k) == if spec_refs_of(
                                        entries@.take(i + 1),
                                        k,
                                    ).len() > 0 {
                                        Some(spec_refs_of(entries@.take(i + 1), k))
                                    } else {
                                        None::<Seq<Seq<char>>>
                                    } by {
                                    Self::lemma_find_update(prev, j as int, b, k);
                                    Self::lemma_refs_of_step(entries@, i as int, k);
                                }
                            }
                        },
                        None => {
                            let mut names: Vec<String> = Vec::new();
                            names.push(entry.name.clone());
                            let b = RefBucket { id: target.clone(), names };
                            buckets.push(b);
                            proof {
                                assert(buckets@ =~= prev.push(buckets@.last()));
                                assert(buckets@.last().names.deep_view() =~= seq![entry.name@]);
                                Self::lemma_find_none(prev, target@);
                                assert forall|k: Seq<char>| #[trigger]
                                    Self::spec_find(buckets@, k) == if spec_refs_of(
                                        entries@.take(i + 1),
                                        k,
                                    ).len() > 0 {
                                        Some(spec_refs_of(entries@.take(i + 1), k))
                                    } else {
                                        None::<Seq<Seq<char>>>
                                    } by {
                                    Self::lemma_find_push(prev, buckets@.last(), k);
                                    Self::lemma_refs_of_step(entries@, i as int, k);
                                    if k == target@ {
                                        assert(spec_refs_of(taken, k) =~= Seq::empty());
                                        assert(spec_refs_of(entries@.take(i + 1), k) =~= seq![
                                            entry.name@,
                                        ]);
                                    }
                                }
                            }
                        },
                    }
                },
                None => {
                    proof {
                        assert forall|k: Seq<char>| #[trigger]
                            Self::spec_find(buckets@, k) == if spec_refs_of(
                                entries@.take(i + 1),
                                k,
                            ).len() > 0 {
                                Some(spec_refs_of(entries@.take(i + 1), k))
                            } else {
                                None::<Seq<Seq<char>>>
                            } by {
                            Self::lemma_refs_of_step(entries@, i as int, k);
                        }
                    }
                },
            }
            i += 1;
        }
        proof {
            assert(entries@.take(n as int) =~= entries@);
        }
        RefIndex { buckets }
    }

    /// The position of the first bucket for `id`, if any.
    fn find_bucket(buckets: &Vec<RefBucket>, id: &String) -> (r: Option<usize>)
        ensures
            match r {
                Some(j) => {
                    &&& j < buckets@.len()
                    &&& buckets@[j as int].id@ == id@
                    &&& forall|l: int| 0 <= l < j ==> buckets@[l].id@ != id@
                },
                None => forall|l: int| 0 <= l < buckets@.len() ==> buckets@[l].id@ != id@,
            },
    {
        let n = buckets.len();
        let mut j: usize = 0;
        while j < n
            invariant
                n == buckets@.len(),
                0 <= j <= n,
                forall|l: int| 0 <= l < j ==> buckets@[l].id@ != id@,
            decreases n - j,
        {
            if buckets[j].id == *id {
                return Some(j);
            }
            j += 1;
        }
        None
    }

    /// Looks a commit identifier up; `None` exactly when no reference
    /// points at it.
    pub fn get(&self, id: &String) -> (r: Option<&Vec<String>>)
        ensures
            match r {
                Some(names) => self.spec_get(id@) == Some(names.deep_view()),
                None => self.spec_get(id@) is None,
            },
    {
        match Self::find_bucket(&self.buckets, id) {
            Some(j) => {
                proof {
                    Self::lemma_find_first(self.buckets@, j as int, id@);
                }
                Some(&self.buckets[j].names)
            },
            None => {
                proof {
                    Self::lemma_find_none(self.buckets@, id@);
                }
                None
            },
        }
    }

    /// When no bucket is keyed by `k`, the find comes up empty.
    proof fn lemma_find_none(buckets: Seq<RefBucket>, k: Seq<char>)
        requires
            forall|l: int| 0 <= l < buckets.len() ==> buckets[l].id@ != k,
        ensures
            Self::spec_find(buckets, k) is None,
        decreases buckets.len(),
    {
        if buckets.len() > 0 {
            Self::lemma_find_none(buckets.drop_first(), k);
        }
    }

    /// The find returns the first bucket keyed by `k`.
    proof fn lemma_find_first(buckets: Seq<RefBucket>, j: int, k: Seq<char>)
        requires
            0 <= j < buckets.len(),
            buckets[j].id@ == k,
            forall|l: int| 0 <= l < j ==> buckets[l].id@ != k,
        ensures
            Self::spec_find(buckets, k) == Some(buckets[j].names.deep_view()),
        decreases j,
    {
        if j > 0 {
            Self::lemma_find_first(buckets.drop_first(), j - 1, k);
        }
    }

    /// Updating the first bucket keyed by `b.id` changes the find for that
    /// key alone.
    proof fn lemma_find_update(buckets: Seq<RefBucket>, j: int, b: RefBucket, k: Seq<char>)
        requires
            0 <= j < buckets.len(),
            buckets[j].id@ == b.id@,
            forall|l: int| 0 <= l < j ==> buckets[l].id@ != b.id@,
        ensures
            Self::spec_find(buckets.update(j, b), k) == if k == b.id@ {
                Some(b.names.deep_view())
            } else {
                Self::spec_find(buckets, k)
            },
        decreases j,
    {
        if j == 0 {
            assert(buckets.update(0, b).drop_first() =~= buckets.drop_first());
        } else {
            assert(buckets.update(j, b).drop_first() =~= buckets.drop_first().update(j - 1, b));
            Self::lemma_find_update(buckets.drop_first(), j - 1, b, k);
        }
    }

    /// Appending a bucket for a fresh key changes the find for that key
    /// alone.
    proof fn lemma_find_push(buckets: Seq<RefBucket>, b: RefBucket, k: Seq<char>)
        ensures
            Self::spec_find(buckets.push(b), k) == if Self::spec_find(buckets, k) is Some {
                Self::spec_find(buckets, k)
            } else if b.id@ == k {
                Some(b.names.deep_view())
            } else {
                None::<Seq<Seq<char>>>
            },
        decreases buckets.len(),
    {
        if buckets.len() == 0 {
            assert(buckets.push(b)[0] == b);
            assert(buckets.push(b).drop_first() =~= Seq::<RefBucket>::empty());
        } else {
            assert(buckets.push(b).drop_first() =~= buckets.drop_first().push(b));
            Self::lemma_find_push(buckets.drop_first(), b, k);
        }
    }

    /// One more enumerated entry extends exactly the bucket it points at.
    proof fn lemma_refs_of_step(entries: Seq<RefEntry>, i: int, k: Seq<char>)
        requires
            0 <= i < entries.len(),
        ensures
            spec_refs_of(entries.take(i + 1), k) == if points_at(entries[i], k) {
                spec_refs_of(entries.take(i), k).push(entries[i].name@)
            } else {
                spec_refs_of(entries.take(i), k)
            },
    {
        let pred = |e: RefEntry| points_at(e, k);
        let f = |e: RefEntry| e.name@;
        assert(entries.take(i + 1) =~= entries.take(i).push(entries[i]));
        entries.take(i).lemma_filter_push(entries[i], pred);
        if pred(entries[i]) {
            assert(entries.take(i).filter(pred).push(entries[i]).map_values(f)
                =~= entries.take(i).filter(pred).map_values(f).push(entries[i].name@));
        }
    }
}

/// Ref bucket completeness: a commit at which at least one reference
/// resolves appears in the index with a non-empty bucket; together with
/// `RefIndex::indexes` this pins `spec_get` to a `Some` of positive length.
pub proof fn lemma_ref_bucket_completeness(entries: Seq<RefEntry>, i: int)
    requires
        0 <= i < entries.len(),
        entries[i].target is Some,
    ensures
        spec_refs_of(entries, entries[i].target->0@).len() > 0,
{
    let id = entries[i].target->0@;
    let pred = |e: RefEntry| points_at(e, id);
    entries.lemma_filter_contains(pred, i);
    assert(entries.filter(pred).len() > 0);
}

} // verus!
