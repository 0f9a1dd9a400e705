//! Subsets of a slice's items that can be walked forward and backward without
//! copying the items.
//!
//! A subset borrows the whole slice (the *set*) and a list of positions in it
//! (the *indexes*). [`multi`] holds the subsets whose indexes may repeat;
//! [`unique`] holds those whose indexes are pairwise distinct, which is what
//! makes it sound to hand out one exclusive reference per selected item.
use std::collections::HashSet;
use vstd::prelude::*;

pub mod multi;
pub mod steps;
pub mod unique;

verus! {

/// Subset construction or conversion error.
#[derive(Debug, PartialEq, Eq, Structural)]
pub enum SubsetError {
    /// An index occurs more than once.
    NotUnique,
    /// An index is not a position of the set.
    OutOfBounds,
}

/// What a subset stands for: the items of the whole set and the indexes of
/// the selected ones, in the order in which they are walked.
pub struct Selection<T> {
    pub set: Seq<T>,
    pub idxs: Seq<usize>,
}

impl<T> Selection<T> {
    /// Every index is a position of the set.
    pub open spec fn in_bounds(self) -> bool {
        within(self.idxs, self.set.len())
    }

    /// No index occurs twice.
    pub open spec fn distinct(self) -> bool {
        self.idxs.no_duplicates()
    }

    /// The selected items, in the order of the indexes.
    pub open spec fn items(self) -> Seq<T> {
        self.idxs.map_values(|i: usize| self.set[i as int])
    }
}

/// Whether a selection is distinct depends on its indexes alone: as long as
/// the indexes are the same, asking again gives the same answer, whatever has
/// been written to the set meanwhile.
pub proof fn lemma_distinct_by_idxs<T>(a: Selection<T>, b: Selection<T>)
    requires
        a.idxs == b.idxs,
    ensures
        a.distinct() == b.distinct(),
{
}

/// Every value of `idxs` is below `len`.
pub open spec fn within(idxs: Seq<usize>, len: nat) -> bool {
    forall|k: int| 0 <= k < idxs.len() ==> idxs[k] < len
}

/// Tells whether no index occurs twice in `array`. Stops at the first
/// repetition.
pub fn is_unique(array: &[usize]) -> (unique: bool)
    ensures
        unique == array@.no_duplicates(),
{
    let mut uniques: HashSet<usize> = HashSet::with_capacity(array.len());
    let mut k: usize = 0;
    while k < array.len()
        invariant
            k <= array.len(),
            array@.take(k as int).no_duplicates(),
            forall|v: usize| uniques@.contains(v) <==> array@.take(k as int).contains(v),
        decreases array.len() - k,
    {
        let idx: usize = array[k];
        if !uniques.insert(idx) {
            proof {
                let i = array@.take(k as int).index_of(idx);
                assert(array@[i] == array@[k as int] && i != k);
            }
            return false;
        }
        proof {
            let before = array@.take(k as int);
            let after = array@.take(k + 1);
            assert(after == before.push(idx));
            assert forall|v: usize| uniques@.contains(v) <==> after.contains(v) by {
                if before.contains(v) {
                    assert(after[before.index_of(v)] == v);
                }
                if v == idx {
                    assert(after[k as int] == v);
                }
            }
            assert forall|i: int, j: int|
                0 <= i < after.len() && 0 <= j < after.len() && i != j implies after[i]
                != after[j] by {
                if i < k && j < k {
                    assert(before[i] != before[j]);
                } else if i < k {
                    assert(before[i] == after[i]);
                } else {
                    assert(before[j] == after[j]);
                }
            }
        }
        k += 1;
    }
    assert(array@.take(k as int) == array@);
    true
}

/// Tells whether every index in `idxs` is a position of a set of `len` items.
/// Stops at the first one that is not.
pub fn in_bounds(idxs: &[usize], len: usize) -> (ok: bool)
    ensures
        ok == within(idxs@, len as nat),
{
    let mut k: usize = 0;
    while k < idxs.len()
        invariant
            k <= idxs.len(),
            within(idxs@.take(k as int), len as nat),
        decreases idxs.len() - k,
    {
        if idxs[k] >= len {
            return false;
        }
        proof {
            let before = idxs@.take(k as int);
            let after = idxs@.take(k + 1);
            assert forall|j: int| 0 <= j < after.len() implies after[j] < len by {
                if j < k {
                    assert(before[j] == after[j]);
                }
            }
        }
        k += 1;
    }
    assert(idxs@.take(k as int) == idxs@);
    true
}

} // verus!
