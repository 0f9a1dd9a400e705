//! Unique subsets: each item of the set can be selected at most once.
//!
//! Since no two selected positions are the same, [`SubsetMut`] can hand out
//! one exclusive reference per selected item, all of them usable at once.
use crate::multi;
use crate::steps::{lemma_never_revisits, Span, Steps};
use crate::{is_unique, within, Selection};
pub use crate::SubsetError;
pub use std::convert::{From, Into, TryFrom, TryInto};
use vstd::prelude::*;
use vstd::std_specs::convert::{FromSpec, TryFromSpec};

verus! {

/// Subset of a slice's items, walked forward and backward over shared
/// references to the selected items. Holds the set by shared reference.
#[derive(Debug)]
pub struct Subset<'a, T> {
    pub(crate) m: multi::Subset<'a, T>,
}

impl<'a, T> View for Subset<'a, T> {
    type V = Selection<T>;

    open(crate) spec fn view(&self) -> Selection<T> {
        self.m@
    }
}

impl<'a, T> Subset<'a, T> {
    /// Every index is a position of the set, and no two are equal.
    pub open spec fn wf(&self) -> bool {
        self@.in_bounds() && self@.distinct()
    }

    /// The multi-subset that `self` holds.
    pub open(crate) spec fn as_multi(self) -> multi::Subset<'a, T> {
        self.m
    }

    /// A unique subset that is converted to a multi-subset and back is the
    /// subset it was: the way back succeeds, and the set and the indexes
    /// are the same.
    pub proof fn lemma_round_trip(self)
        requires
            self.wf(),
        ensures
            multi::Subset::from_spec(self)@ == self@,
            Self::try_from_spec(multi::Subset::from_spec(self)) == Ok::<Self, SubsetError>(self),
    {
    }

    /// Makes a subset of `set` from the indexes of the selected items, after
    /// checking that each index is a position of `set` and then that no two
    /// are equal. Subsets are not meant for items of size zero.
    pub fn new(set: &'a [T], idxs: &'a [usize]) -> (made: Result<Self, SubsetError>)
        requires
            vstd::layout::size_of::<T>() != 0,
        ensures
            made is Ok <==> within(idxs@, set@.len()) && idxs@.no_duplicates(),
            made matches Ok(subset) ==> subset.wf() && subset@.set == set@ && subset@.idxs == idxs@,
            made matches Err(e) ==> e == (if within(idxs@, set@.len()) {
                SubsetError::NotUnique
            } else {
                SubsetError::OutOfBounds
            }),
    {
        match multi::Subset::new(set, idxs) {
            Ok(m) => Self::try_from(m),
            Err(e) => Err(e),
        }
    }

    /// Makes a subset of `set` without checking the indexes: the caller has
    /// to know that each is a position of `set` and that no two are equal.
    pub fn new_unchecked(set: &'a [T], idxs: &'a [usize]) -> (subset: Self)
        requires
            within(idxs@, set@.len()),
            idxs@.no_duplicates(),
        ensures
            subset.wf(),
            subset@.set == set@,
            subset@.idxs == idxs@,
    {
        multi::Subset::new_unchecked(set, idxs).to_unique_unchecked()
    }

    /// Returns the whole set.
    pub fn set(&self) -> (set: &[T])
        ensures
            set@ == self@.set,
    {
        self.m.set()
    }

    /// Returns the indexes of the selected items.
    pub fn idxs(&self) -> (idxs: &[usize])
        ensures
            idxs@ == self@.idxs,
    {
        self.m.idxs()
    }

    /// Returns an iterator over shared references to the selected items.
    pub fn iter(&self) -> (iter: multi::Iter<'_, T>)
        requires
            self.wf(),
        ensures
            iter.wf(),
            iter.selection() == self@,
            iter.span() == Span::whole(self@.idxs.len()),
            iter@ == self@.items(),
    {
        self.m.iter()
    }
}

impl<'a, T> TryFrom<multi::Subset<'a, T>> for Subset<'a, T> {
    type Error = SubsetError;

    /// Checks that no index occurs twice.
    fn try_from(s: multi::Subset<'a, T>) -> (made: Result<Self, SubsetError>)
        ensures
            made is Ok <==> s@.distinct(),
            made matches Ok(subset) ==> subset@ == s@ && (s.wf() ==> subset.wf()),
            made matches Err(e) ==> e == SubsetError::NotUnique,
    {
        if s.is_unique() {
            Ok(s.to_unique_unchecked())
        } else {
            Err(SubsetError::NotUnique)
        }
    }
}

impl<'a, T> vstd::std_specs::convert::TryFromSpecImpl<multi::Subset<'a, T>> for Subset<'a, T> {
    open spec fn obeys_try_from_spec() -> bool {
        true
    }

    open spec fn try_from_spec(s: multi::Subset<'a, T>) -> Result<Self, SubsetError> {
        if s@.distinct() {
            Ok(s.as_unique())
        } else {
            Err(SubsetError::NotUnique)
        }
    }
}

impl<'a, T> From<SubsetMut<'a, T>> for Subset<'a, T> {
    /// Gives up the exclusive hold on the set for a shared one.
    fn from(s: SubsetMut<'a, T>) -> (subset: Self)
        ensures
            subset@ == s@,
            final(s.borrowed())@ == s@.set,
    {
        Self { m: multi::Subset::from(s.m) }
    }
}

impl<'a, T> vstd::std_specs::convert::FromSpecImpl<SubsetMut<'a, T>> for Subset<'a, T> {
    open spec fn obeys_from_spec() -> bool {
        true
    }

    open spec fn from_spec(s: SubsetMut<'a, T>) -> Self {
        s.as_shared()
    }
}

impl<'a, T> TryFrom<multi::SubsetMut<'a, T>> for Subset<'a, T> {
    type Error = SubsetError;

    /// Checks that no index occurs twice. Either way the exclusive hold on
    /// the set is given up.
    fn try_from(s: multi::SubsetMut<'a, T>) -> (made: Result<Self, SubsetError>)
        ensures
            made is Ok <==> s@.distinct(),
            made matches Ok(subset) ==> subset@ == s@ && (s.wf() ==> subset.wf()),
            made matches Err(e) ==> e == SubsetError::NotUnique,
            final(s.borrowed())@ == s@.set,
    {
        if s.is_unique() {
            Ok(s.to_unique_unchecked())
        } else {
            proof {
                s.lemma_released();
            }
            Err(SubsetError::NotUnique)
        }
    }
}

impl<'a, T> vstd::std_specs::convert::TryFromSpecImpl<multi::SubsetMut<'a, T>> for Subset<'a, T> {
    open spec fn obeys_try_from_spec() -> bool {
        true
    }

    open spec fn try_from_spec(s: multi::SubsetMut<'a, T>) -> Result<Self, SubsetError> {
        if s@.distinct() {
            Ok(s.as_shared().as_unique())
        } else {
            Err(SubsetError::NotUnique)
        }
    }
}

/// Subset of a slice's items, walked forward and backward over shared or
/// exclusive references to the selected items. Holds the set by exclusive
/// reference.
#[derive(Debug)]
pub struct SubsetMut<'a, T> {
    pub(crate) m: multi::SubsetMut<'a, T>,
}

impl<'a, T> View for SubsetMut<'a, T> {
    type V = Selection<T>;

    open(crate) spec fn view(&self) -> Selection<T> {
        self.m@
    }
}

impl<'a, T> SubsetMut<'a, T> {
    /// The exclusive borrow of the set that the subset holds.
    pub open(crate) spec fn borrowed(&self) -> &'a mut [T] {
        self.m.borrowed()
    }

    /// Every index is a position of the set, and no two are equal.
    pub open spec fn wf(&self) -> bool {
        self@.in_bounds() && self@.distinct()
    }

    /// The multi-subset that `self` holds.
    pub open(crate) spec fn as_multi(self) -> multi::SubsetMut<'a, T> {
        self.m
    }

    /// The unique subset that holds the same set by shared reference.
    pub open spec fn as_shared(self) -> Subset<'a, T> {
        self.as_multi().as_shared().as_unique()
    }

    /// A unique subset that is converted to a multi-subset and back is the
    /// subset it was: the way back succeeds, and the hold on the set and
    /// the indexes are the same.
    pub proof fn lemma_round_trip(self)
        requires
            self.wf(),
        ensures
            multi::SubsetMut::from_spec(self)@ == self@,
            multi::SubsetMut::from_spec(self).borrowed() == self.borrowed(),
            Self::try_from_spec(multi::SubsetMut::from_spec(self)) == Ok::<Self, SubsetError>(self),
    {
    }

    /// Once the subset is no longer used, the set is left as the subset
    /// last held it.
    pub proof fn lemma_released(self)
        requires
            has_resolved(self),
        ensures
            final(self.borrowed())@ == self@.set,
    {
        self.m.lemma_released();
    }

    /// Makes a subset of `set` from the indexes of the selected items, after
    /// checking that each index is a position of `set` and then that no two
    /// are equal. Subsets are not meant for items of size zero.
    pub fn new(set: &'a mut [T], idxs: &'a [usize]) -> (made: Result<Self, SubsetError>)
        requires
            vstd::layout::size_of::<T>() != 0,
        ensures
            made is Ok <==> within(idxs@, old(set)@.len()) && idxs@.no_duplicates(),
            made matches Ok(subset) ==> {
                &&& subset.wf()
                &&& subset@.set == old(set)@
                &&& subset@.idxs == idxs@
                &&& final(subset.borrowed())@ == final(set)@
            },
            made matches Err(e) ==> {
                &&& e == (if within(idxs@, old(set)@.len()) {
                    SubsetError::NotUnique
                } else {
                    SubsetError::OutOfBounds
                })
                &&& final(set)@ == old(set)@
            },
    {
        match multi::SubsetMut::new(set, idxs) {
            Ok(m) => Self::try_from(m),
            Err(e) => Err(e),
        }
    }

    /// Makes a subset of `set` without checking the indexes: the caller has
    /// to know that each is a position of `set` and that no two are equal.
    pub fn new_unchecked(set: &'a mut [T], idxs: &'a [usize]) -> (subset: Self)
        requires
            within(idxs@, old(set)@.len()),
            idxs@.no_duplicates(),
        ensures
            subset.wf(),
            subset@.set == old(set)@,
            subset@.idxs == idxs@,
            final(subset.borrowed())@ == final(set)@,
    {
        multi::SubsetMut::new_unchecked(set, idxs).to_unique_mut_unchecked()
    }

    /// Lends the whole set. What is written through the loan is what the
    /// subset holds afterwards.
    pub fn set(&mut self) -> (set: &mut [T])
        ensures
            set@ == old(self)@.set,
            final(self)@.set == final(set)@,
            final(self)@.idxs == old(self)@.idxs,
            final(final(self).borrowed())@ == final(old(self).borrowed())@,
    {
        self.m.set()
    }

    /// Returns the indexes of the selected items.
    pub fn idxs(&self) -> (idxs: &[usize])
        ensures
            idxs@ == self@.idxs,
    {
        self.m.idxs()
    }

    /// Returns an iterator over shared references to the selected items.
    pub fn iter(&self) -> (iter: multi::Iter<'_, T>)
        requires
            self.wf(),
        ensures
            iter.wf(),
            iter.selection() == self@,
            iter.span() == Span::whole(self@.idxs.len()),
            iter@ == self@.items(),
    {
        self.m.iter()
    }

    /// Returns an iterator over exclusive references to the selected items.
    /// What is written through those references is what the subset holds
    /// afterwards; the items that are never handed out stay as they are.
    pub fn iter_mut(&mut self) -> (iter: IterMut<'_, T>)
        requires
            old(self).wf(),
        ensures
            iter.wf(),
            iter.idxs() == old(self)@.idxs,
            iter.span() == Span::whole(old(self)@.idxs.len()),
            iter.cells().len() == old(self)@.set.len(),
            forall|p: int|
                #![trigger iter.cells()[p]]
                #![trigger final(self)@.set[p]]
                0 <= p < iter.cells().len() ==> {
                    &&& iter.cells()[p] is Some
                    &&& *iter.cells()[p].unwrap() == old(self)@.set[p]
                    &&& *final(iter.cells()[p].unwrap()) == final(self)@.set[p]
                },
            final(self)@.set.len() == old(self)@.set.len(),
            final(self)@.idxs == old(self)@.idxs,
            final(self).wf(),
            final(final(self).borrowed())@ == final(old(self).borrowed())@,
    {
        let idxs = self.m.idxs;
        IterMut { cells: cells(self.m.set()), steps: Steps::new(idxs) }
    }
}

/// Splits `set` into one exclusive reference per item.
fn cells<'a, T>(set: &'a mut [T]) -> (cells: Vec<Option<&'a mut T>>)
    ensures
        cells@.len() == old(set)@.len(),
        final(set)@.len() == old(set)@.len(),
        forall|p: int|
            0 <= p < cells@.len() ==> {
                &&& (#[trigger] cells@[p]) is Some
                &&& *cells@[p].unwrap() == old(set)@[p]
                &&& *final(cells@[p].unwrap()) == final(set)@[p]
            },
{
    let ghost start = set@;
    let ghost end = final(set)@;
    let mut rest: &'a mut [T] = set;
    let mut cells: Vec<Option<&'a mut T>> = Vec::with_capacity(rest.len());
    while rest.len() > 0
        invariant
            start.len() == cells@.len() + rest@.len(),
            end.len() == cells@.len() + final(rest)@.len(),
            forall|p: int|
                0 <= p < cells@.len() ==> {
                    &&& (#[trigger] cells@[p]) is Some
                    &&& *cells@[p].unwrap() == start[p]
                    &&& *final(cells@[p].unwrap()) == end[p]
                },
            forall|j: int| 0 <= j < rest@.len() ==> rest@[j] == start[cells@.len() + j],
            forall|j: int|
                0 <= j < final(rest)@.len() ==> final(rest)@[j] == end[cells@.len() + j],
        decreases rest@.len(),
    {
        let ghost done = cells@.len() as int;
        let ghost rest_end = final(rest)@;
        let (head, tail) = rest.split_at_mut(1);
        let ghost head_end = final(head)@;
        let ghost tail_end = final(tail)@;
        assert(rest_end == head_end + tail_end);
        let first = head.first_mut();
        assert(head_end.len() == 1 && head_end[0] == *final(first.unwrap()));
        cells.push(first);
        rest = tail;
        proof {
            assert(end[done] == rest_end[0]);
            assert forall|j: int| 0 <= j < tail_end.len() implies tail_end[j] == end[done + 1
                + j] by {
                assert(tail_end[j] == rest_end[j + 1]);
            }
        }
    }
    cells
}

/// Double-ended iterator over exclusive references to the selected items of
/// a set. Every iterator is well formed ([`IterMut::wf`]), which `next` and
/// `next_back` state of the iterator they are given and of the one they
/// leave.
pub struct IterMut<'a, T> {
    cells: Vec<Option<&'a mut T>>,
    steps: Steps<'a>,
}

impl<'a, T> IterMut<'a, T> {
    /// The indexes that are walked.
    pub closed spec fn idxs(&self) -> Seq<usize> {
        self.steps.idxs()
    }

    /// The steps still to come.
    pub closed spec fn span(&self) -> Span {
        self.steps.span()
    }

    /// For each position of the set, the exclusive reference to its item,
    /// or `None` once that reference has been handed out.
    pub closed spec fn cells(&self) -> Seq<Option<&'a mut T>> {
        self.cells@
    }

    /// The span lies within the indexes, no index occurs twice, and the
    /// reference for each index still to come has not been handed out.
    pub open spec fn wf(&self) -> bool {
        &&& self.span().valid(self.idxs().len())
        &&& within(self.idxs(), self.cells().len())
        &&& self.idxs().no_duplicates()
        &&& forall|k: int|
            self.span().front <= k < self.span().back ==> self.cells()[(
            #[trigger] self.idxs()[k]) as int] is Some
    }

    /// The references still to come, in forward order.
    pub open spec fn rest(&self) -> Seq<&'a mut T> {
        Seq::new(
            (self.span().back - self.span().front) as nat,
            |k: int| self.cells()[self.idxs()[self.span().front + k] as int].unwrap(),
        )
    }

    #[verifier::type_invariant]
    spec fn inv(&self) -> bool {
        self.wf()
    }

    /// The positions of the set whose references are handed out by one call
    /// for each entry of `ends`, in order: by `next` where the entry is
    /// `true`, by `next_back` where it is `false`.
    pub open spec fn visits(&self, ends: Seq<bool>) -> Seq<usize> {
        self.span().walk(ends).map_values(|k: int| self.idxs()[k])
    }

    /// However the calls alternate between the two ends, no two of the
    /// references handed out are to the same position of the set.
    pub proof fn lemma_no_aliasing(&self, ends: Seq<bool>)
        requires
            self.wf(),
        ensures
            self.visits(ends).no_duplicates(),
    {
        lemma_never_revisits(self.span(), self.idxs().len(), ends);
        let steps = self.span().walk(ends);
        let visits = self.visits(ends);
        assert forall|i: int, j: int|
            0 <= i < visits.len() && 0 <= j < visits.len() && i != j implies visits[i]
            != visits[j] by {
            assert(steps[i] != steps[j]);
        }
    }

    /// Once the iterator is no longer used, the items whose references it
    /// still holds are left as they are.
    pub proof fn lemma_released(self)
        requires
            has_resolved(self),
        ensures
            forall|p: int|
                0 <= p < self.cells().len() ==> ((#[trigger] self.cells()[p]) matches Some(cell)
                    ==> *final(cell) == *cell),
    {
    }
}

impl<'a, T> Iterator for IterMut<'a, T> {
    type Item = &'a mut T;

    /// Hands out the item at the first index still to come.
    fn next(&mut self) -> (item: Option<&'a mut T>)
        ensures
            old(self).wf(),
            final(self).wf(),
            final(self).idxs() == old(self).idxs(),
            final(self).span() == old(self).span().drop_first(),
            match old(self).span().first() {
                Some(k) => {
                    &&& item is Some
                    &&& item == old(self).cells()[old(self).idxs()[k] as int]
                    &&& final(self).cells() == old(self).cells().update(
                        old(self).idxs()[k] as int,
                        None,
                    )
                },
                None => item is None && final(self).cells() == old(self).cells(),
            },
    {
        proof {
            use_type_invariant(&*self);
        }
        let item = match self.steps.next() {
            None => None,
            Some(idx) => self.cells[idx].take(),
        };
        assert(self.rest() =~= if old(self).rest().len() > 0 {
            old(self).rest().drop_first()
        } else {
            old(self).rest()
        });
        item
    }
}

impl<'a, T> vstd::std_specs::iter::IteratorSpecImpl for IterMut<'a, T> {
    open spec fn obeys_prophetic_iter_laws(&self) -> bool {
        true
    }

    open spec fn remaining(&self) -> Seq<Self::Item> {
        self.rest()
    }

    open spec fn will_return_none(&self) -> bool {
        true
    }

    open spec fn decrease(&self) -> Option<nat> {
        Some(self.rest().len())
    }

    open spec fn initial_value_relation(&self, init: &Self) -> bool {
        init.idxs() == self.idxs() && init.span() == self.span() && init.cells() == self.cells()
    }

    open spec fn peek(&self, index: int) -> Option<Self::Item> {
        if 0 <= index < self.rest().len() {
            Some(self.rest()[index])
        } else {
            None
        }
    }
}

impl<'a, T> DoubleEndedIterator for IterMut<'a, T> {
    /// Hands out the item at the last index still to come.
    fn next_back(&mut self) -> (item: Option<&'a mut T>)
        ensures
            old(self).wf(),
            final(self).wf(),
            final(self).idxs() == old(self).idxs(),
            final(self).span() == old(self).span().drop_last(),
            match old(self).span().last() {
                Some(k) => {
                    &&& item is Some
                    &&& item == old(self).cells()[old(self).idxs()[k] as int]
                    &&& final(self).cells() == old(self).cells().update(
                        old(self).idxs()[k] as int,
                        None,
                    )
                },
                None => item is None && final(self).cells() == old(self).cells(),
            },
    {
        proof {
            use_type_invariant(&*self);
        }
        let item = match self.steps.next_back() {
            None => None,
            Some(idx) => self.cells[idx].take(),
        };
        assert(self.rest() =~= if old(self).rest().len() > 0 {
            old(self).rest().drop_last()
        } else {
            old(self).rest()
        });
        item
    }
}

impl<'a, T> vstd::std_specs::iter::DoubleEndedIteratorSpecImpl for IterMut<'a, T> {
    open spec fn peek_back(&self, index: int) -> Option<Self::Item> {
        if 0 <= index < self.rest().len() {
            Some(self.rest()[self.rest().len() - 1 - index])
        } else {
            None
        }
    }
}

impl<'a, T> TryFrom<multi::SubsetMut<'a, T>> for SubsetMut<'a, T> {
    type Error = SubsetError;

    /// Checks that no index occurs twice. Where one does, the exclusive hold
    /// on the set is given up.
    fn try_from(s: multi::SubsetMut<'a, T>) -> (made: Result<Self, SubsetError>)
        ensures
            made is Ok <==> s@.distinct(),
            made matches Ok(subset) ==> {
                &&& subset@ == s@
                &&& s.wf() ==> subset.wf()
                &&& final(subset.borrowed())@ == final(s.borrowed())@
            },
            made matches Err(e) ==> {
                &&& e == SubsetError::NotUnique
                &&& final(s.borrowed())@ == s@.set
            },
    {
        if s.is_unique() {
            Ok(s.to_unique_mut_unchecked())
        } else {
            proof {
                s.lemma_released();
            }
            Err(SubsetError::NotUnique)
        }
    }
}

impl<'a, T> vstd::std_specs::convert::TryFromSpecImpl<multi::SubsetMut<'a, T>> for SubsetMut<'a, T> {
    open spec fn obeys_try_from_spec() -> bool {
        true
    }

    open spec fn try_from_spec(s: multi::SubsetMut<'a, T>) -> Result<Self, SubsetError> {
        if s@.distinct() {
            Ok(s.as_unique_mut())
        } else {
            Err(SubsetError::NotUnique)
        }
    }
}

impl<'a, T> IntoIterator for &'a Subset<'a, T> {
    type Item = &'a T;

    type IntoIter = multi::Iter<'a, T>;

    /// Returns an iterator over shared references to the selected items.
    fn into_iter(self) -> (iter: multi::Iter<'a, T>)
        requires
            self.wf(),
        ensures
            iter.wf(),
            iter.selection() == self@,
            iter.span() == Span::whole(self@.idxs.len()),
            iter@ == self@.items(),
    {
        self.iter()
    }
}

impl<'a, T> IntoIterator for &'a SubsetMut<'a, T> {
    type Item = &'a T;

    type IntoIter = multi::Iter<'a, T>;

    /// Returns an iterator over shared references to the selected items.
    fn into_iter(self) -> (iter: multi::Iter<'a, T>)
        requires
            self.wf(),
        ensures
            iter.wf(),
            iter.selection() == self@,
            iter.span() == Span::whole(self@.idxs.len()),
            iter@ == self@.items(),
    {
        self.iter()
    }
}

impl<'a, T> IntoIterator for &'a mut SubsetMut<'a, T> {
    type Item = &'a mut T;

    type IntoIter = IterMut<'a, T>;

    /// Returns an iterator over exclusive references to the selected items.
    fn into_iter(self) -> (iter: IterMut<'a, T>)
        requires
            old(self).wf(),
        ensures
            iter.wf(),
            iter.idxs() == old(self)@.idxs,
            iter.span() == Span::whole(old(self)@.idxs.len()),
            iter.cells().len() == old(self)@.set.len(),
            forall|p: int|
                #![trigger iter.cells()[p]]
                #![trigger final(self)@.set[p]]
                0 <= p < iter.cells().len() ==> {
                    &&& iter.cells()[p] is Some
                    &&& *iter.cells()[p].unwrap() == old(self)@.set[p]
                    &&& *final(iter.cells()[p].unwrap()) == final(self)@.set[p]
                },
            final(self)@.set.len() == old(self)@.set.len(),
            final(self)@.idxs == old(self)@.idxs,
            final(self).wf(),
            final(final(self).borrowed())@ == final(old(self).borrowed())@,
    {
        self.iter_mut()
    }
}

} // verus!
