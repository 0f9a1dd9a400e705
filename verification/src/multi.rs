//! Multi-subsets: each item of the set can be selected more than once.
//!
//! Because two selected positions may be one and the same, a multi-subset
//! hands out shared references only. [`SubsetMut`] still holds the set
//! exclusively and lends all of it through [`SubsetMut::set`].
use crate::steps::{backward, forward, lemma_backward_walk, lemma_forward_walk, Span, Steps};
use crate::unique;
use crate::{in_bounds, is_unique, within, Selection};
pub use crate::SubsetError;
pub use std::convert::{From, Into, TryFrom, TryInto};
use vstd::prelude::*;

verus! {

/// Multi-subset of a slice's items, walked forward and backward over shared
/// references to the selected items. Holds the set by shared reference.
#[derive(Debug)]
pub struct Subset<'a, T> {
    pub(crate) set: &'a [T],
    pub(crate) idxs: &'a [usize],
}

impl<'a, T> View for Subset<'a, T> {
    type V = Selection<T>;

    open(crate) spec fn view(&self) -> Selection<T> {
        Selection { set: self.set@, idxs: self.idxs@ }
    }
}

impl<'a, T> Subset<'a, T> {
    /// Every index is a position of the set.
    pub open spec fn wf(&self) -> bool {
        self@.in_bounds()
    }

    /// Makes a multi-subset of `set` from the indexes of the selected items,
    /// after checking that each index is a position of `set`. Subsets are
    /// not meant for items of size zero.
    pub fn new(set: &'a [T], idxs: &'a [usize]) -> (made: Result<Self, SubsetError>)
        requires
            vstd::layout::size_of::<T>() != 0,
        ensures
            made is Ok <==> within(idxs@, set@.len()),
            made matches Ok(subset) ==> subset.wf() && subset@.set == set@ && subset@.idxs == idxs@,
            made matches Err(e) ==> e == SubsetError::OutOfBounds,
    {
        if in_bounds(idxs, set.len()) {
            Ok(Self::new_unchecked(set, idxs))
        } else {
            Err(SubsetError::OutOfBounds)
        }
    }

    /// Makes a multi-subset of `set` without checking the indexes: the caller
    /// has to know that each is a position of `set`.
    pub fn new_unchecked(set: &'a [T], idxs: &'a [usize]) -> (subset: Self)
        requires
            within(idxs@, set@.len()),
        ensures
            subset.wf(),
            subset@.set == set@,
            subset@.idxs == idxs@,
    {
        Self { set, idxs }
    }

    /// Returns the whole set.
    pub fn set(&self) -> (set: &[T])
        ensures
            set@ == self@.set,
    {
        self.set
    }

    /// Returns the indexes of the selected items.
    pub fn idxs(&self) -> (idxs: &[usize])
        ensures
            idxs@ == self@.idxs,
    {
        self.idxs
    }

    /// Tells whether no item is selected twice, which is when the subset can
    /// be converted to a unique one.
    pub fn is_unique(&self) -> (unique: bool)
        ensures
            unique == self@.distinct(),
    {
        is_unique(self.idxs)
    }

    /// The unique subset that holds `self`, whatever its indexes.
    pub open(crate) spec fn as_unique(self) -> unique::Subset<'a, T> {
        unique::Subset { m: self }
    }

    /// Converts to a unique subset without checking the indexes: the
    /// caller has to know that no two of them are equal.
    pub fn to_unique_unchecked(self) -> (subset: unique::Subset<'a, T>)
        requires
            self@.distinct(),
        ensures
            subset == self.as_unique(),
            subset@ == self@,
            self.wf() ==> subset.wf(),
    {
        unique::Subset { m: self }
    }

    /// Returns an iterator over shared references to the selected items.
    pub fn iter(&self) -> (iter: Iter<'_, T>)
        requires
            self.wf(),
        ensures
            iter.wf(),
            iter.selection() == self@,
            iter.span() == Span::whole(self@.idxs.len()),
            iter@ == self@.items(),
    {
        let iter = Iter { set: self.set, steps: Steps::new(self.idxs) };
        assert(iter@ =~= self@.items());
        iter
    }
}

/// Double-ended iterator over shared references to the selected items of a
/// set. Every iterator is well formed ([`Iter::wf`]), which `next` and
/// `next_back` state of the iterator they are given and of the one they
/// leave.
pub struct Iter<'a, T> {
    set: &'a [T],
    steps: Steps<'a>,
}

impl<'a, T> View for Iter<'a, T> {
    type V = Seq<T>;

    /// The items still to come, in forward order.
    open spec fn view(&self) -> Seq<T> {
        self.selection().items().subrange(self.span().front, self.span().back)
    }
}

impl<'a, T> Iter<'a, T> {
    /// The selection that is walked.
    pub closed spec fn selection(&self) -> Selection<T> {
        Selection { set: self.set@, idxs: self.steps.idxs() }
    }

    /// The steps still to come.
    pub closed spec fn span(&self) -> Span {
        self.steps.span()
    }

    /// The selection is in bounds, and the span lies within it.
    pub open spec fn wf(&self) -> bool {
        &&& self.selection().in_bounds()
        &&& self.span().valid(self.selection().idxs.len())
    }

    /// The references still to come, in forward order.
    pub open spec fn rest(&self) -> Seq<&'a T> {
        Seq::new(self@.len(), |k: int| &self@[k])
    }

    #[verifier::type_invariant]
    spec fn inv(&self) -> bool {
        self.wf()
    }

    /// The items handed out by one call for each entry of `ends`, in order:
    /// by `next` where the entry is `true`, by `next_back` where it is
    /// `false`.
    pub open spec fn yields(&self, ends: Seq<bool>) -> Seq<T> {
        self.span().walk(ends).map_values(|k: int| self.selection().items()[k])
    }

    /// Calling `next` until nothing is left hands out the items still to
    /// come in the order of their indexes.
    pub proof fn lemma_forward_order(&self)
        requires
            self.wf(),
        ensures
            self.yields(forward(self@.len())) == self@,
    {
        lemma_forward_walk(self.span(), self.selection().idxs.len());
        assert(self.yields(forward(self@.len())) =~= self@);
    }

    /// Calling `next_back` until nothing is left hands out the items still
    /// to come in the reverse of that order.
    pub proof fn lemma_backward_order(&self)
        requires
            self.wf(),
        ensures
            self.yields(backward(self@.len())) == self@.reverse(),
    {
        lemma_backward_walk(self.span(), self.selection().idxs.len());
        assert(self.yields(backward(self@.len())) =~= self@.reverse());
    }
}

impl<'a, T> Iterator for Iter<'a, T> {
    type Item = &'a T;

    /// Hands out the first item still to come.
    fn next(&mut self) -> (item: Option<&'a T>)
        ensures
            old(self).wf(),
            final(self).wf(),
            final(self).selection() == old(self).selection(),
            final(self).span() == old(self).span().drop_first(),
            item == match old(self).span().first() {
                Some(k) => Some(&old(self).selection().items()[k]),
                None => None,
            },
    {
        proof {
            use_type_invariant(&*self);
        }
        let item = match self.steps.next() {
            None => None,
            Some(idx) => Some(&self.set[idx]),
        };
        assert(self.rest() =~= if old(self).rest().len() > 0 {
            old(self).rest().drop_first()
        } else {
            old(self).rest()
        });
        item
    }
}

impl<'a, T> vstd::std_specs::iter::IteratorSpecImpl for Iter<'a, T> {
    open spec fn obeys_prophetic_iter_laws(&self) -> bool {
        true
    }

    open spec fn remaining(&self) -> Seq<Self::Item> {
        self.rest()
    }

    open spec fn will_return_none(&self) -> bool {
        true
    }

    open spec fn decrease(&self) -> Option<nat> {
        Some(self.rest().len())
    }

    open spec fn initial_value_relation(&self, init: &Self) -> bool {
        init.selection() == self.selection() && init.span() == self.span()
    }

    open spec fn peek(&self, index: int) -> Option<Self::Item> {
        if 0 <= index < self.rest().len() {
            Some(self.rest()[index])
        } else {
            None
        }
    }
}

impl<'a, T> DoubleEndedIterator for Iter<'a, T> {
    /// Hands out the last item still to come.
    fn next_back(&mut self) -> (item: Option<&'a T>)
        ensures
            old(self).wf(),
            final(self).wf(),
            final(self).selection() == old(self).selection(),
            final(self).span() == old(self).span().drop_last(),
            item == match old(self).span().last() {
                Some(k) => Some(&old(self).selection().items()[k]),
                None => None,
            },
    {
        proof {
            use_type_invariant(&*self);
        }
        let item = match self.steps.next_back() {
            None => None,
            Some(idx) => Some(&self.set[idx]),
        };
        assert(self.rest() =~= if old(self).rest().len() > 0 {
            old(self).rest().drop_last()
        } else {
            old(self).rest()
        });
        item
    }
}

impl<'a, T> vstd::std_specs::iter::DoubleEndedIteratorSpecImpl for Iter<'a, T> {
    open spec fn peek_back(&self, index: int) -> Option<Self::Item> {
        if 0 <= index < self.rest().len() {
            Some(self.rest()[self.rest().len() - 1 - index])
        } else {
            None
        }
    }
}

/// Multi-subset of a slice's items, walked forward and backward over shared
/// references to the selected items. Holds the set by exclusive reference.
#[derive(Debug)]
pub struct SubsetMut<'a, T> {
    pub(crate) set: &'a mut [T],
    pub(crate) idxs: &'a [usize],
}

impl<'a, T> View for SubsetMut<'a, T> {
    type V = Selection<T>;

    open(crate) spec fn view(&self) -> Selection<T> {
        Selection { set: self.set@, idxs: self.idxs@ }
    }
}

impl<'a, T> SubsetMut<'a, T> {
    /// The exclusive borrow of the set that the subset holds.
    pub closed spec fn borrowed(&self) -> &'a mut [T] {
        self.set
    }

    /// Every index is a position of the set.
    pub open spec fn wf(&self) -> bool {
        self@.in_bounds()
    }

    /// Once the subset is no longer used, the set is left as the subset
    /// last held it.
    pub proof fn lemma_released(self)
        requires
            has_resolved(self),
        ensures
            final(self.borrowed())@ == self@.set,
    {
    }

    /// Makes a multi-subset of `set` from the indexes of the selected items,
    /// after checking that each index is a position of `set`. Subsets are
    /// not meant for items of size zero.
    pub fn new(set: &'a mut [T], idxs: &'a [usize]) -> (made: Result<Self, SubsetError>)
        requires
            vstd::layout::size_of::<T>() != 0,
        ensures
            made is Ok <==> within(idxs@, old(set)@.len()),
            made matches Ok(subset) ==> {
                &&& subset.wf()
                &&& subset@.set == old(set)@
                &&& subset@.idxs == idxs@
                &&& final(subset.borrowed())@ == final(set)@
            },
            made matches Err(e) ==> e == SubsetError::OutOfBounds && final(set)@ == old(set)@,
    {
        if in_bounds(idxs, set.len()) {
            Ok(Self::new_unchecked(set, idxs))
        } else {
            Err(SubsetError::OutOfBounds)
        }
    }

    /// Makes a multi-subset of `set` without checking the indexes: the caller
    /// has to know that each is a position of `set`.
    pub fn new_unchecked(set: &'a mut [T], idxs: &'a [usize]) -> (subset: Self)
        requires
            within(idxs@, old(set)@.len()),
        ensures
            subset.wf(),
            subset@.set == old(set)@,
            subset@.idxs == idxs@,
            final(subset.borrowed())@ == final(set)@,
    {
        Self { set, idxs }
    }

    /// Lends the whole set. What is written through the loan is what the
    /// subset holds afterwards.
    pub fn set(&mut self) -> (set: &mut [T])
        ensures
            set@ == old(self)@.set,
            final(self)@.set == final(set)@,
            final(self)@.idxs == old(self)@.idxs,
            final(final(self).borrowed())@ == final(old(self).borrowed())@,
    {
        self.set
    }

    /// Returns the indexes of the selected items.
    pub fn idxs(&self) -> (idxs: &[usize])
        ensures
            idxs@ == self@.idxs,
    {
        self.idxs
    }

    /// Tells whether no item is selected twice, which is when the subset can
    /// be converted to a unique one.
    pub fn is_unique(&self) -> (unique: bool)
        ensures
            unique == self@.distinct(),
    {
        is_unique(self.idxs)
    }

    /// The subset that holds the same set by shared reference.
    pub closed spec fn as_shared(self) -> Subset<'a, T> {
        Subset { set: &*self.set, idxs: self.idxs }
    }

    /// The unique subset that holds `self`, whatever its indexes.
    pub open(crate) spec fn as_unique_mut(self) -> unique::SubsetMut<'a, T> {
        unique::SubsetMut { m: self }
    }

    /// Converts to a unique subset that holds the set by shared reference,
    /// without checking the indexes: the caller has to know that no two of
    /// them are equal.
    pub fn to_unique_unchecked(self) -> (subset: unique::Subset<'a, T>)
        requires
            self@.distinct(),
        ensures
            subset == self.as_shared().as_unique(),
            subset@ == self@,
            self.wf() ==> subset.wf(),
            final(self.borrowed())@ == self@.set,
    {
        unique::Subset { m: Subset::from(self) }
    }

    /// Converts to a unique subset without checking the indexes: the
    /// caller has to know that no two of them are equal.
    pub fn to_unique_mut_unchecked(self) -> (subset: unique::SubsetMut<'a, T>)
        requires
            self@.distinct(),
        ensures
            subset == self.as_unique_mut(),
            subset@ == self@,
            self.wf() ==> subset.wf(),
            final(subset.borrowed())@ == final(self.borrowed())@,
    {
        unique::SubsetMut { m: self }
    }

    /// Returns an iterator over shared references to the selected items.
    pub fn iter(&self) -> (iter: Iter<'_, T>)
        requires
            self.wf(),
        ensures
            iter.wf(),
            iter.selection() == self@,
            iter.span() == Span::whole(self@.idxs.len()),
            iter@ == self@.items(),
    {
        let iter = Iter { set: self.set, steps: Steps::new(self.idxs) };
        assert(iter@ =~= self@.items());
        iter
    }
}

impl<'a, T> From<SubsetMut<'a, T>> for Subset<'a, T> {
    /// Gives up the exclusive hold on the set for a shared one.
    fn from(s: SubsetMut<'a, T>) -> (subset: Self)
        ensures
            subset@ == s@,
            final(s.borrowed())@ == s@.set,
    {
        Self { set: s.set, idxs: s.idxs }
    }
}

impl<'a, T> vstd::std_specs::convert::FromSpecImpl<SubsetMut<'a, T>> for Subset<'a, T> {
    open spec fn obeys_from_spec() -> bool {
        true
    }

    open spec fn from_spec(s: SubsetMut<'a, T>) -> Self {
        s.as_shared()
    }
}

impl<'a, T> From<unique::Subset<'a, T>> for Subset<'a, T> {
    /// Forgets that no index occurs twice.
    fn from(s: unique::Subset<'a, T>) -> (subset: Self)
        ensures
            subset@ == s@,
    {
        s.m
    }
}

impl<'a, T> vstd::std_specs::convert::FromSpecImpl<unique::Subset<'a, T>> for Subset<'a, T> {
    open spec fn obeys_from_spec() -> bool {
        true
    }

    open spec fn from_spec(s: unique::Subset<'a, T>) -> Self {
        s.as_multi()
    }
}

impl<'a, T> From<unique::SubsetMut<'a, T>> for Subset<'a, T> {
    /// Forgets that no index occurs twice, and gives up the exclusive hold
    /// on the set for a shared one.
    fn from(s: unique::SubsetMut<'a, T>) -> (subset: Self)
        ensures
            subset@ == s@,
            final(s.borrowed())@ == s@.set,
    {
        Subset::from(s.m)
    }
}

impl<'a, T> vstd::std_specs::convert::FromSpecImpl<unique::SubsetMut<'a, T>> for Subset<'a, T> {
    open spec fn obeys_from_spec() -> bool {
        true
    }

    open spec fn from_spec(s: unique::SubsetMut<'a, T>) -> Self {
        s.as_multi().as_shared()
    }
}

impl<'a, T> From<unique::SubsetMut<'a, T>> for SubsetMut<'a, T> {
    /// Forgets that no index occurs twice.
    fn from(s: unique::SubsetMut<'a, T>) -> (subset: Self)
        ensures
            subset@ == s@,
            final(subset.borrowed())@ == final(s.borrowed())@,
    {
        s.m
    }
}

impl<'a, T> vstd::std_specs::convert::FromSpecImpl<unique::SubsetMut<'a, T>> for SubsetMut<'a, T> {
    open spec fn obeys_from_spec() -> bool {
        true
    }

    open spec fn from_spec(s: unique::SubsetMut<'a, T>) -> Self {
        s.as_multi()
    }
}


impl<'a, T> IntoIterator for &'a Subset<'a, T> {
    type Item = &'a T;

    type IntoIter = Iter<'a, T>;

    /// Returns an iterator over shared references to the selected items.
    fn into_iter(self) -> (iter: Iter<'a, T>)
        requires
            self.wf(),
        ensures
            iter.wf(),
            iter.selection() == self@,
            iter.span() == Span::whole(self@.idxs.len()),
            iter@ == self@.items(),
    {
        self.iter()
    }
}

impl<'a, T> IntoIterator for &'a SubsetMut<'a, T> {
    type Item = &'a T;

    type IntoIter = Iter<'a, T>;

    /// Returns an iterator over shared references to the selected items.
    fn into_iter(self) -> (iter: Iter<'a, T>)
        requires
            self.wf(),
        ensures
            iter.wf(),
            iter.selection() == self@,
            iter.span() == Span::whole(self@.idxs.len()),
            iter@ == self@.items(),
    {
        self.iter()
    }
}

} // verus!
