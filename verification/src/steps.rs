//! The walk over a list of indexes, from both ends, that every iterator of
//! this crate is built on.
use vstd::prelude::*;

verus! {

/// The steps of a walk that are still to come: `front..back`. A step is a
/// position in the list of indexes, not an index.
pub struct Span {
    pub front: int,
    pub back: int,
}

impl Span {
    /// The span of a walk over `len` indexes that has not begun.
    pub open spec fn whole(len: nat) -> Span {
        Span { front: 0, back: len as int }
    }

    /// The two ends have not crossed, and lie within a list of `len` indexes.
    pub open spec fn valid(self, len: nat) -> bool {
        0 <= self.front <= self.back <= len
    }

    /// No step is left.
    pub open spec fn is_empty(self) -> bool {
        self.front >= self.back
    }

    /// The step that a call at the front hands out, if one is left.
    pub open spec fn first(self) -> Option<int> {
        if self.is_empty() {
            None
        } else {
            Some(self.front)
        }
    }

    /// The step that a call at the back hands out, if one is left.
    pub open spec fn last(self) -> Option<int> {
        if self.is_empty() {
            None
        } else {
            Some(self.back - 1)
        }
    }

    /// The span after a call at the front.
    pub open spec fn drop_first(self) -> Span {
        if self.is_empty() {
            self
        } else {
            Span { front: self.front + 1, back: self.back }
        }
    }

    /// The span after a call at the back.
    pub open spec fn drop_last(self) -> Span {
        if self.is_empty() {
            self
        } else {
            Span { front: self.front, back: self.back - 1 }
        }
    }

    /// The span after one call for each entry of `ends`, in order: at the
    /// front where the entry is `true`, at the back where it is `false`.
    pub open spec fn after(self, ends: Seq<bool>) -> Span
        decreases ends.len(),
    {
        if ends.len() == 0 {
            self
        } else if ends[0] {
            self.drop_first().after(ends.drop_first())
        } else {
            self.drop_last().after(ends.drop_first())
        }
    }

    /// The steps that those calls hand out, in order. A call that finds no
    /// step left adds nothing.
    pub open spec fn walk(self, ends: Seq<bool>) -> Seq<int>
        decreases ends.len(),
    {
        if ends.len() == 0 {
            Seq::empty()
        } else if ends[0] {
            match self.first() {
                Some(k) => seq![k] + self.drop_first().walk(ends.drop_first()),
                None => self.drop_first().walk(ends.drop_first()),
            }
        } else {
            match self.last() {
                Some(k) => seq![k] + self.drop_last().walk(ends.drop_first()),
                None => self.drop_last().walk(ends.drop_first()),
            }
        }
    }
}

/// `len` calls at the front.
pub open spec fn forward(len: nat) -> Seq<bool> {
    Seq::new(len, |i: int| true)
}

/// `len` calls at the back.
pub open spec fn backward(len: nat) -> Seq<bool> {
    Seq::new(len, |i: int| false)
}

/// However the calls alternate between the two ends, the ends never cross:
/// the span stays valid, and only shrinks.
pub proof fn lemma_ends_never_cross(span: Span, len: nat, ends: Seq<bool>)
    requires
        span.valid(len),
    ensures
        span.after(ends).valid(len),
        span.front <= span.after(ends).front,
        span.after(ends).back <= span.back,
    decreases ends.len(),
{
    if ends.len() > 0 {
        if ends[0] {
            lemma_ends_never_cross(span.drop_first(), len, ends.drop_first());
        } else {
            lemma_ends_never_cross(span.drop_last(), len, ends.drop_first());
        }
    }
}

/// However the calls alternate between the two ends, no step is handed out
/// twice, and every step handed out lay in the span and lies outside what is
/// left of it.
pub proof fn lemma_never_revisits(span: Span, len: nat, ends: Seq<bool>)
    requires
        span.valid(len),
    ensures
        span.walk(ends).no_duplicates(),
        forall|i: int|
            0 <= i < span.walk(ends).len() ==> {
                let k = #[trigger] span.walk(ends)[i];
                &&& span.front <= k < span.back
                &&& k < span.after(ends).front || span.after(ends).back <= k
            },
    decreases ends.len(),
{
    if ends.len() > 0 {
        let next = if ends[0] {
            span.drop_first()
        } else {
            span.drop_last()
        };
        let rest = next.walk(ends.drop_first());
        lemma_never_revisits(next, len, ends.drop_first());
        lemma_ends_never_cross(next, len, ends.drop_first());
        if !span.is_empty() {
            let k = if ends[0] {
                span.front
            } else {
                span.back - 1
            };
            let all = span.walk(ends);
            assert(all == seq![k] + rest);
            assert forall|i: int, j: int|
                0 <= i < all.len() && 0 <= j < all.len() && i != j implies all[i] != all[j] by {
                if i > 0 && j > 0 {
                    assert(all[i] == rest[i - 1] && all[j] == rest[j - 1]);
                } else if i > 0 {
                    assert(all[i] == rest[i - 1]);
                } else {
                    assert(all[j] == rest[j - 1]);
                }
            }
            assert forall|i: int| 0 <= i < all.len() implies {
                let k = #[trigger] all[i];
                &&& span.front <= k < span.back
                &&& k < span.after(ends).front || span.after(ends).back <= k
            } by {
                if i > 0 {
                    assert(all[i] == rest[i - 1]);
                }
            }
        }
    }
}

/// Calls at the front alone hand out the steps of the span in rising order,
/// and leave none.
pub proof fn lemma_forward_walk(span: Span, len: nat)
    requires
        span.valid(len),
    ensures
        span.walk(forward((span.back - span.front) as nat)) == Seq::new(
            (span.back - span.front) as nat,
            |i: int| span.front + i,
        ),
        span.after(forward((span.back - span.front) as nat)).is_empty(),
    decreases span.back - span.front,
{
    let n = (span.back - span.front) as nat;
    if n > 0 {
        lemma_forward_walk(span.drop_first(), len);
        assert(forward(n).drop_first() == forward((n - 1) as nat));
        assert(span.walk(forward(n)) =~= Seq::new(n, |i: int| span.front + i));
    } else {
        assert(span.walk(forward(n)) =~= Seq::new(n, |i: int| span.front + i));
    }
}

/// Calls at the back alone hand out the steps of the span in falling order,
/// and leave none.
pub proof fn lemma_backward_walk(span: Span, len: nat)
    requires
        span.valid(len),
    ensures
        span.walk(backward((span.back - span.front) as nat)) == Seq::new(
            (span.back - span.front) as nat,
            |i: int| span.back - 1 - i,
        ),
        span.after(backward((span.back - span.front) as nat)).is_empty(),
    decreases span.back - span.front,
{
    let n = (span.back - span.front) as nat;
    if n > 0 {
        lemma_backward_walk(span.drop_last(), len);
        assert(backward(n).drop_first() == backward((n - 1) as nat));
        assert(span.walk(backward(n)) =~= Seq::new(n, |i: int| span.back - 1 - i));
    } else {
        assert(span.walk(backward(n)) =~= Seq::new(n, |i: int| span.back - 1 - i));
    }
}

/// A walk over a borrowed list of indexes that can be advanced from either
/// end.
pub struct Steps<'a> {
    idxs: &'a [usize],
    front: usize,
    back: usize,
}

impl<'a> Steps<'a> {
    /// The list of indexes that is walked.
    pub closed spec fn idxs(&self) -> Seq<usize> {
        self.idxs@
    }

    /// The steps still to come.
    pub closed spec fn span(&self) -> Span {
        Span { front: self.front as int, back: self.back as int }
    }

    /// The span lies within the list and its ends have not crossed.
    pub open spec fn wf(&self) -> bool {
        self.span().valid(self.idxs().len())
    }

    /// Begins a walk over all of `idxs`.
    pub fn new(idxs: &'a [usize]) -> (steps: Self)
        ensures
            steps.wf(),
            steps.idxs() == idxs@,
            steps.span() == Span::whole(idxs@.len()),
    {
        Steps { idxs, front: 0, back: idxs.len() }
    }

    /// Hands out the index at the first step still to come.
    pub fn next(&mut self) -> (idx: Option<usize>)
        requires
            old(self).wf(),
        ensures
            final(self).wf(),
            final(self).idxs() == old(self).idxs(),
            final(self).span() == old(self).span().drop_first(),
            idx == match old(self).span().first() {
                Some(k) => Some(old(self).idxs()[k]),
                None => None,
            },
        no_unwind
    {
        if self.front < self.back {
            let idx: usize = self.idxs[self.front];
            self.front = self.front + 1;
            Some(idx)
        } else {
            None
        }
    }

    /// Hands out the index at the last step still to come.
    pub fn next_back(&mut self) -> (idx: Option<usize>)
        requires
            old(self).wf(),
        ensures
            final(self).wf(),
            final(self).idxs() == old(self).idxs(),
            final(self).span() == old(self).span().drop_last(),
            idx == match old(self).span().last() {
                Some(k) => Some(old(self).idxs()[k]),
                None => None,
            },
        no_unwind
    {
        if self.front < self.back {
            self.back = self.back - 1;
            Some(self.idxs[self.back])
        } else {
            None
        }
    }
}

} // verus!
