//! Stepping non-empty iterators by a custom amount.

use vstd::prelude::*;

use crate::non_empty::NonEmptyIterator;
use crate::size::Size;
use crate::stream::Producer;

verus! {

/// A non-empty iterator over the first item of another and then every `step`-th one.
pub struct StepBy<I: NonEmptyIterator> {
    non_empty: I,
    step: Size,
}

impl<I: NonEmptyIterator> StepBy<I> {
    /// The underlying non-empty iterator.
    pub closed spec fn source(&self) -> I {
        self.non_empty
    }

    /// The distance between the items kept.
    pub closed spec fn step(&self) -> Size {
        self.step
    }

    /// Constructs the non-empty iterator over every `step`-th item of `non_empty`,
    /// starting with the first.
    pub fn new(non_empty: I, step: Size) -> (r: Self)
        ensures
            r.source() == non_empty,
            r.step() == step,
            step@ > 0,
            r.wf() == non_empty.wf(),
            forall|i: nat| #[trigger] r.item_at(i) == non_empty.item_at(i * step@),
    {
        let _ = step.get();
        StepBy { non_empty, step }
    }
}

/// The producer that yields the first item of another and then every `step`-th one.
pub struct StepByIter<P: Producer> {
    inner: P,
    step: usize,
}

impl<P: Producer> Producer for StepByIter<P> {
    type Item = P::Item;

    closed spec fn valid(&self) -> bool {
        self.inner.valid() && self.step > 0
    }

    closed spec fn item_at(&self, i: nat) -> Option<P::Item> {
        self.inner.item_at(i * (self.step as nat))
    }

    fn next(&mut self) -> (r: Option<P::Item>) {
        let ghost start = self.inner;
        let r = self.inner.next();
        let mut skipped: usize = 1;
        while skipped < self.step
            invariant
                self.inner.valid(),
                1 <= skipped <= self.step,
                self.step == old(self).step,
                forall|i: nat| #[trigger] self.inner.item_at(i) == start.item_at(i + skipped as nat),
            decreases self.step - skipped,
        {
            let _ = self.inner.next();
            skipped = skipped + 1;
        }
        proof {
            assert forall|i: nat| #[trigger] self.item_at(i) == old(self).item_at(i + 1) by {
                let step = self.step as nat;
                assert(i * step + step == (i + 1) * step) by (nonlinear_arith);
            }
        }
        r
    }
}

impl<I: NonEmptyIterator> NonEmptyIterator for StepBy<I> {
    type Item = I::Item;

    type IntoIter = StepByIter<I::IntoIter>;

    open spec fn wf(&self) -> bool {
        self.source().wf() && self.step()@ > 0
    }

    open spec fn item_at(&self, i: nat) -> Option<I::Item> {
        self.source().item_at(i * self.step()@)
    }

    proof fn lemma_non_empty(&self) {
        self.source().lemma_non_empty();
    }

    fn into_iter(self) -> (r: StepByIter<I::IntoIter>) {
        let step = self.step.get();
        let r = StepByIter { inner: self.non_empty.into_iter(), step };
        assert(r.valid());
        r
    }
}

} // verus!
