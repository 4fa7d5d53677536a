//! Iterating over only the first given number of items of non-empty iterators.

use vstd::prelude::*;

use crate::non_empty::NonEmptyIterator;
use crate::size::Size;
use crate::stream::{Producer, Replay};

verus! {

/// A non-empty iterator over at most the first given number of items of another.
pub struct Take<I: NonEmptyIterator> {
    non_empty: I,
    count: Size,
}

impl<I: NonEmptyIterator> Take<I> {
    /// The underlying non-empty iterator.
    pub closed spec fn source(&self) -> I {
        self.non_empty
    }

    /// How many items at most are taken.
    pub closed spec fn limit(&self) -> Size {
        self.count
    }

    /// Constructs the non-empty iterator over at most `count` first items of `non_empty`.
    pub fn new(non_empty: I, count: Size) -> (r: Self)
        ensures
            r.source() == non_empty,
            r.limit() == count,
            count@ > 0,
            r.wf() == non_empty.wf(),
            forall|i: nat| #[trigger]
                r.item_at(i) == if i < count@ {
                    non_empty.item_at(i)
                } else {
                    None
                },
    {
        let _ = count.get();
        Take { non_empty, count }
    }
}

/// The producer that yields at most a given number of items of another.
pub struct TakeIter<P: Producer> {
    inner: P,
    remaining: usize,
}

impl<P: Producer> Producer for TakeIter<P> {
    type Item = P::Item;

    closed spec fn valid(&self) -> bool {
        self.inner.valid()
    }

    closed spec fn item_at(&self, i: nat) -> Option<P::Item> {
        if i < self.remaining {
            self.inner.item_at(i)
        } else {
            None
        }
    }

    fn next(&mut self) -> (r: Option<P::Item>) {
        if self.remaining == 0 {
            None
        } else {
            self.remaining = self.remaining - 1;
            self.inner.next()
        }
    }
}

impl<P: Replay> Replay for TakeIter<P> {
    open spec fn replayable() -> bool {
        P::replayable()
    }

    fn replay(&self) -> (r: Self) {
        TakeIter { inner: self.inner.replay(), remaining: self.remaining }
    }
}

impl<I: NonEmptyIterator> NonEmptyIterator for Take<I> {
    type Item = I::Item;

    type IntoIter = TakeIter<I::IntoIter>;

    open spec fn wf(&self) -> bool {
        self.source().wf() && self.limit()@ > 0
    }

    open spec fn item_at(&self, i: nat) -> Option<I::Item> {
        if i < self.limit()@ {
            self.source().item_at(i)
        } else {
            None
        }
    }

    proof fn lemma_non_empty(&self) {
        self.source().lemma_non_empty();
    }

    fn into_iter(self) -> (r: TakeIter<I::IntoIter>) {
        let remaining = self.count.get();
        let r = TakeIter { inner: self.non_empty.into_iter(), remaining };
        assert(r.valid());
        r
    }
}

} // verus!
