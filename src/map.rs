//! Mapping the items of non-empty iterators.

use vstd::prelude::*;

use crate::func::{apply1, is_fn1, lemma_apply1};
use crate::non_empty::NonEmptyIterator;
use crate::stream::{Producer, Replay};

verus! {

/// The item `f` makes of an item, at one position.
pub open spec fn map_at<A, B, F: Fn(A) -> B>(f: F, a: Option<A>) -> Option<B> {
    match a {
        Some(x) => Some(apply1(f, x)),
        None => None,
    }
}

/// A non-empty iterator over the results of a function on the items of another.
pub struct Mapped<I: NonEmptyIterator, F> {
    non_empty: I,
    function: F,
}

impl<U, I: NonEmptyIterator, F: Fn(I::Item) -> U> Mapped<I, F> {
    /// The underlying non-empty iterator.
    pub closed spec fn source(&self) -> I {
        self.non_empty
    }

    /// The function applied to each item.
    pub closed spec fn function(&self) -> F {
        self.function
    }

    /// Constructs the non-empty iterator over the results of `function` on `non_empty`.
    pub fn new(non_empty: I, function: F) -> (r: Self)
        ensures
            r.source() == non_empty,
            r.function() == function,
            r.wf() == (non_empty.wf() && is_fn1(function)),
            forall|i: nat| #[trigger] r.item_at(i) == map_at(function, non_empty.item_at(i)),
    {
        Mapped { non_empty, function }
    }
}

/// The producer of the results of a function on the items of another.
pub struct MapIter<P: Producer, F> {
    inner: P,
    function: F,
}

impl<U, P: Producer, F: Fn(P::Item) -> U> MapIter<P, F> {
    /// Constructs the producer of the results of `function` on the items of `inner`.
    pub fn new(inner: P, function: F) -> (r: Self)
        requires
            inner.valid(),
            is_fn1(function),
        ensures
            r.valid(),
            forall|i: nat| #[trigger] r.item_at(i) == map_at(function, inner.item_at(i)),
    {
        MapIter { inner, function }
    }
}

impl<U, P: Producer, F: Fn(P::Item) -> U> Producer for MapIter<P, F> {
    type Item = U;

    closed spec fn valid(&self) -> bool {
        self.inner.valid() && is_fn1(self.function)
    }

    closed spec fn item_at(&self, i: nat) -> Option<U> {
        map_at(self.function, self.inner.item_at(i))
    }

    fn next(&mut self) -> (r: Option<U>) {
        match self.inner.next() {
            Some(x) => {
                let ghost arg = x;
                let y = (self.function)(x);
                proof {
                    lemma_apply1(self.function, arg, y);
                }
                Some(y)
            },
            None => None,
        }
    }
}

impl<U, P: Replay, F: Fn(P::Item) -> U + Copy> Replay for MapIter<P, F> {
    open spec fn replayable() -> bool {
        P::replayable()
    }

    fn replay(&self) -> (r: Self) {
        MapIter { inner: self.inner.replay(), function: self.function }
    }
}

impl<U, I: NonEmptyIterator, F: Fn(I::Item) -> U> NonEmptyIterator for Mapped<I, F> {
    type Item = U;

    type IntoIter = MapIter<I::IntoIter, F>;

    open spec fn wf(&self) -> bool {
        self.source().wf() && is_fn1(self.function())
    }

    open spec fn item_at(&self, i: nat) -> Option<U> {
        map_at(self.function(), self.source().item_at(i))
    }

    proof fn lemma_non_empty(&self) {
        self.source().lemma_non_empty();
    }

    fn into_iter(self) -> (r: MapIter<I::IntoIter, F>) {
        let r = MapIter { inner: self.non_empty.into_iter(), function: self.function };
        assert(r.valid());
        r
    }
}

} // verus!
