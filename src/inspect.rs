//! Calling a function on each item of non-empty iterators as it passes.

use vstd::prelude::*;

use crate::non_empty::NonEmptyIterator;
use crate::stream::Producer;

verus! {

/// `function` can be called on a reference to any item.
pub open spec fn callable_on_all<T, F: Fn(&T)>(function: F) -> bool {
    forall|x: &T| #[trigger] function.requires((x,))
}

/// A non-empty iterator that calls a function on a reference to each item of another
/// before yielding it.
pub struct Inspect<I: NonEmptyIterator, F: Fn(&I::Item)> {
    non_empty: I,
    function: F,
}

impl<I: NonEmptyIterator, F: Fn(&I::Item)> Inspect<I, F> {
    /// The underlying non-empty iterator.
    pub closed spec fn source(&self) -> I {
        self.non_empty
    }

    /// The function called on each item.
    pub closed spec fn function(&self) -> F {
        self.function
    }

    /// Constructs the non-empty iterator calling `function` on each item of `non_empty`.
    pub fn new(non_empty: I, function: F) -> (r: Self)
        ensures
            r.source() == non_empty,
            r.function() == function,
            r.wf() == (non_empty.wf() && callable_on_all::<I::Item, F>(function)),
            forall|i: nat| #[trigger] r.item_at(i) == non_empty.item_at(i),
    {
        Inspect { non_empty, function }
    }
}

/// The producer that calls a function on each item of another as it passes.
pub struct InspectIter<P: Producer, F: Fn(&P::Item)> {
    inner: P,
    function: F,
}

impl<P: Producer, F: Fn(&P::Item)> Producer for InspectIter<P, F> {
    type Item = P::Item;

    closed spec fn valid(&self) -> bool {
        self.inner.valid() && callable_on_all::<P::Item, F>(self.function)
    }

    closed spec fn item_at(&self, i: nat) -> Option<P::Item> {
        self.inner.item_at(i)
    }

    fn next(&mut self) -> (r: Option<P::Item>) {
        let r = self.inner.next();
        match &r {
            Some(x) => {
                (self.function)(x);
            },
            None => {},
        }
        r
    }
}

impl<I: NonEmptyIterator, F: Fn(&I::Item)> NonEmptyIterator for Inspect<I, F> {
    type Item = I::Item;

    type IntoIter = InspectIter<I::IntoIter, F>;

    open spec fn wf(&self) -> bool {
        self.source().wf() && callable_on_all::<I::Item, F>(self.function())
    }

    open spec fn item_at(&self, i: nat) -> Option<I::Item> {
        self.source().item_at(i)
    }

    proof fn lemma_non_empty(&self) {
        self.source().lemma_non_empty();
    }

    fn into_iter(self) -> (r: InspectIter<I::IntoIter, F>) {
        let r = InspectIter { inner: self.non_empty.into_iter(), function: self.function };
        assert(r.valid());
        r
    }
}

} // verus!
