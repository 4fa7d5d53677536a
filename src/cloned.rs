//! Cloning the items of non-empty iterators over references.

use vstd::pervasive::strictly_cloned;
use vstd::prelude::*;

use crate::copied::deref_at;
use crate::func::clones_exactly;
use crate::non_empty::NonEmptyIterator;
use crate::stream::Producer;

verus! {

/// A non-empty iterator over clones of the items that another one refers to.
#[verifier::reject_recursive_types(T)]
pub struct Cloned<'a, T: Clone + 'a, I: NonEmptyIterator<Item = &'a T>> {
    non_empty: I,
    marker: core::marker::PhantomData<&'a T>,
}

impl<'a, T: Clone + 'a, I: NonEmptyIterator<Item = &'a T>> Cloned<'a, T, I> {
    /// The underlying non-empty iterator.
    pub closed spec fn source(&self) -> I {
        self.non_empty
    }

    /// Constructs the non-empty iterator over clones of the items `non_empty` refers to.
    pub fn new(non_empty: I) -> (r: Self)
        ensures
            r.source() == non_empty,
            r.wf() == (non_empty.wf() && clones_exactly::<T>()),
            forall|i: nat| #[trigger] r.item_at(i) == deref_at(non_empty.item_at(i)),
    {
        Cloned { non_empty, marker: core::marker::PhantomData }
    }
}

/// The producer of clones of the items that another one refers to.
#[verifier::reject_recursive_types(T)]
pub struct ClonedIter<'a, T: Clone + 'a, P: Producer<Item = &'a T>> {
    inner: P,
    marker: core::marker::PhantomData<&'a T>,
}

impl<'a, T: Clone + 'a, P: Producer<Item = &'a T>> Producer for ClonedIter<'a, T, P> {
    type Item = T;

    closed spec fn valid(&self) -> bool {
        self.inner.valid() && clones_exactly::<T>()
    }

    closed spec fn item_at(&self, i: nat) -> Option<T> {
        deref_at(self.inner.item_at(i))
    }

    fn next(&mut self) -> (r: Option<T>) {
        match self.inner.next() {
            Some(x) => {
                let c = x.clone();
                assert(strictly_cloned(*x, c));
                Some(c)
            },
            None => None,
        }
    }
}

impl<'a, T: Clone + 'a, I: NonEmptyIterator<Item = &'a T>> NonEmptyIterator for Cloned<'a, T, I> {
    type Item = T;

    type IntoIter = ClonedIter<'a, T, I::IntoIter>;

    open spec fn wf(&self) -> bool {
        self.source().wf() && clones_exactly::<T>()
    }

    open spec fn item_at(&self, i: nat) -> Option<T> {
        deref_at(self.source().item_at(i))
    }

    proof fn lemma_non_empty(&self) {
        self.source().lemma_non_empty();
    }

    fn into_iter(self) -> (r: ClonedIter<'a, T, I::IntoIter>) {
        let r = ClonedIter { inner: self.non_empty.into_iter(), marker: core::marker::PhantomData };
        assert(r.valid());
        r
    }
}

} // verus!
