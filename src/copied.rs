//! Copying the items of non-empty iterators over references.

use vstd::prelude::*;

use crate::non_empty::NonEmptyIterator;
use crate::stream::Producer;

verus! {

/// The item at one position, with the reference taken away.
pub open spec fn deref_at<T>(a: Option<&T>) -> Option<T> {
    match a {
        Some(x) => Some(*x),
        None => None,
    }
}

/// A non-empty iterator over copies of the items that another one refers to.
#[verifier::reject_recursive_types(T)]
pub struct Copied<'a, T: Copy + 'a, I: NonEmptyIterator<Item = &'a T>> {
    non_empty: I,
    marker: core::marker::PhantomData<&'a T>,
}

impl<'a, T: Copy + 'a, I: NonEmptyIterator<Item = &'a T>> Copied<'a, T, I> {
    /// The underlying non-empty iterator.
    pub closed spec fn source(&self) -> I {
        self.non_empty
    }

    /// Constructs the non-empty iterator over copies of the items `non_empty` refers to.
    pub fn new(non_empty: I) -> (r: Self)
        ensures
            r.source() == non_empty,
            r.wf() == non_empty.wf(),
            forall|i: nat| #[trigger] r.item_at(i) == deref_at(non_empty.item_at(i)),
    {
        Copied { non_empty, marker: core::marker::PhantomData }
    }
}

/// The producer of copies of the items that another one refers to.
#[verifier::reject_recursive_types(T)]
pub struct CopiedIter<'a, T: Copy + 'a, P: Producer<Item = &'a T>> {
    inner: P,
    marker: core::marker::PhantomData<&'a T>,
}

impl<'a, T: Copy + 'a, P: Producer<Item = &'a T>> Producer for CopiedIter<'a, T, P> {
    type Item = T;

    closed spec fn valid(&self) -> bool {
        self.inner.valid()
    }

    closed spec fn item_at(&self, i: nat) -> Option<T> {
        deref_at(self.inner.item_at(i))
    }

    fn next(&mut self) -> (r: Option<T>) {
        match self.inner.next() {
            Some(x) => Some(*x),
            None => None,
        }
    }
}

impl<'a, T: Copy + 'a, I: NonEmptyIterator<Item = &'a T>> NonEmptyIterator for Copied<'a, T, I> {
    type Item = T;

    type IntoIter = CopiedIter<'a, T, I::IntoIter>;

    open spec fn wf(&self) -> bool {
        self.source().wf()
    }

    open spec fn item_at(&self, i: nat) -> Option<T> {
        deref_at(self.source().item_at(i))
    }

    proof fn lemma_non_empty(&self) {
        self.source().lemma_non_empty();
    }

    fn into_iter(self) -> (r: CopiedIter<'a, T, I::IntoIter>) {
        let r = CopiedIter { inner: self.non_empty.into_iter(), marker: core::marker::PhantomData };
        assert(r.valid());
        r
    }
}

} // verus!
