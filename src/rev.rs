//! Reversing non-empty iterators whose producers can also yield from the back.

use vstd::prelude::*;

use crate::non_empty::{NonEmptyIterator, items_of};
use crate::stream::{
    BackProducer, Producer, bounded, lemma_drop_back, lemma_length, lemma_same_stream, rev_at,
    stream_of,
};

verus! {

/// A non-empty iterator over the items of another, last first.
pub struct Rev<I: NonEmptyIterator> where I::IntoIter: BackProducer {
    non_empty: I,
}

impl<I: NonEmptyIterator> Rev<I> where I::IntoIter: BackProducer {
    /// The underlying non-empty iterator.
    pub closed spec fn source(&self) -> I {
        self.non_empty
    }

    /// Constructs the non-empty iterator over the items of `non_empty`, last first.
    pub fn new(non_empty: I) -> (r: Self)
        ensures
            r.source() == non_empty,
            r.wf() == (non_empty.wf() && bounded(items_of(non_empty))),
            forall|i: nat| #[trigger] r.item_at(i) == rev_at(items_of(non_empty), i),
    {
        Rev { non_empty }
    }
}

/// The producer that pulls from the back of another.
pub struct RevIter<P: BackProducer> {
    inner: P,
}

impl<P: BackProducer> Producer for RevIter<P> {
    type Item = P::Item;

    closed spec fn valid(&self) -> bool {
        self.inner.valid()
    }

    closed spec fn item_at(&self, i: nat) -> Option<P::Item> {
        rev_at(stream_of(self.inner), i)
    }

    fn next(&mut self) -> (r: Option<P::Item>) {
        let ghost s = stream_of(self.inner);
        proof {
            self.inner.lemma_bounded();
            lemma_drop_back(s);
            lemma_length(s);
        }
        let r = self.inner.next_back();
        r
    }
}

impl<I: NonEmptyIterator> NonEmptyIterator for Rev<I> where I::IntoIter: BackProducer {
    type Item = I::Item;

    type IntoIter = RevIter<I::IntoIter>;

    open spec fn wf(&self) -> bool {
        self.source().wf() && bounded(items_of(self.source()))
    }

    open spec fn item_at(&self, i: nat) -> Option<I::Item> {
        rev_at(items_of(self.source()), i)
    }

    proof fn lemma_non_empty(&self) {
        let s = items_of(self.source());
        self.source().lemma_non_empty();
        lemma_length(s);
        assert(s(0) is Some);
    }

    fn into_iter(self) -> (r: RevIter<I::IntoIter>) {
        let ghost g = self.non_empty;
        let inner = self.non_empty.into_iter();
        proof {
            lemma_same_stream(stream_of(inner), items_of(g));
        }
        let r = RevIter { inner };
        assert(r.valid());
        r
    }
}

} // verus!
