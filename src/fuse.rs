//! Fusing non-empty iterators: once exhausted, they stay exhausted.

use vstd::prelude::*;

use crate::non_empty::{NonEmptyIterator, items_of};
use crate::stream::{
    Producer, Stream, lead, lemma_lead, lemma_lead_empty, lemma_lead_skip, lemma_same_stream, skip,
    stream_of,
};

verus! {

/// The item of the `i`-th pull of `s` fused: nothing from its first exhaustion on.
pub open spec fn fuse_at<T>(s: Stream<T>, i: nat) -> Option<T> {
    if lead(s, i + 1) == i + 1 {
        s(i)
    } else {
        None
    }
}

/// A non-empty iterator that stays exhausted once the underlying one reports exhaustion.
pub struct Fuse<I: NonEmptyIterator> {
    non_empty: I,
}

impl<I: NonEmptyIterator> Fuse<I> {
    /// The underlying non-empty iterator.
    pub closed spec fn source(&self) -> I {
        self.non_empty
    }

    /// Constructs the fused non-empty iterator over `non_empty`.
    pub fn new(non_empty: I) -> (r: Self)
        ensures
            r.source() == non_empty,
            r.wf() == non_empty.wf(),
            forall|i: nat| #[trigger] r.item_at(i) == fuse_at(items_of(non_empty), i),
    {
        Fuse { non_empty }
    }
}

/// The producer that drops the underlying producer once it reports exhaustion.
pub struct FuseIter<P: Producer> {
    inner: Option<P>,
}

impl<P: Producer> Producer for FuseIter<P> {
    type Item = P::Item;

    closed spec fn valid(&self) -> bool {
        self.inner matches Some(p) ==> p.valid()
    }

    closed spec fn item_at(&self, i: nat) -> Option<P::Item> {
        match self.inner {
            Some(p) => fuse_at(stream_of(p), i),
            None => None,
        }
    }

    fn next(&mut self) -> (r: Option<P::Item>) {
        match self.inner.take() {
            Some(mut p) => {
                let ghost s = stream_of(p);
                let r = p.next();
                if r.is_some() {
                    proof {
                        lemma_same_stream(stream_of(p), skip(s, 1));
                        assert(lead(s, 1) == 1) by {
                            assert(lead(s, 0) == 0);
                        }
                        assert forall|i: nat| #[trigger]
                            fuse_at(skip(s, 1), i) == fuse_at(s, i + 1) by {
                            lemma_lead_skip(s, i + 1);
                        }
                    }
                    self.inner = Some(p);
                } else {
                    proof {
                        assert forall|i: nat| #[trigger] fuse_at(s, i) is None by {
                            lemma_lead_empty(s, i + 1);
                        }
                    }
                }
                r
            },
            None => None,
        }
    }
}

impl<I: NonEmptyIterator> NonEmptyIterator for Fuse<I> {
    type Item = I::Item;

    type IntoIter = FuseIter<I::IntoIter>;

    open spec fn wf(&self) -> bool {
        self.source().wf()
    }

    open spec fn item_at(&self, i: nat) -> Option<I::Item> {
        fuse_at(items_of(self.source()), i)
    }

    proof fn lemma_non_empty(&self) {
        self.source().lemma_non_empty();
        lemma_lead(items_of(self.source()), 1);
    }

    fn into_iter(self) -> (r: FuseIter<I::IntoIter>) {
        let ghost g = self.non_empty;
        let inner = self.non_empty.into_iter();
        proof {
            lemma_same_stream(stream_of(inner), items_of(g));
        }
        let r = FuseIter { inner: Some(inner) };
        assert(r.valid());
        r
    }
}

} // verus!
