//! The one construction point that takes non-emptiness from the caller, and the
//! one-item lookahead that lets the checked conversion establish it.

use vstd::pervasive::strictly_cloned;
use vstd::prelude::*;

use crate::func::clones_exactly;
use crate::non_empty::NonEmptyIterator;
use crate::stream::{
    BackProducer, IntoProducer, Producer, Replay, drop_back, ends_at, lemma_drop_back,
    lemma_ends_at_contents, lemma_ends_at_unique, lemma_length, lemma_same_stream, length,
    stream_of,
};

verus! {

/// Carries a value whose producer the caller has shown to be non-empty.
pub struct NonEmptyAdapter<I: IntoProducer> {
    iterable: I,
}

impl<I: IntoProducer> NonEmptyAdapter<I> {
    /// The value carried.
    pub closed spec fn iterable(&self) -> I {
        self.iterable
    }

    /// Constructs the adapter; the caller proves that `iterable` yields an item first.
    pub fn new(iterable: I) -> (r: Self)
        requires
            iterable.source_valid(),
            iterable.source_at(0) is Some,
        ensures
            r.iterable() == iterable,
            r.wf(),
            forall|i: nat| #[trigger] r.item_at(i) == iterable.source_at(i),
    {
        NonEmptyAdapter { iterable }
    }
}

impl<I: IntoProducer> NonEmptyIterator for NonEmptyAdapter<I> {
    type Item = I::Item;

    type IntoIter = I::IntoIter;

    open spec fn wf(&self) -> bool {
        &&& self.iterable().source_valid()
        &&& self.iterable().source_at(0) is Some
    }

    open spec fn item_at(&self, i: nat) -> Option<I::Item> {
        self.iterable().source_at(i)
    }

    proof fn lemma_non_empty(&self) {
    }

    fn into_iter(self) -> (r: I::IntoIter) {
        self.iterable.into_producer()
    }
}

/// A producer with a one-item lookahead.
pub struct Peekable<P: Producer> {
    peeked: Option<P::Item>,
    inner: P,
}

impl<P: Producer> Peekable<P> {
    /// Wraps `inner` without pulling from it.
    pub fn new(inner: P) -> (r: Self)
        requires
            inner.valid(),
        ensures
            r.valid(),
            forall|i: nat| #[trigger] r.item_at(i) == inner.item_at(i),
    {
        Peekable { peeked: None, inner }
    }

    /// Looks at the next item without consuming it; when there is none, the
    /// exhaustion is consumed instead.
    pub fn peek(&mut self) -> (r: Option<&P::Item>)
        requires
            old(self).valid(),
        ensures
            final(self).valid(),
            r is Some <==> old(self).item_at(0) is Some,
            r matches Some(x) ==> old(self).item_at(0) == Some(*x),
            r is Some ==> forall|i: nat| #[trigger] final(self).item_at(i) == old(self).item_at(i),
            r is None ==> forall|i: nat| #[trigger] final(self).item_at(i) == old(self).item_at(
                i + 1,
            ),
    {
        if self.peeked.is_none() {
            self.peeked = self.inner.next();
        }
        match &self.peeked {
            Some(x) => Some(x),
            None => None,
        }
    }
}

impl<P: Replay> Replay for Peekable<P> where P::Item: Clone {
    open spec fn replayable() -> bool {
        P::replayable() && clones_exactly::<P::Item>()
    }

    fn replay(&self) -> (r: Self) {
        let peeked = match &self.peeked {
            None => None,
            Some(x) => {
                let c = x.clone();
                assert(strictly_cloned(*x, c));
                Some(c)
            },
        };
        Peekable { peeked, inner: self.inner.replay() }
    }
}

impl<P: Producer> Producer for Peekable<P> {
    type Item = P::Item;

    closed spec fn valid(&self) -> bool {
        self.inner.valid()
    }

    closed spec fn item_at(&self, i: nat) -> Option<P::Item> {
        match self.peeked {
            Some(x) => if i == 0 {
                Some(x)
            } else {
                self.inner.item_at((i - 1) as nat)
            },
            None => self.inner.item_at(i),
        }
    }

    fn next(&mut self) -> (r: Option<P::Item>) {
        match self.peeked.take() {
            Some(x) => Some(x),
            None => self.inner.next(),
        }
    }
}

impl<P: BackProducer> BackProducer for Peekable<P> {
    proof fn lemma_bounded(&self) {
        let s = stream_of(*self);
        let t = stream_of(self.inner);
        self.inner.lemma_bounded();
        lemma_length(t);
        match self.peeked {
            Some(x) => {
                let n = length(t) + 1;
                assert(ends_at(s, n)) by {
                    assert forall|j: nat| j < n implies (#[trigger] s(j)) is Some by {
                        if j > 0 {
                            assert(t((j - 1) as nat) is Some);
                        }
                    }
                }
                lemma_ends_at_contents(s, n);
                assert forall|i: nat| i >= length(s) implies (#[trigger] s(i)) is None by {
                    assert(t((i - 1) as nat) is None);
                }
            },
            None => {
                lemma_same_stream(s, t);
            },
        }
    }

    fn next_back(&mut self) -> (r: Option<P::Item>) {
        let ghost s = stream_of(*self);
        let ghost t = stream_of(self.inner);
        proof {
            self.lemma_bounded();
            self.inner.lemma_bounded();
            lemma_length(t);
            lemma_length(s);
            lemma_drop_back(t);
        }
        let r = self.inner.next_back();
        proof {
            lemma_drop_back(s);
            if self.peeked is Some {
                let n = length(t) + 1;
                assert(ends_at(s, n)) by {
                    assert forall|j: nat| j < n implies (#[trigger] s(j)) is Some by {
                        if j > 0 {
                            assert(t((j - 1) as nat) is Some);
                        }
                    }
                }
                lemma_ends_at_unique(s, length(s), n);
            } else {
                lemma_same_stream(s, t);
            }
        }
        let ghost t2 = stream_of(self.inner);
        assert(t2 == drop_back(t));
        match r {
            Some(x) => {
                proof {
                    assert forall|i: nat| #[trigger] stream_of(*self)(i) == drop_back(s)(i) by {
                        if self.peeked is Some && i > 0 {
                            assert(t2((i - 1) as nat) == drop_back(t)((i - 1) as nat));
                        }
                    }
                    lemma_same_stream(stream_of(*self), drop_back(s));
                }
                Some(x)
            },
            None => {
                let last = self.peeked.take();
                proof {
                    assert forall|i: nat| #[trigger] stream_of(*self)(i) == drop_back(s)(i) by {
                        assert(t2(i) == drop_back(t)(i));
                    }
                    lemma_same_stream(stream_of(*self), drop_back(s));
                }
                last
            },
        }
    }
}

} // verus!
