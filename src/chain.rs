//! Linking non-empty and possibly empty iterators together.

use vstd::prelude::*;

use crate::non_empty::{IntoNonEmptyIterator, NonEmptyIterator, items_of};
use crate::stream::{
    IntoProducer, Producer, Replay, Stream, lead, lemma_lead, lemma_lead_empty, lemma_lead_skip,
    lemma_same_stream, skip, stream_of,
};

verus! {

/// The item of the `i`-th pull of `a` followed by `b`: `a` until it first reports
/// exhaustion, then `b`.
pub open spec fn chain_at<T>(a: Stream<T>, b: Stream<T>, i: nat) -> Option<T> {
    let m = lead(a, i + 1);
    if m == i + 1 {
        a(i)
    } else {
        b((i - m) as nat)
    }
}

/// Pulling from a chain whose first part yields pulls from that part.
pub proof fn lemma_chain_skip<T>(a: Stream<T>, b: Stream<T>, i: nat)
    requires
        a(0) is Some,
    ensures
        chain_at(a, b, i + 1) == chain_at(skip(a, 1), b, i),
{
    lemma_lead_skip(a, i + 1);
}

/// A chain whose first part is exhausted at once is its second part.
pub proof fn lemma_chain_empty<T>(a: Stream<T>, b: Stream<T>, i: nat)
    requires
        a(0) is None,
    ensures
        chain_at(a, b, i) == b(i),
{
    lemma_lead_empty(a, i + 1);
}

/// Converts the arguments and links them: the non-empty one first, then the other.
pub fn chain<I: IntoNonEmptyIterator, J: IntoProducer<Item = I::Item>>(
    non_empty: I,
    maybe_empty: J,
) -> (r: Chain<I::IntoNonEmptyIter, J::IntoIter>)
    requires
        maybe_empty.source_valid(),
    ensures
        r.first() == non_empty.into_spec(),
        r.second().valid(),
        forall|i: nat| #[trigger] r.second().item_at(i) == maybe_empty.source_at(i),
        r.wf() == non_empty.into_spec().wf(),
        forall|i: nat| #[trigger]
            r.item_at(i) == chain_at(
                items_of(non_empty.into_spec()),
                |k: nat| maybe_empty.source_at(k),
                i,
            ),
{
    let first = non_empty.into_non_empty_iter();
    let second = maybe_empty.into_producer();
    proof {
        lemma_same_stream(stream_of(second), |k: nat| maybe_empty.source_at(k));
    }
    Chain::new(first, second)
}

/// A non-empty iterator that yields the items of a non-empty iterator and then those
/// of a possibly empty producer.
pub struct Chain<I: NonEmptyIterator, J: Producer<Item = I::Item>> {
    non_empty: I,
    maybe_empty: J,
}

impl<I: NonEmptyIterator, J: Producer<Item = I::Item>> Chain<I, J> {
    /// The non-empty part, yielded first.
    pub closed spec fn first(&self) -> I {
        self.non_empty
    }

    /// The possibly empty part, yielded second.
    pub closed spec fn second(&self) -> J {
        self.maybe_empty
    }

    /// Constructs the non-empty iterator over `non_empty` followed by `maybe_empty`.
    pub fn new(non_empty: I, maybe_empty: J) -> (r: Self)
        ensures
            r.first() == non_empty,
            r.second() == maybe_empty,
            r.wf() == (non_empty.wf() && maybe_empty.valid()),
            forall|i: nat| #[trigger]
                r.item_at(i) == chain_at(items_of(non_empty), stream_of(maybe_empty), i),
    {
        Chain { non_empty, maybe_empty }
    }
}

/// The producer that yields the items of one producer and then those of another.
pub struct ChainIter<P: Producer, Q: Producer<Item = P::Item>> {
    first: P,
    first_done: bool,
    second: Q,
}

impl<P: Producer, Q: Producer<Item = P::Item>> Producer for ChainIter<P, Q> {
    type Item = P::Item;

    closed spec fn valid(&self) -> bool {
        self.first.valid() && self.second.valid()
    }

    closed spec fn item_at(&self, i: nat) -> Option<P::Item> {
        if self.first_done {
            self.second.item_at(i)
        } else {
            chain_at(stream_of(self.first), stream_of(self.second), i)
        }
    }

    fn next(&mut self) -> (r: Option<P::Item>) {
        if !self.first_done {
            let ghost a = stream_of(self.first);
            let ghost b = stream_of(self.second);
            match self.first.next() {
                Some(x) => {
                    proof {
                        assert(lead(a, 1) == 1) by {
                            assert(lead(a, 0) == 0);
                        }
                        lemma_same_stream(stream_of(self.first), skip(a, 1));
                        assert forall|i: nat| #[trigger]
                            self.item_at(i) == old(self).item_at(i + 1) by {
                            lemma_chain_skip(a, b, i);
                        }
                    }
                    return Some(x);
                },
                None => {
                    proof {
                        assert forall|i: nat| #[trigger]
                            old(self).item_at(i) == b(i) by {
                            lemma_chain_empty(a, b, i);
                        }
                    }
                    self.first_done = true;
                },
            }
        }
        self.second.next()
    }
}

impl<P: Replay, Q: Replay<Item = P::Item>> Replay for ChainIter<P, Q> {
    open spec fn replayable() -> bool {
        P::replayable() && Q::replayable()
    }

    fn replay(&self) -> (r: Self) {
        let first = self.first.replay();
        let second = self.second.replay();
        proof {
            lemma_same_stream(stream_of(first), stream_of(self.first));
            lemma_same_stream(stream_of(second), stream_of(self.second));
        }
        ChainIter { first, first_done: self.first_done, second }
    }
}

impl<I: NonEmptyIterator, J: Producer<Item = I::Item>> NonEmptyIterator for Chain<I, J> {
    type Item = I::Item;

    type IntoIter = ChainIter<I::IntoIter, J>;

    open spec fn wf(&self) -> bool {
        self.first().wf() && self.second().valid()
    }

    open spec fn item_at(&self, i: nat) -> Option<I::Item> {
        chain_at(items_of(self.first()), stream_of(self.second()), i)
    }

    proof fn lemma_non_empty(&self) {
        self.first().lemma_non_empty();
        lemma_lead(items_of(self.first()), 1);
    }

    fn into_iter(self) -> (r: ChainIter<I::IntoIter, J>) {
        let ghost g = self.non_empty;
        let first = self.non_empty.into_iter();
        proof {
            lemma_same_stream(stream_of(first), items_of(g));
        }
        let r = ChainIter { first, first_done: false, second: self.maybe_empty };
        assert(r.valid());
        r
    }
}

} // verus!
