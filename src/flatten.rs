//! Flattening one level of nesting in non-empty iterators whose items turn into
//! non-empty iterators.

use vstd::prelude::*;

use crate::non_empty::{IntoNonEmptyIterator, NonEmptyIterator, items_of};
use crate::stream::{
    Producer, Stream, lead, lemma_lead, lemma_lead_empty, lemma_lead_skip, lemma_same_stream, skip,
    stream_of,
};

verus! {

/// The stream that is exhausted at once.
pub open spec fn exhausted<T>() -> Stream<T> {
    |i: nat| None
}

/// The items that `j` yields once turned into its non-empty iterator.
pub open spec fn inner_items<J: IntoNonEmptyIterator>(j: J) -> Stream<J::Item> {
    items_of(j.into_spec())
}

/// Every item that `outer` yields turns into a well-formed non-empty iterator.
pub open spec fn all_inner_wf<J: IntoNonEmptyIterator>(outer: Stream<J>) -> bool {
    forall|i: nat| #[trigger] outer(i) matches Some(j) ==> j.into_spec().wf()
}

/// The item of the `i`-th pull of the rest of `front`, followed by the items of each
/// item of `outer` in turn.
pub open spec fn flat_at<J: IntoNonEmptyIterator>(
    front: Stream<J::Item>,
    outer: Stream<J>,
    i: nat,
) -> Option<J::Item>
    decreases i,
{
    let m = lead(front, i + 1);
    if m == i + 1 {
        front(i)
    } else {
        match outer(0) {
            None => None,
            Some(j) => {
                let g = inner_items(j);
                if g(0) is None {
                    None
                } else if i <= m {
                    g(0)
                } else {
                    flat_at(skip(g, 1), skip(outer, 1), (i - m - 1) as nat)
                }
            },
        }
    }
}

/// Pulling from a front that yields pulls from it.
pub proof fn lemma_flat_front<J: IntoNonEmptyIterator>(
    front: Stream<J::Item>,
    outer: Stream<J>,
    i: nat,
)
    requires
        front(0) is Some,
    ensures
        flat_at(front, outer, i + 1) == flat_at(skip(front, 1), outer, i),
        flat_at(front, outer, 0) == front(0),
{
    lemma_lead_skip(front, i + 1);
    lemma_lead(skip(front, 1), i + 1);
    assert(lead(front, 1) == 1) by {
        assert(lead(front, 0) == 0);
    }
}

/// With the front exhausted, the items come from the items of `outer`.
pub proof fn lemma_flat_outer<J: IntoNonEmptyIterator>(
    front: Stream<J::Item>,
    outer: Stream<J>,
    i: nat,
)
    requires
        front(0) is None,
    ensures
        flat_at(front, outer, i) == flat_at(exhausted(), outer, i),
{
    lemma_lead_empty(front, i + 1);
    lemma_lead_empty(exhausted::<J::Item>(), i + 1);
}

/// The producer of the items of each item of a producer in turn.
pub struct FlattenIter<P: Producer> where P::Item: IntoNonEmptyIterator {
    outer: P,
    outer_done: bool,
    front: Option<
        <<P::Item as IntoNonEmptyIterator>::IntoNonEmptyIter as NonEmptyIterator>::IntoIter,
    >,
}

impl<P: Producer> FlattenIter<P> where P::Item: IntoNonEmptyIterator {
    /// The items of the front part, or none when there is no front.
    pub closed spec fn front_items(&self) -> Stream<<P::Item as IntoNonEmptyIterator>::Item> {
        match self.front {
            Some(f) => stream_of(f),
            None => exhausted(),
        }
    }

    /// The outer items still to come, or none once the outer producer is exhausted.
    pub closed spec fn outer_items(&self) -> Stream<P::Item> {
        if self.outer_done {
            exhausted()
        } else {
            stream_of(self.outer)
        }
    }

    /// Starts flattening the items of `outer`.
    pub fn new(outer: P) -> (r: Self)
        requires
            outer.valid(),
            all_inner_wf(stream_of(outer)),
        ensures
            r.valid(),
            forall|i: nat| #[trigger] r.item_at(i) == flat_at(exhausted(), stream_of(outer), i),
    {
        FlattenIter { outer, outer_done: false, front: None }
    }
}

impl<P: Producer> Producer for FlattenIter<P> where P::Item: IntoNonEmptyIterator {
    type Item = <P::Item as IntoNonEmptyIterator>::Item;

    closed spec fn valid(&self) -> bool {
        &&& self.outer.valid()
        &&& all_inner_wf(stream_of(self.outer))
        &&& self.front matches Some(f) ==> f.valid()
    }

    closed spec fn item_at(&self, i: nat) -> Option<Self::Item> {
        flat_at(self.front_items(), self.outer_items(), i)
    }

    fn next(&mut self) -> (r: Option<Self::Item>) {
        let ghost outer0 = self.outer_items();
        let taken = self.front.take();
        match taken {
            Some(mut front) => {
                let ghost f0 = stream_of(front);
                let r = front.next();
                if r.is_some() {
                    proof {
                        lemma_same_stream(stream_of(front), skip(f0, 1));
                        assert forall|i: nat| #[trigger]
                            flat_at(f0, outer0, i + 1) == flat_at(skip(f0, 1), outer0, i) by {
                            lemma_flat_front(f0, outer0, i);
                        }
                        lemma_flat_front(f0, outer0, 0);
                    }
                    self.front = Some(front);
                    return r;
                }
                proof {
                    assert forall|i: nat| #[trigger]
                        flat_at(f0, outer0, i) == flat_at(exhausted(), outer0, i) by {
                        lemma_flat_outer(f0, outer0, i);
                    }
                }
            },
            None => {},
        }
        self.pull_outer()
    }
}

impl<P: Producer> FlattenIter<P> where P::Item: IntoNonEmptyIterator {
    /// With no front left, starts on the next outer item.
    fn pull_outer(&mut self) -> (r: Option<<P::Item as IntoNonEmptyIterator>::Item>)
        requires
            old(self).valid(),
            old(self).front is None,
        ensures
            final(self).valid(),
            r == flat_at(exhausted(), old(self).outer_items(), 0),
            forall|i: nat| #[trigger]
                final(self).item_at(i) == flat_at(exhausted(), old(self).outer_items(), i + 1),
    {
        let ghost o = self.outer_items();
        proof {
            lemma_lead_empty(exhausted::<<P::Item as IntoNonEmptyIterator>::Item>(), 1);
        }
        if self.outer_done {
            proof {
                assert forall|i: nat| #[trigger]
                    self.item_at(i) == flat_at(exhausted(), o, i + 1) by {
                    lemma_lead_empty(exhausted::<<P::Item as IntoNonEmptyIterator>::Item>(), i + 1);
                    lemma_lead_empty(exhausted::<<P::Item as IntoNonEmptyIterator>::Item>(), i + 2);
                }
            }
            return None;
        }
        let ghost os = stream_of(self.outer);
        let next_outer = self.outer.next();
        proof {
            assert forall|i: nat| #[trigger] stream_of(self.outer)(i) is Some implies (
            stream_of(self.outer)(i)->0).into_spec().wf() by {
                assert(stream_of(self.outer)(i) == os(i + 1));
            }
        }
        match next_outer {
            None => {
                self.outer_done = true;
                proof {
                    assert forall|i: nat| #[trigger]
                        self.item_at(i) == flat_at(exhausted(), o, i + 1) by {
                        lemma_lead_empty(exhausted::<<P::Item as IntoNonEmptyIterator>::Item>(), i + 1);
                        lemma_lead_empty(exhausted::<<P::Item as IntoNonEmptyIterator>::Item>(), i + 2);
                    }
                }
                None
            },
            Some(j) => {
                proof {
                    assert(o(0) == Some(j));
                }
                let n = j.into_non_empty_iter();
                proof {
                    n.lemma_non_empty();
                }
                let mut front = n.into_iter();
                proof {
                    lemma_same_stream(stream_of(front), inner_items(j));
                }
                let ghost g = stream_of(front);
                let r = front.next();
                proof {
                    lemma_same_stream(stream_of(front), skip(g, 1));
                    assert(self.outer_items() == skip(o, 1)) by {
                        lemma_same_stream(self.outer_items(), skip(o, 1));
                    }
                    assert forall|i: nat| #[trigger] flat_at(skip(g, 1), skip(o, 1), i) == flat_at(
                        exhausted(),
                        o,
                        i + 1,
                    ) by {
                        lemma_lead_empty(
                            exhausted::<<P::Item as IntoNonEmptyIterator>::Item>(),
                            i + 2,
                        );
                    }
                }
                self.front = Some(front);
                r
            },
        }
    }
}

/// A non-empty iterator over the items of each item of another in turn.
pub struct Flatten<I: NonEmptyIterator> where I::Item: IntoNonEmptyIterator {
    non_empty: I,
}

impl<I: NonEmptyIterator> Flatten<I> where I::Item: IntoNonEmptyIterator {
    /// The underlying non-empty iterator of non-empty iterators.
    pub closed spec fn source(&self) -> I {
        self.non_empty
    }

    /// Constructs the non-empty iterator flattening `non_empty`.
    pub fn new(non_empty: I) -> (r: Self)
        ensures
            r.source() == non_empty,
            r.wf() == (non_empty.wf() && all_inner_wf(items_of(non_empty))),
            forall|i: nat| #[trigger] r.item_at(i) == flat_at(exhausted(), items_of(non_empty), i),
    {
        Flatten { non_empty }
    }
}

impl<I: NonEmptyIterator> NonEmptyIterator for Flatten<I> where I::Item: IntoNonEmptyIterator {
    type Item = <I::Item as IntoNonEmptyIterator>::Item;

    type IntoIter = FlattenIter<I::IntoIter>;

    open spec fn wf(&self) -> bool {
        self.source().wf() && all_inner_wf(items_of(self.source()))
    }

    open spec fn item_at(&self, i: nat) -> Option<Self::Item> {
        flat_at(exhausted(), items_of(self.source()), i)
    }

    proof fn lemma_non_empty(&self) {
        self.source().lemma_non_empty();
        let j = self.source().item_at(0)->0;
        assert(items_of(self.source())(0) == Some(j));
        j.into_spec().lemma_non_empty();
        lemma_lead_empty(exhausted::<Self::Item>(), 1);
    }

    fn into_iter(self) -> (r: FlattenIter<I::IntoIter>) {
        let ghost g = self.non_empty;
        let outer = self.non_empty.into_iter();
        proof {
            lemma_same_stream(stream_of(outer), items_of(g));
        }
        FlattenIter::new(outer)
    }
}

} // verus!
