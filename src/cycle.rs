//! Repeating non-empty iterators endlessly.

use vstd::arithmetic::div_mod::{lemma_mod_add_multiples_vanish, lemma_small_mod};
use vstd::prelude::*;

use crate::non_empty::{NonEmptyIterator, items_of};
use crate::stream::{
    Producer, Replay, Stream, ends_at, finite, lead, lemma_ends_at_unique, lemma_lead,
    lemma_lead_empty, lemma_lead_skip, lemma_length, lemma_same_stream, length, skip, stream_of,
};

verus! {

/// The item at position `j` of `o` repeated endlessly.
pub open spec fn cycle_of<T>(o: Stream<T>, j: nat) -> Option<T> {
    if finite(o) {
        o(j % length(o))
    } else {
        o(j)
    }
}

/// The item of the `i`-th pull of the rest `c` of a pass, followed by `o` repeated endlessly.
pub open spec fn cycle_at<T>(c: Stream<T>, o: Stream<T>, i: nat) -> Option<T> {
    let m = lead(c, i + 1);
    if m == i + 1 {
        c(i)
    } else {
        cycle_of(o, (i - m) as nat)
    }
}

/// Starting a new pass: the rest of the pass after its first item, then the repetition.
pub proof fn lemma_cycle_restart<T>(o: Stream<T>, i: nat)
    requires
        o(0) is Some,
    ensures
        cycle_at(skip(o, 1), o, i) == cycle_of(o, i + 1),
        cycle_of(o, 0) == o(0),
{
    let t = skip(o, 1);
    let m = lead(t, i + 1);
    lemma_lead(t, i + 1);
    if finite(o) {
        lemma_length(o);
        assert(length(o) > 0);
        assert(0nat % length(o) == 0);
    }
    if m == i + 1 {
        if finite(o) {
            let n = length(o);
            if n <= i + 1 {
                assert(t((n - 1) as nat) is Some);
                assert(o(n) is Some);
            }
            lemma_small_mod(i + 1, n);
        }
    } else {
        assert(t(m) is None);
        assert(o(m + 1) is None);
        assert(ends_at(o, m + 1)) by {
            assert forall|j: nat| j < m + 1 implies (#[trigger] o(j)) is Some by {
                if j > 0 {
                    assert(t((j - 1) as nat) is Some);
                }
            }
        }
        assert(finite(o));
        lemma_length(o);
        lemma_ends_at_unique(o, length(o), m + 1);
        lemma_mod_add_multiples_vanish((i - m) as int, (m + 1) as int);
    }
}

/// A non-empty iterator that repeats the items of another endlessly.
pub struct Cycle<I: NonEmptyIterator> where I::IntoIter: Replay {
    non_empty: I,
}

impl<I: NonEmptyIterator> Cycle<I> where I::IntoIter: Replay {
    /// The underlying non-empty iterator.
    pub closed spec fn source(&self) -> I {
        self.non_empty
    }

    /// Constructs the non-empty iterator repeating `non_empty` endlessly.
    pub fn new(non_empty: I) -> (r: Self)
        ensures
            r.source() == non_empty,
            r.wf() == (non_empty.wf() && <I::IntoIter as Replay>::replayable()),
            forall|i: nat| #[trigger]
                r.item_at(i) == cycle_at(items_of(non_empty), items_of(non_empty), i),
    {
        Cycle { non_empty }
    }
}

/// The producer that replays a fresh copy of the first pass whenever the current pass runs out.
pub struct CycleIter<P: Replay> {
    pristine: P,
    current: P,
}

impl<P: Replay> Producer for CycleIter<P> {
    type Item = P::Item;

    closed spec fn valid(&self) -> bool {
        &&& self.pristine.valid()
        &&& self.current.valid()
        &&& P::replayable()
        &&& self.pristine.item_at(0) is Some
    }

    closed spec fn item_at(&self, i: nat) -> Option<P::Item> {
        cycle_at(stream_of(self.current), stream_of(self.pristine), i)
    }

    fn next(&mut self) -> (r: Option<P::Item>) {
        let ghost c = stream_of(self.current);
        let ghost o = stream_of(self.pristine);
        match self.current.next() {
            Some(x) => {
                proof {
                    lemma_same_stream(stream_of(self.current), skip(c, 1));
                    assert(lead(c, 1) == 1) by {
                        assert(lead(c, 0) == 0);
                    }
                    assert forall|i: nat| #[trigger] self.item_at(i) == old(self).item_at(i + 1) by {
                        lemma_lead_skip(c, i + 1);
                    }
                }
                Some(x)
            },
            None => {
                proof {
                    assert forall|i: nat| #[trigger] old(self).item_at(i) == cycle_of(o, i) by {
                        lemma_lead_empty(c, i + 1);
                    }
                }
                self.current = self.pristine.replay();
                proof {
                    lemma_same_stream(stream_of(self.current), o);
                }
                let r = self.current.next();
                proof {
                    lemma_same_stream(stream_of(self.current), skip(o, 1));
                    lemma_cycle_restart(o, 0);
                    assert forall|i: nat| #[trigger] self.item_at(i) == old(self).item_at(i + 1) by {
                        lemma_cycle_restart(o, i);
                    }
                }
                r
            },
        }
    }
}

impl<I: NonEmptyIterator> NonEmptyIterator for Cycle<I> where I::IntoIter: Replay {
    type Item = I::Item;

    type IntoIter = CycleIter<I::IntoIter>;

    open spec fn wf(&self) -> bool {
        self.source().wf() && <I::IntoIter as Replay>::replayable()
    }

    open spec fn item_at(&self, i: nat) -> Option<I::Item> {
        cycle_at(items_of(self.source()), items_of(self.source()), i)
    }

    proof fn lemma_non_empty(&self) {
        self.source().lemma_non_empty();
        lemma_lead(items_of(self.source()), 1);
    }

    fn into_iter(self) -> (r: CycleIter<I::IntoIter>) {
        let ghost g = self.non_empty;
        proof {
            g.lemma_non_empty();
        }
        let current = self.non_empty.into_iter();
        let pristine = current.replay();
        proof {
            lemma_same_stream(stream_of(current), items_of(g));
            lemma_same_stream(stream_of(pristine), items_of(g));
        }
        let r = CycleIter { pristine, current };
        assert(r.valid());
        r
    }
}

} // verus!
