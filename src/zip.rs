//! Zipping two non-empty iterators together.

use vstd::prelude::*;

use crate::non_empty::{IntoNonEmptyIterator, NonEmptyIterator};
use crate::stream::{Producer, Replay};

verus! {

/// Pairs the items at one position of two streams, while both yield.
pub open spec fn pair_at<A, B>(a: Option<A>, b: Option<B>) -> Option<(A, B)> {
    match (a, b) {
        (Some(x), Some(y)) => Some((x, y)),
        _ => None,
    }
}

/// Converts both arguments to non-empty iterators and zips them.
pub fn zip<I: IntoNonEmptyIterator, J: IntoNonEmptyIterator>(first: I, second: J) -> (r: Zip<
    I::IntoNonEmptyIter,
    J::IntoNonEmptyIter,
>)
    ensures
        r.first() == first.into_spec(),
        r.second() == second.into_spec(),
        r.wf() == (first.into_spec().wf() && second.into_spec().wf()),
        forall|i: nat| #[trigger]
            r.item_at(i) == pair_at(first.into_spec().item_at(i), second.into_spec().item_at(i)),
{
    Zip::new(first.into_non_empty_iter(), second.into_non_empty_iter())
}

/// A non-empty iterator over the pairs of items at equal positions of two others.
pub struct Zip<I: NonEmptyIterator, J: NonEmptyIterator> {
    first: I,
    second: J,
}

impl<I: NonEmptyIterator, J: NonEmptyIterator> Zip<I, J> {
    /// The iterator giving the first item of each pair.
    pub closed spec fn first(&self) -> I {
        self.first
    }

    /// The iterator giving the second item of each pair.
    pub closed spec fn second(&self) -> J {
        self.second
    }

    /// Constructs the non-empty iterator over the pairs of `first` and `second`.
    pub fn new(first: I, second: J) -> (r: Self)
        ensures
            r.first() == first,
            r.second() == second,
            r.wf() == (first.wf() && second.wf()),
            forall|i: nat| #[trigger]
                r.item_at(i) == pair_at(first.item_at(i), second.item_at(i)),
    {
        Zip { first, second }
    }
}

/// The producer of the pairs of items of two producers, pulled together.
pub struct ZipIter<P: Producer, Q: Producer> {
    first: P,
    second: Q,
}

impl<P: Producer, Q: Producer> Producer for ZipIter<P, Q> {
    type Item = (P::Item, Q::Item);

    closed spec fn valid(&self) -> bool {
        self.first.valid() && self.second.valid()
    }

    closed spec fn item_at(&self, i: nat) -> Option<(P::Item, Q::Item)> {
        pair_at(self.first.item_at(i), self.second.item_at(i))
    }

    fn next(&mut self) -> (r: Option<(P::Item, Q::Item)>) {
        let x = self.first.next();
        let y = self.second.next();
        match (x, y) {
            (Some(a), Some(b)) => Some((a, b)),
            _ => None,
        }
    }
}

impl<P: Replay, Q: Replay> Replay for ZipIter<P, Q> {
    open spec fn replayable() -> bool {
        P::replayable() && Q::replayable()
    }

    fn replay(&self) -> (r: Self) {
        ZipIter { first: self.first.replay(), second: self.second.replay() }
    }
}

impl<I: NonEmptyIterator, J: NonEmptyIterator> NonEmptyIterator for Zip<I, J> {
    type Item = (I::Item, J::Item);

    type IntoIter = ZipIter<I::IntoIter, J::IntoIter>;

    open spec fn wf(&self) -> bool {
        self.first().wf() && self.second().wf()
    }

    open spec fn item_at(&self, i: nat) -> Option<(I::Item, J::Item)> {
        pair_at(self.first().item_at(i), self.second().item_at(i))
    }

    proof fn lemma_non_empty(&self) {
        self.first().lemma_non_empty();
        self.second().lemma_non_empty();
    }

    fn into_iter(self) -> (r: ZipIter<I::IntoIter, J::IntoIter>) {
        let r = ZipIter { first: self.first.into_iter(), second: self.second.into_iter() };
        assert(r.valid());
        r
    }
}

} // verus!
