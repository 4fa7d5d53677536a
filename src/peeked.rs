//! Non-empty peeked iterators.

use vstd::pervasive::strictly_cloned;
use vstd::prelude::*;

use crate::func::clones_exactly;
use crate::non_empty::NonEmptyIterator;
use crate::stream::{Producer, Replay};

verus! {

/// A non-empty iterator made of one item already taken and the possibly empty rest.
pub struct Peeked<I: Producer> {
    item: I::Item,
    rest: I,
}

impl<I: Producer> Peeked<I> {
    /// The item already taken.
    pub closed spec fn item(&self) -> I::Item {
        self.item
    }

    /// The rest of the items.
    pub closed spec fn rest(&self) -> I {
        self.rest
    }

    /// Constructs the non-empty iterator from `item` and the `rest` that follows it.
    pub fn new(item: I::Item, rest: I) -> (r: Self)
        ensures
            r.item() == item,
            r.rest() == rest,
            r.wf() == rest.valid(),
            forall|i: nat| #[trigger]
                r.item_at(i) == if i == 0 {
                    Some(item)
                } else {
                    rest.item_at((i - 1) as nat)
                },
    {
        Peeked { item, rest }
    }

    /// Returns a reference to the item already taken.
    pub fn peek(&self) -> (r: &I::Item)
        ensures
            *r == self.item(),
    {
        &self.item
    }

    /// Returns a mutable reference to the item already taken.
    pub fn peek_mut(&mut self) -> (r: &mut I::Item)
        ensures
            *r == old(self).item(),
            final(self).rest() == old(self).rest(),
            final(self).item() == *final(r),
    {
        &mut self.item
    }

    /// Returns the item already taken and the rest.
    pub fn get(self) -> (r: (I::Item, I))
        ensures
            r.0 == self.item(),
            r.1 == self.rest(),
    {
        (self.item, self.rest)
    }
}

/// The producer that yields a held item first, if it still holds one, and then the rest.
pub struct PeekedIter<I: Producer> {
    first: Option<I::Item>,
    rest: I,
}

impl<I: Producer> Producer for PeekedIter<I> {
    type Item = I::Item;

    closed spec fn valid(&self) -> bool {
        self.rest.valid()
    }

    closed spec fn item_at(&self, i: nat) -> Option<I::Item> {
        match self.first {
            Some(x) => if i == 0 {
                Some(x)
            } else {
                self.rest.item_at((i - 1) as nat)
            },
            None => self.rest.item_at(i),
        }
    }

    fn next(&mut self) -> (r: Option<I::Item>) {
        match self.first.take() {
            Some(x) => Some(x),
            None => self.rest.next(),
        }
    }
}

impl<I: Replay> Replay for PeekedIter<I> where I::Item: Clone {
    open spec fn replayable() -> bool {
        I::replayable() && clones_exactly::<I::Item>()
    }

    fn replay(&self) -> (r: Self) {
        let first = match &self.first {
            Some(x) => {
                let c = x.clone();
                assert(strictly_cloned(*x, c));
                Some(c)
            },
            None => None,
        };
        PeekedIter { first, rest: self.rest.replay() }
    }
}

impl<I: Producer> NonEmptyIterator for Peeked<I> {
    type Item = I::Item;

    type IntoIter = PeekedIter<I>;

    open spec fn wf(&self) -> bool {
        self.rest().valid()
    }

    open spec fn item_at(&self, i: nat) -> Option<I::Item> {
        if i == 0 {
            Some(self.item())
        } else {
            self.rest().item_at((i - 1) as nat)
        }
    }

    proof fn lemma_non_empty(&self) {
    }

    fn into_iter(self) -> (r: PeekedIter<I>) {
        let r = PeekedIter { first: Some(self.item), rest: self.rest };
        assert(r.valid());
        r
    }
}

} // verus!
