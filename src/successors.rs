//! Non-empty iterators that compute each successive item from the preceding one.

use vstd::prelude::*;

use crate::func::{apply1, is_fn1, lemma_apply1};
use crate::non_empty::NonEmptyIterator;
use crate::stream::Producer;

verus! {

/// The item that the `i`-th pull yields when starting from `x` and stepping with `successor`.
pub open spec fn successor_at<T, S: Fn(&T) -> Option<T>>(x: T, successor: S, i: nat) -> Option<T>
    decreases i,
{
    if i == 0 {
        Some(x)
    } else {
        match apply1(successor, &x) {
            Some(y) => successor_at(y, successor, (i - 1) as nat),
            None => None,
        }
    }
}

/// Creates a non-empty iterator that starts at `initial` and computes each next item
/// from the preceding one, until `successor` returns `None`.
pub fn successors<T, S: Fn(&T) -> Option<T>>(initial: T, successor: S) -> (r: Successors<T, S>)
    ensures
        r.initial() == initial,
        r.successor() == successor,
        r.wf() == is_fn1(successor),
        forall|i: nat| #[trigger] r.item_at(i) == successor_at(initial, successor, i),
{
    Successors::new(initial, successor)
}

/// A non-empty iterator that starts at an initial item and computes each next one
/// from the preceding one.
#[verifier::reject_recursive_types(T)]
pub struct Successors<T, S: Fn(&T) -> Option<T>> {
    initial: T,
    successor: S,
}

impl<T, S: Fn(&T) -> Option<T>> Successors<T, S> {
    /// The first item.
    pub closed spec fn initial(&self) -> T {
        self.initial
    }

    /// The function that computes each next item.
    pub closed spec fn successor(&self) -> S {
        self.successor
    }

    /// Constructs the non-empty iterator from `initial` and `successor`.
    pub fn new(initial: T, successor: S) -> (r: Self)
        ensures
            r.initial() == initial,
            r.successor() == successor,
            r.wf() == is_fn1(successor),
            forall|i: nat| #[trigger] r.item_at(i) == successor_at(initial, successor, i),
    {
        Successors { initial, successor }
    }
}

/// The producer that yields its pending item and computes the next one from it.
#[verifier::reject_recursive_types(T)]
pub struct SuccessorsIter<T, S: Fn(&T) -> Option<T>> {
    pending: Option<T>,
    successor: S,
}

impl<T, S: Fn(&T) -> Option<T>> Producer for SuccessorsIter<T, S> {
    type Item = T;

    closed spec fn valid(&self) -> bool {
        is_fn1(self.successor)
    }

    closed spec fn item_at(&self, i: nat) -> Option<T> {
        match self.pending {
            Some(x) => successor_at(x, self.successor, i),
            None => None,
        }
    }

    fn next(&mut self) -> (r: Option<T>) {
        match self.pending.take() {
            Some(x) => {
                let following = (self.successor)(&x);
                proof {
                    lemma_apply1(self.successor, &x, following);
                }
                self.pending = following;
                Some(x)
            },
            None => None,
        }
    }
}

impl<T, S: Fn(&T) -> Option<T>> NonEmptyIterator for Successors<T, S> {
    type Item = T;

    type IntoIter = SuccessorsIter<T, S>;

    open spec fn wf(&self) -> bool {
        is_fn1(self.successor())
    }

    open spec fn item_at(&self, i: nat) -> Option<T> {
        successor_at(self.initial(), self.successor(), i)
    }

    proof fn lemma_non_empty(&self) {
    }

    fn into_iter(self) -> (r: SuccessorsIter<T, S>) {
        let r = SuccessorsIter { pending: Some(self.initial), successor: self.successor };
        assert(r.valid());
        r
    }
}

} // verus!
