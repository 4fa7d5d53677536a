//! The ordinary producer over the items of a vector.

use vstd::pervasive::strictly_cloned;
use vstd::prelude::*;

use crate::drain::drain_to_vec;
use crate::func::clones_exactly;
use crate::stream::{
    BackProducer, FromProducer, IntoProducer, Producer, Replay, drop_back, lemma_ends_at_contents,
    lemma_same_stream, stream_of,
};

verus! {

/// A producer that moves the items out of a vector, first to last.
pub struct VecIter<T> {
    reversed: Vec<T>,
}

impl<T> VecIter<T> {
    /// Constructs the producer that yields the items of `items` in order.
    pub fn new(items: Vec<T>) -> (r: Self)
        ensures
            r.valid(),
            forall|i: nat| #[trigger] r.item_at(i) == if i < items@.len() {
                Some(items@[i as int])
            } else {
                None
            },
    {
        let mut items = items;
        let ghost given = items@;
        let mut reversed: Vec<T> = Vec::new();
        while items.len() > 0
            invariant
                items@.len() + reversed@.len() == given.len(),
                items@ == given.subrange(0, items@.len() as int),
                forall|j: int|
                    0 <= j < reversed@.len() ==> #[trigger] reversed@[j] == given[given.len()
                        - 1 - j],
            decreases items@.len(),
        {
            let x = items.pop().unwrap();
            reversed.push(x);
        }
        let r = VecIter { reversed };
        assert forall|i: nat| #[trigger] r.item_at(i) == if i < given.len() {
            Some(given[i as int])
        } else {
            None
        } by {
            if i < given.len() {
                assert(reversed@[reversed@.len() - 1 - i] == given[i as int]);
            }
        }
        r
    }
}

impl<T> Producer for VecIter<T> {
    type Item = T;

    open spec fn valid(&self) -> bool {
        true
    }

    closed spec fn item_at(&self, i: nat) -> Option<T> {
        if i < self.reversed@.len() {
            Some(self.reversed@[self.reversed@.len() - 1 - i])
        } else {
            None
        }
    }

    fn next(&mut self) -> (r: Option<T>) {
        self.reversed.pop()
    }
}

impl<T> BackProducer for VecIter<T> {
    proof fn lemma_bounded(&self) {
        let s = stream_of(*self);
        lemma_ends_at_contents(s, self.reversed@.len());
    }

    fn next_back(&mut self) -> (r: Option<T>) {
        let ghost s = stream_of(*self);
        proof {
            lemma_ends_at_contents(s, self.reversed@.len());
        }
        if self.reversed.len() == 0 {
            proof {
                lemma_same_stream(stream_of(*self), drop_back(s));
            }
            return None;
        }
        let x = self.reversed.remove(0);
        proof {
            assert forall|i: nat| #[trigger] stream_of(*self)(i) == drop_back(s)(i) by {}
            lemma_same_stream(stream_of(*self), drop_back(s));
        }
        Some(x)
    }
}

impl<T: Clone> Replay for VecIter<T> {
    open spec fn replayable() -> bool {
        clones_exactly::<T>()
    }

    fn replay(&self) -> (r: Self) {
        let mut copy: Vec<T> = Vec::new();
        let mut k: usize = 0;
        while k < self.reversed.len()
            invariant
                clones_exactly::<T>(),
                k <= self.reversed@.len(),
                copy@ == self.reversed@.take(k as int),
            decreases self.reversed@.len() - k,
        {
            let c = self.reversed[k].clone();
            assert(strictly_cloned(self.reversed@[k as int], c));
            copy.push(c);
            k = k + 1;
            assert(copy@ =~= self.reversed@.take(k as int));
        }
        assert(copy@ =~= self.reversed@);
        VecIter { reversed: copy }
    }
}

impl<T> IntoProducer for Vec<T> {
    type Item = T;

    type IntoIter = VecIter<T>;

    open spec fn source_valid(&self) -> bool {
        true
    }

    open spec fn source_at(&self, i: nat) -> Option<T> {
        if i < self@.len() {
            Some(self@[i as int])
        } else {
            None
        }
    }

    fn into_producer(self) -> (r: VecIter<T>) {
        VecIter::new(self)
    }
}

impl<T> FromProducer<T> for Vec<T> {
    open spec fn collected(&self) -> Seq<T> {
        self@
    }

    fn from_producer<P: Producer<Item = T>>(p: P) -> (r: Vec<T>) {
        drain_to_vec(p)
    }
}

} // verus!
