//! Yielding items exactly once.

use vstd::pervasive::strictly_cloned;
use vstd::prelude::*;

use crate::func::{apply0, clones_exactly, is_fn0, lemma_apply0};
use crate::non_empty::NonEmptyIterator;
use crate::stream::{
    BackProducer, Producer, Replay, drop_back, ends_at, lemma_ends_at_contents, lemma_same_stream,
    stream_of,
};

verus! {

/// Creates a non-empty iterator that yields `value` exactly once.
pub fn once<T>(value: T) -> (r: Once<T>)
    ensures
        r.wf(),
        r.item_at(0) == Some(value),
        forall|i: nat| i > 0 ==> #[trigger] r.item_at(i) is None,
{
    Once::new(value)
}

/// Creates a non-empty iterator that yields the result of `function` exactly once.
pub fn once_with<T, F: FnOnce() -> T>(function: F) -> (r: OnceWith<F>)
    requires
        is_fn0(function),
    ensures
        r.wf(),
        r.item_at(0) == Some(apply0(function)),
        forall|i: nat| i > 0 ==> #[trigger] r.item_at(i) is None,
{
    OnceWith::new(function)
}

/// A non-empty iterator that yields one given value.
pub struct Once<T> {
    value: T,
}

impl<T> Once<T> {
    /// The value to be yielded.
    pub closed spec fn value(&self) -> T {
        self.value
    }

    /// Constructs a non-empty iterator that yields `value` exactly once.
    pub fn new(value: T) -> (r: Self)
        ensures
            r.value() == value,
            r.wf(),
            r.item_at(0) == Some(value),
            forall|i: nat| i > 0 ==> #[trigger] r.item_at(i) is None,
    {
        Once { value }
    }
}

/// The producer that yields one value, if it still holds it.
pub struct OnceIter<T> {
    value: Option<T>,
}

impl<T> Producer for OnceIter<T> {
    type Item = T;

    open spec fn valid(&self) -> bool {
        true
    }

    closed spec fn item_at(&self, i: nat) -> Option<T> {
        if i == 0 {
            self.value
        } else {
            None
        }
    }

    fn next(&mut self) -> (r: Option<T>) {
        self.value.take()
    }
}

impl<T: Clone> Replay for OnceIter<T> {
    open spec fn replayable() -> bool {
        clones_exactly::<T>()
    }

    fn replay(&self) -> (r: Self) {
        let value = match &self.value {
            Some(x) => {
                let c = x.clone();
                assert(strictly_cloned(*x, c));
                Some(c)
            },
            None => None,
        };
        OnceIter { value }
    }
}

impl<T> BackProducer for OnceIter<T> {
    proof fn lemma_bounded(&self) {
        let s = stream_of(*self);
        let n: nat = if self.value is Some {
            1
        } else {
            0
        };
        assert(ends_at(s, n));
        lemma_ends_at_contents(s, n);
    }

    fn next_back(&mut self) -> (r: Option<T>) {
        let ghost s = stream_of(*self);
        proof {
            let n: nat = if self.value is Some {
                1
            } else {
                0
            };
            assert(ends_at(s, n));
            lemma_ends_at_contents(s, n);
        }
        let r = self.value.take();
        proof {
            assert forall|i: nat| #[trigger] stream_of(*self)(i) == drop_back(s)(i) by {}
            lemma_same_stream(stream_of(*self), drop_back(s));
        }
        r
    }
}

impl<T> NonEmptyIterator for Once<T> {
    type Item = T;

    type IntoIter = OnceIter<T>;

    open spec fn wf(&self) -> bool {
        true
    }

    open spec fn item_at(&self, i: nat) -> Option<T> {
        if i == 0 {
            Some(self.value())
        } else {
            None
        }
    }

    proof fn lemma_non_empty(&self) {
    }

    fn into_iter(self) -> (r: OnceIter<T>) {
        let r = OnceIter { value: Some(self.value) };
        assert(r.valid());
        r
    }
}

/// A non-empty iterator that yields the result of a function exactly once.
pub struct OnceWith<F> {
    function: F,
}

impl<T, F: FnOnce() -> T> OnceWith<F> {
    /// The function to be called.
    pub closed spec fn function(&self) -> F {
        self.function
    }

    /// Constructs a non-empty iterator that yields the result of `function` once.
    pub fn new(function: F) -> (r: Self)
        ensures
            r.function() == function,
            r.wf() == is_fn0(function),
            r.item_at(0) == Some(apply0(function)),
            forall|i: nat| i > 0 ==> #[trigger] r.item_at(i) is None,
    {
        OnceWith { function }
    }
}

/// The producer that calls a function on its first pull.
pub struct OnceWithIter<F> {
    function: Option<F>,
}

impl<T, F: FnOnce() -> T> Producer for OnceWithIter<F> {
    type Item = T;

    closed spec fn valid(&self) -> bool {
        self.function matches Some(f) ==> is_fn0(f)
    }

    closed spec fn item_at(&self, i: nat) -> Option<T> {
        match self.function {
            Some(f) if i == 0 => Some(apply0(f)),
            _ => None,
        }
    }

    fn next(&mut self) -> (r: Option<T>) {
        match self.function.take() {
            Some(f) => {
                let y = f();
                proof {
                    lemma_apply0(f, y);
                }
                Some(y)
            },
            None => None,
        }
    }
}

impl<T, F: FnOnce() -> T> NonEmptyIterator for OnceWith<F> {
    type Item = T;

    type IntoIter = OnceWithIter<F>;

    open spec fn wf(&self) -> bool {
        is_fn0(self.function())
    }

    open spec fn item_at(&self, i: nat) -> Option<T> {
        if i == 0 {
            Some(apply0(self.function()))
        } else {
            None
        }
    }

    proof fn lemma_non_empty(&self) {
    }

    fn into_iter(self) -> (r: OnceWithIter<F>) {
        let r = OnceWithIter { function: Some(self.function) };
        assert(r.valid());
        r
    }
}

} // verus!
