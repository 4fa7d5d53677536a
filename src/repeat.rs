//! Non-empty iterators that repeat items.

use vstd::pervasive::strictly_cloned;
use vstd::prelude::*;

use crate::func::{apply0, clones_exactly, is_fn0, lemma_apply0};
use crate::non_empty::NonEmptyIterator;
use crate::size::Size;
use crate::stream::{Producer, Replay};

verus! {

/// Creates a non-empty iterator that repeats `item` endlessly.
pub fn repeat<T: Clone>(item: T) -> (r: Repeat<T>)
    ensures
        r.item() == item,
        r.wf() == clones_exactly::<T>(),
        forall|i: nat| #[trigger] r.item_at(i) == Some(item),
{
    Repeat::new(item)
}

/// A non-empty iterator that repeats one item endlessly.
pub struct Repeat<T: Clone> {
    item: T,
}

impl<T: Clone> Repeat<T> {
    /// The item repeated.
    pub closed spec fn item(&self) -> T {
        self.item
    }

    /// Constructs a non-empty iterator that repeats `item` endlessly.
    pub fn new(item: T) -> (r: Self)
        ensures
            r.item() == item,
            r.wf() == clones_exactly::<T>(),
            forall|i: nat| #[trigger] r.item_at(i) == Some(item),
    {
        Repeat { item }
    }
}

/// The producer that hands out clones of one item endlessly.
pub struct RepeatIter<T: Clone> {
    item: T,
}

impl<T: Clone> Producer for RepeatIter<T> {
    type Item = T;

    closed spec fn valid(&self) -> bool {
        clones_exactly::<T>()
    }

    closed spec fn item_at(&self, i: nat) -> Option<T> {
        Some(self.item)
    }

    fn next(&mut self) -> (r: Option<T>) {
        let c = self.item.clone();
        assert(strictly_cloned(self.item, c));
        Some(c)
    }
}

impl<T: Clone> Replay for RepeatIter<T> {
    open spec fn replayable() -> bool {
        clones_exactly::<T>()
    }

    fn replay(&self) -> (r: Self) {
        let item = self.item.clone();
        assert(strictly_cloned(self.item, item));
        RepeatIter { item }
    }
}

impl<T: Clone> NonEmptyIterator for Repeat<T> {
    type Item = T;

    type IntoIter = RepeatIter<T>;

    open spec fn wf(&self) -> bool {
        clones_exactly::<T>()
    }

    open spec fn item_at(&self, i: nat) -> Option<T> {
        Some(self.item())
    }

    proof fn lemma_non_empty(&self) {
    }

    fn into_iter(self) -> (r: RepeatIter<T>) {
        let r = RepeatIter { item: self.item };
        assert(r.valid());
        r
    }
}

/// Creates a non-empty iterator that repeats the result of `function` endlessly.
pub fn repeat_with<T, F: Fn() -> T>(function: F) -> (r: RepeatWith<F>)
    ensures
        r.function() == function,
        r.wf() == is_fn0(function),
        forall|i: nat| #[trigger] r.item_at(i) == Some(apply0(function)),
{
    RepeatWith::new(function)
}

/// A non-empty iterator that repeats the result of a function endlessly.
pub struct RepeatWith<F> {
    function: F,
}

impl<T, F: Fn() -> T> RepeatWith<F> {
    /// The function called for each item.
    pub closed spec fn function(&self) -> F {
        self.function
    }

    /// Constructs a non-empty iterator that repeats the result of `function` endlessly.
    pub fn new(function: F) -> (r: Self)
        ensures
            r.function() == function,
            r.wf() == is_fn0(function),
            forall|i: nat| #[trigger] r.item_at(i) == Some(apply0(function)),
    {
        RepeatWith { function }
    }
}

/// The producer that calls a function for each item, endlessly.
pub struct RepeatWithIter<F> {
    function: F,
}

impl<T, F: Fn() -> T> Producer for RepeatWithIter<F> {
    type Item = T;

    closed spec fn valid(&self) -> bool {
        is_fn0(self.function)
    }

    closed spec fn item_at(&self, i: nat) -> Option<T> {
        Some(apply0(self.function))
    }

    fn next(&mut self) -> (r: Option<T>) {
        let y = (self.function)();
        proof {
            lemma_apply0(self.function, y);
        }
        Some(y)
    }
}

impl<T, F: Fn() -> T> NonEmptyIterator for RepeatWith<F> {
    type Item = T;

    type IntoIter = RepeatWithIter<F>;

    open spec fn wf(&self) -> bool {
        is_fn0(self.function())
    }

    open spec fn item_at(&self, i: nat) -> Option<T> {
        Some(apply0(self.function()))
    }

    proof fn lemma_non_empty(&self) {
    }

    fn into_iter(self) -> (r: RepeatWithIter<F>) {
        let r = RepeatWithIter { function: self.function };
        assert(r.valid());
        r
    }
}

/// Creates a non-empty iterator that repeats `item` exactly `count` times.
pub fn repeat_n<T: Clone>(item: T, count: Size) -> (r: RepeatN<T>)
    ensures
        r.item() == item,
        r.times() == count,
        r.wf() == clones_exactly::<T>(),
        forall|i: nat| #[trigger] r.item_at(i) == if i < count@ { Some(item) } else { None },
{
    RepeatN::new(item, count)
}

/// A non-empty iterator that repeats one item a non-zero number of times.
pub struct RepeatN<T: Clone> {
    item: T,
    count: Size,
}

impl<T: Clone> RepeatN<T> {
    /// The item repeated.
    pub closed spec fn item(&self) -> T {
        self.item
    }

    /// How many times the item is yielded.
    pub closed spec fn times(&self) -> Size {
        self.count
    }

    /// Constructs a non-empty iterator that repeats `item` exactly `count` times.
    pub fn new(item: T, count: Size) -> (r: Self)
        ensures
            r.item() == item,
            r.times() == count,
            count@ > 0,
            r.wf() == clones_exactly::<T>(),
            forall|i: nat| #[trigger] r.item_at(i) == if i < count@ { Some(item) } else { None },
    {
        let _ = count.get();
        RepeatN { item, count }
    }
}

/// The producer that hands out clones of one item a given number of times.
pub struct RepeatNIter<T: Clone> {
    item: T,
    remaining: usize,
}

impl<T: Clone> Producer for RepeatNIter<T> {
    type Item = T;

    closed spec fn valid(&self) -> bool {
        clones_exactly::<T>()
    }

    closed spec fn item_at(&self, i: nat) -> Option<T> {
        if i < self.remaining {
            Some(self.item)
        } else {
            None
        }
    }

    fn next(&mut self) -> (r: Option<T>) {
        if self.remaining > 0 {
            self.remaining = self.remaining - 1;
            let c = self.item.clone();
            assert(strictly_cloned(self.item, c));
            Some(c)
        } else {
            None
        }
    }
}

impl<T: Clone> Replay for RepeatNIter<T> {
    open spec fn replayable() -> bool {
        clones_exactly::<T>()
    }

    fn replay(&self) -> (r: Self) {
        let item = self.item.clone();
        assert(strictly_cloned(self.item, item));
        RepeatNIter { item, remaining: self.remaining }
    }
}

impl<T: Clone> NonEmptyIterator for RepeatN<T> {
    type Item = T;

    type IntoIter = RepeatNIter<T>;

    open spec fn wf(&self) -> bool {
        clones_exactly::<T>() && self.times()@ > 0
    }

    open spec fn item_at(&self, i: nat) -> Option<T> {
        if i < self.times()@ {
            Some(self.item())
        } else {
            None
        }
    }

    proof fn lemma_non_empty(&self) {
    }

    fn into_iter(self) -> (r: RepeatNIter<T>) {
        let r = RepeatNIter { item: self.item, remaining: self.count.get() };
        assert(r.valid());
        r
    }
}

} // verus!
