//! Mapping the items of non-empty iterators to non-empty iterators whose items are yielded.

use vstd::prelude::*;

use crate::flatten::{FlattenIter, all_inner_wf, exhausted, flat_at, inner_items};
use crate::func::is_fn1;
use crate::map::{MapIter, map_at};
use crate::non_empty::{IntoNonEmptyIterator, NonEmptyIterator};
use crate::stream::{Stream, lemma_lead_empty, lemma_same_stream, stream_of};

verus! {

/// The stream of the results of `f` on the items of `x`.
pub open spec fn mapped_items<I: NonEmptyIterator, J, F: Fn(I::Item) -> J>(x: I, f: F) -> Stream<
    J,
> {
    |k: nat| map_at(f, x.item_at(k))
}

/// A non-empty iterator over the items of the non-empty iterators that a function makes
/// of the items of another, in turn.
#[verifier::reject_recursive_types(J)]
pub struct FlatMap<I: NonEmptyIterator, J: IntoNonEmptyIterator, F: Fn(I::Item) -> J> {
    non_empty: I,
    function: F,
}

impl<I: NonEmptyIterator, J: IntoNonEmptyIterator, F: Fn(I::Item) -> J> FlatMap<I, J, F> {
    /// The underlying non-empty iterator.
    pub closed spec fn source(&self) -> I {
        self.non_empty
    }

    /// The function applied to each item.
    pub closed spec fn function(&self) -> F {
        self.function
    }

    /// Constructs the non-empty iterator over the items of `function` applied to each item
    /// of `non_empty`.
    pub fn new(non_empty: I, function: F) -> (r: Self)
        ensures
            r.source() == non_empty,
            r.function() == function,
            r.wf() == (non_empty.wf() && is_fn1(function) && all_inner_wf(
                mapped_items(non_empty, function),
            )),
            forall|i: nat| #[trigger]
                r.item_at(i) == flat_at(exhausted(), mapped_items(non_empty, function), i),
    {
        FlatMap { non_empty, function }
    }
}

impl<I: NonEmptyIterator, J: IntoNonEmptyIterator, F: Fn(I::Item) -> J> NonEmptyIterator for FlatMap<
    I,
    J,
    F,
> {
    type Item = J::Item;

    type IntoIter = FlattenIter<MapIter<I::IntoIter, F>>;

    open spec fn wf(&self) -> bool {
        &&& self.source().wf()
        &&& is_fn1(self.function())
        &&& all_inner_wf(mapped_items(self.source(), self.function()))
    }

    open spec fn item_at(&self, i: nat) -> Option<J::Item> {
        flat_at(exhausted(), mapped_items(self.source(), self.function()), i)
    }

    proof fn lemma_non_empty(&self) {
        self.source().lemma_non_empty();
        let o = mapped_items(self.source(), self.function());
        assert(o(0) is Some);
        let j = o(0)->0;
        j.into_spec().lemma_non_empty();
        assert(inner_items(j)(0) is Some);
        lemma_lead_empty(exhausted::<J::Item>(), 1);
    }

    fn into_iter(self) -> (r: FlattenIter<MapIter<I::IntoIter, F>>) {
        let ghost g = self;
        let inner = self.non_empty.into_iter();
        let outer = MapIter::new(inner, self.function);
        proof {
            lemma_same_stream(stream_of(outer), mapped_items(g.source(), g.function()));
        }
        FlattenIter::new(outer)
    }
}

} // verus!
