//! The non-empty iterator capability and its conversions.

use vstd::prelude::*;
use vstd::std_specs::cmp::{OrdSpec, PartialEqSpec, PartialOrdSpec};

use core::cmp::Ordering;

use crate::adapter::{NonEmptyAdapter, Peekable};
use crate::chain::{Chain, chain_at};
use crate::cloned::Cloned;
use crate::copied::{Copied, deref_at};
use crate::cycle::{Cycle, cycle_at};
use crate::drain::{
    all_hold, all_items, any_holds, any_items, cmp_items, count_items, drain_to_vec, eq_items,
    exhaust_items, fails_ref, find_item, find_map_item, first_match, first_some, fold_items, folder,
    for_each_item, holds, holds_ref, is_sorted_items, is_sorted_ord, keep_max, keep_max_key,
    keep_max_ord, keep_min, keep_min_key, keep_min_ord, last_or, lex_cmp, lex_partial_cmp,
    neighbours_hold, neighbours_ordered, nth_item, partial_cmp_items, partition_items,
    position_item, results_of, select_by, select_by_key, select_ord, seqs_eq, unzip_items,
};
use crate::enumerate::{Enumerate, enumerate_at};
use crate::flat_map::{FlatMap, mapped_items};
use crate::flatten::{Flatten, all_inner_wf, exhausted, flat_at};
use crate::func::{clones_exactly, is_fn1, is_fn2};
use crate::fuse::{Fuse, fuse_at};
use crate::inspect::{Inspect, callable_on_all};
use crate::map::{MapIter, Mapped, map_at};
use crate::peeked::Peeked;
use crate::possibly_empty::{
    FilterIter, FilterMapIter, MapWhileIter, SkipIter, SkipWhileIter, TakeWhileIter, filter_map_at,
    map_while_at, seq_at, skip_while_at, take_while_at,
};
use crate::rev::Rev;
use crate::size::Size;
use crate::step_by::StepBy;
use crate::stream::{
    BackProducer, FromProducer, IntoProducer, Producer, Replay, Stream, bounded, contents, finite,
    lemma_contents_skip_one, lemma_length, lemma_same_stream, length, rev_at, skip, stream_of,
};
use crate::take::Take;
use crate::zip::{Zip, pair_at};

verus! {

/// The stream of what the non-empty iterator `x` yields once downgraded.
pub open spec fn items_of<I: NonEmptyIterator>(x: I) -> Stream<I::Item> {
    |i: nat| x.item_at(i)
}

/// A value that, once downgraded to an ordinary producer, yields at least one item.
///
/// Every implementor proves non-emptiness in `lemma_non_empty`: nothing is taken on trust.
pub trait NonEmptyIterator: Sized {
    /// The type of the items yielded.
    type Item;

    /// The ordinary producer that this downgrades to.
    type IntoIter: Producer<Item = Self::Item>;

    /// Well-formedness of the value.
    spec fn wf(&self) -> bool;

    /// The item that the `i`-th pull of the downgraded producer yields.
    spec fn item_at(&self, i: nat) -> Option<Self::Item>;

    /// Every well-formed value yields an item on its first pull.
    proof fn lemma_non_empty(&self)
        requires
            self.wf(),
        ensures
            self.item_at(0) is Some,
    ;

    /// Downgrades to the ordinary producer, which yields exactly the items described.
    fn into_iter(self) -> (r: Self::IntoIter)
        requires
            self.wf(),
        ensures
            r.valid(),
            forall|i: nat| #[trigger] r.item_at(i) == self.item_at(i),
    ;

    /// Returns the first item together with the possibly empty rest.
    fn consume(self) -> (r: (Self::Item, Self::IntoIter))
        requires
            self.wf(),
        ensures
            r.0 == self.item_at(0)->0,
            r.1.valid(),
            forall|i: nat| #[trigger] r.1.item_at(i) == self.item_at(i + 1),
    {
        proof {
            self.lemma_non_empty();
        }
        let mut iterator = self.into_iter();
        let item = iterator.next().unwrap();
        (item, iterator)
    }

    /// Downgrades and counts the items; the count is never zero.
    fn count(self) -> (r: Size)
        requires
            self.wf(),
            finite((|i: nat| self.item_at(i))),
            length((|i: nat| self.item_at(i))) <= usize::MAX,
        ensures
            r@ == length((|i: nat| self.item_at(i))),
            r@ > 0,
    {
        proof {
            self.lemma_non_empty();
            lemma_length((|i: nat| self.item_at(i)));
        }
        let ghost g = self;
        let it = self.into_iter();
        proof {
            lemma_same_stream(stream_of(it), (|i: nat| g.item_at(i)));
        }
        let n = count_items(it);
        Size::from_positive(n)
    }

    /// Folds every item into `initial` with `function`, first to last.
    fn fold<A, F: Fn(A, Self::Item) -> A>(self, initial: A, function: F) -> (r: A)
        requires
            self.wf(),
            finite((|i: nat| self.item_at(i))),
            is_fn2(function),
        ensures
            r == contents((|i: nat| self.item_at(i))).fold_left(initial, folder(function)),
    {
        let ghost g = self;
        let it = self.into_iter();
        proof {
            lemma_same_stream(stream_of(it), (|i: nat| g.item_at(i)));
        }
        fold_items(it, initial, function)
    }

    /// Combines the items with `function`, starting from the first; there is always a result.
    fn reduce<F: Fn(Self::Item, Self::Item) -> Self::Item>(self, function: F) -> (r: Self::Item)
        requires
            self.wf(),
            finite((|i: nat| self.item_at(i))),
            is_fn2(function),
        ensures
            r == contents((|i: nat| self.item_at(i))).drop_first().fold_left(
                contents((|i: nat| self.item_at(i)))[0],
                folder(function),
            ),
    {
        let ghost s = (|i: nat| self.item_at(i));
        proof {
            self.lemma_non_empty();
            lemma_contents_skip_one(s);
            lemma_length(s);
        }
        let (first, rest) = self.consume();
        proof {
            lemma_same_stream(stream_of(rest), skip(s, 1));
        }
        fold_items(rest, first, function)
    }

    /// Returns the greatest item by `compare`, the last of equals; there is always one.
    fn max_by<F: Fn(&Self::Item, &Self::Item) -> Ordering>(self, compare: F) -> (r: Self::Item)
        requires
            self.wf(),
            finite(|i: nat| self.item_at(i)),
            is_fn2(compare),
        ensures
            contents(|i: nat| self.item_at(i)).contains(r),
            r == contents(|i: nat| self.item_at(i)).drop_first().fold_left(
                contents(|i: nat| self.item_at(i))[0],
                keep_max(compare),
            ),
    {
        let ghost s = (|i: nat| self.item_at(i));
        proof {
            self.lemma_non_empty();
            lemma_contents_skip_one(s);
            lemma_length(s);
        }
        let (first, rest) = self.consume();
        proof {
            lemma_same_stream(stream_of(rest), skip(s, 1));
        }
        let r = select_by(rest, first, compare, true);
        proof {
            let c = contents(s);
            assert(c[0] == first);
            if r != first {
                let j = choose|j: int|
                    0 <= j < c.drop_first().len() && #[trigger] c.drop_first()[j] == r;
                assert(c[j + 1] == r);
            }
        }
        r
    }

    /// Returns the least item by `compare`, the first of equals; there is always one.
    fn min_by<F: Fn(&Self::Item, &Self::Item) -> Ordering>(self, compare: F) -> (r: Self::Item)
        requires
            self.wf(),
            finite(|i: nat| self.item_at(i)),
            is_fn2(compare),
        ensures
            contents(|i: nat| self.item_at(i)).contains(r),
            r == contents(|i: nat| self.item_at(i)).drop_first().fold_left(
                contents(|i: nat| self.item_at(i))[0],
                keep_min(compare),
            ),
    {
        let ghost s = (|i: nat| self.item_at(i));
        proof {
            self.lemma_non_empty();
            lemma_contents_skip_one(s);
            lemma_length(s);
        }
        let (first, rest) = self.consume();
        proof {
            lemma_same_stream(stream_of(rest), skip(s, 1));
        }
        let r = select_by(rest, first, compare, false);
        proof {
            let c = contents(s);
            assert(c[0] == first);
            if r != first {
                let j = choose|j: int|
                    0 <= j < c.drop_first().len() && #[trigger] c.drop_first()[j] == r;
                assert(c[j + 1] == r);
            }
        }
        r
    }

    /// Returns the greatest item, the last of equals; there is always one.
    fn max(self) -> (r: Self::Item) where Self::Item: Ord,
        requires
            self.wf(),
            finite(|i: nat| self.item_at(i)),
        ensures
            contents(|i: nat| self.item_at(i)).contains(r),
            Self::Item::obeys_cmp_spec() ==> r == contents(|i: nat| self.item_at(i)).drop_first(
            ).fold_left(
                contents(|i: nat| self.item_at(i))[0],
                keep_max_ord::<Self::Item>(),
            ),
    {
        let ghost s = (|i: nat| self.item_at(i));
        proof {
            self.lemma_non_empty();
            lemma_contents_skip_one(s);
            lemma_length(s);
        }
        let (first, rest) = self.consume();
        proof {
            lemma_same_stream(stream_of(rest), skip(s, 1));
        }
        let r = select_ord(rest, first, true);
        proof {
            let c = contents(s);
            assert(c[0] == first);
            if r != first {
                let j = choose|j: int|
                    0 <= j < c.drop_first().len() && #[trigger] c.drop_first()[j] == r;
                assert(c[j + 1] == r);
            }
        }
        r
    }

    /// Returns the least item, the first of equals; there is always one.
    fn min(self) -> (r: Self::Item) where Self::Item: Ord,
        requires
            self.wf(),
            finite(|i: nat| self.item_at(i)),
        ensures
            contents(|i: nat| self.item_at(i)).contains(r),
            Self::Item::obeys_cmp_spec() ==> r == contents(|i: nat| self.item_at(i)).drop_first(
            ).fold_left(
                contents(|i: nat| self.item_at(i))[0],
                keep_min_ord::<Self::Item>(),
            ),
    {
        let ghost s = (|i: nat| self.item_at(i));
        proof {
            self.lemma_non_empty();
            lemma_contents_skip_one(s);
            lemma_length(s);
        }
        let (first, rest) = self.consume();
        proof {
            lemma_same_stream(stream_of(rest), skip(s, 1));
        }
        let r = select_ord(rest, first, false);
        proof {
            let c = contents(s);
            assert(c[0] == first);
            if r != first {
                let j = choose|j: int|
                    0 <= j < c.drop_first().len() && #[trigger] c.drop_first()[j] == r;
                assert(c[j + 1] == r);
            }
        }
        r
    }

    /// Tells whether `predicate` holds of every item.
    fn all<P: Fn(Self::Item) -> bool>(self, predicate: P) -> (r: bool)
        requires
            self.wf(),
            finite(|i: nat| self.item_at(i)),
            is_fn1(predicate),
        ensures
            r == all_hold(contents(|i: nat| self.item_at(i)), holds(predicate)),
    {
        let ghost g = self;
        let it = self.into_iter();
        proof {
            lemma_same_stream(stream_of(it), |i: nat| g.item_at(i));
        }
        all_items(it, predicate)
    }

    /// Tells whether `predicate` holds of some item.
    fn any<P: Fn(Self::Item) -> bool>(self, predicate: P) -> (r: bool)
        requires
            self.wf(),
            finite(|i: nat| self.item_at(i)),
            is_fn1(predicate),
        ensures
            r == any_holds(contents(|i: nat| self.item_at(i)), holds(predicate)),
    {
        let ghost g = self;
        let it = self.into_iter();
        proof {
            lemma_same_stream(stream_of(it), |i: nat| g.item_at(i));
        }
        any_items(it, predicate)
    }

    /// Tells whether `predicate` holds of no item.
    fn none<P: Fn(Self::Item) -> bool>(self, predicate: P) -> (r: bool)
        requires
            self.wf(),
            finite(|i: nat| self.item_at(i)),
            is_fn1(predicate),
        ensures
            r == !any_holds(contents(|i: nat| self.item_at(i)), holds(predicate)),
    {
        !self.any(predicate)
    }

    /// Returns the first item that `predicate` holds of, if any.
    fn find<P: Fn(&Self::Item) -> bool>(self, predicate: P) -> (r: Option<Self::Item>)
        requires
            self.wf(),
            finite(|i: nat| self.item_at(i)),
            is_fn1(predicate),
        ensures
            r matches Some(x) ==> first_match(
                contents(|i: nat| self.item_at(i)),
                holds_ref(predicate),
            ) matches Some(j) && x == contents(|i: nat| self.item_at(i))[j as int],
            r is None ==> first_match(contents(|i: nat| self.item_at(i)), holds_ref(predicate))
                is None,
    {
        let ghost g = self;
        let it = self.into_iter();
        proof {
            lemma_same_stream(stream_of(it), |i: nat| g.item_at(i));
        }
        find_item(it, predicate)
    }

    /// Returns the index of the first item that `predicate` holds of, if any.
    fn position<P: Fn(Self::Item) -> bool>(self, predicate: P) -> (r: Option<usize>)
        requires
            self.wf(),
            finite(|i: nat| self.item_at(i)),
            length(|i: nat| self.item_at(i)) <= usize::MAX,
            is_fn1(predicate),
        ensures
            r matches Some(j) ==> first_match(
                contents(|i: nat| self.item_at(i)),
                holds(predicate),
            ) == Some(j as nat),
            r is None ==> first_match(contents(|i: nat| self.item_at(i)), holds(predicate)) is None,
    {
        let ghost g = self;
        let it = self.into_iter();
        proof {
            lemma_same_stream(stream_of(it), |i: nat| g.item_at(i));
        }
        position_item(it, predicate)
    }

    /// Returns the item at index `n`, if there is one; index zero is `consume`'s.
    fn nth(self, n: Size) -> (r: Option<Self::Item>)
        requires
            self.wf(),
        ensures
            r == self.item_at(n@),
    {
        let k = n.get();
        let ghost g = self;
        let it = self.into_iter();
        nth_item(it, k)
    }

    /// Downgrades and drops every item.
    fn exhaust(self)
        requires
            self.wf(),
            finite(|i: nat| self.item_at(i)),
    {
        let ghost g = self;
        let it = self.into_iter();
        proof {
            lemma_same_stream(stream_of(it), |i: nat| g.item_at(i));
        }
        exhaust_items(it)
    }

    /// Collects the items into a collection.
    fn collect<C: FromProducer<Self::Item>>(self) -> (r: C)
        requires
            self.wf(),
            finite(|i: nat| self.item_at(i)),
        ensures
            r.collected() == contents(|i: nat| self.item_at(i)),
    {
        let ghost g = self;
        let it = self.into_iter();
        proof {
            lemma_same_stream(stream_of(it), |i: nat| g.item_at(i));
        }
        C::from_producer(it)
    }

    /// Downgrades and drops the first `count` items; the rest may be empty.
    fn skip(self, count: Size) -> (r: SkipIter<Self::IntoIter>)
        requires
            self.wf(),
        ensures
            r.valid(),
            forall|i: nat| #[trigger] r.item_at(i) == self.item_at(i + count@),
    {
        let k = count.get();
        let it = self.into_iter();
        SkipIter::new(it, k)
    }

    /// Downgrades and keeps the items that `predicate` holds of; there may be none.
    fn filter<P: Fn(&Self::Item) -> bool>(self, predicate: P) -> (r: FilterIter<Self::IntoIter, P>)
        requires
            self.wf(),
            finite(|i: nat| self.item_at(i)),
            is_fn1(predicate),
        ensures
            r.valid(),
            forall|i: nat| #[trigger]
                r.item_at(i) == seq_at(
                    contents(|k: nat| self.item_at(k)).filter(holds_ref(predicate)),
                    i,
                ),
    {
        let ghost g = self;
        let it = self.into_iter();
        proof {
            lemma_same_stream(stream_of(it), |k: nat| g.item_at(k));
        }
        FilterIter::new(it, predicate)
    }

    /// Downgrades and keeps the items up to the first one `predicate` fails on.
    fn take_while<P: Fn(&Self::Item) -> bool>(self, predicate: P) -> (r: TakeWhileIter<
        Self::IntoIter,
        P,
    >)
        requires
            self.wf(),
            is_fn1(predicate),
        ensures
            r.valid(),
            forall|i: nat| #[trigger]
                r.item_at(i) == take_while_at(|k: nat| self.item_at(k), holds_ref(predicate), i),
    {
        let ghost g = self;
        let it = self.into_iter();
        proof {
            lemma_same_stream(stream_of(it), |k: nat| g.item_at(k));
        }
        TakeWhileIter::new(it, predicate)
    }

    /// Returns the item with the greatest key, the last of equals; there is always one.
    fn max_by_key<K: Ord, F: Fn(&Self::Item) -> K>(self, key: F) -> (r: Self::Item)
        requires
            self.wf(),
            finite(|i: nat| self.item_at(i)),
            is_fn1(key),
        ensures
            contents(|i: nat| self.item_at(i)).contains(r),
            K::obeys_cmp_spec() ==> r == contents(|i: nat| self.item_at(i)).drop_first().fold_left(
                contents(|i: nat| self.item_at(i))[0],
                keep_max_key(key),
            ),
    {
        let ghost s = (|i: nat| self.item_at(i));
        proof {
            self.lemma_non_empty();
            lemma_contents_skip_one(s);
            lemma_length(s);
        }
        let (first, rest) = self.consume();
        proof {
            lemma_same_stream(stream_of(rest), skip(s, 1));
        }
        let r = select_by_key(rest, first, key, true);
        proof {
            let c = contents(s);
            assert(c[0] == first);
            if r != first {
                let j = choose|j: int|
                    0 <= j < c.drop_first().len() && #[trigger] c.drop_first()[j] == r;
                assert(c[j + 1] == r);
            }
        }
        r
    }

    /// Returns the item with the least key, the first of equals; there is always one.
    fn min_by_key<K: Ord, F: Fn(&Self::Item) -> K>(self, key: F) -> (r: Self::Item)
        requires
            self.wf(),
            finite(|i: nat| self.item_at(i)),
            is_fn1(key),
        ensures
            contents(|i: nat| self.item_at(i)).contains(r),
            K::obeys_cmp_spec() ==> r == contents(|i: nat| self.item_at(i)).drop_first().fold_left(
                contents(|i: nat| self.item_at(i))[0],
                keep_min_key(key),
            ),
    {
        let ghost s = (|i: nat| self.item_at(i));
        proof {
            self.lemma_non_empty();
            lemma_contents_skip_one(s);
            lemma_length(s);
        }
        let (first, rest) = self.consume();
        proof {
            lemma_same_stream(stream_of(rest), skip(s, 1));
        }
        let r = select_by_key(rest, first, key, false);
        proof {
            let c = contents(s);
            assert(c[0] == first);
            if r != first {
                let j = choose|j: int|
                    0 <= j < c.drop_first().len() && #[trigger] c.drop_first()[j] == r;
                assert(c[j + 1] == r);
            }
        }
        r
    }

    /// Calls `function` on every item, first to last.
    fn for_each<F: Fn(Self::Item)>(self, function: F)
        requires
            self.wf(),
            finite(|i: nat| self.item_at(i)),
            forall|x: Self::Item| #[trigger] function.requires((x,)),
    {
        let ghost g = self;
        let it = self.into_iter();
        proof {
            lemma_same_stream(stream_of(it), |i: nat| g.item_at(i));
        }
        for_each_item(it, function)
    }

    /// Returns the first present result of `function` on the items, if any.
    fn find_map<T, F: Fn(Self::Item) -> Option<T>>(self, function: F) -> (r: Option<T>)
        requires
            self.wf(),
            finite(|i: nat| self.item_at(i)),
            is_fn1(function),
        ensures
            r == first_some(results_of(contents(|i: nat| self.item_at(i)), function)),
    {
        let ghost g = self;
        let it = self.into_iter();
        proof {
            lemma_same_stream(stream_of(it), |i: nat| g.item_at(i));
        }
        find_map_item(it, function)
    }

    /// Splits the items into those `predicate` holds of and the others, keeping their order.
    fn partition<F: Fn(&Self::Item) -> bool>(self, predicate: F) -> (r: (
        Vec<Self::Item>,
        Vec<Self::Item>,
    ))
        requires
            self.wf(),
            finite(|i: nat| self.item_at(i)),
            is_fn1(predicate),
        ensures
            r.0@ == contents(|i: nat| self.item_at(i)).filter(holds_ref(predicate)),
            r.1@ == contents(|i: nat| self.item_at(i)).filter(fails_ref(predicate)),
    {
        let ghost g = self;
        let it = self.into_iter();
        proof {
            lemma_same_stream(stream_of(it), |i: nat| g.item_at(i));
        }
        partition_items(it, predicate)
    }

    /// Tells whether `ordered` holds of every two neighbouring items.
    fn is_sorted_by<F: Fn(&Self::Item, &Self::Item) -> bool>(self, ordered: F) -> (r: bool)
        requires
            self.wf(),
            finite(|i: nat| self.item_at(i)),
            is_fn2(ordered),
        ensures
            r == neighbours_hold(contents(|i: nat| self.item_at(i)), ordered),
    {
        let ghost g = self;
        let it = self.into_iter();
        proof {
            lemma_same_stream(stream_of(it), |i: nat| g.item_at(i));
        }
        is_sorted_items(it, ordered)
    }

    /// Tells whether every item is at most the next one.
    fn is_sorted(self) -> (r: bool) where Self::Item: PartialOrd
        requires
            self.wf(),
            finite(|i: nat| self.item_at(i)),
        ensures
            Self::Item::obeys_partial_cmp_spec() ==> r == neighbours_ordered(
                contents(|i: nat| self.item_at(i)),
            ),
    {
        let ghost g = self;
        let it = self.into_iter();
        proof {
            lemma_same_stream(stream_of(it), |i: nat| g.item_at(i));
        }
        is_sorted_ord(it)
    }

    /// Tells whether the key of every item is at most the key of the next one.
    fn is_sorted_by_key<K: PartialOrd, F: Fn(Self::Item) -> K>(self, key: F) -> (r: bool)
        requires
            self.wf(),
            finite(|i: nat| self.item_at(i)),
            is_fn1(key),
        ensures
            K::obeys_partial_cmp_spec() ==> r == neighbours_ordered(
                contents(|i: nat| map_at(key, self.item_at(i))),
            ),
    {
        let ghost g = self;
        let keys = MapIter::new(self.into_iter(), key);
        proof {
            lemma_same_stream(stream_of(keys), |i: nat| map_at(key, g.item_at(i)));
            let t = |i: nat| g.item_at(i);
            let n = choose|n: nat| (#[trigger] t(n)) is None;
            assert(stream_of(keys)(n) is None);
        }
        is_sorted_ord(keys)
    }

    /// Appends the items to `collection`, in order.
    fn collect_into(self, collection: &mut Vec<Self::Item>)
        requires
            self.wf(),
            finite(|i: nat| self.item_at(i)),
        ensures
            final(collection)@ == old(collection)@ + contents(|i: nat| self.item_at(i)),
    {
        let ghost g = self;
        let it = self.into_iter();
        proof {
            lemma_same_stream(stream_of(it), |i: nat| g.item_at(i));
        }
        let mut items = drain_to_vec(it);
        collection.append(&mut items);
    }

    /// Downgrades and drops the items before the first one `predicate` fails on.
    fn skip_while<P: Fn(&Self::Item) -> bool>(self, predicate: P) -> (r: SkipWhileIter<
        Self::IntoIter,
        P,
    >)
        requires
            self.wf(),
            finite(|i: nat| self.item_at(i)),
            is_fn1(predicate),
        ensures
            r.valid(),
            forall|i: nat| #[trigger]
                r.item_at(i) == skip_while_at(|k: nat| self.item_at(k), holds_ref(predicate), i),
    {
        let ghost g = self;
        let it = self.into_iter();
        proof {
            lemma_same_stream(stream_of(it), |k: nat| g.item_at(k));
        }
        SkipWhileIter::new(it, predicate)
    }

    /// Downgrades and yields the results of `function` up to the first absent one.
    fn map_while<T, F: Fn(Self::Item) -> Option<T>>(self, function: F) -> (r: MapWhileIter<
        Self::IntoIter,
        F,
    >)
        requires
            self.wf(),
            is_fn1(function),
        ensures
            r.valid(),
            forall|i: nat| #[trigger]
                r.item_at(i) == map_while_at(|k: nat| self.item_at(k), function, i),
    {
        let ghost g = self;
        let it = self.into_iter();
        proof {
            lemma_same_stream(stream_of(it), |k: nat| g.item_at(k));
        }
        MapWhileIter::new(it, function)
    }

    /// Downgrades and yields the present results of `function`; there may be none.
    fn filter_map<T, F: Fn(Self::Item) -> Option<T>>(self, function: F) -> (r: FilterMapIter<
        Self::IntoIter,
        F,
    >)
        requires
            self.wf(),
            finite(|i: nat| self.item_at(i)),
            is_fn1(function),
        ensures
            r.valid(),
            forall|i: nat| #[trigger]
                r.item_at(i) == filter_map_at(contents(|k: nat| self.item_at(k)), function, i),
    {
        let ghost g = self;
        let it = self.into_iter();
        proof {
            lemma_same_stream(stream_of(it), |k: nat| g.item_at(k));
        }
        FilterMapIter::new(it, function)
    }

    /// Compares the items with those of `other` lexicographically by their partial order.
    fn partial_cmp<J: IntoProducer>(self, other: J) -> (r: Option<Ordering>) where
        Self::Item: PartialOrd<J::Item>,

        requires
            self.wf(),
            finite(|i: nat| self.item_at(i)),
            other.source_valid(),
            finite(|i: nat| other.source_at(i)),
        ensures
            Self::Item::obeys_partial_cmp_spec() ==> r == lex_partial_cmp(
                contents(|i: nat| self.item_at(i)),
                contents(|i: nat| other.source_at(i)),
            ),
    {
        let ghost g = self;
        let ghost h = other;
        let it = self.into_iter();
        let them = other.into_producer();
        proof {
            lemma_same_stream(stream_of(it), |i: nat| g.item_at(i));
            lemma_same_stream(stream_of(them), |i: nat| h.source_at(i));
        }
        partial_cmp_items(it, them)
    }

    /// Compares the items with those of `other` lexicographically by their order.
    fn cmp<J: IntoProducer<Item = Self::Item>>(self, other: J) -> (r: Ordering) where
        Self::Item: Ord,

        requires
            self.wf(),
            finite(|i: nat| self.item_at(i)),
            other.source_valid(),
            finite(|i: nat| other.source_at(i)),
        ensures
            Self::Item::obeys_cmp_spec() ==> r == lex_cmp(
                contents(|i: nat| self.item_at(i)),
                contents(|i: nat| other.source_at(i)),
            ),
    {
        let ghost g = self;
        let ghost h = other;
        let it = self.into_iter();
        let them = other.into_producer();
        proof {
            lemma_same_stream(stream_of(it), |i: nat| g.item_at(i));
            lemma_same_stream(stream_of(them), |i: nat| h.source_at(i));
        }
        cmp_items(it, them)
    }

    /// Tells whether the items equal those of `other`, position by position.
    fn eq<J: IntoProducer>(self, other: J) -> (r: bool) where Self::Item: PartialEq<J::Item>
        requires
            self.wf(),
            finite(|i: nat| self.item_at(i)),
            other.source_valid(),
            finite(|i: nat| other.source_at(i)),
        ensures
            Self::Item::obeys_eq_spec() ==> r == seqs_eq(
                contents(|i: nat| self.item_at(i)),
                contents(|i: nat| other.source_at(i)),
            ),
    {
        let ghost g = self;
        let ghost h = other;
        let it = self.into_iter();
        let them = other.into_producer();
        proof {
            lemma_same_stream(stream_of(it), |i: nat| g.item_at(i));
            lemma_same_stream(stream_of(them), |i: nat| h.source_at(i));
        }
        eq_items(it, them)
    }

    /// Tells whether the items differ from those of `other`.
    fn ne<J: IntoProducer>(self, other: J) -> (r: bool) where Self::Item: PartialEq<J::Item>
        requires
            self.wf(),
            finite(|i: nat| self.item_at(i)),
            other.source_valid(),
            finite(|i: nat| other.source_at(i)),
        ensures
            Self::Item::obeys_eq_spec() ==> r == !seqs_eq(
                contents(|i: nat| self.item_at(i)),
                contents(|i: nat| other.source_at(i)),
            ),
    {
        !self.eq(other)
    }

    /// Tells whether the items come lexicographically before those of `other`.
    fn lt<J: IntoProducer>(self, other: J) -> (r: bool) where Self::Item: PartialOrd<J::Item>
        requires
            self.wf(),
            finite(|i: nat| self.item_at(i)),
            other.source_valid(),
            finite(|i: nat| other.source_at(i)),
        ensures
            Self::Item::obeys_partial_cmp_spec() ==> r == (lex_partial_cmp(
                contents(|i: nat| self.item_at(i)),
                contents(|i: nat| other.source_at(i)),
            ) == Some(Ordering::Less)),
    {
        match self.partial_cmp(other) {
            Some(Ordering::Less) => true,
            _ => false,
        }
    }

    /// Tells whether the items come lexicographically before or equal those of `other`.
    fn le<J: IntoProducer>(self, other: J) -> (r: bool) where Self::Item: PartialOrd<J::Item>
        requires
            self.wf(),
            finite(|i: nat| self.item_at(i)),
            other.source_valid(),
            finite(|i: nat| other.source_at(i)),
        ensures
            Self::Item::obeys_partial_cmp_spec() ==> r == (lex_partial_cmp(
                contents(|i: nat| self.item_at(i)),
                contents(|i: nat| other.source_at(i)),
            ) is Some && lex_partial_cmp(
                contents(|i: nat| self.item_at(i)),
                contents(|i: nat| other.source_at(i)),
            ) != Some(Ordering::Greater)),
    {
        match self.partial_cmp(other) {
            Some(Ordering::Less) | Some(Ordering::Equal) => true,
            _ => false,
        }
    }

    /// Tells whether the items come lexicographically after those of `other`.
    fn gt<J: IntoProducer>(self, other: J) -> (r: bool) where Self::Item: PartialOrd<J::Item>
        requires
            self.wf(),
            finite(|i: nat| self.item_at(i)),
            other.source_valid(),
            finite(|i: nat| other.source_at(i)),
        ensures
            Self::Item::obeys_partial_cmp_spec() ==> r == (lex_partial_cmp(
                contents(|i: nat| self.item_at(i)),
                contents(|i: nat| other.source_at(i)),
            ) == Some(Ordering::Greater)),
    {
        match self.partial_cmp(other) {
            Some(Ordering::Greater) => true,
            _ => false,
        }
    }

    /// Tells whether the items come lexicographically after or equal those of `other`.
    fn ge<J: IntoProducer>(self, other: J) -> (r: bool) where Self::Item: PartialOrd<J::Item>
        requires
            self.wf(),
            finite(|i: nat| self.item_at(i)),
            other.source_valid(),
            finite(|i: nat| other.source_at(i)),
        ensures
            Self::Item::obeys_partial_cmp_spec() ==> r == (lex_partial_cmp(
                contents(|i: nat| self.item_at(i)),
                contents(|i: nat| other.source_at(i)),
            ) is Some && lex_partial_cmp(
                contents(|i: nat| self.item_at(i)),
                contents(|i: nat| other.source_at(i)),
            ) != Some(Ordering::Less)),
    {
        match self.partial_cmp(other) {
            Some(Ordering::Greater) | Some(Ordering::Equal) => true,
            _ => false,
        }
    }

    /// Returns the last item; there is always one.
    fn last(self) -> (r: Self::Item)
        requires
            self.wf(),
            finite((|i: nat| self.item_at(i))),
        ensures
            r == contents((|i: nat| self.item_at(i))).last(),
    {
        let ghost s = (|i: nat| self.item_at(i));
        proof {
            self.lemma_non_empty();
            lemma_contents_skip_one(s);
            lemma_length(s);
        }
        let (first, rest) = self.consume();
        proof {
            lemma_same_stream(stream_of(rest), skip(s, 1));
        }
        last_or(rest, first)
    }
}

/// The adapters of a non-empty iterator: each builds a new non-empty iterator from it.
pub trait NonEmptyIteratorExt: NonEmptyIterator {
    /// Takes the first item out, keeping it beside the rest.
    fn peeked(self) -> (r: Peeked<Self::IntoIter>)
        requires
            self.wf(),
        ensures
            r.item() == self.item_at(0)->0,
            r.rest().valid(),
            forall|i: nat| #[trigger] r.rest().item_at(i) == self.item_at(i + 1),
            r.wf(),
            forall|i: nat| #[trigger] r.item_at(i) == self.item_at(i),
    {
        proof {
            self.lemma_non_empty();
        }
        let (item, rest) = self.consume();
        Peeked::new(item, rest)
    }

    /// Pairs each item with its position.
    fn enumerate(self) -> (r: Enumerate<Self>)
        ensures
            r.source() == self,
            r.wf() == self.wf(),
            forall|i: nat| #[trigger] r.item_at(i) == enumerate_at(|k: nat| self.item_at(k), 0, i),
    {
        Enumerate::new(self)
    }

    /// Links the items of `other` after these.
    fn chain<J: IntoProducer<Item = Self::Item>>(self, other: J) -> (r: Chain<Self, J::IntoIter>)
        requires
            other.source_valid(),
        ensures
            r.first() == self,
            r.second().valid(),
            forall|i: nat| #[trigger] r.second().item_at(i) == other.source_at(i),
            r.wf() == self.wf(),
            forall|i: nat| #[trigger]
                r.item_at(i) == chain_at(items_of(self), |k: nat| other.source_at(k), i),
    {
        let second = other.into_producer();
        proof {
            lemma_same_stream(stream_of(second), |k: nat| other.source_at(k));
        }
        Chain::new(self, second)
    }

    /// Yields the result of `function` on each item.
    fn map<U, F: Fn(Self::Item) -> U>(self, function: F) -> (r: Mapped<Self, F>)
        ensures
            r.source() == self,
            r.function() == function,
            r.wf() == (self.wf() && is_fn1(function)),
            forall|i: nat| #[trigger] r.item_at(i) == map_at(function, self.item_at(i)),
    {
        Mapped::new(self, function)
    }

    /// Yields at most the first `count` items; never none, as `count` is not zero.
    fn take(self, count: Size) -> (r: Take<Self>)
        ensures
            r.source() == self,
            r.limit() == count,
            count@ > 0,
            r.wf() == self.wf(),
            forall|i: nat| #[trigger]
                r.item_at(i) == if i < count@ {
                    self.item_at(i)
                } else {
                    None
                },
    {
        Take::new(self, count)
    }

    /// Yields the first item and then every `step`-th one.
    fn step_by(self, step: Size) -> (r: StepBy<Self>)
        ensures
            r.source() == self,
            r.step() == step,
            step@ > 0,
            r.wf() == self.wf(),
            forall|i: nat| #[trigger] r.item_at(i) == self.item_at(i * step@),
    {
        StepBy::new(self, step)
    }

    /// Calls `function` on a reference to each item as it passes.
    fn inspect<F: Fn(&Self::Item)>(self, function: F) -> (r: Inspect<Self, F>)
        ensures
            r.source() == self,
            r.function() == function,
            r.wf() == (self.wf() && callable_on_all::<Self::Item, F>(function)),
            forall|i: nat| #[trigger] r.item_at(i) == self.item_at(i),
    {
        Inspect::new(self, function)
    }

    /// Stays exhausted once exhausted.
    fn fuse(self) -> (r: Fuse<Self>)
        ensures
            r.source() == self,
            r.wf() == self.wf(),
            forall|i: nat| #[trigger] r.item_at(i) == fuse_at(items_of(self), i),
    {
        Fuse::new(self)
    }

    /// Yields the items last first.
    fn rev(self) -> (r: Rev<Self>) where Self::IntoIter: BackProducer
        ensures
            r.source() == self,
            r.wf() == (self.wf() && bounded(items_of(self))),
            forall|i: nat| #[trigger] r.item_at(i) == rev_at(items_of(self), i),
    {
        Rev::new(self)
    }

    /// Yields copies of the items referred to.
    fn copied<'a, T: Copy + 'a>(self) -> (r: Copied<'a, T, Self>) where
        Self: NonEmptyIterator<Item = &'a T>,

        ensures
            r.source() == self,
            r.wf() == self.wf(),
            forall|i: nat| #[trigger] r.item_at(i) == deref_at(self.item_at(i)),
    {
        Copied::new(self)
    }

    /// Yields clones of the items referred to.
    fn cloned<'a, T: Clone + 'a>(self) -> (r: Cloned<'a, T, Self>) where
        Self: NonEmptyIterator<Item = &'a T>,

        ensures
            r.source() == self,
            r.wf() == (self.wf() && clones_exactly::<T>()),
            forall|i: nat| #[trigger] r.item_at(i) == deref_at(self.item_at(i)),
    {
        Cloned::new(self)
    }

    /// Splits the pairs into the first and the second items, keeping their order.
    fn unzip<A, B>(self) -> (r: (Vec<A>, Vec<B>)) where Self: NonEmptyIterator<Item = (A, B)>
        requires
            self.wf(),
            finite(items_of(self)),
        ensures
            r.0@ == contents(items_of(self)).map_values(|x: (A, B)| x.0),
            r.1@ == contents(items_of(self)).map_values(|x: (A, B)| x.1),
    {
        let ghost g = self;
        let it = self.into_iter();
        proof {
            lemma_same_stream(stream_of(it), items_of(g));
        }
        unzip_items(it)
    }

    /// Repeats the items endlessly.
    fn cycle(self) -> (r: Cycle<Self>) where Self::IntoIter: Replay
        ensures
            r.source() == self,
            r.wf() == (self.wf() && <Self::IntoIter as Replay>::replayable()),
            forall|i: nat| #[trigger] r.item_at(i) == cycle_at(items_of(self), items_of(self), i),
    {
        Cycle::new(self)
    }

    /// Pairs these items with those of `other`, position by position.
    fn zip<J: IntoNonEmptyIterator>(self, other: J) -> (r: Zip<Self, J::IntoNonEmptyIter>)
        ensures
            r.first() == self,
            r.second() == other.into_spec(),
            r.wf() == (self.wf() && other.into_spec().wf()),
            forall|i: nat| #[trigger]
                r.item_at(i) == pair_at(self.item_at(i), other.into_spec().item_at(i)),
    {
        Zip::new(self, other.into_non_empty_iter())
    }

    /// Yields the items of the non-empty iterator that `function` makes of each item, in turn.
    fn flat_map<J: IntoNonEmptyIterator, F: Fn(Self::Item) -> J>(self, function: F) -> (r:
        FlatMap<Self, J, F>)
        ensures
            r.source() == self,
            r.function() == function,
            r.wf() == (self.wf() && is_fn1(function) && all_inner_wf(
                mapped_items(self, function),
            )),
            forall|i: nat| #[trigger]
                r.item_at(i) == flat_at(exhausted(), mapped_items(self, function), i),
    {
        FlatMap::new(self, function)
    }

    /// Yields the items of each item, in turn.
    fn flatten(self) -> (r: Flatten<Self>) where Self::Item: IntoNonEmptyIterator
        ensures
            r.source() == self,
            r.wf() == (self.wf() && all_inner_wf(items_of(self))),
            forall|i: nat| #[trigger] r.item_at(i) == flat_at(exhausted(), items_of(self), i),
    {
        Flatten::new(self)
    }
}

impl<I: NonEmptyIterator> NonEmptyIteratorExt for I {}

/// Collections that can be built from a non-empty iterator; every collection that
/// can be built from an ordinary producer qualifies.
pub trait FromNonEmptyIterator<T>: Sized {
    /// The items the collection holds, in order.
    spec fn built(&self) -> Seq<T>;

    /// Builds the collection from the finite non-empty iterator `iterable`.
    fn from_non_empty_iter<I: IntoNonEmptyIterator<Item = T>>(iterable: I) -> (r: Self)
        requires
            iterable.into_spec().wf(),
            finite(items_of(iterable.into_spec())),
        ensures
            r.built() == contents(items_of(iterable.into_spec())),
    ;
}

impl<T, C: FromProducer<T>> FromNonEmptyIterator<T> for C {
    open spec fn built(&self) -> Seq<T> {
        self.collected()
    }

    fn from_non_empty_iter<I: IntoNonEmptyIterator<Item = T>>(iterable: I) -> (r: Self) {
        let n = iterable.into_non_empty_iter();
        let it = n.into_iter();
        proof {
            lemma_same_stream(stream_of(it), items_of(n));
        }
        C::from_producer(it)
    }
}

/// Values that can be turned into a non-empty iterator.
pub trait IntoNonEmptyIterator: Sized {
    /// The type of the items yielded.
    type Item;

    /// The non-empty iterator this turns into.
    type IntoNonEmptyIter: NonEmptyIterator<Item = Self::Item>;

    /// The non-empty iterator this turns into.
    spec fn into_spec(self) -> Self::IntoNonEmptyIter;

    /// Turns the value into its non-empty iterator.
    fn into_non_empty_iter(self) -> (r: Self::IntoNonEmptyIter)
        ensures
            r == self.into_spec(),
    ;
}

impl<I: NonEmptyIterator> IntoNonEmptyIterator for I {
    type Item = I::Item;

    type IntoNonEmptyIter = I;

    open spec fn into_spec(self) -> I {
        self
    }

    fn into_non_empty_iter(self) -> (r: I) {
        self
    }
}

/// Marks the values that the checked conversion applies to.
pub trait Sealed {}

impl<I: IntoProducer> Sealed for I {}

/// The checked conversion: any value that turns into a producer can try to become
/// a non-empty iterator.
pub trait TryIntoNonEmptyIterator: Sealed + Sized {
    /// The type of the items yielded.
    type Item;

    /// The non-empty iterator this turns into.
    type IntoNonEmptyIter: NonEmptyIterator<Item = Self::Item>;

    /// The value can be turned into a producer.
    spec fn try_valid(&self) -> bool;

    /// The item that the `i`-th pull of the value's producer yields.
    spec fn try_at(&self, i: nat) -> Option<Self::Item>;

    /// Returns a non-empty iterator over the same items, or `None` when there are none.
    fn try_into_non_empty_iter(self) -> (r: Option<Self::IntoNonEmptyIter>)
        requires
            self.try_valid(),
        ensures
            r is Some <==> self.try_at(0) is Some,
            r matches Some(n) ==> n.wf() && forall|i: nat| #[trigger]
                n.item_at(i) == self.try_at(i),
    ;
}

impl<I: IntoProducer> TryIntoNonEmptyIterator for I {
    type Item = I::Item;

    type IntoNonEmptyIter = NonEmptyAdapter<Peekable<I::IntoIter>>;

    open spec fn try_valid(&self) -> bool {
        self.source_valid()
    }

    open spec fn try_at(&self, i: nat) -> Option<I::Item> {
        self.source_at(i)
    }

    fn try_into_non_empty_iter(self) -> (r: Option<NonEmptyAdapter<Peekable<I::IntoIter>>>) {
        let mut peekable = Peekable::new(self.into_producer());
        if peekable.peek().is_none() {
            return None;
        }
        Some(NonEmptyAdapter::new(peekable))
    }
}

} // verus!
