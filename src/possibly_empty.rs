//! Producers that a non-empty iterator downgrades to when its items may all be dropped:
//! skipping, filtering and taking while a predicate holds.

use vstd::prelude::*;
use vstd::seq_lib::*;

use crate::drain::{holds_ref, results_of};
use crate::func::{apply1, is_fn1, lemma_apply1};
use crate::stream::{
    Producer, Stream, contents, finite, lemma_contents_skip_one, lemma_length, lemma_same_stream,
    length, skip, stream_of,
};

verus! {

/// The producer that drops a given number of items of another first.
pub struct SkipIter<P: Producer> {
    inner: P,
    remaining: usize,
}

impl<P: Producer> SkipIter<P> {
    /// Constructs the producer that drops the first `count` items of `inner`.
    pub fn new(inner: P, count: usize) -> (r: Self)
        requires
            inner.valid(),
        ensures
            r.valid(),
            forall|i: nat| #[trigger] r.item_at(i) == inner.item_at(i + count as nat),
    {
        SkipIter { inner, remaining: count }
    }
}

impl<P: Producer> Producer for SkipIter<P> {
    type Item = P::Item;

    closed spec fn valid(&self) -> bool {
        self.inner.valid()
    }

    closed spec fn item_at(&self, i: nat) -> Option<P::Item> {
        self.inner.item_at(i + self.remaining as nat)
    }

    fn next(&mut self) -> (r: Option<P::Item>) {
        let ghost start = self.inner;
        let ghost count = self.remaining;
        while self.remaining > 0
            invariant
                self.inner.valid(),
                self.remaining <= count,
                forall|i: nat| #[trigger]
                    self.inner.item_at(i) == start.item_at(i + (count - self.remaining) as nat),
            decreases self.remaining,
        {
            let _ = self.inner.next();
            self.remaining = self.remaining - 1;
        }
        self.inner.next()
    }
}

/// Filtering a single item keeps it exactly when the predicate holds of it.
pub proof fn lemma_filter_single<T>(x: T, predicate: spec_fn(T) -> bool)
    ensures
        seq![x].filter(predicate) == if predicate(x) {
            seq![x]
        } else {
            Seq::<T>::empty()
        },
{
    reveal_with_fuel(Seq::filter, 2);
    assert(seq![x].drop_last() =~= Seq::<T>::empty());
    if predicate(x) {
        assert(seq![x].filter(predicate) =~= seq![x]);
    } else {
        assert(seq![x].filter(predicate) =~= Seq::<T>::empty());
    }
}

/// The item at position `i` of `items`, if there is one.
pub open spec fn seq_at<T>(items: Seq<T>, i: nat) -> Option<T> {
    if i < items.len() {
        Some(items[i as int])
    } else {
        None
    }
}

/// The producer of the items of a finite producer that a predicate holds of.
pub struct FilterIter<P: Producer, F: Fn(&P::Item) -> bool> {
    inner: P,
    predicate: F,
    done: bool,
}

impl<P: Producer, F: Fn(&P::Item) -> bool> FilterIter<P, F> {
    /// Constructs the producer of the items of `inner` that `predicate` holds of.
    pub fn new(inner: P, predicate: F) -> (r: Self)
        requires
            inner.valid(),
            finite(stream_of(inner)),
            is_fn1(predicate),
        ensures
            r.valid(),
            forall|i: nat| #[trigger]
                r.item_at(i) == seq_at(contents(stream_of(inner)).filter(holds_ref(predicate)), i),
    {
        FilterIter { inner, predicate, done: false }
    }
}

impl<P: Producer, F: Fn(&P::Item) -> bool> Producer for FilterIter<P, F> {
    type Item = P::Item;

    closed spec fn valid(&self) -> bool {
        &&& self.inner.valid()
        &&& is_fn1(self.predicate)
        &&& !self.done ==> finite(stream_of(self.inner))
    }

    closed spec fn item_at(&self, i: nat) -> Option<P::Item> {
        if self.done {
            None
        } else {
            seq_at(contents(stream_of(self.inner)).filter(holds_ref(self.predicate)), i)
        }
    }

    fn next(&mut self) -> (r: Option<P::Item>) {
        if self.done {
            return None;
        }
        let ghost g = holds_ref(self.predicate);
        let ghost target = contents(stream_of(self.inner)).filter(g);
        loop
            invariant
                self.inner.valid(),
                is_fn1(self.predicate),
                !self.done,
                !old(self).done,
                self.predicate == old(self).predicate,
                g == holds_ref(self.predicate),
                finite(stream_of(self.inner)),
                contents(stream_of(self.inner)).filter(g) == target,
                target == contents(stream_of(old(self).inner)).filter(g),
            decreases length(stream_of(self.inner)),
        {
            let ghost s = stream_of(self.inner);
            proof {
                lemma_length(s);
            }
            match self.inner.next() {
                None => {
                    proof {
                        assert(length(s) == 0) by {
                            if length(s) > 0 {
                                assert(s(0) is Some);
                            }
                        }
                        assert(contents(s) =~= Seq::<P::Item>::empty());
                        assert(target =~= Seq::<P::Item>::empty()) by {
                            reveal(Seq::filter);
                        }
                    }
                    self.done = true;
                    return None;
                },
                Some(x) => {
                    proof {
                        lemma_contents_skip_one(s);
                        lemma_same_stream(stream_of(self.inner), skip(s, 1));
                        assert(contents(s) =~= seq![x] + contents(skip(s, 1)));
                        Seq::filter_distributes_over_add(seq![x], contents(skip(s, 1)), g);
                        lemma_filter_single(x, g);
                    }
                    let keep = (self.predicate)(&x);
                    proof {
                        lemma_apply1(self.predicate, &x, keep);
                    }
                    if keep {
                        proof {
                            let rest = contents(stream_of(self.inner)).filter(g);
                            assert(target =~= seq![x] + rest);
                            assert(old(self).item_at(0) == Some(x));
                            assert forall|i: nat| #[trigger]
                                self.item_at(i) == old(self).item_at(i + 1) by {
                                assert(seq_at(target, i + 1) == seq_at(rest, i));
                            }
                        }
                        return Some(x);
                    }
                    proof {
                        assert(target =~= contents(stream_of(self.inner)).filter(g));
                    }
                },
            }
        }
    }
}

/// The pull yields an item and `predicate` holds of it.
pub open spec fn passes<T>(item: Option<T>, predicate: spec_fn(T) -> bool) -> bool {
    match item {
        Some(x) => predicate(x),
        None => false,
    }
}

/// How many of the first `n` items of `s` come before the first item, or exhaustion,
/// that `predicate` does not hold of.
pub open spec fn lead_while<T>(s: Stream<T>, predicate: spec_fn(T) -> bool, n: nat) -> nat
    decreases n,
{
    if n == 0 {
        0
    } else if lead_while(s, predicate, (n - 1) as nat) == n - 1 && passes(s((n - 1) as nat), predicate) {
        n
    } else {
        lead_while(s, predicate, (n - 1) as nat)
    }
}

/// Once a first item the predicate holds of is pulled, the run is one shorter.
pub proof fn lemma_lead_while_skip<T>(s: Stream<T>, predicate: spec_fn(T) -> bool, n: nat)
    requires
        passes(s(0), predicate),
    ensures
        lead_while(s, predicate, n + 1) == lead_while(skip(s, 1), predicate, n) + 1,
    decreases n,
{
    let t = skip(s, 1);
    if n > 0 {
        lemma_lead_while_skip(s, predicate, (n - 1) as nat);
        assert(t((n - 1) as nat) == s(n));
    } else {
        assert(lead_while(s, predicate, 0) == 0);
        assert(lead_while(t, predicate, 0) == 0);
    }
}

/// With a first item the predicate fails on, or none, the run is empty.
pub proof fn lemma_lead_while_stop<T>(s: Stream<T>, predicate: spec_fn(T) -> bool, n: nat)
    requires
        !passes(s(0), predicate),
    ensures
        lead_while(s, predicate, n) == 0,
    decreases n,
{
    if n > 0 {
        lemma_lead_while_stop(s, predicate, (n - 1) as nat);
    }
}

/// The item of the `i`-th pull of `s` while `predicate` holds of every item so far.
pub open spec fn take_while_at<T>(s: Stream<T>, predicate: spec_fn(T) -> bool, i: nat) -> Option<
    T,
> {
    if lead_while(s, predicate, i + 1) == i + 1 {
        s(i)
    } else {
        None
    }
}

/// The producer of the items of another up to the first one a predicate fails on.
pub struct TakeWhileIter<P: Producer, F: Fn(&P::Item) -> bool> {
    inner: P,
    predicate: F,
    done: bool,
}

impl<P: Producer, F: Fn(&P::Item) -> bool> TakeWhileIter<P, F> {
    /// Constructs the producer of the items of `inner` while `predicate` holds.
    pub fn new(inner: P, predicate: F) -> (r: Self)
        requires
            inner.valid(),
            is_fn1(predicate),
        ensures
            r.valid(),
            forall|i: nat| #[trigger]
                r.item_at(i) == take_while_at(stream_of(inner), holds_ref(predicate), i),
    {
        TakeWhileIter { inner, predicate, done: false }
    }
}

impl<P: Producer, F: Fn(&P::Item) -> bool> Producer for TakeWhileIter<P, F> {
    type Item = P::Item;

    closed spec fn valid(&self) -> bool {
        self.inner.valid() && is_fn1(self.predicate)
    }

    closed spec fn item_at(&self, i: nat) -> Option<P::Item> {
        if self.done {
            None
        } else {
            take_while_at(stream_of(self.inner), holds_ref(self.predicate), i)
        }
    }

    fn next(&mut self) -> (r: Option<P::Item>) {
        if self.done {
            return None;
        }
        let ghost s = stream_of(self.inner);
        let ghost g = holds_ref(self.predicate);
        match self.inner.next() {
            Some(x) => {
                let keep = (self.predicate)(&x);
                proof {
                    lemma_apply1(self.predicate, &x, keep);
                }
                if keep {
                    proof {
                        lemma_same_stream(stream_of(self.inner), skip(s, 1));
                        assert(lead_while(s, g, 1) == 1) by {
                            assert(lead_while(s, g, 0) == 0);
                        }
                        assert forall|i: nat| #[trigger] self.item_at(i) == old(self).item_at(
                            i + 1,
                        ) by {
                            lemma_lead_while_skip(s, g, i + 1);
                        }
                    }
                    return Some(x);
                }
                proof {
                    assert forall|i: nat| #[trigger] old(self).item_at(i) is None by {
                        lemma_lead_while_stop(s, g, i + 1);
                    }
                }
                self.done = true;
                None
            },
            None => {
                proof {
                    assert forall|i: nat| #[trigger] old(self).item_at(i) is None by {
                        lemma_lead_while_stop(s, g, i + 1);
                    }
                }
                self.done = true;
                None
            },
        }
    }
}

/// The items of the finite stream `s` from the first one `predicate` fails on.
pub open spec fn skip_while_at<T>(s: Stream<T>, predicate: spec_fn(T) -> bool, i: nat) -> Option<T> {
    s(i + lead_while(s, predicate, length(s)))
}

/// The producer of the items of a finite producer from the first one a predicate fails on.
pub struct SkipWhileIter<P: Producer, F: Fn(&P::Item) -> bool> {
    inner: P,
    predicate: F,
    started: bool,
}

impl<P: Producer, F: Fn(&P::Item) -> bool> SkipWhileIter<P, F> {
    /// Constructs the producer of the items of `inner` from the first one `predicate`
    /// fails on.
    pub fn new(inner: P, predicate: F) -> (r: Self)
        requires
            inner.valid(),
            finite(stream_of(inner)),
            is_fn1(predicate),
        ensures
            r.valid(),
            forall|i: nat| #[trigger]
                r.item_at(i) == skip_while_at(stream_of(inner), holds_ref(predicate), i),
    {
        SkipWhileIter { inner, predicate, started: false }
    }
}

impl<P: Producer, F: Fn(&P::Item) -> bool> Producer for SkipWhileIter<P, F> {
    type Item = P::Item;

    closed spec fn valid(&self) -> bool {
        &&& self.inner.valid()
        &&& is_fn1(self.predicate)
        &&& !self.started ==> finite(stream_of(self.inner))
    }

    closed spec fn item_at(&self, i: nat) -> Option<P::Item> {
        if self.started {
            self.inner.item_at(i)
        } else {
            skip_while_at(stream_of(self.inner), holds_ref(self.predicate), i)
        }
    }

    fn next(&mut self) -> (r: Option<P::Item>) {
        if self.started {
            return self.inner.next();
        }
        let ghost g = holds_ref(self.predicate);
        let ghost s0 = stream_of(self.inner);
        let ghost m0 = lead_while(s0, g, length(s0));
        let ghost mut k: nat = 0;
        proof {
            lemma_length(s0);
        }
        loop
            invariant
                self.inner.valid(),
                is_fn1(self.predicate),
                !self.started,
                !old(self).started,
                self.predicate == old(self).predicate,
                g == holds_ref(self.predicate),
                s0 == stream_of(old(self).inner),
                m0 == lead_while(s0, g, length(s0)),
                finite(stream_of(self.inner)),
                finite(s0),
                k <= m0,
                length(stream_of(self.inner)) + k == length(s0),
                forall|i: nat| #[trigger] self.inner.item_at(i) == s0(i + k),
                lead_while(stream_of(self.inner), g, length(stream_of(self.inner))) + k == m0,
            decreases length(stream_of(self.inner)),
        {
            let ghost s = stream_of(self.inner);
            proof {
                lemma_length(s);
            }
            match self.inner.next() {
                None => {
                    self.started = true;
                    proof {
                        lemma_lead_while_stop(s, g, length(s));
                        assert forall|i: nat| #[trigger]
                            self.item_at(i) == old(self).item_at(i + 1) by {
                            assert(s(i + 1) == s0(i + 1 + k));
                        }
                    }
                    return None;
                },
                Some(x) => {
                    let skip_it = (self.predicate)(&x);
                    proof {
                        lemma_apply1(self.predicate, &x, skip_it);
                        lemma_contents_skip_one(s);
                        lemma_same_stream(stream_of(self.inner), skip(s, 1));
                    }
                    if !skip_it {
                        self.started = true;
                        proof {
                            lemma_lead_while_stop(s, g, length(s));
                            assert forall|i: nat| #[trigger]
                                self.item_at(i) == old(self).item_at(i + 1) by {
                                assert(stream_of(self.inner)(i) == s0(i + 1 + k));
                            }
                        }
                        return Some(x);
                    }
                    proof {
                        lemma_lead_while_skip(s, g, (length(s) - 1) as nat);
                        k = k + 1;
                    }
                },
            }
        }
    }
}

/// `f` gives a result for the item.
pub open spec fn gives<T, U, F: Fn(T) -> Option<U>>(f: F) -> spec_fn(T) -> bool {
    |x: T| apply1(f, x) is Some
}

/// The result of `f` on the `i`-th item of `s`, while every result so far is present.
pub open spec fn map_while_at<T, U, F: Fn(T) -> Option<U>>(s: Stream<T>, f: F, i: nat) -> Option<
    U,
> {
    if lead_while(s, gives(f), i + 1) == i + 1 {
        apply1(f, s(i)->0)
    } else {
        None
    }
}

/// The producer of the results of a function on the items of another, up to the first
/// absent one.
pub struct MapWhileIter<P: Producer, F> {
    inner: P,
    function: F,
    done: bool,
}

impl<U, P: Producer, F: Fn(P::Item) -> Option<U>> MapWhileIter<P, F> {
    /// Constructs the producer of the results of `function` on `inner` while present.
    pub fn new(inner: P, function: F) -> (r: Self)
        requires
            inner.valid(),
            is_fn1(function),
        ensures
            r.valid(),
            forall|i: nat| #[trigger] r.item_at(i) == map_while_at(stream_of(inner), function, i),
    {
        MapWhileIter { inner, function, done: false }
    }
}

impl<U, P: Producer, F: Fn(P::Item) -> Option<U>> Producer for MapWhileIter<P, F> {
    type Item = U;

    closed spec fn valid(&self) -> bool {
        self.inner.valid() && is_fn1(self.function)
    }

    closed spec fn item_at(&self, i: nat) -> Option<U> {
        if self.done {
            None
        } else {
            map_while_at(stream_of(self.inner), self.function, i)
        }
    }

    fn next(&mut self) -> (r: Option<U>) {
        if self.done {
            return None;
        }
        let ghost s = stream_of(self.inner);
        let ghost g = gives(self.function);
        match self.inner.next() {
            Some(x) => {
                let ghost arg = x;
                let y = (self.function)(x);
                proof {
                    lemma_apply1(self.function, arg, y);
                }
                if y.is_some() {
                    proof {
                        lemma_same_stream(stream_of(self.inner), skip(s, 1));
                        assert(lead_while(s, g, 1) == 1) by {
                            assert(lead_while(s, g, 0) == 0);
                        }
                        assert forall|i: nat| #[trigger] self.item_at(i) == old(self).item_at(
                            i + 1,
                        ) by {
                            lemma_lead_while_skip(s, g, i + 1);
                        }
                    }
                    return y;
                }
                proof {
                    assert forall|i: nat| #[trigger] old(self).item_at(i) is None by {
                        lemma_lead_while_stop(s, g, i + 1);
                    }
                }
                self.done = true;
                None
            },
            None => {
                proof {
                    assert forall|i: nat| #[trigger] old(self).item_at(i) is None by {
                        lemma_lead_while_stop(s, g, i + 1);
                    }
                }
                self.done = true;
                None
            },
        }
    }
}

/// The result is present.
pub open spec fn present<U>() -> spec_fn(Option<U>) -> bool {
    |o: Option<U>| o is Some
}

/// The present result at position `i` of the results of `f` on `items`, if any.
pub open spec fn filter_map_at<T, U, F: Fn(T) -> Option<U>>(items: Seq<T>, f: F, i: nat) -> Option<
    U,
> {
    match seq_at(results_of(items, f).filter(present()), i) {
        Some(o) => o,
        None => None,
    }
}

/// The producer of the present results of a function on the items of a finite producer.
pub struct FilterMapIter<P: Producer, F> {
    inner: P,
    function: F,
    done: bool,
}

impl<U, P: Producer, F: Fn(P::Item) -> Option<U>> FilterMapIter<P, F> {
    /// Constructs the producer of the present results of `function` on `inner`.
    pub fn new(inner: P, function: F) -> (r: Self)
        requires
            inner.valid(),
            finite(stream_of(inner)),
            is_fn1(function),
        ensures
            r.valid(),
            forall|i: nat| #[trigger]
                r.item_at(i) == filter_map_at(contents(stream_of(inner)), function, i),
    {
        FilterMapIter { inner, function, done: false }
    }
}

impl<U, P: Producer, F: Fn(P::Item) -> Option<U>> Producer for FilterMapIter<P, F> {
    type Item = U;

    closed spec fn valid(&self) -> bool {
        &&& self.inner.valid()
        &&& is_fn1(self.function)
        &&& !self.done ==> finite(stream_of(self.inner))
    }

    closed spec fn item_at(&self, i: nat) -> Option<U> {
        if self.done {
            None
        } else {
            filter_map_at(contents(stream_of(self.inner)), self.function, i)
        }
    }

    fn next(&mut self) -> (r: Option<U>) {
        if self.done {
            return None;
        }
        let ghost g = present::<U>();
        let ghost target = results_of(contents(stream_of(self.inner)), self.function).filter(g);
        loop
            invariant
                self.inner.valid(),
                is_fn1(self.function),
                !self.done,
                !old(self).done,
                self.function == old(self).function,
                g == present::<U>(),
                finite(stream_of(self.inner)),
                results_of(contents(stream_of(self.inner)), self.function).filter(g) == target,
                target == results_of(contents(stream_of(old(self).inner)), self.function).filter(g),
            decreases length(stream_of(self.inner)),
        {
            let ghost s = stream_of(self.inner);
            proof {
                lemma_length(s);
            }
            match self.inner.next() {
                None => {
                    proof {
                        assert(length(s) == 0) by {
                            if length(s) > 0 {
                                assert(s(0) is Some);
                            }
                        }
                        assert(results_of(contents(s), self.function) =~= Seq::<Option<U>>::empty());
                        assert(target =~= Seq::<Option<U>>::empty()) by {
                            reveal(Seq::filter);
                        }
                    }
                    self.done = true;
                    return None;
                },
                Some(x) => {
                    let ghost f = self.function;
                    let ghost arg = x;
                    let y = (self.function)(x);
                    proof {
                        lemma_apply1(f, arg, y);
                        lemma_contents_skip_one(s);
                        lemma_same_stream(stream_of(self.inner), skip(s, 1));
                        let rest = results_of(contents(skip(s, 1)), f);
                        assert(results_of(contents(s), f) =~= seq![y] + rest);
                        Seq::filter_distributes_over_add(seq![y], rest, g);
                        lemma_filter_single(y, g);
                    }
                    if y.is_some() {
                        proof {
                            let rest = results_of(contents(stream_of(self.inner)), f).filter(g);
                            assert(target =~= seq![y] + rest);
                            assert forall|i: nat| #[trigger]
                                self.item_at(i) == old(self).item_at(i + 1) by {
                                assert(seq_at(target, i + 1) == seq_at(rest, i));
                            }
                        }
                        return y;
                    }
                    proof {
                        assert(target =~= results_of(contents(stream_of(self.inner)), f).filter(g));
                    }
                },
            }
        }
    }
}

} // verus!
