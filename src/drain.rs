//! Terminal operations of the ordinary pull protocol: they pull until exhaustion.

use vstd::prelude::*;
use vstd::std_specs::cmp::{OrdSpec, PartialEqSpec, PartialOrdSpec};

use core::cmp::Ordering;

use crate::func::{apply1, apply2, is_fn1, is_fn2, lemma_apply1, lemma_apply2};
use crate::stream::{
    Producer, contents, ends_at, finite, lemma_contents_skip_one, lemma_empty_contents,
    lemma_length, lemma_same_stream, length, skip, stream_of,
};

verus! {

/// Moves every item of the finite producer `p` into a vector, in order.
pub fn drain_to_vec<P: Producer>(p: P) -> (r: Vec<P::Item>)
    requires
        p.valid(),
        finite(stream_of(p)),
    ensures
        r@ == contents(stream_of(p)),
{
    let ghost s = stream_of(p);
    proof {
        lemma_length(s);
    }
    let mut it = p;
    let mut out: Vec<P::Item> = Vec::new();
    loop
        invariant
            s == stream_of(p),
            it.valid(),
            out@.len() <= length(s),
            ends_at(s, length(s)),
            forall|i: nat| #[trigger] it.item_at(i) == s(i + out@.len()),
            out@ == contents(s).take(out@.len() as int),
        decreases length(s) - out@.len(),
    {
        let ghost k = out@.len();
        match it.next() {
            Some(x) => {
                assert(s(k) is Some);
                out.push(x);
                assert(out@ =~= contents(s).take(out@.len() as int));
            },
            None => {
                assert(s(k) is None);
                assert(out@ =~= contents(s));
                return out;
            },
        }
    }
}

/// Counts the items of the finite producer `p`.
pub fn count_items<P: Producer>(p: P) -> (r: usize)
    requires
        p.valid(),
        finite(stream_of(p)),
        length(stream_of(p)) <= usize::MAX,
    ensures
        r == length(stream_of(p)),
{
    let ghost s = stream_of(p);
    proof {
        lemma_length(s);
    }
    let mut it = p;
    let mut n: usize = 0;
    loop
        invariant
            s == stream_of(p),
            it.valid(),
            n <= length(s),
            length(s) <= usize::MAX,
            ends_at(s, length(s)),
            forall|i: nat| #[trigger] it.item_at(i) == s(i + n as nat),
        decreases length(s) - n,
    {
        match it.next() {
            Some(_) => {
                assert(s(n as nat) is Some);
                n = n + 1;
            },
            None => {
                assert(s(n as nat) is None);
                return n;
            },
        }
    }
}

/// The two-argument spec function that `f` computes.
pub open spec fn folder<A, T, F: Fn(A, T) -> A>(f: F) -> spec_fn(A, T) -> A {
    |a: A, x: T| apply2(f, a, x)
}

/// Folds the items of the finite producer `p` into `init` with `f`, first to last.
pub fn fold_items<P: Producer, A, F: Fn(A, P::Item) -> A>(p: P, init: A, f: F) -> (r: A)
    requires
        p.valid(),
        finite(stream_of(p)),
        is_fn2(f),
    ensures
        r == contents(stream_of(p)).fold_left(init, folder(f)),
{
    let ghost s = stream_of(p);
    let ghost g = folder(f);
    proof {
        lemma_length(s);
    }
    let mut it = p;
    let mut acc = init;
    let ghost mut k: nat = 0;
    loop
        invariant
            s == stream_of(p),
            it.valid(),
            k <= length(s),
            ends_at(s, length(s)),
            is_fn2(f),
            g == folder(f),
            forall|i: nat| #[trigger] it.item_at(i) == s(i + k),
            acc == contents(s).take(k as int).fold_left(init, g),
        decreases length(s) - k,
    {
        match it.next() {
            Some(x) => {
                assert(s(k) is Some);
                let ghost before = acc;
                acc = f(acc, x);
                proof {
                    lemma_apply2(f, before, x, acc);
                    assert(contents(s)[k as int] == x);
                    let t = contents(s).take(k + 1 as int);
                    assert(t.drop_last() =~= contents(s).take(k as int));
                    assert(t.last() == x);
                    assert(t.fold_left(init, g) == g(t.drop_last().fold_left(init, g), x));
                    k = k + 1;
                }
            },
            None => {
                assert(s(k) is None);
                assert(contents(s).take(k as int) =~= contents(s));
                return acc;
            },
        }
    }
}

/// Of two items, the second unless `compare` ranks the first greater.
pub open spec fn keep_max<T, F: Fn(&T, &T) -> Ordering>(compare: F) -> spec_fn(T, T) -> T {
    |x: T, y: T|
        if apply2(compare, &x, &y) == Ordering::Greater {
            x
        } else {
            y
        }
}

/// Of two items, the first unless `compare` ranks it greater.
pub open spec fn keep_min<T, F: Fn(&T, &T) -> Ordering>(compare: F) -> spec_fn(T, T) -> T {
    |x: T, y: T|
        if apply2(compare, &x, &y) == Ordering::Greater {
            y
        } else {
            x
        }
}

/// Of two items, the second unless the first is greater.
pub open spec fn keep_max_ord<T: Ord>() -> spec_fn(T, T) -> T {
    |x: T, y: T|
        if x.cmp_spec(&y) == Ordering::Greater {
            x
        } else {
            y
        }
}

/// Of two items, the first unless it is greater.
pub open spec fn keep_min_ord<T: Ord>() -> spec_fn(T, T) -> T {
    |x: T, y: T|
        if x.cmp_spec(&y) == Ordering::Greater {
            y
        } else {
            x
        }
}

/// Selects among `init` and the items of the finite producer `p` with `compare`,
/// keeping the greatest when `greatest` holds and the least otherwise.
pub fn select_by<P: Producer, F: Fn(&P::Item, &P::Item) -> Ordering>(
    p: P,
    init: P::Item,
    compare: F,
    greatest: bool,
) -> (r: P::Item)
    requires
        p.valid(),
        finite(stream_of(p)),
        is_fn2(compare),
    ensures
        r == init || contents(stream_of(p)).contains(r),
        r == contents(stream_of(p)).fold_left(
            init,
            if greatest {
                keep_max(compare)
            } else {
                keep_min(compare)
            },
        ),
{
    let ghost s = stream_of(p);
    let ghost g = if greatest {
        keep_max(compare)
    } else {
        keep_min(compare)
    };
    proof {
        lemma_length(s);
    }
    let mut it = p;
    let mut acc = init;
    let ghost mut k: nat = 0;
    loop
        invariant
            s == stream_of(p),
            it.valid(),
            k <= length(s),
            ends_at(s, length(s)),
            is_fn2(compare),
            g == (if greatest {
                keep_max(compare)
            } else {
                keep_min(compare)
            }),
            forall|i: nat| #[trigger] it.item_at(i) == s(i + k),
            acc == init || contents(s).take(k as int).contains(acc),
            acc == contents(s).take(k as int).fold_left(init, g),
        decreases length(s) - k,
    {
        match it.next() {
            Some(x) => {
                assert(s(k) is Some);
                let ghost before = acc;
                let o = compare(&acc, &x);
                proof {
                    lemma_apply2(compare, &before, &x, o);
                }
                let greater = match o {
                    Ordering::Greater => true,
                    _ => false,
                };
                if greater != greatest {
                    acc = x;
                }
                proof {
                    assert(contents(s)[k as int] == x);
                    let t = contents(s).take(k + 1 as int);
                    assert(t[k as int] == x);
                    if acc != init && acc != x {
                        let j = choose|j: int|
                            0 <= j < k && #[trigger] contents(s).take(k as int)[j] == acc;
                        assert(t[j] == acc);
                    }
                    assert(t.drop_last() =~= contents(s).take(k as int));
                    assert(t.last() == x);
                    assert(t.fold_left(init, g) == g(t.drop_last().fold_left(init, g), x));
                    k = k + 1;
                }
            },
            None => {
                assert(s(k) is None);
                assert(contents(s).take(k as int) =~= contents(s));
                return acc;
            },
        }
    }
}

/// Selects among `init` and the items of the finite producer `p` by their order,
/// keeping the greatest when `greatest` holds and the least otherwise.
pub fn select_ord<P: Producer>(p: P, init: P::Item, greatest: bool) -> (r: P::Item) where
    P::Item: Ord,

    requires
        p.valid(),
        finite(stream_of(p)),
    ensures
        r == init || contents(stream_of(p)).contains(r),
        P::Item::obeys_cmp_spec() ==> r == contents(stream_of(p)).fold_left(
            init,
            if greatest {
                keep_max_ord::<P::Item>()
            } else {
                keep_min_ord::<P::Item>()
            },
        ),
{
    let ghost s = stream_of(p);
    let ghost g = if greatest {
        keep_max_ord::<P::Item>()
    } else {
        keep_min_ord::<P::Item>()
    };
    proof {
        lemma_length(s);
    }
    let mut it = p;
    let mut acc = init;
    let ghost mut k: nat = 0;
    loop
        invariant
            s == stream_of(p),
            it.valid(),
            k <= length(s),
            ends_at(s, length(s)),
            g == (if greatest {
                keep_max_ord::<P::Item>()
            } else {
                keep_min_ord::<P::Item>()
            }),
            forall|i: nat| #[trigger] it.item_at(i) == s(i + k),
            acc == init || contents(s).take(k as int).contains(acc),
            P::Item::obeys_cmp_spec() ==> acc == contents(s).take(k as int).fold_left(init, g),
        decreases length(s) - k,
    {
        match it.next() {
            Some(x) => {
                assert(s(k) is Some);
                let ghost before = acc;
                let o = acc.cmp(&x);
                let greater = match o {
                    Ordering::Greater => true,
                    _ => false,
                };
                if greater != greatest {
                    acc = x;
                }
                proof {
                    assert(contents(s)[k as int] == x);
                    let t = contents(s).take(k + 1 as int);
                    assert(t[k as int] == x);
                    if acc != init && acc != x {
                        let j = choose|j: int|
                            0 <= j < k && #[trigger] contents(s).take(k as int)[j] == acc;
                        assert(t[j] == acc);
                    }
                    assert(t.drop_last() =~= contents(s).take(k as int));
                    assert(t.last() == x);
                    assert(t.fold_left(init, g) == g(t.drop_last().fold_left(init, g), x));
                    k = k + 1;
                }
            },
            None => {
                assert(s(k) is None);
                assert(contents(s).take(k as int) =~= contents(s));
                return acc;
            },
        }
    }
}

/// `predicate` holds of every item of `items`.
pub open spec fn all_hold<T>(items: Seq<T>, predicate: spec_fn(T) -> bool) -> bool {
    forall|j: int| 0 <= j < items.len() ==> predicate(#[trigger] items[j])
}

/// `predicate` holds of some item of `items`.
pub open spec fn any_holds<T>(items: Seq<T>, predicate: spec_fn(T) -> bool) -> bool {
    exists|j: int| 0 <= j < items.len() && predicate(#[trigger] items[j])
}

/// Tells whether `predicate` holds of some item of the finite producer `p`.
pub fn any_items<P: Producer, F: Fn(P::Item) -> bool>(p: P, predicate: F) -> (r: bool)
    requires
        p.valid(),
        finite(stream_of(p)),
        is_fn1(predicate),
    ensures
        r == any_holds(contents(stream_of(p)), holds(predicate)),
{
    let ghost s = stream_of(p);
    proof {
        lemma_length(s);
    }
    let mut it = p;
    let ghost mut k: nat = 0;
    loop
        invariant
            s == stream_of(p),
            it.valid(),
            k <= length(s),
            ends_at(s, length(s)),
            is_fn1(predicate),
            forall|i: nat| #[trigger] it.item_at(i) == s(i + k),
            forall|j: int| 0 <= j < k ==> !apply1(predicate, #[trigger] contents(s)[j]),
        decreases length(s) - k,
    {
        match it.next() {
            Some(x) => {
                assert(s(k) is Some);
                assert(contents(s)[k as int] == x);
                let ghost arg = x;
                let b = predicate(x);
                proof {
                    lemma_apply1(predicate, arg, b);
                }
                if b {
                    return true;
                }
                proof {
                    k = k + 1;
                }
            },
            None => {
                assert(s(k) is None);
                return false;
            },
        }
    }
}

/// Tells whether `predicate` holds of every item of the finite producer `p`.
pub fn all_items<P: Producer, F: Fn(P::Item) -> bool>(p: P, predicate: F) -> (r: bool)
    requires
        p.valid(),
        finite(stream_of(p)),
        is_fn1(predicate),
    ensures
        r == all_hold(contents(stream_of(p)), holds(predicate)),
{
    let ghost s = stream_of(p);
    proof {
        lemma_length(s);
    }
    let mut it = p;
    let ghost mut k: nat = 0;
    loop
        invariant
            s == stream_of(p),
            it.valid(),
            k <= length(s),
            ends_at(s, length(s)),
            is_fn1(predicate),
            forall|i: nat| #[trigger] it.item_at(i) == s(i + k),
            forall|j: int| 0 <= j < k ==> apply1(predicate, #[trigger] contents(s)[j]),
        decreases length(s) - k,
    {
        match it.next() {
            Some(x) => {
                assert(s(k) is Some);
                assert(contents(s)[k as int] == x);
                let ghost arg = x;
                let b = predicate(x);
                proof {
                    lemma_apply1(predicate, arg, b);
                }
                if !b {
                    return false;
                }
                proof {
                    k = k + 1;
                }
            },
            None => {
                assert(s(k) is None);
                return true;
            },
        }
    }
}

/// The predicate that `f` computes.
pub open spec fn holds<T, F: Fn(T) -> bool>(f: F) -> spec_fn(T) -> bool {
    |x: T| apply1(f, x)
}

/// The predicate that `f` computes on a reference to its argument.
pub open spec fn holds_ref<T, F: Fn(&T) -> bool>(f: F) -> spec_fn(T) -> bool {
    |x: T| apply1(f, &x)
}

/// The index of the first item of `items` that `predicate` holds of, if any.
pub open spec fn first_match<T>(items: Seq<T>, predicate: spec_fn(T) -> bool) -> Option<nat> {
    if exists|j: int| 0 <= j < items.len() && predicate(#[trigger] items[j]) {
        Some(
            choose|j: nat|
                j < items.len() && predicate(#[trigger] items[j as int]) && forall|m: int|
                    0 <= m < j ==> !predicate(#[trigger] items[m]),
        )
    } else {
        None
    }
}

/// The first match, when there is one, is a match and comes before every other.
pub proof fn lemma_first_match<T>(items: Seq<T>, predicate: spec_fn(T) -> bool, j: nat)
    requires
        j < items.len(),
        predicate(items[j as int]),
        forall|m: int| 0 <= m < j ==> !predicate(#[trigger] items[m]),
    ensures
        first_match(items, predicate) == Some(j),
{
    let c = choose|c: nat|
        c < items.len() && predicate(#[trigger] items[c as int]) && forall|m: int|
            0 <= m < c ==> !predicate(#[trigger] items[m]);
    assert(c == j) by {
        if c < j {
            assert(!predicate(items[c as int]));
        } else if j < c {
            assert(!predicate(items[j as int]));
        }
    }
}

/// Returns the index of the first item of the finite producer `p` that `predicate` holds of.
pub fn position_item<P: Producer, F: Fn(P::Item) -> bool>(p: P, predicate: F) -> (r: Option<usize>)
    requires
        p.valid(),
        finite(stream_of(p)),
        length(stream_of(p)) <= usize::MAX,
        is_fn1(predicate),
    ensures
        r matches Some(j) ==> first_match(contents(stream_of(p)), holds(predicate)) == Some(j as nat),
        r is None ==> first_match(contents(stream_of(p)), holds(predicate)) is None,
{
    let ghost s = stream_of(p);
    proof {
        lemma_length(s);
    }
    let ghost g = holds(predicate);
    let mut it = p;
    let mut k: usize = 0;
    loop
        invariant
            s == stream_of(p),
            it.valid(),
            k <= length(s),
            length(s) <= usize::MAX,
            ends_at(s, length(s)),
            is_fn1(predicate),
            forall|i: nat| #[trigger] it.item_at(i) == s(i + k as nat),
            g == holds(predicate),
            forall|j: int| 0 <= j < k ==> !g(#[trigger] contents(s)[j]),
        decreases length(s) - k,
    {
        match it.next() {
            Some(x) => {
                assert(s(k as nat) is Some);
                assert(contents(s)[k as int] == x);
                let ghost arg = x;
                let b = predicate(x);
                proof {
                    lemma_apply1(predicate, arg, b);
                }
                if b {
                    proof {
                        lemma_first_match(contents(s), g, k as nat);
                    }
                    return Some(k);
                }
                k = k + 1;
            },
            None => {
                assert(s(k as nat) is None);
                return None;
            },
        }
    }
}

/// Returns the first item of the finite producer `p` that `predicate` holds of.
pub fn find_item<P: Producer, F: Fn(&P::Item) -> bool>(p: P, predicate: F) -> (r: Option<P::Item>)
    requires
        p.valid(),
        finite(stream_of(p)),
        is_fn1(predicate),
    ensures
        r matches Some(x) ==> first_match(contents(stream_of(p)), holds_ref(predicate)) matches Some(
            j,
        ) && x == contents(stream_of(p))[j as int],
        r is None ==> first_match(contents(stream_of(p)), holds_ref(predicate)) is None,
{
    let ghost s = stream_of(p);
    proof {
        lemma_length(s);
    }
    let ghost g = holds_ref(predicate);
    let mut it = p;
    let ghost mut k: nat = 0;
    loop
        invariant
            s == stream_of(p),
            it.valid(),
            k <= length(s),
            ends_at(s, length(s)),
            is_fn1(predicate),
            forall|i: nat| #[trigger] it.item_at(i) == s(i + k),
            g == holds_ref(predicate),
            forall|j: int| 0 <= j < k ==> !g(#[trigger] contents(s)[j]),
        decreases length(s) - k,
    {
        match it.next() {
            Some(x) => {
                assert(s(k) is Some);
                assert(contents(s)[k as int] == x);
                let b = predicate(&x);
                proof {
                    lemma_apply1(predicate, &x, b);
                }
                if b {
                    proof {
                        lemma_first_match(contents(s), g, k);
                    }
                    return Some(x);
                }
                proof {
                    k = k + 1;
                }
            },
            None => {
                assert(s(k) is None);
                return None;
            },
        }
    }
}

/// Pulls `n` items off `p` and returns the one after them, if any.
pub fn nth_item<P: Producer>(p: P, n: usize) -> (r: Option<P::Item>)
    requires
        p.valid(),
    ensures
        r == p.item_at(n as nat),
{
    let mut it = p;
    let mut k: usize = 0;
    while k < n
        invariant
            it.valid(),
            k <= n,
            forall|i: nat| #[trigger] it.item_at(i) == p.item_at(i + k as nat),
        decreases n - k,
    {
        let _ = it.next();
        k = k + 1;
    }
    it.next()
}

/// Pulls every item off the finite producer `p` and drops it.
pub fn exhaust_items<P: Producer>(p: P)
    requires
        p.valid(),
        finite(stream_of(p)),
{
    let ghost s = stream_of(p);
    proof {
        lemma_length(s);
    }
    let mut it = p;
    let ghost mut k: nat = 0;
    loop
        invariant
            s == stream_of(p),
            it.valid(),
            k <= length(s),
            ends_at(s, length(s)),
            forall|i: nat| #[trigger] it.item_at(i) == s(i + k),
        decreases length(s) - k,
    {
        match it.next() {
            Some(_) => {
                assert(s(k) is Some);
                proof {
                    k = k + 1;
                }
            },
            None => {
                return ;
            },
        }
    }
}

/// Calls `function` on every item of the finite producer `p`, first to last.
pub fn for_each_item<P: Producer, F: Fn(P::Item)>(p: P, function: F)
    requires
        p.valid(),
        finite(stream_of(p)),
        forall|x: P::Item| #[trigger] function.requires((x,)),
{
    let ghost s = stream_of(p);
    proof {
        lemma_length(s);
    }
    let mut it = p;
    let ghost mut k: nat = 0;
    loop
        invariant
            s == stream_of(p),
            it.valid(),
            k <= length(s),
            ends_at(s, length(s)),
            forall|x: P::Item| #[trigger] function.requires((x,)),
            forall|i: nat| #[trigger] it.item_at(i) == s(i + k),
        decreases length(s) - k,
    {
        match it.next() {
            Some(x) => {
                assert(s(k) is Some);
                function(x);
                proof {
                    k = k + 1;
                }
            },
            None => {
                return ;
            },
        }
    }
}

/// The first of `results` that is present, if any.
pub open spec fn first_some<T>(results: Seq<Option<T>>) -> Option<T>
    decreases results.len(),
{
    if results.len() == 0 {
        None
    } else if results[0] is Some {
        results[0]
    } else {
        first_some(results.drop_first())
    }
}

/// The results of `f` on each of `items`.
pub open spec fn results_of<T, U, F: Fn(T) -> Option<U>>(items: Seq<T>, f: F) -> Seq<Option<U>> {
    items.map_values(|x: T| apply1(f, x))
}

/// Returns the first present result of `function` on the items of the finite producer `p`.
pub fn find_map_item<P: Producer, U, F: Fn(P::Item) -> Option<U>>(p: P, function: F) -> (r: Option<
    U,
>)
    requires
        p.valid(),
        finite(stream_of(p)),
        is_fn1(function),
    ensures
        r == first_some(results_of(contents(stream_of(p)), function)),
{
    let ghost s = stream_of(p);
    proof {
        lemma_length(s);
    }
    let mut it = p;
    let ghost mut k: nat = 0;
    assert(results_of(contents(s), function).skip(0) =~= results_of(contents(s), function));
    loop
        invariant
            s == stream_of(p),
            it.valid(),
            k <= length(s),
            ends_at(s, length(s)),
            is_fn1(function),
            forall|i: nat| #[trigger] it.item_at(i) == s(i + k),
            first_some(results_of(contents(s), function)) == first_some(
                results_of(contents(s), function).skip(k as int),
            ),
        decreases length(s) - k,
    {
        let ghost rs = results_of(contents(s), function);
        match it.next() {
            Some(x) => {
                assert(s(k) is Some);
                assert(contents(s)[k as int] == x);
                let ghost arg = x;
                let y = function(x);
                proof {
                    lemma_apply1(function, arg, y);
                    assert(rs.skip(k as int)[0] == y);
                    assert(rs.skip(k as int).drop_first() =~= rs.skip(k + 1 as int));
                }
                if y.is_some() {
                    return y;
                }
                proof {
                    k = k + 1;
                }
            },
            None => {
                assert(s(k) is None);
                assert(rs.skip(k as int).len() == 0);
                return None;
            },
        }
    }
}

/// Splits the items of the finite producer `p` by `predicate`, keeping their order.
pub fn partition_items<P: Producer, F: Fn(&P::Item) -> bool>(p: P, predicate: F) -> (r: (
    Vec<P::Item>,
    Vec<P::Item>,
))
    requires
        p.valid(),
        finite(stream_of(p)),
        is_fn1(predicate),
    ensures
        r.0@ == contents(stream_of(p)).filter(holds_ref(predicate)),
        r.1@ == contents(stream_of(p)).filter(fails_ref(predicate)),
{
    let ghost s = stream_of(p);
    let ghost g = holds_ref(predicate);
    let ghost h = fails_ref(predicate);
    proof {
        lemma_length(s);
    }
    let mut it = p;
    let mut yes: Vec<P::Item> = Vec::new();
    let mut no: Vec<P::Item> = Vec::new();
    let ghost mut k: nat = 0;
    loop
        invariant
            s == stream_of(p),
            it.valid(),
            k <= length(s),
            ends_at(s, length(s)),
            is_fn1(predicate),
            g == holds_ref(predicate),
            h == fails_ref(predicate),
            forall|i: nat| #[trigger] it.item_at(i) == s(i + k),
            yes@ == contents(s).take(k as int).filter(g),
            no@ == contents(s).take(k as int).filter(h),
        decreases length(s) - k,
    {
        match it.next() {
            Some(x) => {
                assert(s(k) is Some);
                assert(contents(s)[k as int] == x);
                let b = predicate(&x);
                proof {
                    lemma_apply1(predicate, &x, b);
                    let t = contents(s).take(k + 1 as int);
                    assert(t.drop_last() =~= contents(s).take(k as int));
                    assert(t.last() == x);
                    reveal(Seq::filter);
                    assert(t.filter(g) == if g(x) {
                        t.drop_last().filter(g).push(x)
                    } else {
                        t.drop_last().filter(g)
                    });
                    assert(t.filter(h) == if h(x) {
                        t.drop_last().filter(h).push(x)
                    } else {
                        t.drop_last().filter(h)
                    });
                }
                if b {
                    yes.push(x);
                } else {
                    no.push(x);
                }
                proof {
                    k = k + 1;
                }
            },
            None => {
                assert(s(k) is None);
                assert(contents(s).take(k as int) =~= contents(s));
                return (yes, no);
            },
        }
    }
}

/// The predicate that fails where `f` holds, on a reference to its argument.
pub open spec fn fails_ref<T, F: Fn(&T) -> bool>(f: F) -> spec_fn(T) -> bool {
    |x: T| !apply1(f, &x)
}

/// Tells whether `ordered` holds of every two neighbouring items of the finite producer `p`.
pub fn is_sorted_items<P: Producer, F: Fn(&P::Item, &P::Item) -> bool>(p: P, ordered: F) -> (r:
    bool)
    requires
        p.valid(),
        finite(stream_of(p)),
        is_fn2(ordered),
    ensures
        r == neighbours_hold(contents(stream_of(p)), ordered),
{
    let ghost s = stream_of(p);
    proof {
        lemma_length(s);
    }
    let mut it = p;
    let first = it.next();
    let mut previous = match first {
        Some(x) => x,
        None => {
            return true;
        },
    };
    assert(s(0) is Some);
    let ghost mut k: nat = 1;
    loop
        invariant
            s == stream_of(p),
            it.valid(),
            1 <= k <= length(s),
            ends_at(s, length(s)),
            is_fn2(ordered),
            forall|i: nat| #[trigger] it.item_at(i) == s(i + k),
            previous == contents(s)[k - 1],
            forall|j: int|
                0 <= j < k - 1 ==> #[trigger] apply2(ordered, &contents(s)[j], &contents(s)[j + 1]),
        decreases length(s) - k,
    {
        match it.next() {
            Some(x) => {
                assert(s(k) is Some);
                assert(contents(s)[k as int] == x);
                let ok = ordered(&previous, &x);
                proof {
                    lemma_apply2(ordered, &previous, &x, ok);
                }
                if !ok {
                    proof {
                        let j = k - 1;
                        assert(!apply2(ordered, &contents(s)[j], &contents(s)[j + 1]));
                    }
                    return false;
                }
                previous = x;
                proof {
                    k = k + 1;
                }
            },
            None => {
                assert(s(k) is None);
                return true;
            },
        }
    }
}

/// `x` compares below or equal to `y`.
pub open spec fn at_most<T: PartialOrd>(x: T, y: T) -> bool {
    x.partial_cmp_spec(&y) is Some && x.partial_cmp_spec(&y) != Some(Ordering::Greater)
}

/// Every item of `items` is at most the next one.
pub open spec fn neighbours_ordered<T: PartialOrd>(items: Seq<T>) -> bool {
    forall|j: int| 0 <= j < items.len() - 1 ==> #[trigger] at_most(items[j], items[j + 1])
}

/// Tells whether every item of the finite producer `p` is at most the next one.
pub fn is_sorted_ord<P: Producer>(p: P) -> (r: bool) where P::Item: PartialOrd
    requires
        p.valid(),
        finite(stream_of(p)),
    ensures
        P::Item::obeys_partial_cmp_spec() ==> r == neighbours_ordered(contents(stream_of(p))),
{
    let ghost s = stream_of(p);
    proof {
        lemma_length(s);
    }
    let mut it = p;
    let first = it.next();
    let mut previous = match first {
        Some(x) => x,
        None => {
            return true;
        },
    };
    assert(s(0) is Some);
    let ghost mut k: nat = 1;
    loop
        invariant
            s == stream_of(p),
            it.valid(),
            1 <= k <= length(s),
            ends_at(s, length(s)),
            forall|i: nat| #[trigger] it.item_at(i) == s(i + k),
            previous == contents(s)[k - 1],
            P::Item::obeys_partial_cmp_spec() ==> forall|j: int|
                0 <= j < k - 1 ==> #[trigger] at_most(contents(s)[j], contents(s)[j + 1]),
        decreases length(s) - k,
    {
        match it.next() {
            Some(x) => {
                assert(s(k) is Some);
                assert(contents(s)[k as int] == x);
                let ok = previous.le(&x);
                if !ok {
                    proof {
                        let j = k - 1;
                        if P::Item::obeys_partial_cmp_spec() {
                            assert(!at_most(contents(s)[j], contents(s)[j + 1]));
                        }
                    }
                    return false;
                }
                previous = x;
                proof {
                    k = k + 1;
                }
            },
            None => {
                assert(s(k) is None);
                return true;
            },
        }
    }
}

/// `ordered` holds of every two neighbouring items of `items`.
pub open spec fn neighbours_hold<T, F: Fn(&T, &T) -> bool>(items: Seq<T>, ordered: F) -> bool {
    forall|j: int|
        0 <= j < items.len() - 1 ==> #[trigger] apply2(ordered, &items[j], &items[j + 1])
}

/// Of two items, the second unless the key of the first is greater.
pub open spec fn keep_max_key<T, K: Ord, F: Fn(&T) -> K>(key: F) -> spec_fn(T, T) -> T {
    |x: T, y: T|
        if apply1(key, &x).cmp_spec(&apply1(key, &y)) == Ordering::Greater {
            x
        } else {
            y
        }
}

/// Of two items, the first unless its key is greater.
pub open spec fn keep_min_key<T, K: Ord, F: Fn(&T) -> K>(key: F) -> spec_fn(T, T) -> T {
    |x: T, y: T|
        if apply1(key, &x).cmp_spec(&apply1(key, &y)) == Ordering::Greater {
            y
        } else {
            x
        }
}

/// Selects among `init` and the items of the finite producer `p` by their keys,
/// keeping the greatest when `greatest` holds and the least otherwise.
pub fn select_by_key<P: Producer, K: Ord, F: Fn(&P::Item) -> K>(
    p: P,
    init: P::Item,
    key: F,
    greatest: bool,
) -> (r: P::Item)
    requires
        p.valid(),
        finite(stream_of(p)),
        is_fn1(key),
    ensures
        r == init || contents(stream_of(p)).contains(r),
        K::obeys_cmp_spec() ==> r == contents(stream_of(p)).fold_left(
            init,
            if greatest {
                keep_max_key(key)
            } else {
                keep_min_key(key)
            },
        ),
{
    let ghost s = stream_of(p);
    let ghost g = if greatest {
        keep_max_key(key)
    } else {
        keep_min_key(key)
    };
    proof {
        lemma_length(s);
    }
    let mut it = p;
    let mut acc_key = key(&init);
    proof {
        lemma_apply1(key, &init, acc_key);
    }
    let mut acc = init;
    let ghost mut k: nat = 0;
    loop
        invariant
            s == stream_of(p),
            it.valid(),
            k <= length(s),
            ends_at(s, length(s)),
            is_fn1(key),
            g == (if greatest {
                keep_max_key(key)
            } else {
                keep_min_key(key)
            }),
            acc_key == apply1(key, &acc),
            forall|i: nat| #[trigger] it.item_at(i) == s(i + k),
            acc == init || contents(s).take(k as int).contains(acc),
            K::obeys_cmp_spec() ==> acc == contents(s).take(k as int).fold_left(init, g),
        decreases length(s) - k,
    {
        match it.next() {
            Some(x) => {
                assert(s(k) is Some);
                let x_key = key(&x);
                proof {
                    lemma_apply1(key, &x, x_key);
                }
                let o = acc_key.cmp(&x_key);
                let greater = match o {
                    Ordering::Greater => true,
                    _ => false,
                };
                if greater != greatest {
                    acc = x;
                    acc_key = x_key;
                }
                proof {
                    assert(contents(s)[k as int] == x);
                    let t = contents(s).take(k + 1 as int);
                    assert(t[k as int] == x);
                    if acc != init && acc != x {
                        let j = choose|j: int|
                            0 <= j < k && #[trigger] contents(s).take(k as int)[j] == acc;
                        assert(t[j] == acc);
                    }
                    assert(t.drop_last() =~= contents(s).take(k as int));
                    assert(t.last() == x);
                    assert(t.fold_left(init, g) == g(t.drop_last().fold_left(init, g), x));
                    k = k + 1;
                }
            },
            None => {
                assert(s(k) is None);
                assert(contents(s).take(k as int) =~= contents(s));
                return acc;
            },
        }
    }
}

/// Splits the pairs of the finite producer `p` into the first and the second items.
pub fn unzip_items<A, B, P: Producer<Item = (A, B)>>(p: P) -> (r: (Vec<A>, Vec<B>))
    requires
        p.valid(),
        finite(stream_of(p)),
    ensures
        r.0@ == contents(stream_of(p)).map_values(|x: (A, B)| x.0),
        r.1@ == contents(stream_of(p)).map_values(|x: (A, B)| x.1),
{
    let ghost s = stream_of(p);
    proof {
        lemma_length(s);
    }
    let mut it = p;
    let mut firsts: Vec<A> = Vec::new();
    let mut seconds: Vec<B> = Vec::new();
    loop
        invariant
            s == stream_of(p),
            it.valid(),
            firsts@.len() == seconds@.len(),
            firsts@.len() <= length(s),
            ends_at(s, length(s)),
            forall|i: nat| #[trigger] it.item_at(i) == s(i + firsts@.len()),
            firsts@ == contents(s).take(firsts@.len() as int).map_values(|x: (A, B)| x.0),
            seconds@ == contents(s).take(firsts@.len() as int).map_values(|x: (A, B)| x.1),
        decreases length(s) - firsts@.len(),
    {
        let ghost k = firsts@.len();
        match it.next() {
            Some((a, b)) => {
                assert(s(k) is Some);
                assert(contents(s)[k as int] == (a, b));
                firsts.push(a);
                seconds.push(b);
                assert(firsts@ =~= contents(s).take(k + 1 as int).map_values(|x: (A, B)| x.0));
                assert(seconds@ =~= contents(s).take(k + 1 as int).map_values(|x: (A, B)| x.1));
            },
            None => {
                assert(s(k) is None);
                assert(contents(s).take(k as int) =~= contents(s));
                return (firsts, seconds);
            },
        }
    }
}

/// The lexicographic comparison of `a` and `b` by the partial order of their items.
pub open spec fn lex_partial_cmp<A: PartialOrd<B>, B>(a: Seq<A>, b: Seq<B>) -> Option<Ordering>
    decreases a.len(),
{
    if a.len() == 0 {
        if b.len() == 0 {
            Some(Ordering::Equal)
        } else {
            Some(Ordering::Less)
        }
    } else if b.len() == 0 {
        Some(Ordering::Greater)
    } else {
        match a[0].partial_cmp_spec(&b[0]) {
            Some(Ordering::Equal) => lex_partial_cmp(a.drop_first(), b.drop_first()),
            other => other,
        }
    }
}

/// `a` and `b` have equal lengths and equal items at each position.
pub open spec fn seqs_eq<A: PartialEq<B>, B>(a: Seq<A>, b: Seq<B>) -> bool {
    &&& a.len() == b.len()
    &&& forall|j: int| 0 <= j < a.len() ==> #[trigger] a[j].eq_spec(&b[j])
}

/// Compares the items of two finite producers lexicographically by their partial order.
pub fn partial_cmp_items<P: Producer, Q: Producer>(p: P, q: Q) -> (r: Option<Ordering>) where
    P::Item: PartialOrd<Q::Item>,

    requires
        p.valid(),
        q.valid(),
        finite(stream_of(p)),
        finite(stream_of(q)),
    ensures
        P::Item::obeys_partial_cmp_spec() ==> r == lex_partial_cmp(
            contents(stream_of(p)),
            contents(stream_of(q)),
        ),
{
    let mut a = p;
    let mut b = q;
    loop
        invariant
            a.valid(),
            b.valid(),
            finite(stream_of(a)),
            finite(stream_of(b)),
            P::Item::obeys_partial_cmp_spec() ==> lex_partial_cmp(
                contents(stream_of(a)),
                contents(stream_of(b)),
            ) == lex_partial_cmp(contents(stream_of(p)), contents(stream_of(q))),
        decreases length(stream_of(a)),
    {
        let ghost sa = stream_of(a);
        let ghost sb = stream_of(b);
        proof {
            lemma_length(sa);
            lemma_length(sb);
        }
        let x = a.next();
        let y = b.next();
        match (x, y) {
            (None, None) => {
                proof {
                    lemma_empty_contents(sa);
                    lemma_empty_contents(sb);
                }
                return Some(Ordering::Equal);
            },
            (None, Some(_)) => {
                proof {
                    lemma_empty_contents(sa);
                    lemma_length(sb);
                }
                return Some(Ordering::Less);
            },
            (Some(_), None) => {
                proof {
                    lemma_empty_contents(sb);
                    lemma_length(sa);
                }
                return Some(Ordering::Greater);
            },
            (Some(u), Some(v)) => {
                proof {
                    lemma_contents_skip_one(sa);
                    lemma_contents_skip_one(sb);
                    lemma_same_stream(stream_of(a), skip(sa, 1));
                    lemma_same_stream(stream_of(b), skip(sb, 1));
                    assert(contents(sa)[0] == u);
                    assert(contents(sb)[0] == v);
                }
                let o = u.partial_cmp(&v);
                match o {
                    Some(Ordering::Equal) => {},
                    _ => {
                        return o;
                    },
                }
            },
        }
    }
}

/// The lexicographic comparison of `a` and `b` by the order of their items.
pub open spec fn lex_cmp<T: Ord>(a: Seq<T>, b: Seq<T>) -> Ordering
    decreases a.len(),
{
    if a.len() == 0 {
        if b.len() == 0 {
            Ordering::Equal
        } else {
            Ordering::Less
        }
    } else if b.len() == 0 {
        Ordering::Greater
    } else {
        match a[0].cmp_spec(&b[0]) {
            Ordering::Equal => lex_cmp(a.drop_first(), b.drop_first()),
            other => other,
        }
    }
}

/// Compares the items of two finite producers lexicographically by their order.
pub fn cmp_items<P: Producer, Q: Producer<Item = P::Item>>(p: P, q: Q) -> (r: Ordering) where
    P::Item: Ord,

    requires
        p.valid(),
        q.valid(),
        finite(stream_of(p)),
        finite(stream_of(q)),
    ensures
        P::Item::obeys_cmp_spec() ==> r == lex_cmp(
            contents(stream_of(p)),
            contents(stream_of(q)),
        ),
{
    let mut a = p;
    let mut b = q;
    loop
        invariant
            a.valid(),
            b.valid(),
            finite(stream_of(a)),
            finite(stream_of(b)),
            P::Item::obeys_cmp_spec() ==> lex_cmp(
                contents(stream_of(a)),
                contents(stream_of(b)),
            ) == lex_cmp(contents(stream_of(p)), contents(stream_of(q))),
        decreases length(stream_of(a)),
    {
        let ghost sa = stream_of(a);
        let ghost sb = stream_of(b);
        proof {
            lemma_length(sa);
            lemma_length(sb);
        }
        let x = a.next();
        let y = b.next();
        match (x, y) {
            (None, None) => {
                proof {
                    lemma_empty_contents(sa);
                    lemma_empty_contents(sb);
                }
                return Ordering::Equal;
            },
            (None, Some(_)) => {
                proof {
                    lemma_empty_contents(sa);
                    lemma_length(sb);
                }
                return Ordering::Less;
            },
            (Some(_), None) => {
                proof {
                    lemma_empty_contents(sb);
                    lemma_length(sa);
                }
                return Ordering::Greater;
            },
            (Some(u), Some(v)) => {
                proof {
                    lemma_contents_skip_one(sa);
                    lemma_contents_skip_one(sb);
                    lemma_same_stream(stream_of(a), skip(sa, 1));
                    lemma_same_stream(stream_of(b), skip(sb, 1));
                    assert(contents(sa)[0] == u);
                    assert(contents(sb)[0] == v);
                }
                let o = u.cmp(&v);
                match o {
                    Ordering::Equal => {},
                    _ => {
                        return o;
                    },
                }
            },
        }
    }
}

/// Tells whether two finite producers yield equal items, position by position.
pub fn eq_items<P: Producer, Q: Producer>(p: P, q: Q) -> (r: bool) where
    P::Item: PartialEq<Q::Item>,

    requires
        p.valid(),
        q.valid(),
        finite(stream_of(p)),
        finite(stream_of(q)),
    ensures
        P::Item::obeys_eq_spec() ==> r == seqs_eq(contents(stream_of(p)), contents(stream_of(q))),
{
    let mut a = p;
    let mut b = q;
    loop
        invariant
            a.valid(),
            b.valid(),
            finite(stream_of(a)),
            finite(stream_of(b)),
            P::Item::obeys_eq_spec() ==> (seqs_eq(contents(stream_of(a)), contents(stream_of(b)))
                == seqs_eq(contents(stream_of(p)), contents(stream_of(q)))),
        decreases length(stream_of(a)),
    {
        let ghost sa = stream_of(a);
        let ghost sb = stream_of(b);
        proof {
            lemma_length(sa);
            lemma_length(sb);
        }
        let x = a.next();
        let y = b.next();
        match (x, y) {
            (None, None) => {
                proof {
                    lemma_empty_contents(sa);
                    lemma_empty_contents(sb);
                }
                return true;
            },
            (None, Some(_)) => {
                proof {
                    lemma_empty_contents(sa);
                    lemma_length(sb);
                }
                return false;
            },
            (Some(_), None) => {
                proof {
                    lemma_empty_contents(sb);
                    lemma_length(sa);
                }
                return false;
            },
            (Some(u), Some(v)) => {
                proof {
                    lemma_contents_skip_one(sa);
                    lemma_contents_skip_one(sb);
                    lemma_same_stream(stream_of(a), skip(sa, 1));
                    lemma_same_stream(stream_of(b), skip(sb, 1));
                    let ca = contents(sa);
                    let cb = contents(sb);
                    assert(ca[0] == u);
                    assert(cb[0] == v);
                    if P::Item::obeys_eq_spec() {
                        if ca.len() == cb.len() {
                            assert(seqs_eq(ca, cb) == (u.eq_spec(&v) && seqs_eq(
                                ca.drop_first(),
                                cb.drop_first(),
                            ))) by {
                                if u.eq_spec(&v) && seqs_eq(ca.drop_first(), cb.drop_first()) {
                                    assert forall|j: int| 0 <= j < ca.len() implies #[trigger]
                                        ca[j].eq_spec(&cb[j]) by {
                                        if j > 0 {
                                            assert(ca.drop_first()[j - 1].eq_spec(
                                                &cb.drop_first()[j - 1],
                                            ));
                                        }
                                    }
                                }
                                if seqs_eq(ca, cb) {
                                    assert forall|j: int| 0 <= j < ca.drop_first().len() implies
                                        #[trigger] ca.drop_first()[j].eq_spec(&cb.drop_first()[j]) by {
                                        assert(ca[j + 1].eq_spec(&cb[j + 1]));
                                    }
                                }
                            }
                        }
                    }
                }
                if !u.eq(&v) {
                    return false;
                }
            },
        }
    }
}

/// Returns the last item of the finite producer `p`, or `fallback` when it yields none.
pub fn last_or<P: Producer>(p: P, fallback: P::Item) -> (r: P::Item)
    requires
        p.valid(),
        finite(stream_of(p)),
    ensures
        r == if length(stream_of(p)) == 0 {
            fallback
        } else {
            contents(stream_of(p)).last()
        },
{
    let ghost s = stream_of(p);
    proof {
        lemma_length(s);
    }
    let mut it = p;
    let mut acc = fallback;
    let ghost mut k: nat = 0;
    loop
        invariant
            s == stream_of(p),
            it.valid(),
            k <= length(s),
            ends_at(s, length(s)),
            forall|i: nat| #[trigger] it.item_at(i) == s(i + k),
            acc == if k == 0 {
                fallback
            } else {
                contents(s)[k - 1]
            },
        decreases length(s) - k,
    {
        match it.next() {
            Some(x) => {
                assert(s(k) is Some);
                acc = x;
                proof {
                    k = k + 1;
                }
            },
            None => {
                assert(s(k) is None);
                return acc;
            },
        }
    }
}

} // verus!
