//! Laws that hold of every non-empty iterator and of the adapters.

use vstd::arithmetic::div_mod::{lemma_mod_add_multiples_vanish, lemma_small_mod};
use vstd::prelude::*;

use crate::chain::Chain;
use crate::cycle::Cycle;
use crate::non_empty::{NonEmptyIterator, TryIntoNonEmptyIterator, items_of};
use crate::step_by::StepBy;
use crate::stream::{
    Producer, Replay, contents, ends_at, finite, lemma_contents_skip_one, lemma_ends_at_contents,
    lemma_ends_at_unique, lemma_lead_ends_at, lemma_length, lemma_same_stream, length, skip,
    stream_of,
};
use crate::take::Take;
use crate::zip::Zip;

verus! {

/// Downgrading any well-formed non-empty iterator and draining it yields at least one item.
pub proof fn lemma_downgrade_yields<I: NonEmptyIterator>(x: I)
    requires
        x.wf(),
    ensures
        x.item_at(0) is Some,
        finite(items_of(x)) ==> length(items_of(x)) >= 1 && contents(items_of(x)).len() >= 1,
{
    x.lemma_non_empty();
    if finite(items_of(x)) {
        lemma_length(items_of(x));
    }
}

/// The first item and the rest that `consume` hands back make up all the items:
/// the rest drains to every item but the first.
pub proof fn lemma_first_and_rest<I: NonEmptyIterator>(x: I, first: I::Item, rest: I::IntoIter)
    requires
        x.wf(),
        finite(items_of(x)),
        first == x.item_at(0)->0,
        forall|i: nat| #[trigger] rest.item_at(i) == x.item_at(i + 1),
    ensures
        finite(stream_of(rest)),
        contents(items_of(x)) == seq![first] + contents(stream_of(rest)),
{
    let s = items_of(x);
    x.lemma_non_empty();
    lemma_length(s);
    lemma_contents_skip_one(s);
    lemma_same_stream(stream_of(rest), skip(s, 1));
    assert(contents(s) =~= seq![first] + contents(s).drop_first());
}

/// The items a vector yields as a producer are exactly its elements.
pub proof fn lemma_vec_items<T>(v: Vec<T>)
    ensures
        finite(|i: nat| v.try_at(i)),
        contents(|i: nat| v.try_at(i)) == v@,
{
    let s = |i: nat| v.try_at(i);
    assert(ends_at(s, v@.len()));
    assert(finite(s));
    lemma_length(s);
    lemma_ends_at_unique(s, length(s), v@.len());
    assert(contents(s) =~= v@);
}

/// The checked conversion of a vector succeeds exactly when the vector has an element,
/// and the non-empty iterator it gives drains to exactly the vector's elements.
pub proof fn lemma_checked_conversion<T, N: NonEmptyIterator<Item = T>>(v: Vec<T>, n: N)
    requires
        n.wf(),
        forall|i: nat| #[trigger] n.item_at(i) == v.try_at(i),
    ensures
        v.try_at(0) is Some <==> v@.len() > 0,
        finite(items_of(n)),
        contents(items_of(n)) == v@,
{
    lemma_vec_items(v);
    lemma_same_stream(items_of(n), |i: nat| v.try_at(i));
}

/// Taking one item yields exactly the first item.
pub proof fn lemma_take_one<I: NonEmptyIterator>(t: Take<I>)
    requires
        t.wf(),
        t.limit()@ == 1,
    ensures
        finite(items_of(t)),
        contents(items_of(t)) == seq![t.source().item_at(0)->0],
{
    let s = items_of(t);
    t.source().lemma_non_empty();
    assert(ends_at(s, 1));
    lemma_length(s);
    lemma_ends_at_unique(s, length(s), 1);
    assert(contents(s) =~= seq![t.source().item_at(0)->0]);
}

/// Stepping by one yields every item, in order.
pub proof fn lemma_step_by_one<I: NonEmptyIterator>(s: StepBy<I>)
    requires
        s.wf(),
        s.step()@ == 1,
    ensures
        items_of(s) == items_of(s.source()),
{
    assert(items_of(s) =~= items_of(s.source()));
}

/// Zipping yields as many pairs as the shorter side has items, pairing by position.
pub proof fn lemma_zip_length<I: NonEmptyIterator, J: NonEmptyIterator>(z: Zip<I, J>)
    requires
        z.wf(),
        finite(items_of(z.first())),
        finite(items_of(z.second())),
    ensures
        finite(items_of(z)),
        length(items_of(z)) == if length(items_of(z.first())) <= length(items_of(z.second())) {
            length(items_of(z.first()))
        } else {
            length(items_of(z.second()))
        },
        forall|j: int|
            0 <= j < length(items_of(z)) ==> #[trigger] contents(items_of(z))[j] == (
            contents(items_of(z.first()))[j],
            contents(items_of(z.second()))[j],
            ),
{
    let a = items_of(z.first());
    let b = items_of(z.second());
    let s = items_of(z);
    lemma_length(a);
    lemma_length(b);
    let n = if length(a) <= length(b) {
        length(a)
    } else {
        length(b)
    };
    assert(s(n) is None);
    assert(ends_at(s, n)) by {
        assert forall|j: nat| j < n implies (#[trigger] s(j)) is Some by {
            assert(a(j) is Some);
            assert(b(j) is Some);
        }
    }
    lemma_length(s);
    lemma_ends_at_unique(s, length(s), n);
    assert forall|j: int| 0 <= j < length(s) implies #[trigger] contents(s)[j] == (
    contents(a)[j],
    contents(b)[j],
    ) by {
        assert(a(j as nat) is Some);
        assert(b(j as nat) is Some);
    }
}

/// Linking a finite non-empty iterator with a finite producer yields the items of the
/// first and then those of the second.
pub proof fn lemma_chain_items<I: NonEmptyIterator, J: Producer<Item = I::Item>>(c: Chain<I, J>)
    requires
        c.wf(),
        finite(items_of(c.first())),
        finite(stream_of(c.second())),
    ensures
        finite(items_of(c)),
        contents(items_of(c)) == contents(items_of(c.first())) + contents(stream_of(c.second())),
{
    let a = items_of(c.first());
    let b = stream_of(c.second());
    let s = items_of(c);
    lemma_length(a);
    lemma_length(b);
    let la = length(a);
    let lb = length(b);
    assert forall|i: nat| #[trigger] s(i) == if i < la {
        a(i)
    } else {
        b((i - la) as nat)
    } by {
        lemma_lead_ends_at(a, la, i + 1);
    }
    assert(ends_at(s, la + lb)) by {
        assert forall|j: nat| j < la + lb implies (#[trigger] s(j)) is Some by {
            if j >= la {
                assert(b((j - la) as nat) is Some);
            }
        }
        assert(b(lb) is None);
    }
    lemma_ends_at_contents(s, la + lb);
    assert(contents(s) =~= contents(a) + contents(b));
}

/// Cycling a finite non-empty iterator yields its items over and over: the item at
/// position `i` is the item at `i` modulo the number of items.
pub proof fn lemma_cycle_items<I: NonEmptyIterator>(c: Cycle<I>, i: nat) where
    I::IntoIter: Replay,

    requires
        c.wf(),
        finite(items_of(c.source())),
    ensures
        c.item_at(i) == c.source().item_at(i % length(items_of(c.source()))),
{
    let s = items_of(c.source());
    c.source().lemma_non_empty();
    lemma_length(s);
    let len = length(s);
    assert(len > 0);
    lemma_lead_ends_at(s, len, i + 1);
    if i < len {
        lemma_small_mod(i, len);
    } else {
        lemma_mod_add_multiples_vanish((i - len) as int, len as int);
    }
}

/// On a single item, every aggregate returns that item unchanged: the last item, any
/// combination of the items started from the first (which `max`, `min`, `max_by`,
/// `min_by` and `reduce` are), and any item chosen among them.
pub proof fn lemma_single_item<I: NonEmptyIterator>(x: I, combine: spec_fn(I::Item, I::Item) -> I::Item)
    requires
        x.wf(),
        finite(items_of(x)),
        length(items_of(x)) == 1,
    ensures
        contents(items_of(x)).last() == x.item_at(0)->0,
        contents(items_of(x)).drop_first().fold_left(contents(items_of(x))[0], combine) == x.item_at(
            0,
        )->0,
        forall|r: I::Item| contents(items_of(x)).contains(r) ==> r == x.item_at(0)->0,
{
    let c = contents(items_of(x));
    assert(c.drop_first() =~= Seq::<I::Item>::empty());
}

} // verus!
