//! The ordinary pull protocol that non-empty iterators downgrade to, and the
//! mathematical streams that describe what a producer yields.

use vstd::prelude::*;

verus! {

/// What a producer yields: the item of each pull, counted from now on.
/// `None` at a position means that pull reports exhaustion.
pub type Stream<T> = spec_fn(nat) -> Option<T>;

/// The stream with the first `k` pulls removed.
pub open spec fn skip<T>(s: Stream<T>, k: nat) -> Stream<T> {
    |i: nat| s(i + k)
}

/// The stream yields an item on its first pull.
pub open spec fn non_empty<T>(s: Stream<T>) -> bool {
    s(0) is Some
}

/// `n` is where the stream first reports exhaustion.
pub open spec fn ends_at<T>(s: Stream<T>, n: nat) -> bool {
    &&& s(n) is None
    &&& forall|j: nat| j < n ==> (#[trigger] s(j)) is Some
}

/// The stream reports exhaustion at some point.
pub open spec fn finite<T>(s: Stream<T>) -> bool {
    exists|n: nat| (#[trigger] s(n)) is None
}

/// How many items the stream yields before it first reports exhaustion.
pub open spec fn length<T>(s: Stream<T>) -> nat {
    choose|n: nat| ends_at(s, n)
}

/// The items yielded before the first exhaustion, for a finite stream.
pub open spec fn contents<T>(s: Stream<T>) -> Seq<T> {
    Seq::new(length(s), |i: int| s(i as nat)->0)
}

/// The first `n` pulls all yield items.
pub open spec fn yields_first<T>(s: Stream<T>, n: nat) -> bool {
    forall|j: nat| j < n ==> (#[trigger] s(j)) is Some
}

/// Streams that agree at every position are the same.
pub proof fn lemma_same_stream<T>(a: Stream<T>, b: Stream<T>)
    requires
        forall|i: nat| #[trigger] a(i) == b(i),
    ensures
        a == b,
{
    assert(a =~= b);
}

/// A finite stream ends at exactly one place.
pub proof fn lemma_ends_at_unique<T>(s: Stream<T>, n: nat, m: nat)
    requires
        ends_at(s, n),
        ends_at(s, m),
    ensures
        n == m,
{
    if n < m {
        assert(s(n) is Some);
    } else if m < n {
        assert(s(m) is Some);
    }
}

/// A stream that reports exhaustion somewhere first does so at or before it.
pub proof fn lemma_first_end<T>(s: Stream<T>, n: nat)
    requires
        s(n) is None,
    ensures
        exists|m: nat| m <= n && ends_at(s, m),
    decreases n,
{
    if yields_first(s, n) {
        assert(ends_at(s, n));
    } else {
        let j = choose|j: nat| j < n && (#[trigger] s(j)) is None;
        lemma_first_end(s, j);
    }
}

/// The length of a finite stream is where it ends.
pub proof fn lemma_length<T>(s: Stream<T>)
    requires
        finite(s),
    ensures
        ends_at(s, length(s)),
{
    let n = choose|n: nat| (#[trigger] s(n)) is None;
    lemma_first_end(s, n);
}

/// A stream that ends at `n` is finite, `n` items long, and holds its first `n` items.
pub proof fn lemma_ends_at_contents<T>(s: Stream<T>, n: nat)
    requires
        ends_at(s, n),
    ensures
        finite(s),
        length(s) == n,
        contents(s) == Seq::new(n, |i: int| s(i as nat)->0),
{
    assert(finite(s));
    lemma_length(s);
    lemma_ends_at_unique(s, length(s), n);
}

/// A finite stream that is exhausted at once has no contents.
pub proof fn lemma_empty_contents<T>(s: Stream<T>)
    requires
        finite(s),
        s(0) is None,
    ensures
        length(s) == 0,
        contents(s) == Seq::<T>::empty(),
{
    lemma_length(s);
    if length(s) > 0 {
        assert(s(0) is Some);
    }
    assert(contents(s) =~= Seq::<T>::empty());
}

/// Pulling one item off a finite non-empty stream shortens its contents by their first item.
pub proof fn lemma_contents_skip_one<T>(s: Stream<T>)
    requires
        finite(s),
        non_empty(s),
    ensures
        finite(skip(s, 1)),
        length(skip(s, 1)) + 1 == length(s),
        contents(skip(s, 1)) == contents(s).drop_first(),
{
    lemma_length(s);
    let n = length(s);
    let t = skip(s, 1);
    assert(n > 0);
    assert(t((n - 1) as nat) is None);
    assert(ends_at(t, (n - 1) as nat)) by {
        assert forall|j: nat| j < (n - 1) as nat implies (#[trigger] t(j)) is Some by {
            assert(s(j + 1) is Some);
        }
    }
    lemma_length(t);
    lemma_ends_at_unique(t, length(t), (n - 1) as nat);
    assert(contents(t) =~= contents(s).drop_first());
}

/// How many of the first `n` pulls come before the stream first reports exhaustion.
pub open spec fn lead<T>(s: Stream<T>, n: nat) -> nat
    decreases n,
{
    if n == 0 {
        0
    } else if lead(s, (n - 1) as nat) == n - 1 && s((n - 1) as nat) is Some {
        n
    } else {
        lead(s, (n - 1) as nat)
    }
}

/// The leading run: every pull in it yields, and the one right after it, if within
/// the first `n`, reports exhaustion.
pub proof fn lemma_lead<T>(s: Stream<T>, n: nat)
    ensures
        lead(s, n) <= n,
        yields_first(s, lead(s, n)),
        lead(s, n) < n ==> s(lead(s, n)) is None,
    decreases n,
{
    if n > 0 {
        lemma_lead(s, (n - 1) as nat);
    }
}

/// For a stream that ends at `len`, the leading run of the first `n` pulls is as long
/// as the shorter of the two.
pub proof fn lemma_lead_ends_at<T>(s: Stream<T>, len: nat, n: nat)
    requires
        ends_at(s, len),
    ensures
        lead(s, n) == if n <= len {
            n
        } else {
            len
        },
{
    lemma_lead(s, n);
    let m = lead(s, n);
    if m < n {
        if m < len {
            assert(s(m) is Some);
        }
    }
    if m > len {
        assert(s(len) is Some);
    }
}

/// Once the first item is pulled, the leading run is one shorter.
pub proof fn lemma_lead_skip<T>(s: Stream<T>, n: nat)
    requires
        s(0) is Some,
    ensures
        lead(s, n + 1) == lead(skip(s, 1), n) + 1,
    decreases n,
{
    let t = skip(s, 1);
    if n > 0 {
        lemma_lead_skip(s, (n - 1) as nat);
        assert(t((n - 1) as nat) == s(n));
        assert(lead(t, n) == if lead(t, (n - 1) as nat) == n - 1 && t((n - 1) as nat) is Some {
            n
        } else {
            lead(t, (n - 1) as nat)
        });
    } else {
        assert(lead(s, 1) == 1) by {
            assert(lead(s, 0) == 0);
        }
    }
}

/// A stream that is exhausted at once has no leading run.
pub proof fn lemma_lead_empty<T>(s: Stream<T>, n: nat)
    requires
        s(0) is None,
    ensures
        lead(s, n) == 0,
    decreases n,
{
    if n > 0 {
        lemma_lead_empty(s, (n - 1) as nat);
    }
}

/// The ordinary pull protocol: each call of `next` yields the next item, or
/// `None` once the producer is exhausted.
pub trait Producer: Sized {
    /// The type of the items yielded.
    type Item;

    /// The producer's internal invariant.
    spec fn valid(&self) -> bool;

    /// The item that the `i`-th pull from now yields.
    spec fn item_at(&self, i: nat) -> Option<Self::Item>;

    /// Pulls the next item.
    fn next(&mut self) -> (r: Option<Self::Item>)
        requires
            old(self).valid(),
        ensures
            final(self).valid(),
            r == old(self).item_at(0),
            forall|i: nat| #[trigger] final(self).item_at(i) == old(self).item_at(i + 1),
    ;
}

/// Producers that can hand out a fresh copy of themselves, yielding the same items.
pub trait Replay: Producer {
    /// Copies of this type yield the same items.
    spec fn replayable() -> bool;

    /// Hands out a copy that yields the same items as `self`.
    fn replay(&self) -> (r: Self)
        requires
            self.valid(),
            Self::replayable(),
        ensures
            r.valid(),
            forall|i: nat| #[trigger] r.item_at(i) == self.item_at(i),
    ;
}

/// The stream is finite and stays exhausted once exhausted.
pub open spec fn bounded<T>(s: Stream<T>) -> bool {
    &&& finite(s)
    &&& forall|i: nat| i >= length(s) ==> (#[trigger] s(i)) is None
}

/// The last item of a bounded stream, if any.
pub open spec fn back_of<T>(s: Stream<T>) -> Option<T> {
    if length(s) > 0 {
        s((length(s) - 1) as nat)
    } else {
        None
    }
}

/// A bounded stream without its last item.
pub open spec fn drop_back<T>(s: Stream<T>) -> Stream<T> {
    |i: nat|
        if i + 1 < length(s) {
            s(i)
        } else {
            None
        }
}

/// The item of the `i`-th pull of a bounded stream taken from the back.
pub open spec fn rev_at<T>(s: Stream<T>, i: nat) -> Option<T> {
    if i < length(s) {
        s((length(s) - 1 - i) as nat)
    } else {
        None
    }
}

/// Dropping the last item of a bounded stream leaves a bounded stream one shorter.
pub proof fn lemma_drop_back<T>(s: Stream<T>)
    requires
        bounded(s),
    ensures
        bounded(drop_back(s)),
        length(drop_back(s)) == if length(s) > 0 {
            (length(s) - 1) as nat
        } else {
            0
        },
{
    lemma_length(s);
    let t = drop_back(s);
    let n: nat = if length(s) > 0 {
        (length(s) - 1) as nat
    } else {
        0
    };
    assert(ends_at(t, n)) by {
        assert forall|j: nat| j < n implies (#[trigger] t(j)) is Some by {
            assert(s(j) is Some);
        }
    }
    lemma_ends_at_contents(t, n);
}

/// Producers that can also yield from the back; every one of them is bounded.
pub trait BackProducer: Producer {
    /// Every valid producer of this type is bounded.
    proof fn lemma_bounded(&self)
        requires
            self.valid(),
        ensures
            bounded(stream_of(*self)),
    ;

    /// Pulls the last item.
    fn next_back(&mut self) -> (r: Option<Self::Item>)
        requires
            old(self).valid(),
        ensures
            final(self).valid(),
            r == back_of(stream_of(*old(self))),
            stream_of(*final(self)) == drop_back(stream_of(*old(self))),
    ;
}

/// Values that can be turned into an ordinary producer.
pub trait IntoProducer: Sized {
    /// The type of the items yielded.
    type Item;

    /// The producer this turns into.
    type IntoIter: Producer<Item = Self::Item>;

    /// The value can be turned into a producer.
    spec fn source_valid(&self) -> bool;

    /// The item that the `i`-th pull of the resulting producer yields.
    spec fn source_at(&self, i: nat) -> Option<Self::Item>;

    /// Turns the value into a producer that yields exactly the items described.
    fn into_producer(self) -> (r: Self::IntoIter)
        requires
            self.source_valid(),
        ensures
            r.valid(),
            forall|i: nat| #[trigger] r.item_at(i) == self.source_at(i),
    ;
}

impl<P: Producer> IntoProducer for P {
    type Item = P::Item;

    type IntoIter = P;

    open spec fn source_valid(&self) -> bool {
        self.valid()
    }

    open spec fn source_at(&self, i: nat) -> Option<P::Item> {
        self.item_at(i)
    }

    fn into_producer(self) -> (r: P) {
        self
    }
}

/// Collections that can be built from the items of a finite producer.
pub trait FromProducer<T>: Sized {
    /// The items the collection holds, in order.
    spec fn collected(&self) -> Seq<T>;

    /// Builds the collection from every item of the finite producer `p`.
    fn from_producer<P: Producer<Item = T>>(p: P) -> (r: Self)
        requires
            p.valid(),
            finite(stream_of(p)),
        ensures
            r.collected() == contents(stream_of(p)),
    ;
}

/// The stream of what `p` yields.
pub open spec fn stream_of<P: Producer>(p: P) -> Stream<P::Item> {
    |i: nat| p.item_at(i)
}

} // verus!
