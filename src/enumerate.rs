//! Pairing the items of non-empty iterators with their positions.

use vstd::arithmetic::div_mod::{lemma_add_mod_noop_right, lemma_small_mod};
use vstd::prelude::*;

use crate::non_empty::NonEmptyIterator;
use crate::stream::{Producer, Replay, Stream, skip, stream_of};

verus! {

/// How many of the first `n` pulls of `s` yield an item.
pub open spec fn yielded<T>(s: Stream<T>, n: nat) -> nat
    decreases n,
{
    if n == 0 {
        0
    } else if s((n - 1) as nat) is Some {
        yielded(s, (n - 1) as nat) + 1
    } else {
        yielded(s, (n - 1) as nat)
    }
}

/// A position counted from `start`, wrapping around past the largest `usize`.
pub open spec fn position_of(start: nat, n: nat) -> usize {
    ((start + n) % (usize::MAX as nat + 1)) as usize
}

/// The item of the `i`-th pull of `s`, paired with its position counted from `start`.
pub open spec fn enumerate_at<T>(s: Stream<T>, start: nat, i: nat) -> Option<(usize, T)> {
    match s(i) {
        Some(x) => Some((position_of(start, yielded(s, i)), x)),
        None => None,
    }
}

/// How many pulls yield, counted after the first pull.
pub proof fn lemma_yielded_skip<T>(s: Stream<T>, n: nat)
    ensures
        yielded(s, n + 1) == yielded(skip(s, 1), n) + if s(0) is Some {
            1nat
        } else {
            0nat
        },
    decreases n,
{
    if n > 0 {
        lemma_yielded_skip(s, (n - 1) as nat);
        assert(skip(s, 1)((n - 1) as nat) == s(n));
    } else {
        assert(yielded(s, 0) == 0);
        assert(yielded(skip(s, 1), 0) == 0);
    }
}

/// A non-empty iterator over the items of another, each paired with its position.
pub struct Enumerate<I: NonEmptyIterator> {
    non_empty: I,
}

impl<I: NonEmptyIterator> Enumerate<I> {
    /// The underlying non-empty iterator.
    pub closed spec fn source(&self) -> I {
        self.non_empty
    }

    /// Constructs the non-empty iterator over the items of `non_empty` with their positions.
    pub fn new(non_empty: I) -> (r: Self)
        ensures
            r.source() == non_empty,
            r.wf() == non_empty.wf(),
            forall|i: nat| #[trigger]
                r.item_at(i) == enumerate_at(|k: nat| non_empty.item_at(k), 0, i),
    {
        Enumerate { non_empty }
    }
}

/// The producer of the items of another, each paired with its position.
pub struct EnumerateIter<P: Producer> {
    inner: P,
    count: usize,
}

impl<P: Producer> Producer for EnumerateIter<P> {
    type Item = (usize, P::Item);

    closed spec fn valid(&self) -> bool {
        self.inner.valid()
    }

    closed spec fn item_at(&self, i: nat) -> Option<(usize, P::Item)> {
        enumerate_at(stream_of(self.inner), self.count as nat, i)
    }

    fn next(&mut self) -> (r: Option<(usize, P::Item)>) {
        let ghost s = stream_of(self.inner);
        let ghost c = self.count as nat;
        let ghost m = usize::MAX as nat + 1;
        let r = self.inner.next();
        proof {
            assert(yielded(s, 0) == 0);
            lemma_small_mod(c, m);
        }
        match r {
            Some(x) => {
                let position = self.count;
                self.count = if self.count == usize::MAX {
                    0
                } else {
                    self.count + 1
                };
                proof {
                    assert(self.count as nat == (c + 1) % m);
                    assert forall|i: nat| #[trigger]
                        self.item_at(i) == old(self).item_at(i + 1) by {
                        lemma_yielded_skip(s, i);
                        assert(stream_of(self.inner) =~= skip(s, 1));
                        lemma_add_mod_noop_right(
                            yielded(stream_of(self.inner), i) as int,
                            (c + 1) as int,
                            m as int,
                        );
                    }
                }
                Some((position, x))
            },
            None => {
                proof {
                    assert forall|i: nat| #[trigger]
                        self.item_at(i) == old(self).item_at(i + 1) by {
                        lemma_yielded_skip(s, i);
                        assert(stream_of(self.inner) =~= skip(s, 1));
                    }
                }
                None
            },
        }
    }
}

impl<P: Replay> Replay for EnumerateIter<P> {
    open spec fn replayable() -> bool {
        P::replayable()
    }

    fn replay(&self) -> (r: Self) {
        let inner = self.inner.replay();
        proof {
            assert(stream_of(inner) =~= stream_of(self.inner));
        }
        EnumerateIter { inner, count: self.count }
    }
}

impl<I: NonEmptyIterator> NonEmptyIterator for Enumerate<I> {
    type Item = (usize, I::Item);

    type IntoIter = EnumerateIter<I::IntoIter>;

    open spec fn wf(&self) -> bool {
        self.source().wf()
    }

    open spec fn item_at(&self, i: nat) -> Option<(usize, I::Item)> {
        enumerate_at(|k: nat| self.source().item_at(k), 0, i)
    }

    proof fn lemma_non_empty(&self) {
        self.source().lemma_non_empty();
    }

    fn into_iter(self) -> (r: EnumerateIter<I::IntoIter>) {
        let ghost g = self.non_empty;
        let inner = self.non_empty.into_iter();
        let r = EnumerateIter { inner, count: 0 };
        proof {
            assert(stream_of(inner) =~= (|k: nat| g.item_at(k)));
        }
        assert(r.valid());
        r
    }
}

} // verus!
