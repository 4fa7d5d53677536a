//! Closures that behave as mathematical functions: callable on every argument,
//! with one possible result for each.

use vstd::pervasive::strictly_cloned;
use vstd::prelude::*;

verus! {

/// `f` can always be called, and its result is determined.
pub open spec fn is_fn0<T, F: FnOnce() -> T>(f: F) -> bool {
    &&& f.requires(())
    &&& forall|a: T, b: T| f.ensures((), a) && f.ensures((), b) ==> a == b
}

/// The result of calling `f`.
pub open spec fn apply0<T, F: FnOnce() -> T>(f: F) -> T {
    choose|y: T| f.ensures((), y)
}

/// A result that `f` hands back is the one named by `apply0`.
pub proof fn lemma_apply0<T, F: FnOnce() -> T>(f: F, y: T)
    requires
        is_fn0(f),
        f.ensures((), y),
    ensures
        y == apply0(f),
{
}

/// `f` can be called on every argument, and its result is determined by the argument.
pub open spec fn is_fn1<A, B, F: FnOnce(A) -> B>(f: F) -> bool {
    &&& forall|x: A| #[trigger] f.requires((x,))
    &&& forall|x: A, a: B, b: B| f.ensures((x,), a) && f.ensures((x,), b) ==> a == b
}

/// The result of calling `f` on `x`.
pub open spec fn apply1<A, B, F: FnOnce(A) -> B>(f: F, x: A) -> B {
    choose|y: B| f.ensures((x,), y)
}

/// A result that `f` hands back for `x` is the one named by `apply1`.
pub proof fn lemma_apply1<A, B, F: FnOnce(A) -> B>(f: F, x: A, y: B)
    requires
        is_fn1(f),
        f.ensures((x,), y),
    ensures
        y == apply1(f, x),
{
}

/// `f` can be called on every pair of arguments, and its result is determined by them.
pub open spec fn is_fn2<A, B, C, F: FnOnce(A, B) -> C>(f: F) -> bool {
    &&& forall|x: A, y: B| #[trigger] f.requires((x, y))
    &&& forall|x: A, y: B, a: C, b: C| f.ensures((x, y), a) && f.ensures((x, y), b) ==> a == b
}

/// The result of calling `f` on `x` and `y`.
pub open spec fn apply2<A, B, C, F: FnOnce(A, B) -> C>(f: F, x: A, y: B) -> C {
    choose|z: C| f.ensures((x, y), z)
}

/// A result that `f` hands back for `x` and `y` is the one named by `apply2`.
pub proof fn lemma_apply2<A, B, C, F: FnOnce(A, B) -> C>(f: F, x: A, y: B, z: C)
    requires
        is_fn2(f),
        f.ensures((x, y), z),
    ensures
        z == apply2(f, x, y),
{
}

/// Cloning a `T` hands back a value equal to the one cloned.
pub open spec fn clones_exactly<T: Clone>() -> bool {
    forall|a: T, b: T| strictly_cloned(a, b) ==> a == b
}

} // verus!
