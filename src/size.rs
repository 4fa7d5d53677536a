//! Non-zero counts, used for taking, stepping and repeating.

use vstd::prelude::*;

verus! {

/// A count that is never zero.
#[derive(Clone, Copy, Debug, PartialEq, Eq, Hash)]
pub struct Size {
    value: usize,
}

impl Size {
    /// The count as a number.
    pub closed spec fn view(self) -> nat {
        self.value as nat
    }

    #[verifier::type_invariant]
    pub closed spec fn positive(self) -> bool {
        self.value > 0
    }

    /// Builds a count from `value`, or `None` when `value` is zero.
    pub fn new(value: usize) -> (r: Option<Size>)
        ensures
            r is Some <==> value > 0,
            r matches Some(s) ==> s@ == value,
    {
        if value > 0 {
            Some(Size { value })
        } else {
            None
        }
    }

    /// Builds a count from a `value` that the caller knows to be positive.
    pub fn from_positive(value: usize) -> (r: Size)
        requires
            value > 0,
        ensures
            r@ == value,
    {
        Size { value }
    }

    /// Returns the count.
    pub fn get(&self) -> (r: usize)
        ensures
            r == self@,
            r > 0,
    {
        proof {
            use_type_invariant(self);
        }
        self.value
    }
}

} // verus!
