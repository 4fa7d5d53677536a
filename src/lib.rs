//! Iterators that are known to yield at least one item.
//!
//! A non-empty iterator is a value that, once downgraded to an ordinary producer,
//! yields at least one item. Every adapter proves that it keeps this property; the one
//! construction that takes it from the caller is `NonEmptyAdapter::new`, whose
//! precondition states it, and the checked conversion establishes it by looking ahead.

pub mod stream;
pub mod func;
pub mod size;
pub mod drain;
pub mod vec_iter;

pub mod non_empty;

pub mod adapter;
pub mod chain;
pub mod cloned;
pub mod copied;
pub mod cycle;
pub mod enumerate;
pub mod flat_map;
pub mod flatten;
pub mod fuse;
pub mod inspect;
pub mod map;
pub mod once;
pub mod peeked;
pub mod possibly_empty;
pub mod repeat;
pub mod rev;
pub mod step_by;
pub mod successors;
pub mod take;
pub mod zip;

pub mod laws;

pub use non_empty::{
    FromNonEmptyIterator, IntoNonEmptyIterator, NonEmptyIterator, NonEmptyIteratorExt, Sealed,
    TryIntoNonEmptyIterator,
};
pub use stream::{BackProducer, FromProducer, IntoProducer, Producer, Replay};

pub use adapter::{NonEmptyAdapter, Peekable};
pub use chain::{Chain, chain};
pub use cloned::Cloned;
pub use copied::Copied;
pub use cycle::Cycle;
pub use enumerate::Enumerate;
pub use flat_map::FlatMap;
pub use flatten::Flatten;
pub use fuse::Fuse;
pub use inspect::Inspect;
pub use map::Mapped;
pub use once::{Once, OnceWith, once, once_with};
pub use peeked::Peeked;
pub use repeat::{Repeat, RepeatN, RepeatWith, repeat, repeat_n, repeat_with};
pub use rev::Rev;
pub use size::Size;
pub use step_by::StepBy;
pub use successors::{Successors, successors};
pub use take::Take;
pub use vec_iter::VecIter;
pub use zip::{Zip, zip};
