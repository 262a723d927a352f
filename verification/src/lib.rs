//! Zip a source of elements to a repeatedly cloned value.
//!
//! The adapter produces pairs of a source element and a clone of one held
//! value, and it clones lazily: a fresh clone is made only when, at the
//! moment a pair is produced, the source still holds another element. A full
//! traversal of `n` elements therefore clones exactly `n - 1` times, the
//! last pair carrying the original value, and operations that skip or drop
//! elements clone nothing for them.

use vstd::prelude::*;

mod adapter;
mod source;
mod vec_source;

pub use adapter::ZipCloneIter;
pub use source::DoubleEndedSource;
pub use source::ExactSizeSource;
pub use source::Source;
pub use vec_source::VecSource;

verus! {

/// Zips a source to a repeatedly cloned value: an adapter over `iter` whose
/// pairs each carry one element and a clone of `cloned`, made with one fewer
/// clone than pairing against a stream of fresh clones would cost, since one
/// pairing hands over the original value.
pub fn zip_clone<I: Source, C: Clone>(iter: I, cloned: C) -> (r: ZipCloneIter<I, C>)
    ensures
        r.wf(),
        r.remaining() == iter.elems(),
        r.held() == Some(cloned),
        r.clone_count() == 0,
{
    iter.zip_clone(cloned)
}

/// Method form of [`zip_clone`], available on every source.
pub trait ZipClone: Source {
    /// Zips this source to a repeatedly cloned value; the value is stored
    /// unduplicated and one pairing will hand it over as it is.
    fn zip_clone<C: Clone>(self, cloned: C) -> (r: ZipCloneIter<Self, C>)
        ensures
            r.wf(),
            r.remaining() == self.elems(),
            r.held() == Some(cloned),
            r.clone_count() == 0,
    ;
}

impl<I: Source> ZipClone for I {
    fn zip_clone<C: Clone>(self, cloned: C) -> (r: ZipCloneIter<I, C>) {
        ZipCloneIter::new(self, cloned)
    }
}

} // verus!
