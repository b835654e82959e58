//! Merging one value into another of its kind.

use vstd::prelude::*;

verus! {

/// A value into which another of its type can be merged.
pub trait Merge: Sized {
    /// Merges `other` into `self`.
    fn merge(&mut self, other: Self);
}

impl<T> Merge for Option<T> {
    /// A value that is present replaces what was there; an absent one
    /// changes nothing.
    fn merge(&mut self, other: Self)
        ensures
            *final(self) == (if other is Some {
                other
            } else {
                *old(self)
            }),
    {
        if let Some(other) = other {
            *self = Some(other)
        }
    }
}

} // verus!
