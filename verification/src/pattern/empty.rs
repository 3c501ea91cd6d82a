//! A pattern that never triggers a pulse.

use vstd::prelude::*;

verus! {

/// An empty pattern, which never triggers a pulse.
#[derive(Clone, Debug, Default)]
pub struct EmptyPattern {}

impl EmptyPattern {
    /// A new empty pattern.
    pub fn new() -> (p: EmptyPattern)
        ensures
            p == (EmptyPattern {}),
    {
        EmptyPattern {}
    }

    /// An empty pattern is always empty.
    pub fn is_empty(&self) -> (r: bool)
        ensures
            r,
    {
        true
    }

    /// An empty pattern has no steps.
    pub fn len(&self) -> (r: usize)
        ensures
            r == 0,
    {
        0
    }
}

} // verus!
