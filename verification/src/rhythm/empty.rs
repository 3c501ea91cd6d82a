//! A rhythm that emits no events.

use vstd::prelude::*;

verus! {

/// An empty rhythm, which continuously emits no events.
#[derive(Clone, Debug, Default)]
pub struct EmptyRhythm {}

impl EmptyRhythm {
    /// A new empty rhythm.
    pub fn new() -> (r: EmptyRhythm)
        ensures
            r == (EmptyRhythm {}),
    {
        EmptyRhythm {}
    }

    /// An empty rhythm is always empty.
    pub fn is_empty(&self) -> (r: bool)
        ensures
            r,
    {
        true
    }

    /// An empty rhythm has no steps.
    pub fn len(&self) -> (r: usize)
        ensures
            r == 0,
    {
        0
    }
}

} // verus!
