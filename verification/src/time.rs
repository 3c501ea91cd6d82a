//! Wall clock time bases.

use vstd::prelude::*;

verus! {

/// Second time base for wall clock time based patterns: a sample rate.
#[derive(Debug, Copy, Clone, PartialEq, Eq, Structural)]
pub struct SecondTimeBase {
    pub samples_per_sec: u32,
}

impl SecondTimeBase {
    /// Sample rate of the time base.
    pub fn samples_per_second(&self) -> (r: u32)
        ensures
            r == self.samples_per_sec,
    {
        self.samples_per_sec
    }
}

} // verus!
