//! Event iterators of patterns: endless streams of events, held generically over the event
//! type.

pub mod fixed;
pub mod sequence;
pub mod mapped;
pub mod mapped_note;
pub mod from_iter;
