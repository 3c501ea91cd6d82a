//! Emitter values: endless streams of emitter events, held generically over the event type.

pub mod fixed;
pub mod mapped;
pub mod from_iter;
