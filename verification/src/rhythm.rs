//! Rhythm building blocks.

pub mod empty;
pub mod euclidean;
