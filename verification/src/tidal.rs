//! The tidal cycles mini-notation: its pitches, its parser and the events of a cycle.

pub mod pitch;
pub mod cycle;
pub mod output;
