//! Musical building blocks of a pattern based music sequence generator: notes, chords,
//! scales, euclidean rhythms and tidal pitches, each with a verified contract.

pub mod text;
pub mod note;
pub mod midi;
pub mod rhythm;
pub mod pattern;
pub mod scale;
pub mod tidal;
pub mod time;
pub mod parameter;
pub mod player;
pub mod phrase;
pub mod events;
pub mod value;
