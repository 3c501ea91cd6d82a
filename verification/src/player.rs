//! Plain data of the sample player: what it passes along with the notes it plays, and
//! what it does with a note that still plays.

use vstd::prelude::*;

use crate::note::Note;

verus! {

/// Context passed along when a sample player triggers new notes.
#[derive(Clone, Copy, Debug, PartialEq, Eq, Structural)]
pub struct SamplePlaybackContext {
    pub pattern_index: Option<usize>,
    pub voice_index: Option<usize>,
}

impl SamplePlaybackContext {
    /// The context that a note event carries, or an empty one (no pattern and no voice index)
    /// when it carries none.
    pub fn from_context(context: Option<SamplePlaybackContext>) -> (r: SamplePlaybackContext)
        ensures
            r == match context {
                Some(c) => c,
                None => SamplePlaybackContext { pattern_index: None, voice_index: None },
            },
    {
        match context {
            Some(c) => c,
            None => SamplePlaybackContext { pattern_index: None, voice_index: None },
        }
    }
}

/// Behaviour when a new note is played on a voice channel that still plays a note.
#[derive(Copy, Clone, Debug, PartialEq)]
pub enum NewNoteAction {
    /// Continue playing the old note and start a new one.
    Continue,
    /// Stop the playing note before starting a new one.
    Stop,
    /// Stop the playing note with the given fade-out duration before starting a new one.
    Off(Option<core::time::Duration>),
}

impl Default for NewNoteAction {
    /// Playing notes continue by default.
    fn default() -> (r: NewNoteAction)
        ensures
            r == NewNoteAction::Continue,
    {
        NewNoteAction::Continue
    }
}

/// What the sample player does on one voice for a note event: whether the note that plays
/// on the voice stops, and the key, relative to the samples' root note, of the note that it
/// starts.
#[derive(Clone, Copy, Debug, PartialEq, Eq, Structural)]
pub struct VoiceAction {
    pub stop: bool,
    pub play: Option<u8>,
}

/// The key at which the sample player plays `note` for samples whose root note is
/// `sample_root`: the note moved so that the root sounds at middle C (60), limited to 0..=127.
pub open spec fn sample_key(note: int, sample_root: int) -> int {
    let k = note + 60 - sample_root;
    if k < 0 {
        0
    } else if k > 127 {
        127
    } else {
        k
    }
}

/// The sample player's decision for a voice's note event: a note-off, or a note-on when new
/// notes do not continue the playing one (`continue_notes` false), stops the note that
/// plays on the voice (`playing`); a note-on with an instrument starts a note at its
/// `sample_key`.
pub fn voice_action(
    note: Note,
    continue_notes: bool,
    playing: bool,
    has_instrument: bool,
    sample_root: u8,
) -> (r: VoiceAction)
    ensures
        r.stop == (playing && (note == Note::OFF || (note != Note::OFF && note != Note::EMPTY
            && !continue_notes))),
        r.play == (if note != Note::OFF && note != Note::EMPTY && has_instrument {
            Some(sample_key(note.value(), sample_root as int) as u8)
        } else {
            None::<u8>
        }),
{
    let stop = playing && (note.is_note_off() || (note.is_note_on() && !continue_notes));
    let play = if note.is_note_on() && has_instrument {
        let k = note.to_u8() as i32 + 60 - sample_root as i32;
        Some(
            if k < 0 {
                0u8
            } else if k > 127 {
                127u8
            } else {
                k as u8
            },
        )
    } else {
        None
    };
    VoiceAction { stop, play }
}

} // verus!
