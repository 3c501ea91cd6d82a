//! Pitches of the mini-notation: a key within the octave and an octave.

use vstd::prelude::*;

use crate::text::{chars_of, parse_i32, spec_parse_i32, str_eq};

verus! {

/// A pitch: a key within the octave, 0 (C) to 11 (B), and an octave.
#[derive(Clone, Copy, Debug, PartialEq, Eq, Structural)]
pub struct Pitch {
    note: u8,
    octave: u8,
}

/// The key within the octave of a note letter, in either ASCII case.
pub open spec fn note_letter_value(c: char) -> Option<u8> {
    if c == 'c' || c == 'C' {
        Some(0u8)
    } else if c == 'd' || c == 'D' {
        Some(2u8)
    } else if c == 'e' || c == 'E' {
        Some(4u8)
    } else if c == 'f' || c == 'F' {
        Some(5u8)
    } else if c == 'g' || c == 'G' {
        Some(7u8)
    } else if c == 'a' || c == 'A' {
        Some(9u8)
    } else if c == 'b' || c == 'B' {
        Some(11u8)
    } else {
        None
    }
}

/// The `u8` that a text denotes in decimal notation, as `str::parse::<u8>` reads it: an
/// optional `+` sign followed by decimal digits, the value at most 255.
pub open spec fn spec_parse_u8(s: Seq<char>) -> Option<u8> {
    if s.len() > 0 && s[0] != '-' {
        match spec_parse_i32(s) {
            Ok(v) => if 0 <= v <= 255 {
                Some(v as u8)
            } else {
                None
            },
            Err(_) => None,
        }
    } else {
        None
    }
}

/// The key that a note text gives: that of its first character, when that is a note letter
/// (in either ASCII case).
pub open spec fn note_text_value(s: Seq<char>) -> Option<u8> {
    if s.len() == 0 {
        None
    } else {
        note_letter_value(s[0])
    }
}

/// The accidental that a mark text gives: 1 for `#`, -1 for `b`, 0 for anything else.
pub open spec fn mark_value(s: Seq<char>) -> int {
    if s == seq!['#'] {
        1
    } else if s == seq!['b'] {
        -1
    } else {
        0
    }
}

/// The key within the octave and the octave of the pitch that the texts of a pitch's parts
/// give, as `Pitch::from_parts` describes them.
pub open spec fn pitch_of_parts(note: Seq<char>, octave: Seq<char>, mark: Seq<char>) -> (int, int) {
    let n = match note_text_value(note) {
        Some(v) => v as int,
        None => 0,
    };
    let o = match spec_parse_u8(octave) {
        Some(v) => v as int,
        None => 4,
    };
    let m = mark_value(mark);
    if n == 0 && m == -1 {
        if o > 0 {
            (11, o - 1)
        } else {
            (0, o)
        }
    } else if n == 11 && m == 1 {
        if o < 10 {
            (0, o + 1)
        } else {
            (11, o)
        }
    } else {
        (n + m, o)
    }
}

impl Pitch {
    /// The pitch's key within the octave.
    pub closed spec fn note_view(&self) -> int {
        self.note as int
    }

    /// The pitch's octave.
    pub closed spec fn octave_view(&self) -> int {
        self.octave as int
    }

    /// The pitch that the parts of a pitch in the mini-notation give, each part given by its
    /// text (an empty text for a missing part): the note letter, 'c' when missing or not a
    /// note letter; the octave, 4 when missing or not a number; the mark, `#` or `b`. A `b`
    /// below C goes to B of the octave below, a `#` above B to C of the octave above, but
    /// not below octave 0 or above octave 10.
    pub fn from_parts(note: &str, octave: &str, mark: &str) -> (p: Pitch)
        ensures
            ({
                let n = match note_text_value(note@) {
                    Some(v) => v as int,
                    None => 0,
                };
                let o = match spec_parse_u8(octave@) {
                    Some(v) => v as int,
                    None => 4,
                };
                let m = mark_value(mark@);
                if n == 0 && m == -1 {
                    if o > 0 {
                        p.note_view() == 11 && p.octave_view() == o - 1
                    } else {
                        p.note_view() == 0 && p.octave_view() == o
                    }
                } else if n == 11 && m == 1 {
                    if o < 10 {
                        p.note_view() == 0 && p.octave_view() == o + 1
                    } else {
                        p.note_view() == 11 && p.octave_view() == o
                    }
                } else {
                    p.note_view() == n + m && p.octave_view() == o
                }
            }),
            0 <= p.note_view() < 12,
            (p.note_view(), p.octave_view()) == pitch_of_parts(note@, octave@, mark@),
    {
        let mut pitch_note: u8 = 0;
        let mut pitch_octave: u8 = 4;
        let cs = chars_of(note);
        if cs.len() > 0 {
            match note_letter_value_exec(cs[0]) {
                Some(v) => {
                    pitch_note = v;
                },
                None => {},
            }
        }
        match parse_u8(octave) {
            Some(v) => {
                pitch_octave = v;
            },
            None => {},
        }
        let mark_v: i8 = if str_eq(mark, "#") {
            1
        } else if str_eq(mark, "b") {
            -1
        } else {
            0
        };
        proof {
            reveal_strlit("#");
            reveal_strlit("b");
            assert("#"@ =~= seq!['#']);
            assert("b"@ =~= seq!['b']);
            assert(mark_v == mark_value(mark@));
            assert(pitch_note == match note_text_value(note@) {
                Some(v) => v as int,
                None => 0,
            });
            assert(pitch_octave == match spec_parse_u8(octave@) {
                Some(v) => v as int,
                None => 4,
            });
        }
        if pitch_note == 0 && mark_v == -1 {
            if pitch_octave > 0 {
                pitch_octave = pitch_octave - 1;
                pitch_note = 11;
            }
        } else if pitch_note == 11 && mark_v == 1 {
            if pitch_octave < 10 {
                pitch_note = 0;
                pitch_octave = pitch_octave + 1;
            }
        } else {
            assert(pitch_note <= 11);
            pitch_note = ((pitch_note as i8) + mark_v) as u8;
        }
        Pitch { note: pitch_note, octave: pitch_octave }
    }

    /// The MIDI note number of the pitch, limited to the highest key (0x7F).
    pub fn midi_note(&self) -> (r: u8)
        ensures
            r == if self.octave_view() * 12 + self.note_view() < 127 {
                self.octave_view() * 12 + self.note_view()
            } else {
                127
            },
    {
        let v = self.octave as u32 * 12 + self.note as u32;
        if v < 0x7f {
            v as u8
        } else {
            0x7f
        }
    }
}

fn note_letter_value_exec(c: char) -> (r: Option<u8>)
    ensures
        r == note_letter_value(c),
{
    if c == 'c' || c == 'C' {
        Some(0)
    } else if c == 'd' || c == 'D' {
        Some(2)
    } else if c == 'e' || c == 'E' {
        Some(4)
    } else if c == 'f' || c == 'F' {
        Some(5)
    } else if c == 'g' || c == 'G' {
        Some(7)
    } else if c == 'a' || c == 'A' {
        Some(9)
    } else if c == 'b' || c == 'B' {
        Some(11)
    } else {
        None
    }
}

/// Reads `s` as a decimal `u8`, see `spec_parse_u8`.
fn parse_u8(s: &str) -> (r: Option<u8>)
    ensures
        r == spec_parse_u8(s@),
{
    let cs = chars_of(s);
    if cs.len() == 0 || cs[0] == '-' {
        return None;
    }
    assert(cs@.subrange(0, cs@.len() as int) =~= s@);
    match parse_i32(&cs, 0) {
        Ok(v) => if 0 <= v && v <= 255 {
            Some(v as u8)
        } else {
            None
        },
        Err(_) => None,
    }
}

} // verus!
