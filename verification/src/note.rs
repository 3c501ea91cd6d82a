//! Notes of a 7 bit key range (C0 up to G10, twelve keys per octave), plus the two special
//! values note-off and empty, with conversions from and to numbers and note strings.

use vstd::prelude::*;
use vstd::string::StrSliceExecFns;
use vstd::string::StringExecFns;

use crate::text::{
    append_int, chars_of, decimal, eq_ignore_case, int_error_str, int_error_text, int_text,
    parse_i32, spec_parse_i32, string_of, vec_eq_ignore_case, IntErrorKind,
};

pub mod chord;

verus! {

/// A note representable in a 7 bit unsigned int. The subscript 'S' to a note means sharp.
/// Besides the keys, `OFF` stands for a note-off and `EMPTY` for no note at all.
#[derive(Debug, PartialEq, Eq, PartialOrd, Ord, Copy, Clone, Hash, Structural)]
#[allow(non_camel_case_types)]
pub enum Note {
    C0,
    Cs0,
    D0,
    Ds0,
    E0,
    F0,
    Fs0,
    G0,
    Gs0,
    A0,
    As0,
    B0,
    C1,
    Cs1,
    D1,
    Ds1,
    E1,
    F1,
    Fs1,
    G1,
    Gs1,
    A1,
    As1,
    B1,
    C2,
    Cs2,
    D2,
    Ds2,
    E2,
    F2,
    Fs2,
    G2,
    Gs2,
    A2,
    As2,
    B2,
    C3,
    Cs3,
    D3,
    Ds3,
    E3,
    F3,
    Fs3,
    G3,
    Gs3,
    A3,
    As3,
    B3,
    C4,
    Cs4,
    D4,
    Ds4,
    E4,
    F4,
    Fs4,
    G4,
    Gs4,
    A4,
    As4,
    B4,
    C5,
    Cs5,
    D5,
    Ds5,
    E5,
    F5,
    Fs5,
    G5,
    Gs5,
    A5,
    As5,
    B5,
    C6,
    Cs6,
    D6,
    Ds6,
    E6,
    F6,
    Fs6,
    G6,
    Gs6,
    A6,
    As6,
    B6,
    C7,
    Cs7,
    D7,
    Ds7,
    E7,
    F7,
    Fs7,
    G7,
    Gs7,
    A7,
    As7,
    B7,
    C8,
    Cs8,
    D8,
    Ds8,
    E8,
    F8,
    Fs8,
    G8,
    Gs8,
    A8,
    As8,
    B8,
    C9,
    Cs9,
    D9,
    Ds9,
    E9,
    F9,
    Fs9,
    G9,
    Gs9,
    A9,
    As9,
    B9,
    C10,
    Cs10,
    D10,
    Ds10,
    E10,
    F10,
    Fs10,
    G10,
    OFF,
    EMPTY,
}

impl Note {
    /// The note's number: its MIDI key number, or the code of a special value.
    pub open spec fn value(self) -> int {
        match self {
            Note::C0 => 0,
            Note::Cs0 => 1,
            Note::D0 => 2,
            Note::Ds0 => 3,
            Note::E0 => 4,
            Note::F0 => 5,
            Note::Fs0 => 6,
            Note::G0 => 7,
            Note::Gs0 => 8,
            Note::A0 => 9,
            Note::As0 => 10,
            Note::B0 => 11,
            Note::C1 => 12,
            Note::Cs1 => 13,
            Note::D1 => 14,
            Note::Ds1 => 15,
            Note::E1 => 16,
            Note::F1 => 17,
            Note::Fs1 => 18,
            Note::G1 => 19,
            Note::Gs1 => 20,
            Note::A1 => 21,
            Note::As1 => 22,
            Note::B1 => 23,
            Note::C2 => 24,
            Note::Cs2 => 25,
            Note::D2 => 26,
            Note::Ds2 => 27,
            Note::E2 => 28,
            Note::F2 => 29,
            Note::Fs2 => 30,
            Note::G2 => 31,
            Note::Gs2 => 32,
            Note::A2 => 33,
            Note::As2 => 34,
            Note::B2 => 35,
            Note::C3 => 36,
            Note::Cs3 => 37,
            Note::D3 => 38,
            Note::Ds3 => 39,
            Note::E3 => 40,
            Note::F3 => 41,
            Note::Fs3 => 42,
            Note::G3 => 43,
            Note::Gs3 => 44,
            Note::A3 => 45,
            Note::As3 => 46,
            Note::B3 => 47,
            Note::C4 => 48,
            Note::Cs4 => 49,
            Note::D4 => 50,
            Note::Ds4 => 51,
            Note::E4 => 52,
            Note::F4 => 53,
            Note::Fs4 => 54,
            Note::G4 => 55,
            Note::Gs4 => 56,
            Note::A4 => 57,
            Note::As4 => 58,
            Note::B4 => 59,
            Note::C5 => 60,
            Note::Cs5 => 61,
            Note::D5 => 62,
            Note::Ds5 => 63,
            Note::E5 => 64,
            Note::F5 => 65,
            Note::Fs5 => 66,
            Note::G5 => 67,
            Note::Gs5 => 68,
            Note::A5 => 69,
            Note::As5 => 70,
            Note::B5 => 71,
            Note::C6 => 72,
            Note::Cs6 => 73,
            Note::D6 => 74,
            Note::Ds6 => 75,
            Note::E6 => 76,
            Note::F6 => 77,
            Note::Fs6 => 78,
            Note::G6 => 79,
            Note::Gs6 => 80,
            Note::A6 => 81,
            Note::As6 => 82,
            Note::B6 => 83,
            Note::C7 => 84,
            Note::Cs7 => 85,
            Note::D7 => 86,
            Note::Ds7 => 87,
            Note::E7 => 88,
            Note::F7 => 89,
            Note::Fs7 => 90,
            Note::G7 => 91,
            Note::Gs7 => 92,
            Note::A7 => 93,
            Note::As7 => 94,
            Note::B7 => 95,
            Note::C8 => 96,
            Note::Cs8 => 97,
            Note::D8 => 98,
            Note::Ds8 => 99,
            Note::E8 => 100,
            Note::F8 => 101,
            Note::Fs8 => 102,
            Note::G8 => 103,
            Note::Gs8 => 104,
            Note::A8 => 105,
            Note::As8 => 106,
            Note::B8 => 107,
            Note::C9 => 108,
            Note::Cs9 => 109,
            Note::D9 => 110,
            Note::Ds9 => 111,
            Note::E9 => 112,
            Note::F9 => 113,
            Note::Fs9 => 114,
            Note::G9 => 115,
            Note::Gs9 => 116,
            Note::A9 => 117,
            Note::As9 => 118,
            Note::B9 => 119,
            Note::C10 => 120,
            Note::Cs10 => 121,
            Note::D10 => 122,
            Note::Ds10 => 123,
            Note::E10 => 124,
            Note::F10 => 125,
            Note::Fs10 => 126,
            Note::G10 => 127,
            Note::OFF => 254,
            Note::EMPTY => 255,
        }
    }

    /// The note whose number is `v`.
    #[verifier::opaque]
    pub open spec fn note_of(v: int) -> Note {
        if v == 0 {
            Note::C0
        } else if v == 1 {
            Note::Cs0
        } else if v == 2 {
            Note::D0
        } else if v == 3 {
            Note::Ds0
        } else if v == 4 {
            Note::E0
        } else if v == 5 {
            Note::F0
        } else if v == 6 {
            Note::Fs0
        } else if v == 7 {
            Note::G0
        } else if v == 8 {
            Note::Gs0
        } else if v == 9 {
            Note::A0
        } else if v == 10 {
            Note::As0
        } else if v == 11 {
            Note::B0
        } else if v == 12 {
            Note::C1
        } else if v == 13 {
            Note::Cs1
        } else if v == 14 {
            Note::D1
        } else if v == 15 {
            Note::Ds1
        } else if v == 16 {
            Note::E1
        } else if v == 17 {
            Note::F1
        } else if v == 18 {
            Note::Fs1
        } else if v == 19 {
            Note::G1
        } else if v == 20 {
            Note::Gs1
        } else if v == 21 {
            Note::A1
        } else if v == 22 {
            Note::As1
        } else if v == 23 {
            Note::B1
        } else if v == 24 {
            Note::C2
        } else if v == 25 {
            Note::Cs2
        } else if v == 26 {
            Note::D2
        } else if v == 27 {
            Note::Ds2
        } else if v == 28 {
            Note::E2
        } else if v == 29 {
            Note::F2
        } else if v == 30 {
            Note::Fs2
        } else if v == 31 {
            Note::G2
        } else if v == 32 {
            Note::Gs2
        } else if v == 33 {
            Note::A2
        } else if v == 34 {
            Note::As2
        } else if v == 35 {
            Note::B2
        } else if v == 36 {
            Note::C3
        } else if v == 37 {
            Note::Cs3
        } else if v == 38 {
            Note::D3
        } else if v == 39 {
            Note::Ds3
        } else if v == 40 {
            Note::E3
        } else if v == 41 {
            Note::F3
        } else if v == 42 {
            Note::Fs3
        } else if v == 43 {
            Note::G3
        } else if v == 44 {
            Note::Gs3
        } else if v == 45 {
            Note::A3
        } else if v == 46 {
            Note::As3
        } else if v == 47 {
            Note::B3
        } else if v == 48 {
            Note::C4
        } else if v == 49 {
            Note::Cs4
        } else if v == 50 {
            Note::D4
        } else if v == 51 {
            Note::Ds4
        } else if v == 52 {
            Note::E4
        } else if v == 53 {
            Note::F4
        } else if v == 54 {
            Note::Fs4
        } else if v == 55 {
            Note::G4
        } else if v == 56 {
            Note::Gs4
        } else if v == 57 {
            Note::A4
        } else if v == 58 {
            Note::As4
        } else if v == 59 {
            Note::B4
        } else if v == 60 {
            Note::C5
        } else if v == 61 {
            Note::Cs5
        } else if v == 62 {
            Note::D5
        } else if v == 63 {
            Note::Ds5
        } else if v == 64 {
            Note::E5
        } else if v == 65 {
            Note::F5
        } else if v == 66 {
            Note::Fs5
        } else if v == 67 {
            Note::G5
        } else if v == 68 {
            Note::Gs5
        } else if v == 69 {
            Note::A5
        } else if v == 70 {
            Note::As5
        } else if v == 71 {
            Note::B5
        } else if v == 72 {
            Note::C6
        } else if v == 73 {
            Note::Cs6
        } else if v == 74 {
            Note::D6
        } else if v == 75 {
            Note::Ds6
        } else if v == 76 {
            Note::E6
        } else if v == 77 {
            Note::F6
        } else if v == 78 {
            Note::Fs6
        } else if v == 79 {
            Note::G6
        } else if v == 80 {
            Note::Gs6
        } else if v == 81 {
            Note::A6
        } else if v == 82 {
            Note::As6
        } else if v == 83 {
            Note::B6
        } else if v == 84 {
            Note::C7
        } else if v == 85 {
            Note::Cs7
        } else if v == 86 {
            Note::D7
        } else if v == 87 {
            Note::Ds7
        } else if v == 88 {
            Note::E7
        } else if v == 89 {
            Note::F7
        } else if v == 90 {
            Note::Fs7
        } else if v == 91 {
            Note::G7
        } else if v == 92 {
            Note::Gs7
        } else if v == 93 {
            Note::A7
        } else if v == 94 {
            Note::As7
        } else if v == 95 {
            Note::B7
        } else if v == 96 {
            Note::C8
        } else if v == 97 {
            Note::Cs8
        } else if v == 98 {
            Note::D8
        } else if v == 99 {
            Note::Ds8
        } else if v == 100 {
            Note::E8
        } else if v == 101 {
            Note::F8
        } else if v == 102 {
            Note::Fs8
        } else if v == 103 {
            Note::G8
        } else if v == 104 {
            Note::Gs8
        } else if v == 105 {
            Note::A8
        } else if v == 106 {
            Note::As8
        } else if v == 107 {
            Note::B8
        } else if v == 108 {
            Note::C9
        } else if v == 109 {
            Note::Cs9
        } else if v == 110 {
            Note::D9
        } else if v == 111 {
            Note::Ds9
        } else if v == 112 {
            Note::E9
        } else if v == 113 {
            Note::F9
        } else if v == 114 {
            Note::Fs9
        } else if v == 115 {
            Note::G9
        } else if v == 116 {
            Note::Gs9
        } else if v == 117 {
            Note::A9
        } else if v == 118 {
            Note::As9
        } else if v == 119 {
            Note::B9
        } else if v == 120 {
            Note::C10
        } else if v == 121 {
            Note::Cs10
        } else if v == 122 {
            Note::D10
        } else if v == 123 {
            Note::Ds10
        } else if v == 124 {
            Note::E10
        } else if v == 125 {
            Note::F10
        } else if v == 126 {
            Note::Fs10
        } else if v == 127 {
            Note::G10
        } else if v == 254 {
            Note::OFF
        } else {
            Note::EMPTY
        }
    }

    /// The note's number as a byte.
    pub fn to_u8(self) -> (r: u8)
        ensures
            r == self.value(),
    {
        match self {
            Note::C0 => 0,
            Note::Cs0 => 1,
            Note::D0 => 2,
            Note::Ds0 => 3,
            Note::E0 => 4,
            Note::F0 => 5,
            Note::Fs0 => 6,
            Note::G0 => 7,
            Note::Gs0 => 8,
            Note::A0 => 9,
            Note::As0 => 10,
            Note::B0 => 11,
            Note::C1 => 12,
            Note::Cs1 => 13,
            Note::D1 => 14,
            Note::Ds1 => 15,
            Note::E1 => 16,
            Note::F1 => 17,
            Note::Fs1 => 18,
            Note::G1 => 19,
            Note::Gs1 => 20,
            Note::A1 => 21,
            Note::As1 => 22,
            Note::B1 => 23,
            Note::C2 => 24,
            Note::Cs2 => 25,
            Note::D2 => 26,
            Note::Ds2 => 27,
            Note::E2 => 28,
            Note::F2 => 29,
            Note::Fs2 => 30,
            Note::G2 => 31,
            Note::Gs2 => 32,
            Note::A2 => 33,
            Note::As2 => 34,
            Note::B2 => 35,
            Note::C3 => 36,
            Note::Cs3 => 37,
            Note::D3 => 38,
            Note::Ds3 => 39,
            Note::E3 => 40,
            Note::F3 => 41,
            Note::Fs3 => 42,
            Note::G3 => 43,
            Note::Gs3 => 44,
            Note::A3 => 45,
            Note::As3 => 46,
            Note::B3 => 47,
            Note::C4 => 48,
            Note::Cs4 => 49,
            Note::D4 => 50,
            Note::Ds4 => 51,
            Note::E4 => 52,
            Note::F4 => 53,
            Note::Fs4 => 54,
            Note::G4 => 55,
            Note::Gs4 => 56,
            Note::A4 => 57,
            Note::As4 => 58,
            Note::B4 => 59,
            Note::C5 => 60,
            Note::Cs5 => 61,
            Note::D5 => 62,
            Note::Ds5 => 63,
            Note::E5 => 64,
            Note::F5 => 65,
            Note::Fs5 => 66,
            Note::G5 => 67,
            Note::Gs5 => 68,
            Note::A5 => 69,
            Note::As5 => 70,
            Note::B5 => 71,
            Note::C6 => 72,
            Note::Cs6 => 73,
            Note::D6 => 74,
            Note::Ds6 => 75,
            Note::E6 => 76,
            Note::F6 => 77,
            Note::Fs6 => 78,
            Note::G6 => 79,
            Note::Gs6 => 80,
            Note::A6 => 81,
            Note::As6 => 82,
            Note::B6 => 83,
            Note::C7 => 84,
            Note::Cs7 => 85,
            Note::D7 => 86,
            Note::Ds7 => 87,
            Note::E7 => 88,
            Note::F7 => 89,
            Note::Fs7 => 90,
            Note::G7 => 91,
            Note::Gs7 => 92,
            Note::A7 => 93,
            Note::As7 => 94,
            Note::B7 => 95,
            Note::C8 => 96,
            Note::Cs8 => 97,
            Note::D8 => 98,
            Note::Ds8 => 99,
            Note::E8 => 100,
            Note::F8 => 101,
            Note::Fs8 => 102,
            Note::G8 => 103,
            Note::Gs8 => 104,
            Note::A8 => 105,
            Note::As8 => 106,
            Note::B8 => 107,
            Note::C9 => 108,
            Note::Cs9 => 109,
            Note::D9 => 110,
            Note::Ds9 => 111,
            Note::E9 => 112,
            Note::F9 => 113,
            Note::Fs9 => 114,
            Note::G9 => 115,
            Note::Gs9 => 116,
            Note::A9 => 117,
            Note::As9 => 118,
            Note::B9 => 119,
            Note::C10 => 120,
            Note::Cs10 => 121,
            Note::D10 => 122,
            Note::Ds10 => 123,
            Note::E10 => 124,
            Note::F10 => 125,
            Note::Fs10 => 126,
            Note::G10 => 127,
            Note::OFF => 254,
            Note::EMPTY => 255,
        }
    }

    /// The note of a 7 bit key number.
    fn from_u7(n: u8) -> (r: Note)
        requires
            n < 128,
        ensures
            r == Note::note_of(n as int),
    {
        reveal(Note::note_of);
        match n {
            0 => Note::C0,
            1 => Note::Cs0,
            2 => Note::D0,
            3 => Note::Ds0,
            4 => Note::E0,
            5 => Note::F0,
            6 => Note::Fs0,
            7 => Note::G0,
            8 => Note::Gs0,
            9 => Note::A0,
            10 => Note::As0,
            11 => Note::B0,
            12 => Note::C1,
            13 => Note::Cs1,
            14 => Note::D1,
            15 => Note::Ds1,
            16 => Note::E1,
            17 => Note::F1,
            18 => Note::Fs1,
            19 => Note::G1,
            20 => Note::Gs1,
            21 => Note::A1,
            22 => Note::As1,
            23 => Note::B1,
            24 => Note::C2,
            25 => Note::Cs2,
            26 => Note::D2,
            27 => Note::Ds2,
            28 => Note::E2,
            29 => Note::F2,
            30 => Note::Fs2,
            31 => Note::G2,
            32 => Note::Gs2,
            33 => Note::A2,
            34 => Note::As2,
            35 => Note::B2,
            36 => Note::C3,
            37 => Note::Cs3,
            38 => Note::D3,
            39 => Note::Ds3,
            40 => Note::E3,
            41 => Note::F3,
            42 => Note::Fs3,
            43 => Note::G3,
            44 => Note::Gs3,
            45 => Note::A3,
            46 => Note::As3,
            47 => Note::B3,
            48 => Note::C4,
            49 => Note::Cs4,
            50 => Note::D4,
            51 => Note::Ds4,
            52 => Note::E4,
            53 => Note::F4,
            54 => Note::Fs4,
            55 => Note::G4,
            56 => Note::Gs4,
            57 => Note::A4,
            58 => Note::As4,
            59 => Note::B4,
            60 => Note::C5,
            61 => Note::Cs5,
            62 => Note::D5,
            63 => Note::Ds5,
            64 => Note::E5,
            65 => Note::F5,
            66 => Note::Fs5,
            67 => Note::G5,
            68 => Note::Gs5,
            69 => Note::A5,
            70 => Note::As5,
            71 => Note::B5,
            72 => Note::C6,
            73 => Note::Cs6,
            74 => Note::D6,
            75 => Note::Ds6,
            76 => Note::E6,
            77 => Note::F6,
            78 => Note::Fs6,
            79 => Note::G6,
            80 => Note::Gs6,
            81 => Note::A6,
            82 => Note::As6,
            83 => Note::B6,
            84 => Note::C7,
            85 => Note::Cs7,
            86 => Note::D7,
            87 => Note::Ds7,
            88 => Note::E7,
            89 => Note::F7,
            90 => Note::Fs7,
            91 => Note::G7,
            92 => Note::Gs7,
            93 => Note::A7,
            94 => Note::As7,
            95 => Note::B7,
            96 => Note::C8,
            97 => Note::Cs8,
            98 => Note::D8,
            99 => Note::Ds8,
            100 => Note::E8,
            101 => Note::F8,
            102 => Note::Fs8,
            103 => Note::G8,
            104 => Note::Gs8,
            105 => Note::A8,
            106 => Note::As8,
            107 => Note::B8,
            108 => Note::C9,
            109 => Note::Cs9,
            110 => Note::D9,
            111 => Note::Ds9,
            112 => Note::E9,
            113 => Note::F9,
            114 => Note::Fs9,
            115 => Note::G9,
            116 => Note::Gs9,
            117 => Note::A9,
            118 => Note::As9,
            119 => Note::B9,
            120 => Note::C10,
            121 => Note::Cs10,
            122 => Note::D10,
            123 => Note::Ds10,
            124 => Note::E10,
            125 => Note::F10,
            126 => Note::Fs10,
            _ => Note::G10,
        }
    }

    /// Each note is the note of its own number.
    pub proof fn lemma_note_of_value(n: Note)
        ensures
            Note::note_of(n.value()) == n,
    {
        reveal(Note::note_of);
    }
}
/// `x` limited to the range `lo..=hi`.
pub open spec fn clamp(x: int, lo: int, hi: int) -> int {
    if x < lo {
        lo
    } else if x > hi {
        hi
    } else {
        x
    }
}

impl Note {
    /// The note a byte converts to: 0xFF is empty, 0xFE is a note-off, and every other byte
    /// is read as a 7 bit key number (its topmost bit is dropped).
    pub open spec fn spec_from_u8(n: int) -> Note {
        if n == 255 {
            Note::EMPTY
        } else if n == 254 {
            Note::OFF
        } else {
            Note::note_of(n % 128)
        }
    }

    /// Converts a byte to a note: see `spec_from_u8`.
    pub fn from_u8(n: u8) -> (r: Note)
        ensures
            r == Note::spec_from_u8(n as int),
    {
        if n == 255 {
            Note::EMPTY
        } else if n == 254 {
            Note::OFF
        } else {
            let m: u8 = n & 0x7f;
            assert(n & 0x7f == n % 128) by (bit_vector);
            Note::from_u7(m)
        }
    }

    /// Converts a signed byte to a note, reading its 7 lowest bits as key number.
    pub fn from_i8(n: i8) -> (r: Note)
        ensures
            r == Note::note_of((n as int) % 128),
    {
        let m: u8 = if n < 0 {
            ((n as i16) + 256) as u8
        } else {
            n as u8
        };
        assert(m & 0x7f == m % 128) by (bit_vector);
        Note::from_u7(m & 0x7f)
    }

    /// The note's number as a signed byte: the special values become negative.
    pub fn to_i8(self) -> (r: i8)
        ensures
            r as int == if self.value() < 128 {
                self.value()
            } else {
                self.value() - 256
            },
    {
        let v = self.to_u8();
        if v < 128 {
            v as i8
        } else {
            ((v as i16) - 256) as i8
        }
    }

    /// Returns if this note value is a note-on.
    pub fn is_note_on(&self) -> (r: bool)
        ensures
            r == (*self != Note::OFF && *self != Note::EMPTY),
    {
        *self != Note::OFF && *self != Note::EMPTY
    }

    /// Returns if this note value is a note-off.
    pub fn is_note_off(&self) -> (r: bool)
        ensures
            r == (*self == Note::OFF),
    {
        *self == Note::OFF && *self != Note::EMPTY
    }

    /// Root key of the note as number: 0 = C, 1 = C# ...
    pub fn key(&self) -> (r: u8)
        ensures
            r == self.value() % 12,
    {
        self.to_u8() % 12
    }

    /// The note's octave.
    pub fn octave(&self) -> (r: u8)
        ensures
            r == self.value() / 12,
    {
        self.to_u8() / 12
    }

    /// A new note, moved by `offset` keys and limited to the key range.
    pub fn transposed(&self, offset: i32) -> (r: Note)
        requires
            self.value() + offset <= i32::MAX,
        ensures
            r == Note::note_of(clamp(self.value() + offset, 0, 127)),
    {
        let v = self.to_u8() as i32 + offset;
        let c: i32 = if v < 0 {
            0
        } else if v > 0x7f {
            0x7f
        } else {
            v
        };
        Note::from_u7(c as u8)
    }

    /// The note moved up by `rhs` keys, limited to the highest key.
    pub fn add_keys(self, rhs: u8) -> (r: Note)
        ensures
            r == Note::note_of(clamp(self.value() + rhs, 0, 127)),
    {
        let v = self.to_u8() as i32 + rhs as i32;
        let c: i32 = if v > 0x7f {
            0x7f
        } else {
            v
        };
        Note::from_u7(c as u8)
    }

    /// The note moved down by `rhs` keys, limited to the lowest key. The special values,
    /// whose numbers lie above the key range, land in it.
    pub fn sub_keys(self, rhs: u8) -> (r: Note)
        ensures
            r == Note::spec_from_u8(clamp(self.value() - rhs, 0, 255)),
    {
        let v = self.to_u8() as i32 - rhs as i32;
        let c: i32 = if v < 0 {
            0
        } else {
            v
        };
        Note::from_u8(c as u8)
    }
}

impl core::ops::Add<u8> for Note {
    type Output = Note;

    /// The note moved up by `rhs` keys, see `add_keys`.
    fn add(self, rhs: u8) -> (r: Note)
        ensures
            r == Note::note_of(clamp(self.value() + rhs, 0, 127)),
    {
        self.add_keys(rhs)
    }
}

impl vstd::std_specs::ops::AddSpecImpl<u8> for Note {
    open spec fn obeys_add_spec() -> bool {
        true
    }

    open spec fn add_req(self, rhs: u8) -> bool {
        true
    }

    open spec fn add_spec(self, rhs: u8) -> Note {
        Note::note_of(clamp(self.value() + rhs, 0, 127))
    }
}

impl core::ops::Sub<u8> for Note {
    type Output = Note;

    /// The note moved down by `rhs` keys, see `sub_keys`.
    fn sub(self, rhs: u8) -> (r: Note)
        ensures
            r == Note::spec_from_u8(clamp(self.value() - rhs, 0, 255)),
    {
        self.sub_keys(rhs)
    }
}

impl vstd::std_specs::ops::SubSpecImpl<u8> for Note {
    open spec fn obeys_sub_spec() -> bool {
        true
    }

    open spec fn sub_req(self, rhs: u8) -> bool {
        true
    }

    open spec fn sub_spec(self, rhs: u8) -> Note {
        Note::spec_from_u8(clamp(self.value() - rhs, 0, 255))
    }
}

impl From<u8> for Note {
    fn from(n: u8) -> (r: Note) {
        Note::from_u8(n)
    }
}

impl vstd::std_specs::convert::FromSpecImpl<u8> for Note {
    open spec fn obeys_from_spec() -> bool {
        true
    }

    open spec fn from_spec(v: u8) -> Note {
        Note::spec_from_u8(v as int)
    }
}

impl From<Note> for u8 {
    fn from(note: Note) -> (r: u8) {
        note.to_u8()
    }
}

impl vstd::std_specs::convert::FromSpecImpl<Note> for u8 {
    open spec fn obeys_from_spec() -> bool {
        true
    }

    open spec fn from_spec(v: Note) -> u8 {
        v.value() as u8
    }
}

impl From<i8> for Note {
    fn from(n: i8) -> (r: Note) {
        Note::from_i8(n)
    }
}

impl vstd::std_specs::convert::FromSpecImpl<i8> for Note {
    open spec fn obeys_from_spec() -> bool {
        true
    }

    open spec fn from_spec(v: i8) -> Note {
        Note::note_of((v as int) % 128)
    }
}

impl From<Note> for i8 {
    fn from(note: Note) -> (r: i8) {
        note.to_i8()
    }
}

impl vstd::std_specs::convert::FromSpecImpl<Note> for i8 {
    open spec fn obeys_from_spec() -> bool {
        true
    }

    open spec fn from_spec(v: Note) -> i8 {
        (if v.value() < 128 {
            v.value()
        } else {
            v.value() - 256
        }) as i8
    }
}

// ---------------------------------------------------------------------------------------------
// Note strings

/// Name of a key: 0 = "C", 1 = "C#" ... 11 = "B".
pub open spec fn key_name(k: int) -> Seq<char> {
    if k == 0 {
        seq!['C']
    } else if k == 1 {
        seq!['C', '#']
    } else if k == 2 {
        seq!['D']
    } else if k == 3 {
        seq!['D', '#']
    } else if k == 4 {
        seq!['E']
    } else if k == 5 {
        seq!['F']
    } else if k == 6 {
        seq!['F', '#']
    } else if k == 7 {
        seq!['G']
    } else if k == 8 {
        seq!['G', '#']
    } else if k == 9 {
        seq!['A']
    } else if k == 10 {
        seq!['A', '#']
    } else {
        seq!['B']
    }
}

/// The name of key `k`, see `key_name`.
pub fn key_str(k: u8) -> (r: &'static str)
    requires
        k < 12,
    ensures
        r@ == key_name(k as int),
{
    proof {
        reveal_strlit("C");
        reveal_strlit("C#");
        reveal_strlit("D");
        reveal_strlit("D#");
        reveal_strlit("E");
        reveal_strlit("F");
        reveal_strlit("F#");
        reveal_strlit("G");
        reveal_strlit("G#");
        reveal_strlit("A");
        reveal_strlit("A#");
        reveal_strlit("B");
    }
    if k == 0 {
        "C"
    } else if k == 1 {
        "C#"
    } else if k == 2 {
        "D"
    } else if k == 3 {
        "D#"
    } else if k == 4 {
        "E"
    } else if k == 5 {
        "F"
    } else if k == 6 {
        "F#"
    } else if k == 7 {
        "G"
    } else if k == 8 {
        "G#"
    } else if k == 9 {
        "A"
    } else if k == 10 {
        "A#"
    } else {
        "B"
    }
}

impl Note {
    /// The note's string: key name and octave number, or "off" and "---" for the special
    /// values.
    pub open spec fn spec_text(self) -> Seq<char> {
        if self == Note::EMPTY {
            seq!['-', '-', '-']
        } else if self == Note::OFF {
            seq!['o', 'f', 'f']
        } else {
            key_name(self.value() % 12) + decimal((self.value() / 12) as nat)
        }
    }

    /// The note's string, see `spec_text`.
    pub fn to_string(&self) -> (r: String)
        ensures
            r@ == self.spec_text(),
    {
        if *self == Note::EMPTY {
            proof {
                reveal_strlit("---");
            }
            string_of("---")
        } else if *self == Note::OFF {
            proof {
                reveal_strlit("off");
            }
            string_of("off")
        } else {
            let v = self.to_u8();
            let mut r = string_of(key_str(v % 12));
            crate::text::append_decimal(&mut r, (v / 12) as u32);
            r
        }
    }
}

/// The characters that mark a sharp after a note letter.
pub open spec fn is_sharp_char(c: char) -> bool {
    c == 'S' || c == 's' || c == '#' || c == '♮'
}

/// The characters that mark a flat after a note letter.
pub open spec fn is_flat_char(c: char) -> bool {
    c == 'B' || c == 'b' || c == '♭'
}

/// The characters that may separate a note letter from its octave.
pub open spec fn is_separator_char(c: char) -> bool {
    c == ' ' || c == '_' || c == '-'
}

/// Blank characters: a key text whose octave part starts with one has the default octave.
pub open spec fn is_blank_char(c: char) -> bool {
    c == ' ' || c == '\t'
}

/// Key number of a note letter, in either case.
pub open spec fn letter_value(c: char) -> Option<int> {
    if c == 'c' || c == 'C' {
        Some(0)
    } else if c == 'd' || c == 'D' {
        Some(2)
    } else if c == 'e' || c == 'E' {
        Some(4)
    } else if c == 'f' || c == 'F' {
        Some(5)
    } else if c == 'g' || c == 'G' {
        Some(7)
    } else if c == 'a' || c == 'A' {
        Some(9)
    } else if c == 'b' || c == 'B' {
        Some(11)
    } else {
        None
    }
}

/// A text that is empty or made of dashes only stands for the empty note.
pub open spec fn is_empty_text(s: Seq<char>) -> bool {
    forall|i: int| 0 <= i < s.len() ==> s[i] == '-'
}

/// "off" in any ASCII case, or "~", stands for a note-off.
pub open spec fn is_off_text(s: Seq<char>) -> bool {
    eq_ignore_case(s, seq!['o', 'f', 'f']) || s == seq!['~']
}

/// Key offset of the accidental that follows the note letter.
pub open spec fn accidental(s: Seq<char>) -> int {
    if s.len() > 1 && is_sharp_char(s[1]) {
        1
    } else if s.len() > 1 && is_flat_char(s[1]) {
        -1
    } else {
        0
    }
}

/// The octave part of a key text: it follows the letter, or the letter and an accidental or
/// separator. It defaults to 4 when it is missing or starts with a blank.
pub open spec fn octave_of_text(s: Seq<char>) -> Result<i32, IntErrorKind> {
    if s.len() > 1 && (is_sharp_char(s[1]) || is_flat_char(s[1]) || is_separator_char(s[1])) {
        if s.len() > 2 && !is_blank_char(s[2]) {
            spec_parse_i32(s.subrange(2, s.len() as int))
        } else {
            Ok(4)
        }
    } else if s.len() > 1 && !is_blank_char(s[1]) {
        spec_parse_i32(s.subrange(1, s.len() as int))
    } else {
        Ok(4)
    }
}

/// The message for a note text whose first character is no note letter.
pub open spec fn letter_error(s: Seq<char>, c: char) -> Seq<char> {
    "invalid note str '"@ + s + "' - note character '"@ + seq![c] + "' is invalid."@
}

/// The message for a note text whose octave part is no integer.
pub open spec fn octave_error(s: Seq<char>, k: IntErrorKind) -> Seq<char> {
    "invalid note str '"@ + s + "': "@ + int_error_text(k)
}

/// The message for a note text whose octave lies outside `0..=10`.
pub open spec fn range_error(s: Seq<char>, octave: int) -> Seq<char> {
    "invalid note str '"@ + s + "' - octave '"@ + int_text(octave) + "' is out of range."@
}

/// The note that a note text denotes, or the error message for it.
pub open spec fn spec_parse_note(s: Seq<char>) -> Result<Note, Seq<char>> {
    if is_empty_text(s) {
        Ok(Note::EMPTY)
    } else if is_off_text(s) {
        Ok(Note::OFF)
    } else {
        match letter_value(s[0]) {
            None => Err(letter_error(s, s[0])),
            Some(l) => match octave_of_text(s) {
                Err(k) => Err(octave_error(s, k)),
                Ok(o) => if 0 <= o <= 10 {
                    Ok(Note::spec_from_u8((o * 12 + l + accidental(s) + 256) % 256))
                } else {
                    Err(range_error(s, o as int))
                },
            },
        }
    }
}

/// A parse result with its error message taken by its characters.
pub open spec fn result_view(r: Result<Note, String>) -> Result<Note, Seq<char>> {
    match r {
        Ok(n) => Ok(n),
        Err(e) => Err(e@),
    }
}

pub(crate) fn is_sharp_exec(c: char) -> (r: bool)
    ensures
        r == is_sharp_char(c),
{
    c == 'S' || c == 's' || c == '#' || c == '♮'
}

pub(crate) fn is_flat_exec(c: char) -> (r: bool)
    ensures
        r == is_flat_char(c),
{
    c == 'B' || c == 'b' || c == '♭'
}

fn is_separator_exec(c: char) -> (r: bool)
    ensures
        r == is_separator_char(c),
{
    c == ' ' || c == '_' || c == '-'
}

pub(crate) fn is_blank_exec(c: char) -> (r: bool)
    ensures
        r == is_blank_char(c),
{
    c == ' ' || c == '\t'
}

pub(crate) fn letter_value_exec(c: char) -> (r: Option<i32>)
    ensures
        r matches Some(v) ==> letter_value(c) == Some(v as int),
        r is None ==> letter_value(c) is None,
{
    if c == 'c' || c == 'C' {
        Some(0)
    } else if c == 'd' || c == 'D' {
        Some(2)
    } else if c == 'e' || c == 'E' {
        Some(4)
    } else if c == 'f' || c == 'F' {
        Some(5)
    } else if c == 'g' || c == 'G' {
        Some(7)
    } else if c == 'a' || c == 'A' {
        Some(9)
    } else if c == 'b' || c == 'B' {
        Some(11)
    } else {
        None
    }
}

fn is_empty_text_exec(cs: &Vec<char>) -> (r: bool)
    ensures
        r == is_empty_text(cs@),
{
    let mut i: usize = 0;
    while i < cs.len()
        invariant
            i <= cs@.len(),
            forall|k: int| 0 <= k < i ==> cs@[k] == '-',
        decreases cs@.len() - i,
    {
        if cs[i] != '-' {
            return false;
        }
        i = i + 1;
    }
    true
}

fn is_off_text_exec(cs: &Vec<char>) -> (r: bool)
    ensures
        r == is_off_text(cs@),
{
    let off: Vec<char> = vec!['o', 'f', 'f'];
    let tilde: Vec<char> = vec!['~'];
    let a = vec_eq_ignore_case(cs, &off);
    let b = crate::text::vec_eq(cs, &tilde);
    proof {
        assert(off@ == seq!['o', 'f', 'f']);
        assert(tilde@ == seq!['~']);
    }
    a || b
}

fn letter_error_string(s: &str) -> (r: String)
    requires
        s@.len() > 0,
    ensures
        r@ == letter_error(s@, s@[0]),
{
    let mut e = string_of("invalid note str '");
    e.append(s);
    e.append("' - note character '");
    e.append(s.substring_char(0, 1));
    e.append("' is invalid.");
    proof {
        assert(s@.subrange(0, 1) =~= seq![s@[0]]);
    }
    e
}

fn octave_error_string(s: &str, k: IntErrorKind) -> (r: String)
    ensures
        r@ == octave_error(s@, k),
{
    let mut e = string_of("invalid note str '");
    e.append(s);
    e.append("': ");
    e.append(int_error_str(k));
    e
}

fn range_error_string(s: &str, o: i32) -> (r: String)
    ensures
        r@ == range_error(s@, o as int),
{
    let mut e = string_of("invalid note str '");
    e.append(s);
    e.append("' - octave '");
    append_int(&mut e, o);
    e.append("' is out of range.");
    e
}

fn accidental_exec(cs: &Vec<char>) -> (r: i32)
    ensures
        r == accidental(cs@),
{
    let n = cs.len();
    if n > 1 && is_sharp_exec(cs[1]) {
        1
    } else if n > 1 && is_flat_exec(cs[1]) {
        -1
    } else {
        0
    }
}

fn octave_of_text_exec(cs: &Vec<char>) -> (r: Result<i32, IntErrorKind>)
    ensures
        r == octave_of_text(cs@),
{
    let n = cs.len();
    if n > 1 && (is_sharp_exec(cs[1]) || is_flat_exec(cs[1]) || is_separator_exec(cs[1])) {
        if n > 2 && !is_blank_exec(cs[2]) {
            parse_i32(cs, 2)
        } else {
            Ok(4)
        }
    } else if n > 1 && !is_blank_exec(cs[1]) {
        parse_i32(cs, 1)
    } else {
        Ok(4)
    }
}

fn note_of_key_number(v: i32) -> (r: Note)
    requires
        -256 < v < 256,
    ensures
        r == Note::spec_from_u8((v + 256) % 256),
{
    let b: u8 = if v < 0 {
        (v + 256) as u8
    } else {
        v as u8
    };
    Note::from_u8(b)
}

impl Note {
    /// Try converting the given string to a note. Supported notations are `C4` (plain),
    /// `C#1` (sharps), `Db1` (flats), `D_2` (`_` as separator), `G 5` (space as separator),
    /// "off" or "~" for a note-off, and "", "-" or "---" for the empty note.
    pub fn try_from(s: &str) -> (r: Result<Note, String>)
        ensures
            result_view(r) == spec_parse_note(s@),
    {
        let cs = chars_of(s);
        if is_empty_text_exec(&cs) {
            return Ok(Note::EMPTY);
        }
        if is_off_text_exec(&cs) {
            return Ok(Note::OFF);
        }
        let letter = match letter_value_exec(cs[0]) {
            None => {
                return Err(letter_error_string(s));
            },
            Some(l) => l,
        };
        let acc = accidental_exec(&cs);
        match octave_of_text_exec(&cs) {
            Err(k) => Err(octave_error_string(s, k)),
            Ok(o) => {
                if 0 <= o && o <= 10 {
                    Ok(note_of_key_number(o * 12 + letter + acc))
                } else {
                    Err(range_error_string(s, o))
                }
            },
        }
    }
}

proof fn lemma_decimal_octave(o: nat)
    requires
        o <= 21,
    ensures
        decimal(o).len() >= 1,
        crate::text::is_digit(decimal(o)[0]),
        spec_parse_i32(decimal(o)) == Ok::<i32, IntErrorKind>(o as i32),
{
    reveal_with_fuel(decimal, 2);
    reveal_with_fuel(crate::text::parse_digits, 3);
    if o >= 10 {
        assert(decimal(o) == seq![crate::text::digit_char((o / 10) as int), crate::text::digit_char((o % 10) as int)]);
        assert(decimal(o).drop_first() == seq![crate::text::digit_char((o % 10) as int)]);
    }
}

proof fn lemma_key_name(k: int)
    requires
        0 <= k < 12,
    ensures
        1 <= key_name(k).len() <= 2,
        letter_value(key_name(k)[0]) == Some(k - (key_name(k).len() - 1)),
        key_name(k).len() == 2 ==> key_name(k)[1] == '#',
        key_name(k)[0] != '-' && key_name(k)[0] != '~',
        lower_code_of_first_is_not_o(key_name(k)),
{
}

spec fn lower_code_of_first_is_not_o(s: Seq<char>) -> bool {
    crate::text::lower_code(s[0]) != crate::text::lower_code('o')
}

/// Reading back the string of a note gives the note again: every note's string is a valid
/// note string that denotes that very note.
pub proof fn lemma_parse_of_text_roundtrip(n: Note)
    ensures
        spec_parse_note(n.spec_text()) == Ok::<Note, Seq<char>>(n),
{
    Note::lemma_note_of_value(n);
    let t = n.spec_text();
    if n == Note::EMPTY {
        assert(is_empty_text(t));
    } else if n == Note::OFF {
        assert(!is_empty_text(t)) by {
            assert(t[0] == 'o');
        }
        assert(eq_ignore_case(t, seq!['o', 'f', 'f']));
    } else {
        let v = n.value();
        assert(0 <= v < 128);
        let k = v % 12;
        let o = v / 12;
        let kn = key_name(k);
        let d = decimal(o as nat);
        lemma_key_name(k);
        lemma_decimal_octave(o as nat);
        assert(t == kn + d);
        assert(t[0] == kn[0]);
        assert(!is_empty_text(t));
        assert(!eq_ignore_case(t, seq!['o', 'f', 'f'])) by {
            if eq_ignore_case(t, seq!['o', 'f', 'f']) {
                assert(crate::text::lower_code(t[0]) == crate::text::lower_code(seq!['o', 'f', 'f'][0]));
            }
        }
        assert(t != seq!['~']) by {
            if t == seq!['~'] {
                assert(t[0] == '~');
            }
        }
        if kn.len() == 2 {
            assert(t[1] == '#');
            assert(t[2] == d[0]);
            assert(t.subrange(2, t.len() as int) =~= d);
            assert(accidental(t) == 1);
        } else {
            assert(t[1] == d[0]);
            assert(t.subrange(1, t.len() as int) =~= d);
            assert(!is_sharp_char(t[1]) && !is_flat_char(t[1]) && !is_separator_char(t[1]));
            assert(accidental(t) == 0);
        }
        assert(octave_of_text(t) == Ok::<i32, IntErrorKind>(o as i32));
        assert((o * 12 + k + 256) % 256 == v);
        Note::lemma_note_of_value(n);
    }
}

/// Converting a note to its number and back gives the note.
pub proof fn lemma_number_roundtrip(n: Note)
    ensures
        Note::spec_from_u8(n.value()) == n,
{
    Note::lemma_note_of_value(n);
}

/// Below the two special codes, a byte converts to the note whose number is the byte's seven
/// lowest bits.
pub proof fn lemma_byte_roundtrip(b: int)
    requires
        0 <= b < 254,
    ensures
        Note::spec_from_u8(b).value() == b % 128,
{
    reveal(Note::note_of);
}

/// Every sharp spelling of a note names the key one above its letter: for a note letter `l`,
/// a sharp mark `c` (`s`, `S` or `#`) and an octave text `t` that starts with a digit, the
/// text `l c t` reads exactly when `l t` does, one key above it (for an octave in
/// `0..=10`), and every sharp mark reads alike.
pub proof fn lemma_sharp_spellings(l: char, c: char, t: Seq<char>)
    requires
        letter_value(l) is Some,
        c == 's' || c == 'S' || c == '#',
        t.len() > 0,
        crate::text::is_digit(t[0]),
    ensures
        spec_parse_note(seq![l, c] + t) is Ok <==> spec_parse_note(seq![l] + t) is Ok,
        spec_parse_note(seq![l, c] + t) is Ok ==> spec_parse_note(seq![l, c] + t)
            == spec_parse_note(seq![l, '#'] + t),
        match spec_parse_i32(t) {
            Ok(o) => 0 <= o <= 10 ==> {
                &&& spec_parse_note(seq![l] + t) == Ok::<Note, Seq<char>>(
                    Note::spec_from_u8(o * 12 + letter_value(l)->0),
                )
                &&& spec_parse_note(seq![l, c] + t) == Ok::<Note, Seq<char>>(
                    Note::spec_from_u8(o * 12 + letter_value(l)->0 + 1),
                )
            },
            Err(_) => spec_parse_note(seq![l] + t) is Err,
        },
{
    let a = seq![l] + t;
    let b = seq![l, c] + t;
    let h = seq![l, '#'] + t;
    assert(a[0] == l && b[0] == l && h[0] == l);
    assert(a[1] == t[0] && b[1] == c && h[1] == '#');
    assert(!is_empty_text(a) && !is_empty_text(b) && !is_empty_text(h));
    assert(crate::text::lower_code(l) != crate::text::lower_code('o'));
    assert(!is_off_text(a) && !is_off_text(b) && !is_off_text(h));
    assert(a.subrange(1, a.len() as int) =~= t);
    assert(b.subrange(2, b.len() as int) =~= t);
    assert(h.subrange(2, h.len() as int) =~= t);
    assert(accidental(a) == 0);
    assert(accidental(b) == 1);
    assert(accidental(h) == 1);
}

/// Every flat spelling of a note names the key one below its letter: for a note letter `l`,
/// a flat mark `c` (`b`, `B` or `♭`) and an octave text `t` that starts with a digit, the
/// text `l c t` reads exactly when `l t` does, one key below it (for an octave in `0..=10`
/// and a note above the lowest key), and every flat mark reads alike.
pub proof fn lemma_flat_spellings(l: char, c: char, t: Seq<char>)
    requires
        letter_value(l) is Some,
        c == 'b' || c == 'B' || c == '♭',
        t.len() > 0,
        crate::text::is_digit(t[0]),
    ensures
        spec_parse_note(seq![l, c] + t) is Ok <==> spec_parse_note(seq![l] + t) is Ok,
        spec_parse_note(seq![l, c] + t) is Ok ==> spec_parse_note(seq![l, c] + t)
            == spec_parse_note(seq![l, 'b'] + t),
        match spec_parse_i32(t) {
            Ok(o) => 0 <= o <= 10 && o * 12 + letter_value(l)->0 >= 1 ==> {
                &&& spec_parse_note(seq![l] + t) == Ok::<Note, Seq<char>>(
                    Note::spec_from_u8(o * 12 + letter_value(l)->0),
                )
                &&& spec_parse_note(seq![l, c] + t) == Ok::<Note, Seq<char>>(
                    Note::spec_from_u8(o * 12 + letter_value(l)->0 - 1),
                )
            },
            Err(_) => spec_parse_note(seq![l] + t) is Err,
        },
{
    let a = seq![l] + t;
    let b = seq![l, c] + t;
    let h = seq![l, 'b'] + t;
    assert(a[0] == l && b[0] == l && h[0] == l);
    assert(a[1] == t[0] && b[1] == c && h[1] == 'b');
    assert(!is_empty_text(a) && !is_empty_text(b) && !is_empty_text(h));
    assert(crate::text::lower_code(l) != crate::text::lower_code('o'));
    assert(!is_off_text(a) && !is_off_text(b) && !is_off_text(h));
    assert(a.subrange(1, a.len() as int) =~= t);
    assert(b.subrange(2, b.len() as int) =~= t);
    assert(h.subrange(2, h.len() as int) =~= t);
    assert(accidental(a) == 0);
    assert(accidental(b) == -1);
    assert(accidental(h) == -1);
}

/// A separator (` `, `_` or `-`) between the note letter and an octave text that starts
/// with a digit changes nothing: `l c t` reads exactly when `l t` does, as the same note.
pub proof fn lemma_separators_ignored(l: char, c: char, t: Seq<char>)
    requires
        letter_value(l) is Some,
        c == ' ' || c == '_' || c == '-',
        t.len() > 0,
        crate::text::is_digit(t[0]),
    ensures
        spec_parse_note(seq![l, c] + t) is Ok <==> spec_parse_note(seq![l] + t) is Ok,
        spec_parse_note(seq![l, c] + t) is Ok ==> spec_parse_note(seq![l, c] + t)
            == spec_parse_note(seq![l] + t),
{
    let a = seq![l] + t;
    let b = seq![l, c] + t;
    assert(a[0] == l && b[0] == l);
    assert(a[1] == t[0] && b[1] == c);
    assert(!is_empty_text(a) && !is_empty_text(b));
    assert(crate::text::lower_code(l) != crate::text::lower_code('o'));
    assert(!is_off_text(a) && !is_off_text(b));
    assert(a.subrange(1, a.len() as int) =~= t);
    assert(b.subrange(2, b.len() as int) =~= t);
    assert(accidental(a) == 0);
    assert(accidental(b) == 0);
}

} // verus!
