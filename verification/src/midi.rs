//! MIDI notes: 128 keys from C-1 up to G9, plus a note-off value, with conversions from and
//! to numbers, note strings and `rust_music_theory` notes.

use vstd::prelude::*;
use vstd::string::StrSliceExecFns;
use vstd::string::StringExecFns;

use crate::note::{
    is_blank_char, is_flat_char, is_flat_exec, is_sharp_char, is_sharp_exec, key_name, key_str,
    letter_value, letter_value_exec,
};
use crate::text::{append_int, chars_of, eq_ignore_case, int_text, string_of, vec_eq_ignore_case};

verus! {

/// A MIDI note: a 7 bit key number, C-1 = 0 up to G9 = 127. The subscript 'S' to a note
/// means sharp, the subscript 'm' to an octave means negative, so `Csm1` is C# in octave -1.
/// `OFF` stands for a note-off.
#[derive(Debug, PartialEq, Eq, PartialOrd, Ord, Copy, Clone, Hash, Structural)]
#[allow(non_camel_case_types)]
pub enum Note {
    Cm1,
    Csm1,
    Dm1,
    Dsm1,
    Em1,
    Fm1,
    Fsm1,
    Gm1,
    Gsm1,
    Am1,
    Asm1,
    Bm1,
    C0,
    Cs0,
    D0,
    Ds0,
    E0,
    F0,
    Fs0,
    G0,
    Gs0,
    A0,
    As0,
    B0,
    C1,
    Cs1,
    D1,
    Ds1,
    E1,
    F1,
    Fs1,
    G1,
    Gs1,
    A1,
    As1,
    B1,
    C2,
    Cs2,
    D2,
    Ds2,
    E2,
    F2,
    Fs2,
    G2,
    Gs2,
    A2,
    As2,
    B2,
    C3,
    Cs3,
    D3,
    Ds3,
    E3,
    F3,
    Fs3,
    G3,
    Gs3,
    A3,
    As3,
    B3,
    C4,
    Cs4,
    D4,
    Ds4,
    E4,
    F4,
    Fs4,
    G4,
    Gs4,
    A4,
    As4,
    B4,
    C5,
    Cs5,
    D5,
    Ds5,
    E5,
    F5,
    Fs5,
    G5,
    Gs5,
    A5,
    As5,
    B5,
    C6,
    Cs6,
    D6,
    Ds6,
    E6,
    F6,
    Fs6,
    G6,
    Gs6,
    A6,
    As6,
    B6,
    C7,
    Cs7,
    D7,
    Ds7,
    E7,
    F7,
    Fs7,
    G7,
    Gs7,
    A7,
    As7,
    B7,
    C8,
    Cs8,
    D8,
    Ds8,
    E8,
    F8,
    Fs8,
    G8,
    Gs8,
    A8,
    As8,
    B8,
    C9,
    Cs9,
    D9,
    Ds9,
    E9,
    F9,
    Fs9,
    G9,
    OFF,
}

impl Note {
    /// The note's number: its MIDI key number, or the code of a special value.
    pub open spec fn value(self) -> int {
        match self {
            Note::Cm1 => 0,
            Note::Csm1 => 1,
            Note::Dm1 => 2,
            Note::Dsm1 => 3,
            Note::Em1 => 4,
            Note::Fm1 => 5,
            Note::Fsm1 => 6,
            Note::Gm1 => 7,
            Note::Gsm1 => 8,
            Note::Am1 => 9,
            Note::Asm1 => 10,
            Note::Bm1 => 11,
            Note::C0 => 12,
            Note::Cs0 => 13,
            Note::D0 => 14,
            Note::Ds0 => 15,
            Note::E0 => 16,
            Note::F0 => 17,
            Note::Fs0 => 18,
            Note::G0 => 19,
            Note::Gs0 => 20,
            Note::A0 => 21,
            Note::As0 => 22,
            Note::B0 => 23,
            Note::C1 => 24,
            Note::Cs1 => 25,
            Note::D1 => 26,
            Note::Ds1 => 27,
            Note::E1 => 28,
            Note::F1 => 29,
            Note::Fs1 => 30,
            Note::G1 => 31,
            Note::Gs1 => 32,
            Note::A1 => 33,
            Note::As1 => 34,
            Note::B1 => 35,
            Note::C2 => 36,
            Note::Cs2 => 37,
            Note::D2 => 38,
            Note::Ds2 => 39,
            Note::E2 => 40,
            Note::F2 => 41,
            Note::Fs2 => 42,
            Note::G2 => 43,
            Note::Gs2 => 44,
            Note::A2 => 45,
            Note::As2 => 46,
            Note::B2 => 47,
            Note::C3 => 48,
            Note::Cs3 => 49,
            Note::D3 => 50,
            Note::Ds3 => 51,
            Note::E3 => 52,
            Note::F3 => 53,
            Note::Fs3 => 54,
            Note::G3 => 55,
            Note::Gs3 => 56,
            Note::A3 => 57,
            Note::As3 => 58,
            Note::B3 => 59,
            Note::C4 => 60,
            Note::Cs4 => 61,
            Note::D4 => 62,
            Note::Ds4 => 63,
            Note::E4 => 64,
            Note::F4 => 65,
            Note::Fs4 => 66,
            Note::G4 => 67,
            Note::Gs4 => 68,
            Note::A4 => 69,
            Note::As4 => 70,
            Note::B4 => 71,
            Note::C5 => 72,
            Note::Cs5 => 73,
            Note::D5 => 74,
            Note::Ds5 => 75,
            Note::E5 => 76,
            Note::F5 => 77,
            Note::Fs5 => 78,
            Note::G5 => 79,
            Note::Gs5 => 80,
            Note::A5 => 81,
            Note::As5 => 82,
            Note::B5 => 83,
            Note::C6 => 84,
            Note::Cs6 => 85,
            Note::D6 => 86,
            Note::Ds6 => 87,
            Note::E6 => 88,
            Note::F6 => 89,
            Note::Fs6 => 90,
            Note::G6 => 91,
            Note::Gs6 => 92,
            Note::A6 => 93,
            Note::As6 => 94,
            Note::B6 => 95,
            Note::C7 => 96,
            Note::Cs7 => 97,
            Note::D7 => 98,
            Note::Ds7 => 99,
            Note::E7 => 100,
            Note::F7 => 101,
            Note::Fs7 => 102,
            Note::G7 => 103,
            Note::Gs7 => 104,
            Note::A7 => 105,
            Note::As7 => 106,
            Note::B7 => 107,
            Note::C8 => 108,
            Note::Cs8 => 109,
            Note::D8 => 110,
            Note::Ds8 => 111,
            Note::E8 => 112,
            Note::F8 => 113,
            Note::Fs8 => 114,
            Note::G8 => 115,
            Note::Gs8 => 116,
            Note::A8 => 117,
            Note::As8 => 118,
            Note::B8 => 119,
            Note::C9 => 120,
            Note::Cs9 => 121,
            Note::D9 => 122,
            Note::Ds9 => 123,
            Note::E9 => 124,
            Note::F9 => 125,
            Note::Fs9 => 126,
            Note::G9 => 127,
            Note::OFF => 255,
        }
    }

    /// The note whose number is `v`.
    #[verifier::opaque]
    pub open spec fn note_of(v: int) -> Note {
        if v == 0 {
            Note::Cm1
        } else if v == 1 {
            Note::Csm1
        } else if v == 2 {
            Note::Dm1
        } else if v == 3 {
            Note::Dsm1
        } else if v == 4 {
            Note::Em1
        } else if v == 5 {
            Note::Fm1
        } else if v == 6 {
            Note::Fsm1
        } else if v == 7 {
            Note::Gm1
        } else if v == 8 {
            Note::Gsm1
        } else if v == 9 {
            Note::Am1
        } else if v == 10 {
            Note::Asm1
        } else if v == 11 {
            Note::Bm1
        } else if v == 12 {
            Note::C0
        } else if v == 13 {
            Note::Cs0
        } else if v == 14 {
            Note::D0
        } else if v == 15 {
            Note::Ds0
        } else if v == 16 {
            Note::E0
        } else if v == 17 {
            Note::F0
        } else if v == 18 {
            Note::Fs0
        } else if v == 19 {
            Note::G0
        } else if v == 20 {
            Note::Gs0
        } else if v == 21 {
            Note::A0
        } else if v == 22 {
            Note::As0
        } else if v == 23 {
            Note::B0
        } else if v == 24 {
            Note::C1
        } else if v == 25 {
            Note::Cs1
        } else if v == 26 {
            Note::D1
        } else if v == 27 {
            Note::Ds1
        } else if v == 28 {
            Note::E1
        } else if v == 29 {
            Note::F1
        } else if v == 30 {
            Note::Fs1
        } else if v == 31 {
            Note::G1
        } else if v == 32 {
            Note::Gs1
        } else if v == 33 {
            Note::A1
        } else if v == 34 {
            Note::As1
        } else if v == 35 {
            Note::B1
        } else if v == 36 {
            Note::C2
        } else if v == 37 {
            Note::Cs2
        } else if v == 38 {
            Note::D2
        } else if v == 39 {
            Note::Ds2
        } else if v == 40 {
            Note::E2
        } else if v == 41 {
            Note::F2
        } else if v == 42 {
            Note::Fs2
        } else if v == 43 {
            Note::G2
        } else if v == 44 {
            Note::Gs2
        } else if v == 45 {
            Note::A2
        } else if v == 46 {
            Note::As2
        } else if v == 47 {
            Note::B2
        } else if v == 48 {
            Note::C3
        } else if v == 49 {
            Note::Cs3
        } else if v == 50 {
            Note::D3
        } else if v == 51 {
            Note::Ds3
        } else if v == 52 {
            Note::E3
        } else if v == 53 {
            Note::F3
        } else if v == 54 {
            Note::Fs3
        } else if v == 55 {
            Note::G3
        } else if v == 56 {
            Note::Gs3
        } else if v == 57 {
            Note::A3
        } else if v == 58 {
            Note::As3
        } else if v == 59 {
            Note::B3
        } else if v == 60 {
            Note::C4
        } else if v == 61 {
            Note::Cs4
        } else if v == 62 {
            Note::D4
        } else if v == 63 {
            Note::Ds4
        } else if v == 64 {
            Note::E4
        } else if v == 65 {
            Note::F4
        } else if v == 66 {
            Note::Fs4
        } else if v == 67 {
            Note::G4
        } else if v == 68 {
            Note::Gs4
        } else if v == 69 {
            Note::A4
        } else if v == 70 {
            Note::As4
        } else if v == 71 {
            Note::B4
        } else if v == 72 {
            Note::C5
        } else if v == 73 {
            Note::Cs5
        } else if v == 74 {
            Note::D5
        } else if v == 75 {
            Note::Ds5
        } else if v == 76 {
            Note::E5
        } else if v == 77 {
            Note::F5
        } else if v == 78 {
            Note::Fs5
        } else if v == 79 {
            Note::G5
        } else if v == 80 {
            Note::Gs5
        } else if v == 81 {
            Note::A5
        } else if v == 82 {
            Note::As5
        } else if v == 83 {
            Note::B5
        } else if v == 84 {
            Note::C6
        } else if v == 85 {
            Note::Cs6
        } else if v == 86 {
            Note::D6
        } else if v == 87 {
            Note::Ds6
        } else if v == 88 {
            Note::E6
        } else if v == 89 {
            Note::F6
        } else if v == 90 {
            Note::Fs6
        } else if v == 91 {
            Note::G6
        } else if v == 92 {
            Note::Gs6
        } else if v == 93 {
            Note::A6
        } else if v == 94 {
            Note::As6
        } else if v == 95 {
            Note::B6
        } else if v == 96 {
            Note::C7
        } else if v == 97 {
            Note::Cs7
        } else if v == 98 {
            Note::D7
        } else if v == 99 {
            Note::Ds7
        } else if v == 100 {
            Note::E7
        } else if v == 101 {
            Note::F7
        } else if v == 102 {
            Note::Fs7
        } else if v == 103 {
            Note::G7
        } else if v == 104 {
            Note::Gs7
        } else if v == 105 {
            Note::A7
        } else if v == 106 {
            Note::As7
        } else if v == 107 {
            Note::B7
        } else if v == 108 {
            Note::C8
        } else if v == 109 {
            Note::Cs8
        } else if v == 110 {
            Note::D8
        } else if v == 111 {
            Note::Ds8
        } else if v == 112 {
            Note::E8
        } else if v == 113 {
            Note::F8
        } else if v == 114 {
            Note::Fs8
        } else if v == 115 {
            Note::G8
        } else if v == 116 {
            Note::Gs8
        } else if v == 117 {
            Note::A8
        } else if v == 118 {
            Note::As8
        } else if v == 119 {
            Note::B8
        } else if v == 120 {
            Note::C9
        } else if v == 121 {
            Note::Cs9
        } else if v == 122 {
            Note::D9
        } else if v == 123 {
            Note::Ds9
        } else if v == 124 {
            Note::E9
        } else if v == 125 {
            Note::F9
        } else if v == 126 {
            Note::Fs9
        } else if v == 127 {
            Note::G9
        } else {
            Note::OFF
        }
    }

    /// The note's number as a byte.
    pub fn to_u8(self) -> (r: u8)
        ensures
            r == self.value(),
    {
        match self {
            Note::Cm1 => 0,
            Note::Csm1 => 1,
            Note::Dm1 => 2,
            Note::Dsm1 => 3,
            Note::Em1 => 4,
            Note::Fm1 => 5,
            Note::Fsm1 => 6,
            Note::Gm1 => 7,
            Note::Gsm1 => 8,
            Note::Am1 => 9,
            Note::Asm1 => 10,
            Note::Bm1 => 11,
            Note::C0 => 12,
            Note::Cs0 => 13,
            Note::D0 => 14,
            Note::Ds0 => 15,
            Note::E0 => 16,
            Note::F0 => 17,
            Note::Fs0 => 18,
            Note::G0 => 19,
            Note::Gs0 => 20,
            Note::A0 => 21,
            Note::As0 => 22,
            Note::B0 => 23,
            Note::C1 => 24,
            Note::Cs1 => 25,
            Note::D1 => 26,
            Note::Ds1 => 27,
            Note::E1 => 28,
            Note::F1 => 29,
            Note::Fs1 => 30,
            Note::G1 => 31,
            Note::Gs1 => 32,
            Note::A1 => 33,
            Note::As1 => 34,
            Note::B1 => 35,
            Note::C2 => 36,
            Note::Cs2 => 37,
            Note::D2 => 38,
            Note::Ds2 => 39,
            Note::E2 => 40,
            Note::F2 => 41,
            Note::Fs2 => 42,
            Note::G2 => 43,
            Note::Gs2 => 44,
            Note::A2 => 45,
            Note::As2 => 46,
            Note::B2 => 47,
            Note::C3 => 48,
            Note::Cs3 => 49,
            Note::D3 => 50,
            Note::Ds3 => 51,
            Note::E3 => 52,
            Note::F3 => 53,
            Note::Fs3 => 54,
            Note::G3 => 55,
            Note::Gs3 => 56,
            Note::A3 => 57,
            Note::As3 => 58,
            Note::B3 => 59,
            Note::C4 => 60,
            Note::Cs4 => 61,
            Note::D4 => 62,
            Note::Ds4 => 63,
            Note::E4 => 64,
            Note::F4 => 65,
            Note::Fs4 => 66,
            Note::G4 => 67,
            Note::Gs4 => 68,
            Note::A4 => 69,
            Note::As4 => 70,
            Note::B4 => 71,
            Note::C5 => 72,
            Note::Cs5 => 73,
            Note::D5 => 74,
            Note::Ds5 => 75,
            Note::E5 => 76,
            Note::F5 => 77,
            Note::Fs5 => 78,
            Note::G5 => 79,
            Note::Gs5 => 80,
            Note::A5 => 81,
            Note::As5 => 82,
            Note::B5 => 83,
            Note::C6 => 84,
            Note::Cs6 => 85,
            Note::D6 => 86,
            Note::Ds6 => 87,
            Note::E6 => 88,
            Note::F6 => 89,
            Note::Fs6 => 90,
            Note::G6 => 91,
            Note::Gs6 => 92,
            Note::A6 => 93,
            Note::As6 => 94,
            Note::B6 => 95,
            Note::C7 => 96,
            Note::Cs7 => 97,
            Note::D7 => 98,
            Note::Ds7 => 99,
            Note::E7 => 100,
            Note::F7 => 101,
            Note::Fs7 => 102,
            Note::G7 => 103,
            Note::Gs7 => 104,
            Note::A7 => 105,
            Note::As7 => 106,
            Note::B7 => 107,
            Note::C8 => 108,
            Note::Cs8 => 109,
            Note::D8 => 110,
            Note::Ds8 => 111,
            Note::E8 => 112,
            Note::F8 => 113,
            Note::Fs8 => 114,
            Note::G8 => 115,
            Note::Gs8 => 116,
            Note::A8 => 117,
            Note::As8 => 118,
            Note::B8 => 119,
            Note::C9 => 120,
            Note::Cs9 => 121,
            Note::D9 => 122,
            Note::Ds9 => 123,
            Note::E9 => 124,
            Note::F9 => 125,
            Note::Fs9 => 126,
            Note::G9 => 127,
            Note::OFF => 255,
        }
    }

    /// The note of a 7 bit key number.
    fn from_u7(n: u8) -> (r: Note)
        requires
            n < 128,
        ensures
            r == Note::note_of(n as int),
    {
        reveal(Note::note_of);
        match n {
            0 => Note::Cm1,
            1 => Note::Csm1,
            2 => Note::Dm1,
            3 => Note::Dsm1,
            4 => Note::Em1,
            5 => Note::Fm1,
            6 => Note::Fsm1,
            7 => Note::Gm1,
            8 => Note::Gsm1,
            9 => Note::Am1,
            10 => Note::Asm1,
            11 => Note::Bm1,
            12 => Note::C0,
            13 => Note::Cs0,
            14 => Note::D0,
            15 => Note::Ds0,
            16 => Note::E0,
            17 => Note::F0,
            18 => Note::Fs0,
            19 => Note::G0,
            20 => Note::Gs0,
            21 => Note::A0,
            22 => Note::As0,
            23 => Note::B0,
            24 => Note::C1,
            25 => Note::Cs1,
            26 => Note::D1,
            27 => Note::Ds1,
            28 => Note::E1,
            29 => Note::F1,
            30 => Note::Fs1,
            31 => Note::G1,
            32 => Note::Gs1,
            33 => Note::A1,
            34 => Note::As1,
            35 => Note::B1,
            36 => Note::C2,
            37 => Note::Cs2,
            38 => Note::D2,
            39 => Note::Ds2,
            40 => Note::E2,
            41 => Note::F2,
            42 => Note::Fs2,
            43 => Note::G2,
            44 => Note::Gs2,
            45 => Note::A2,
            46 => Note::As2,
            47 => Note::B2,
            48 => Note::C3,
            49 => Note::Cs3,
            50 => Note::D3,
            51 => Note::Ds3,
            52 => Note::E3,
            53 => Note::F3,
            54 => Note::Fs3,
            55 => Note::G3,
            56 => Note::Gs3,
            57 => Note::A3,
            58 => Note::As3,
            59 => Note::B3,
            60 => Note::C4,
            61 => Note::Cs4,
            62 => Note::D4,
            63 => Note::Ds4,
            64 => Note::E4,
            65 => Note::F4,
            66 => Note::Fs4,
            67 => Note::G4,
            68 => Note::Gs4,
            69 => Note::A4,
            70 => Note::As4,
            71 => Note::B4,
            72 => Note::C5,
            73 => Note::Cs5,
            74 => Note::D5,
            75 => Note::Ds5,
            76 => Note::E5,
            77 => Note::F5,
            78 => Note::Fs5,
            79 => Note::G5,
            80 => Note::Gs5,
            81 => Note::A5,
            82 => Note::As5,
            83 => Note::B5,
            84 => Note::C6,
            85 => Note::Cs6,
            86 => Note::D6,
            87 => Note::Ds6,
            88 => Note::E6,
            89 => Note::F6,
            90 => Note::Fs6,
            91 => Note::G6,
            92 => Note::Gs6,
            93 => Note::A6,
            94 => Note::As6,
            95 => Note::B6,
            96 => Note::C7,
            97 => Note::Cs7,
            98 => Note::D7,
            99 => Note::Ds7,
            100 => Note::E7,
            101 => Note::F7,
            102 => Note::Fs7,
            103 => Note::G7,
            104 => Note::Gs7,
            105 => Note::A7,
            106 => Note::As7,
            107 => Note::B7,
            108 => Note::C8,
            109 => Note::Cs8,
            110 => Note::D8,
            111 => Note::Ds8,
            112 => Note::E8,
            113 => Note::F8,
            114 => Note::Fs8,
            115 => Note::G8,
            116 => Note::Gs8,
            117 => Note::A8,
            118 => Note::As8,
            119 => Note::B8,
            120 => Note::C9,
            121 => Note::Cs9,
            122 => Note::D9,
            123 => Note::Ds9,
            124 => Note::E9,
            125 => Note::F9,
            126 => Note::Fs9,
            _ => Note::G9,
        }
    }

    /// Each note is the note of its own number.
    pub proof fn lemma_note_of_value(n: Note)
        ensures
            Note::note_of(n.value()) == n,
    {
        reveal(Note::note_of);
    }
}
/// `x` modulo 128, as a key number.
pub open spec fn key_number(x: int) -> int {
    x % 128
}

impl Note {
    /// Converts a byte to a note, reading its 7 lowest bits as key number.
    pub fn from_u8(n: u8) -> (r: Note)
        ensures
            r == Note::note_of((n as int) % 128),
    {
        assert(n & 0x7f == n % 128) by (bit_vector);
        Note::from_u7(n & 0x7f)
    }

    /// Converts a signed byte to a note, reading its 7 lowest bits as key number.
    pub fn from_i8(n: i8) -> (r: Note)
        ensures
            r == Note::note_of((n as int) % 128),
    {
        let m: u8 = if n < 0 {
            ((n as i16) + 256) as u8
        } else {
            n as u8
        };
        assert(m & 0x7f == m % 128) by (bit_vector);
        Note::from_u7(m & 0x7f)
    }

    /// The note's number as a signed byte: the note-off becomes -1.
    pub fn to_i8(self) -> (r: i8)
        ensures
            r as int == if self.value() < 128 {
                self.value()
            } else {
                self.value() - 256
            },
    {
        let v = self.to_u8();
        if v < 128 {
            v as i8
        } else {
            ((v as i16) - 256) as i8
        }
    }

    /// Test if this note value is a note-on.
    pub fn is_note_on(&self) -> (r: bool)
        ensures
            r == (*self != Note::OFF),
    {
        *self != Note::OFF
    }

    /// Test if this note value is a note-off.
    pub fn is_note_off(&self) -> (r: bool)
        ensures
            r == (*self == Note::OFF),
    {
        *self == Note::OFF
    }

    /// The note moved up by `rhs` keys, limited to the highest key.
    pub fn add_keys(self, rhs: u8) -> (r: Note)
        ensures
            r == Note::note_of(crate::note::clamp(self.value() + rhs, 0, 127)),
    {
        let v = self.to_u8() as i32 + rhs as i32;
        let c: i32 = if v > 0x7f {
            0x7f
        } else {
            v
        };
        Note::from_u7(c as u8)
    }

    /// The note moved down by `rhs` keys, limited to the lowest key.
    pub fn sub_keys(self, rhs: u8) -> (r: Note)
        ensures
            r == Note::note_of(crate::note::clamp(self.value() - rhs, 0, 255) % 128),
    {
        let v = self.to_u8() as i32 - rhs as i32;
        let c: i32 = if v < 0 {
            0
        } else {
            v
        };
        Note::from_u8(c as u8)
    }

    /// The note of a pitch class number (0 = C ... 11 = B) in an octave of standard notation,
    /// where octave 0 starts at key number 12. The key number is a byte, whose topmost bit is
    /// dropped.
    pub fn from_pitch_class_and_octave(pitch_class: u8, octave: u8) -> (r: Note)
        requires
            pitch_class + 12 * octave + 12 <= 255,
        ensures
            r == Note::note_of((pitch_class + 12 * octave + 12) % 128),
    {
        Note::from_u8(pitch_class + 12 * octave + 12)
    }

}

impl core::ops::Add<u8> for Note {
    type Output = Note;

    /// The note moved up by `rhs` keys, see `add_keys`.
    fn add(self, rhs: u8) -> (r: Note)
        ensures
            r == Note::note_of(crate::note::clamp(self.value() + rhs, 0, 127)),
    {
        self.add_keys(rhs)
    }
}

impl vstd::std_specs::ops::AddSpecImpl<u8> for Note {
    open spec fn obeys_add_spec() -> bool {
        true
    }

    open spec fn add_req(self, rhs: u8) -> bool {
        true
    }

    open spec fn add_spec(self, rhs: u8) -> Note {
        Note::note_of(crate::note::clamp(self.value() + rhs, 0, 127))
    }
}

impl core::ops::Sub<u8> for Note {
    type Output = Note;

    /// The note moved down by `rhs` keys, see `sub_keys`.
    fn sub(self, rhs: u8) -> (r: Note)
        ensures
            r == Note::note_of(crate::note::clamp(self.value() - rhs, 0, 255) % 128),
    {
        self.sub_keys(rhs)
    }
}

impl vstd::std_specs::ops::SubSpecImpl<u8> for Note {
    open spec fn obeys_sub_spec() -> bool {
        true
    }

    open spec fn sub_req(self, rhs: u8) -> bool {
        true
    }

    open spec fn sub_spec(self, rhs: u8) -> Note {
        Note::note_of(crate::note::clamp(self.value() - rhs, 0, 255) % 128)
    }
}

impl From<u8> for Note {
    fn from(n: u8) -> (r: Note) {
        Note::from_u8(n)
    }
}

impl vstd::std_specs::convert::FromSpecImpl<u8> for Note {
    open spec fn obeys_from_spec() -> bool {
        true
    }

    open spec fn from_spec(v: u8) -> Note {
        Note::note_of((v as int) % 128)
    }
}

impl From<Note> for u8 {
    fn from(note: Note) -> (r: u8) {
        note.to_u8()
    }
}

impl vstd::std_specs::convert::FromSpecImpl<Note> for u8 {
    open spec fn obeys_from_spec() -> bool {
        true
    }

    open spec fn from_spec(v: Note) -> u8 {
        v.value() as u8
    }
}

impl From<i8> for Note {
    fn from(n: i8) -> (r: Note) {
        Note::from_i8(n)
    }
}

impl vstd::std_specs::convert::FromSpecImpl<i8> for Note {
    open spec fn obeys_from_spec() -> bool {
        true
    }

    open spec fn from_spec(v: i8) -> Note {
        Note::note_of((v as int) % 128)
    }
}

impl From<Note> for i8 {
    fn from(note: Note) -> (r: i8) {
        note.to_i8()
    }
}

impl vstd::std_specs::convert::FromSpecImpl<Note> for i8 {
    open spec fn obeys_from_spec() -> bool {
        true
    }

    open spec fn from_spec(v: Note) -> i8 {
        (if v.value() < 128 {
            v.value()
        } else {
            v.value() - 256
        }) as i8
    }
}

// ---------------------------------------------------------------------------------------------
// Note strings

impl Note {
    /// The note's string: key name and octave number, where octave -1 holds the keys 0..12.
    pub open spec fn spec_text(self) -> Seq<char> {
        key_name(self.value() % 12) + int_text(self.value() / 12 - 1)
    }

    /// The note's string, see `spec_text`.
    pub fn to_string(&self) -> (r: String)
        ensures
            r@ == self.spec_text(),
    {
        let v = self.to_u8();
        let mut r = string_of(key_str(v % 12));
        append_int(&mut r, (v / 12) as i32 - 1);
        r
    }
}

/// Separators that may stand between a note letter and its octave. A '-' can't: it starts a
/// negative octave.
pub open spec fn is_separator_char(c: char) -> bool {
    c == ' ' || c == '_'
}

/// Why a MIDI note string is not valid.
pub enum MidiTextError {
    /// The string ends before a note letter or octave digit.
    TooShort,
    /// This character is no note letter.
    NoteChar(char),
    /// This character is neither an octave digit nor '-'.
    OctaveChar(char),
    /// The octave lies outside -1..=9.
    OctaveRange(int),
}

/// The octave read at position `i`: a single digit, after any number of '-' signs, each of
/// which negates it.
pub open spec fn octave_at(s: Seq<char>, i: int) -> Result<int, MidiTextError>
    decreases s.len() - i,
{
    if i < 0 || i >= s.len() {
        Err(MidiTextError::TooShort)
    } else if s[i] == '-' {
        match octave_at(s, i + 1) {
            Ok(o) => Ok(-o),
            Err(e) => Err(e),
        }
    } else if crate::text::is_digit(s[i]) {
        Ok(crate::text::digit_value(s[i]))
    } else {
        Err(MidiTextError::OctaveChar(s[i]))
    }
}

/// The position after the octave read at position `i`: after its '-' signs and its digit.
pub open spec fn octave_end(s: Seq<char>, i: int) -> int
    decreases s.len() - i,
{
    if 0 <= i < s.len() && s[i] == '-' {
        octave_end(s, i + 1)
    } else {
        i + 1
    }
}

/// "off" in any case stands for a note-off.
pub open spec fn is_off_text(s: Seq<char>) -> bool {
    eq_ignore_case(s, seq!['o', 'f', 'f'])
}

/// The note that a MIDI note string denotes together with the number of characters read for
/// it (the note letter, an accidental or separator, the octave's '-' signs and its digit), or
/// the reason why the string does not denote one.
pub open spec fn spec_parse_midi_note(s: Seq<char>) -> Result<(Note, int), MidiTextError> {
    if is_off_text(s) {
        Ok((Note::OFF, 3))
    } else if s.len() == 0 {
        Err(MidiTextError::TooShort)
    } else {
        match letter_value(s[0]) {
            None => Err(MidiTextError::NoteChar(s[0])),
            Some(l) => {
                let note = if s.len() > 1 && is_sharp_char(s[1]) {
                    l + 1
                } else if s.len() > 1 && is_flat_char(s[1]) {
                    l - 1
                } else {
                    l
                };
                let marked = s.len() > 1 && (is_sharp_char(s[1]) || is_flat_char(s[1])
                    || is_separator_char(s[1]));
                let start = if marked {
                    2int
                } else {
                    1int
                };
                match octave_at(s, start) {
                    Err(e) => Err(e),
                    Ok(o) => if -1 <= o <= 9 {
                        Ok((Note::note_of(key_number(o * 12 + 12 + note)), octave_end(s, start)))
                    } else {
                        Err(MidiTextError::OctaveRange(o))
                    },
                }
            },
        }
    }
}

/// The error message for a reason why a string `s` is no MIDI note string.
pub open spec fn midi_error_text(s: Seq<char>, e: MidiTextError) -> Seq<char> {
    match e {
        MidiTextError::TooShort => "Invalid note str '"@ + s + "' - string is too short."@,
        MidiTextError::NoteChar(c) => "Invalid note str '"@ + s + "' - note character '"@
            + seq![c] + "' is invalid."@,
        MidiTextError::OctaveChar(c) => "Invalid note str '"@ + s + "' - octave character '"@
            + seq![c] + "' is invalid."@,
        MidiTextError::OctaveRange(o) => "Invalid note str '"@ + s + "' - octave '"@ + int_text(
            o,
        ) + "' is out of range."@,
    }
}

/// A parse result with its error message taken by its characters.
pub open spec fn result_view(r: Result<(Note, usize), String>) -> Result<(Note, int), Seq<char>> {
    match r {
        Ok((n, c)) => Ok((n, c as int)),
        Err(e) => Err(e@),
    }
}

/// What `try_from_with_offset` returns for a string, with messages as character sequences.
pub open spec fn spec_try_from_with_offset(s: Seq<char>) -> Result<(Note, int), Seq<char>> {
    match spec_parse_midi_note(s) {
        Ok(p) => Ok(p),
        Err(e) => Err(midi_error_text(s, e)),
    }
}

fn too_short_error(s: &str) -> (r: String)
    ensures
        r@ == midi_error_text(s@, MidiTextError::TooShort),
{
    let mut e = string_of("Invalid note str '");
    e.append(s);
    e.append("' - string is too short.");
    e
}

fn char_error(s: &str, i: usize, note_char: bool) -> (r: String)
    requires
        i < s@.len() <= usize::MAX,
    ensures
        note_char ==> r@ == midi_error_text(s@, MidiTextError::NoteChar(s@[i as int])),
        !note_char ==> r@ == midi_error_text(s@, MidiTextError::OctaveChar(s@[i as int])),
{
    let mut e = string_of("Invalid note str '");
    e.append(s);
    if note_char {
        e.append("' - note character '");
    } else {
        e.append("' - octave character '");
    }
    e.append(s.substring_char(i, i + 1));
    e.append("' is invalid.");
    proof {
        assert(s@.subrange(i as int, i + 1) =~= seq![s@[i as int]]);
    }
    e
}

fn range_error(s: &str, o: i32) -> (r: String)
    ensures
        r@ == midi_error_text(s@, MidiTextError::OctaveRange(o as int)),
{
    let mut e = string_of("Invalid note str '");
    e.append(s);
    e.append("' - octave '");
    append_int(&mut e, o);
    e.append("' is out of range.");
    e
}

/// Reads the octave at position `i`, see `octave_at`.
fn octave_at_exec(s: &str, cs: &Vec<char>, i: usize) -> (r: Result<(i32, usize), String>)
    requires
        cs@ == s@,
        i <= cs@.len(),
    ensures
        match r {
            Ok((v, end)) => octave_at(s@, i as int) == Ok::<int, MidiTextError>(v as int) && end
                == octave_end(s@, i as int),
            Err(m) => octave_at(s@, i as int) matches Err(e) && m@ == midi_error_text(s@, e),
        },
{
    let n = cs.len();
    let mut j: usize = i;
    let mut negative = false;
    while j < n && cs[j] == '-'
        invariant
            cs@ == s@,
            n == cs@.len(),
            i <= j <= n,
            forall|k: int| i <= k < j ==> cs@[k] == '-',
            octave_end(s@, i as int) == octave_end(s@, j as int),
            octave_at(s@, i as int) == (if negative {
                match octave_at(s@, j as int) {
                    Ok(o) => Ok(-o),
                    Err(e) => Err(e),
                }
            } else {
                octave_at(s@, j as int)
            }),
        decreases n - j,
    {
        negative = !negative;
        j = j + 1;
    }
    if j >= n {
        return Err(too_short_error(s));
    }
    let c = cs[j];
    if c >= '0' && c <= '9' {
        let d = ((c as u32) - ('0' as u32)) as i32;
        if negative {
            Ok((-d, j + 1))
        } else {
            Ok((d, j + 1))
        }
    } else {
        Err(char_error(s, j, false))
    }
}

impl Note {
    /// Try converting the given string to a Note. Returns the note and the number of
    /// characters read for it: 3 for "off", else the note letter, an accidental or separator
    /// when one follows it, and the octave with its minus sign. Supported notations:
    /// `C4` (plain), `C-1` (minus 1 octave), `C#1` (sharps), `Db1` (flats), `D_2` or `G 5`
    /// (`_` or space as separator), and "off".
    pub fn try_from_with_offset(s: &str) -> (r: Result<(Note, usize), String>)
        ensures
            result_view(r) == spec_try_from_with_offset(s@),
    {
        let cs = chars_of(s);
        let n = cs.len();
        let off: Vec<char> = vec!['o', 'f', 'f'];
        assert(off@ == seq!['o', 'f', 'f']);
        if vec_eq_ignore_case(&cs, &off) {
            return Ok((Note::OFF, 3));
        }
        if n == 0 {
            return Err(too_short_error(s));
        }
        let l = match letter_value_exec(cs[0]) {
            None => {
                return Err(char_error(s, 0, true));
            },
            Some(l) => l,
        };
        let note: i32 = if n > 1 && is_sharp_exec(cs[1]) {
            l + 1
        } else if n > 1 && is_flat_exec(cs[1]) {
            l - 1
        } else {
            l
        };
        let marked = n > 1 && (is_sharp_exec(cs[1]) || is_flat_exec(cs[1]) || cs[1] == ' '
            || cs[1] == '_');
        let start: usize = if marked {
            2
        } else {
            1
        };
        let (o, consumed) = match octave_at_exec(s, &cs, start) {
            Err(e) => {
                return Err(e);
            },
            Ok(p) => p,
        };
        proof {
            assert(!is_off_text(s@));
            assert(letter_value(s@[0]) == Some(l as int));
            assert(octave_at(s@, start as int) == Ok::<int, MidiTextError>(o as int));
        }
        if -1 <= o && o <= 9 {
            let v: i32 = o * 12 + 12 + note;
            let b: u8 = if v < 0 {
                (v + 256) as u8
            } else {
                v as u8
            };
            assert((v + 256) % 256 % 128 == v % 128);
            Ok((Note::from_u8(b), consumed))
        } else {
            Err(range_error(s, o))
        }
    }

    /// Try converting the given string to a Note, see `try_from_with_offset`.
    pub fn try_from(s: &str) -> (r: Result<Note, String>)
        ensures
            match spec_try_from_with_offset(s@) {
                Ok((n, _)) => r == Ok::<Note, String>(n),
                Err(m) => r matches Err(e) && e@ == m,
            },
    {
        match Note::try_from_with_offset(s) {
            Ok((n, _)) => Ok(n),
            Err(e) => Err(e),
        }
    }

    /// The note of a valid MIDI note string.
    pub fn from_str(s: &str) -> (r: Note)
        requires
            spec_parse_midi_note(s@) is Ok,
        ensures
            r == spec_parse_midi_note(s@)->Ok_0.0,
    {
        match Note::try_from_with_offset(s) {
            Ok((n, _)) => n,
            Err(_) => Note::OFF,
        }
    }
}

proof fn lemma_octave_text(p: Seq<char>, o: int)
    requires
        -1 <= o <= 9,
    ensures
        octave_at(p + int_text(o), p.len() as int) == Ok::<int, MidiTextError>(o),
        octave_end(p + int_text(o), p.len() as int) == (p + int_text(o)).len(),
        (p + int_text(o))[p.len() as int] == '-' || crate::text::is_digit(
            (p + int_text(o))[p.len() as int],
        ),
{
    let t = p + int_text(o);
    reveal_with_fuel(octave_at, 3);
    reveal_with_fuel(octave_end, 3);
    if o < 0 {
        assert(int_text(o) == seq!['-', '1']);
        assert(t[p.len() as int] == '-');
        assert(t[p.len() + 1int] == '1');
    } else {
        assert(int_text(o) == seq![crate::text::digit_char(o)]);
        assert(t[p.len() as int] == crate::text::digit_char(o));
    }
}

/// Reading back the string of a key gives the key again, and reads the whole string.
pub proof fn lemma_parse_of_text_roundtrip(n: Note)
    requires
        n != Note::OFF,
    ensures
        spec_parse_midi_note(n.spec_text()) == Ok::<(Note, int), MidiTextError>(
            (n, n.spec_text().len() as int),
        ),
{
    let t = n.spec_text();
    let v = n.value();
    assert(0 <= v < 128);
    let k = v % 12;
    let o = v / 12 - 1;
    let kn = key_name(k);
    lemma_octave_text(kn, o);
    assert(t == kn + int_text(o));
    assert(t[0] == kn[0]);
    assert(!is_off_text(t)) by {
        if is_off_text(t) {
            assert(crate::text::lower_code(t[0]) == crate::text::lower_code(
                seq!['o', 'f', 'f'][0],
            ));
        }
    }
    if kn.len() == 2 {
        assert(t[1] == '#');
    } else {
        assert(!is_sharp_char(t[1]) && !is_flat_char(t[1]) && !is_separator_char(t[1]));
    }
    assert(o * 12 + 12 + k == v);
    Note::lemma_note_of_value(n);
}

/// Every sharp spelling of a MIDI note names the key one above its letter: for a note letter
/// `l`, a sharp mark `c` (`s`, `S` or `#`), an octave digit `d` and any text `r` after it,
/// `l c d r` reads the key one above the one that `l d r` reads, both reading up to the
/// octave digit, and every sharp mark reads alike.
pub proof fn lemma_midi_sharp_spellings(l: char, c: char, d: char, r: Seq<char>)
    requires
        letter_value(l) is Some,
        c == 's' || c == 'S' || c == '#',
        crate::text::is_digit(d),
    ensures
        spec_parse_midi_note(seq![l, d] + r) == Ok::<(Note, int), MidiTextError>(
            (
                Note::note_of(
                    key_number(crate::text::digit_value(d) * 12 + 12 + letter_value(l)->0),
                ),
                2,
            ),
        ),
        spec_parse_midi_note(seq![l, c, d] + r) == Ok::<(Note, int), MidiTextError>(
            (
                Note::note_of(
                    key_number(crate::text::digit_value(d) * 12 + 12 + letter_value(l)->0 + 1),
                ),
                3,
            ),
        ),
        spec_parse_midi_note(seq![l, c, d] + r) == spec_parse_midi_note(seq![l, '#', d] + r),
{
    let a = seq![l, d] + r;
    let b = seq![l, c, d] + r;
    let h = seq![l, '#', d] + r;
    assert(a[0] == l && a[1] == d);
    assert(b[0] == l && b[1] == c && b[2] == d);
    assert(h[0] == l && h[1] == '#' && h[2] == d);
    assert(crate::text::lower_code(l) != crate::text::lower_code('o'));
    assert(!is_off_text(a) && !is_off_text(b) && !is_off_text(h));
    assert(octave_end(a, 1) == 2);
    assert(octave_end(b, 2) == 3);
    assert(octave_end(h, 2) == 3);
}

} // verus!
