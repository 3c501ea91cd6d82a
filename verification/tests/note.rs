use pattrns::note::Note;

#[test]
fn note_note_number_conversion() {
    assert_eq!(Note::from(0x0_u8), Note::C0);
    assert_eq!(Note::from(0x24_u8), Note::C3);
    assert_eq!(Note::from(0x80_u8), Note::C0); // wraps, probably should not be allowed
    assert_eq!(Note::from(0xFF_u8), Note::EMPTY);
    assert_eq!(Note::from(-1i32 as u8), Note::EMPTY);
    assert_eq!(Note::from(0xFE_u8), Note::OFF);
    assert_eq!(i8::from(Note::C4), 48);
    assert_eq!(u8::from(Note::C3), 0x24);
    assert_eq!(u8::from(Note::OFF), 0xFE);
    assert_eq!(u8::from(Note::EMPTY), 0xFF);
}

#[test]
fn note_note_serialization() {
    assert_eq!(Note::C4.to_string(), "C4");
    assert_eq!(Note::Cs0.to_string(), "C#0");
    assert_eq!(Note::G9.to_string(), "G9");
    assert_eq!(Note::Fs10.to_string(), "F#10");
    assert_eq!(Note::OFF.to_string(), "off");
}

#[test]
fn note_note_deserialization() -> Result<(), String> {
    assert!(Note::try_from("x4").is_err());
    assert!(Note::try_from("c.2").is_err());
    assert!(Note::try_from("cc2").is_err());
    assert!(Note::try_from("cbb2").is_err());
    assert!(Note::try_from("c##2").is_err());

    assert_eq!(Note::try_from("C4")?, Note::C4);
    assert_eq!(Note::try_from("Cb4")?, Note::B3);
    assert_eq!(Note::try_from("C#3")?, Note::Cs3);
    assert_eq!(Note::try_from("D#10")?, Note::Ds10);
    assert_eq!(Note::try_from("E_7")?, Note::E7);
    assert_eq!(Note::try_from("f5")?, Note::F5);
    assert_eq!(Note::try_from("g 9")?, Note::G9);
    assert_eq!(Note::try_from("A 8")?, Note::A8);
    assert_eq!(Note::try_from("bb2")?, Note::As2);

    assert_eq!(Note::try_from("OFF")?, Note::OFF);
    assert_eq!(Note::try_from("off")?, Note::OFF);
    assert_eq!(Note::try_from("~")?, Note::OFF);

    assert_eq!(Note::try_from("")?, Note::EMPTY);
    assert_eq!(Note::try_from("-")?, Note::EMPTY);
    assert_eq!(Note::try_from("---")?, Note::EMPTY);
    Ok(())
}

#[test]
fn note_text_round_trip_for_every_note() {
    for v in 0..=255u8 {
        let note = Note::from(v);
        if note == Note::EMPTY {
            continue;
        }
        let text = note.to_string();
        assert_eq!(Note::try_from(text.as_str()), Ok(note), "{}", text);
    }
}

#[test]
fn note_number_round_trip() {
    for v in 0..=127u8 {
        assert_eq!(u8::from(Note::from(v)), v);
    }
    assert_eq!(u8::from(Note::from(0xFE_u8)), 0xFE);
    assert_eq!(u8::from(Note::from(0xFF_u8)), 0xFF);
}

#[test]
fn note_key_and_octave() {
    assert_eq!(Note::C4.key(), 0);
    assert_eq!(Note::C4.octave(), 4);
    assert_eq!(Note::As2.key(), 10);
    assert_eq!(Note::As2.octave(), 2);
    assert_eq!(Note::G10.key(), 7);
    assert_eq!(Note::G10.octave(), 10);
}

#[test]
fn note_on_and_off() {
    assert!(Note::C4.is_note_on());
    assert!(!Note::C4.is_note_off());
    assert!(Note::OFF.is_note_off());
    assert!(!Note::OFF.is_note_on());
    assert!(!Note::EMPTY.is_note_on());
    assert!(!Note::EMPTY.is_note_off());
}

#[test]
fn note_transposed_is_limited_to_the_key_range() {
    assert_eq!(Note::C4.transposed(2), Note::D4);
    assert_eq!(Note::C4.transposed(-49), Note::C0);
    assert_eq!(Note::C4.transposed(200), Note::G10);
    assert_eq!(Note::C4 + 12, Note::C5);
    assert_eq!(Note::G10 + 1, Note::G10);
    assert_eq!(Note::C4 - 12, Note::C3);
    assert_eq!(Note::C0 - 1, Note::C0);
    assert_eq!(Note::OFF - 1, Note::EMPTY - 2);
}

#[test]
fn note_parse_errors() {
    assert_eq!(
        Note::try_from("x4"),
        Err("invalid note str 'x4' - note character 'x' is invalid.".to_string())
    );
    assert_eq!(
        Note::try_from("c11"),
        Err("invalid note str 'c11' - octave '11' is out of range.".to_string())
    );
    assert_eq!(
        Note::try_from("c.2"),
        Err("invalid note str 'c.2': invalid digit found in string".to_string())
    );
}

#[test]
fn note_signed_bytes() {
    assert_eq!(Note::from(-1i8), Note::G10);
    assert_eq!(Note::from(60i8), Note::C5);
    assert_eq!(i8::from(Note::OFF), -2);
    assert_eq!(i8::from(Note::EMPTY), -1);
}

#[test]
fn note_unicode_accidentals() {
    assert_eq!(Note::try_from("C♭4"), Ok(Note::B3));
    assert_eq!(Note::try_from("E♭4"), Note::try_from("Eb4"));
    assert_eq!(Note::try_from("C♮4"), Note::try_from("C#4"));
    assert_eq!(Note::try_from("C♭ 4"), Note::try_from("Cb 4"));
}
