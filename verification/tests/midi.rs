use pattrns::midi::Note;

#[test]
fn midi_note_number_conversion() {
    assert_eq!(Note::from(0x0_u8), Note::Cm1);
    assert_eq!(Note::from(0x30_u8), Note::C3);
    assert_eq!(Note::from(0x80_u8), Note::Cm1); // wraps, probably should not be allowed
    assert_eq!(i8::from(Note::C4), 60);
    assert_eq!(u8::from(Note::C3), 0x30_u8);
}

#[test]
fn midi_note_serialization() {
    assert_eq!(Note::C4.to_string(), "C4");
    assert_eq!(Note::Csm1.to_string(), "C#-1");
    assert_eq!(Note::G9.to_string(), "G9");
}

#[test]
fn midi_note_deserialization() {
    assert!(Note::try_from("").is_err());
    assert!(Note::try_from("x4").is_err());
    assert!(Note::try_from("c-2").is_err());
    assert!(Note::try_from("cc2").is_err());
    assert!(Note::try_from("cbb2").is_err());
    assert!(Note::try_from("c##2").is_err());
    assert_eq!(Note::from_str("C4"), Note::C4);
    assert_eq!(Note::from_str("Cb4"), Note::B3);
    assert_eq!(Note::from_str("C#3"), Note::Cs3);
    assert_eq!(Note::from_str("D#-1"), Note::Dsm1);
    assert_eq!(Note::from_str("E_7"), Note::E7);
    assert_eq!(Note::from_str("f5"), Note::F5);
    assert_eq!(Note::from_str("g 9"), Note::G9);
    assert_eq!(Note::from_str("A 8"), Note::A8);
    assert_eq!(Note::from_str("bb2"), Note::As2);
}

#[test]
fn midi_text_round_trip_for_every_key() {
    for v in 0..=127u8 {
        let note = Note::from(v);
        let text = note.to_string();
        assert_eq!(Note::try_from(text.as_str()), Ok(note), "{}", text);
        assert_eq!(
            Note::try_from_with_offset(text.as_str()),
            Ok((note, text.chars().count())),
            "{}",
            text
        );
    }
}

#[test]
fn midi_note_off_text_does_not_round_trip() {
    // the note-off value prints as a key number above the range, which reads back as D#2
    let text = Note::OFF.to_string();
    assert_eq!(text, "D#20");
    assert_eq!(Note::try_from(text.as_str()), Ok(Note::Ds2));
}

#[test]
fn midi_try_from_with_offset() {
    assert_eq!(Note::try_from_with_offset("C4"), Ok((Note::C4, 2)));
    assert_eq!(Note::try_from_with_offset("C#-1 rest"), Ok((Note::Csm1, 4)));
    assert_eq!(Note::try_from_with_offset("D#-1"), Ok((Note::Dsm1, 4)));
    assert_eq!(Note::try_from_with_offset("c-1"), Ok((Note::Cm1, 3)));
    assert_eq!(Note::try_from_with_offset("G 9"), Ok((Note::G9, 3)));
    assert_eq!(Note::try_from_with_offset("off"), Ok((Note::OFF, 3)));
}

#[test]
fn midi_pitch_class_and_octave() {
    assert_eq!(Note::from_pitch_class_and_octave(0, 4), Note::C4);
    assert_eq!(Note::from_pitch_class_and_octave(11, 3), Note::B3);
}

#[test]
fn midi_on_off_and_arithmetic() {
    assert!(Note::C4.is_note_on());
    assert!(!Note::OFF.is_note_on());
    assert!(Note::OFF.is_note_off());
    assert_eq!(Note::C4 + 12, Note::C5);
    assert_eq!(Note::G9 + 1, Note::G9);
    assert_eq!(Note::C4 - 12, Note::C3);
    assert_eq!(Note::Cm1 - 1, Note::Cm1);
}
