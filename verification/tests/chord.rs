use pattrns::note::chord::Chord;
use pattrns::note::Note;

#[test]
fn chord_chord() -> Result<(), String> {
    assert!(Chord::try_from((Note::C4, "")).is_err());
    assert!(Chord::try_from((Note::C4, "qwe")).is_err());
    assert_eq!(
        Chord::try_from((Note::C4, "maj"))?,
        Chord::new(Note::C4, vec![0, 4, 7])
    );
    assert_eq!(
        Chord::try_from((Note::C4, "maj"))?,
        Chord::new(Note::C4, vec![0, 4, 7])
    );
    Ok(())
}

#[test]
fn chord_intervals() -> Result<(), String> {
    assert!(Chord::try_from((Note::C4, &vec![])).is_err());
    assert!(Chord::try_from((Note::C4, &vec![-1])).is_err());
    assert_eq!(
        Chord::try_from((Note::C4, &vec![0, 4, 7]))?,
        Chord::new(Note::C4, vec![0, 4, 7])
    );
    assert_eq!(
        Chord::try_from((Note::C4, &vec![0, 4, 7]))?,
        Chord::new(Note::C4, vec![0, 4, 7])
    );
    Ok(())
}

#[test]
fn chord_string() -> Result<(), String> {
    assert!(Chord::try_from("c").is_err());
    assert!(Chord::try_from("c4").is_err());
    assert!(Chord::try_from("x4'maj").is_err());
    assert!(Chord::try_from("c4'qwe").is_err());
    assert_eq!(
        Chord::try_from("c'maj")?,
        Chord::new(Note::C4, vec![0, 4, 7])
    );
    assert_eq!(
        Chord::try_from("c4'maj")?,
        Chord::new(Note::C4, vec![0, 4, 7])
    );
    Ok(())
}

#[test]
fn chord_names_are_sorted_and_complete() {
    let names = Chord::names();
    assert_eq!(names.len(), 113);
    for pair in names.windows(2) {
        assert!(pair[0] < pair[1], "{} {}", pair[0], pair[1]);
    }
    // every listed name makes a chord
    for name in &names {
        assert!(Chord::try_from((Note::C4, name.as_str())).is_ok(), "{}", name);
    }
    assert_eq!(names[0], "+");
    assert_eq!(names[names.len() - 1], "thirteen");
}

#[test]
fn chord_unique_names() {
    let names = Chord::unique_names();
    let expected = vec![
        "7#5", "7b5", "7b9", "7sus2", "7sus4", "9sus2", "9sus4", "add11", "add13", "add9",
        "augmented", "diminished", "diminished7", "dom11", "dom13", "dom7", "dom9", "eleven",
        "five", "major", "major11", "major13", "major7", "major9", "minor", "minor#5", "minor11",
        "minor13", "minor6", "minor69", "minor7", "minor7#5", "minor7#9", "minor7b5",
        "minor7b9", "minorMajor7", "nine", "six", "sixNine", "sus2", "sus4", "thirteen",
    ];
    assert_eq!(names, expected);
}

#[test]
fn chord_errors() {
    assert_eq!(
        Chord::try_from("c4"),
        Err("invalid chord string: expecting a note and chord mode, separated by a ' character e.g. \"c4'maj\"".to_string())
    );
    assert_eq!(
        Chord::try_from("c4'maj'7"),
        Err("invalid chord string (found more than one ' character)".to_string())
    );
    assert_eq!(
        Chord::try_from("x4'maj"),
        Err("invalid note str 'x4' - note character 'x' is invalid.".to_string())
    );
    let names = Chord::names().join(",");
    assert_eq!(
        Chord::try_from("c4'qwe"),
        Err(format!("invalid chord mode, valid modes are: {}", names))
    );
    assert_eq!(
        Chord::try_from((Note::C4, "qwe")),
        Err(format!("Invalid chord mode, valid chords are: {}", names))
    );
    assert_eq!(
        Chord::try_from((Note::C4, &vec![])),
        Err("interval list can not be empty".to_string())
    );
    assert_eq!(
        Chord::try_from((Note::C4, &vec![0, 200, -1])),
        Err("interval must be in range [0..0x7f] but is '200'".to_string())
    );
    assert_eq!(
        Chord::try_from((Note::C4, &vec![-1])),
        Err("interval must be in range [0..0x7f] but is '-1'".to_string())
    );
}

#[test]
fn chord_accessors() -> Result<(), String> {
    let chord = Chord::from_string("d#3'm7")?;
    assert_eq!(chord.note(), Note::Ds3);
    assert_eq!(chord.intervals(), &[0, 3, 7, 10]);
    let chord = Chord::from_mode_string((Note::A2, "minor69"))?;
    assert_eq!(chord.intervals(), &[0, 3, 9, 7, 14]);
    let chord = Chord::try_from((Note::G5, &[0, 127][..]))?;
    assert_eq!(chord.intervals(), &[0, 127]);
    Ok(())
}

#[test]
fn chord_text_reads_as_note_and_name() -> Result<(), String> {
    for name in Chord::names() {
        let text = format!("d#3'{}", name);
        assert_eq!(
            Chord::try_from(text.as_str())?,
            Chord::try_from((Note::Ds3, name.as_str()))?
        );
    }
    Ok(())
}
