use pattrns::note::Note;
use pattrns::scale::{scale_modes, Mode, Scale, TransposeStrictness};

#[test]
fn scale_from_string() {
    assert!(Mode::try_from("mel min").is_err());
    assert!(Mode::try_from("wurst").is_err());
    assert!(Mode::try_from("Lydian Augmented Major").is_err());

    assert!(Mode::try_from("min").is_ok());
    assert!(Mode::try_from("melodic minor").is_ok());
    assert!(Mode::try_from(" Melodic  Min ").is_ok());
    assert!(Mode::try_from("phrygian dom").is_ok());
    assert!(Mode::try_from("Lydian Aug").is_ok());
    assert!(Mode::try_from("Lydian").is_ok());
}

#[test]
fn scale_from_interval() -> Result<(), String> {
    assert!(Mode::try_from(&vec![0, 12]).is_err());
    assert!(Mode::try_from(&vec![0, 4, 2, 5, 7, 9, 11]).is_err());

    assert!(Mode::try_from(&vec![0, 2, 4, 5, 7, 9, 11]).is_ok());
    assert_eq!(
        Mode::try_from(&vec![0, 2, 4, 5, 7, 9, 11])?.degrees(),
        Mode::try_from("major")?.degrees()
    );

    Ok(())
}

#[test]
fn notes() -> Result<(), String> {
    assert_eq!(
        Scale::new(Note::C4, Mode::try_from("natural minor")?).notes(),
        vec![
            Note::C4,
            Note::D4,
            Note::Ds4,
            Note::F4,
            Note::G4,
            Note::Gs4,
            Note::As4
        ]
    );
    assert_eq!(
        Scale::new(Note::C4, Mode::try_from("melodic minor")?).notes(),
        vec![
            Note::C4,
            Note::D4,
            Note::Ds4,
            Note::F4,
            Note::G4,
            Note::A4,
            Note::B4
        ]
    );
    Ok(())
}

#[test]
fn transpose() {
    assert_eq!(
        Scale::new(Note::C4, scale_modes()[1].clone()).transpose_with_strictness(
            Note::C4,
            2,
            TransposeStrictness::ForceAllInScaleNotes,
        ),
        Note::D4
    );
}

#[test]
fn scale_chord() -> Result<(), String> {
    let scale = Scale::new(Note::C4, Mode::try_from("major")?);
    let cmaj = scale.chord_from_degree(1, 3);
    let gmaj7 = scale.chord_from_degree(5, 4);
    assert!(cmaj == vec![Note::C4, Note::E4, Note::G4]);
    assert!(gmaj7 == vec![Note::G4, Note::B4, Note::D5, Note::F5]);
    Ok(())
}

#[test]
fn scale_every_known_name_finds_its_mode() {
    let modes = scale_modes();
    let names = Scale::mode_names();
    assert_eq!(names.len(), modes.len());
    for (name, mode) in names.iter().zip(modes.iter()) {
        let found = Mode::try_from(*name).unwrap();
        assert_eq!(found.degrees(), mode.degrees(), "{}", name);
    }
}

#[test]
fn scale_synonyms_and_white_space() -> Result<(), String> {
    assert_eq!(Mode::try_from("min")?.degrees(), Mode::try_from("natural minor")?.degrees());
    assert_eq!(Mode::try_from("\tMajor ")?.degrees(), Mode::try_from("ionian")?.degrees());
    // short forms are only expanded in words that stand alone
    assert!(Mode::try_from("\tMAJ").is_err());
    assert_eq!(Mode::try_from("8-tone")?.degrees(), scale_modes()[34].degrees());
    assert_eq!(Mode::try_from("dim half")?.degrees(), scale_modes()[32].degrees());
    assert_eq!(Mode::try_from("wurst").unwrap_err(), "Unknown scale");
    // an empty name matches the first mode whose alternative name list is empty
    assert_eq!(Mode::try_from("")?.degrees(), scale_modes()[3].degrees());
    Ok(())
}

#[test]
fn scale_interval_errors() {
    assert_eq!(
        Mode::try_from(&vec![]).unwrap_err(),
        "Interval list can not be empty"
    );
    assert_eq!(
        Mode::try_from(&vec![0; 12]).unwrap_err(),
        "Interval list can only contain up to 11 elements"
    );
    assert_eq!(
        Mode::try_from(&vec![0, 4, 2]).unwrap_err(),
        "Interval list must be sorted in ascending order"
    );
    assert_eq!(
        Mode::try_from(&vec![0, 12]).unwrap_err(),
        "intervals must be in range [0..11]"
    );
    assert_eq!(
        Mode::try_from(&vec![-1, 2]).unwrap_err(),
        "intervals must be in range [0..11]"
    );
}

#[test]
fn scale_custom_degrees_and_steps() -> Result<(), String> {
    let mode = Mode::try_from(&vec![2, 5, 9])?;
    assert_eq!(mode.degrees(), vec![0, 0, 1, 0, 0, 2, 0, 0, 0, 3, 0, 0]);
    let scale = Scale::try_from((Note::D3, &vec![0, 3, 7]))?;
    assert_eq!(scale.key(), 2);
    assert_eq!(scale.steps(), vec![0, 3, 7]);
    assert_eq!(scale.notes(), vec![Note::D3, Note::F3, Note::A3]);
    // duplicates: the later position wins
    let mode = Mode::try_from(&vec![0, 0, 4])?;
    assert_eq!(mode.degrees(), vec![2, 0, 0, 0, 3, 0, 0, 0, 0, 0, 0, 0]);
    Ok(())
}

#[test]
fn scale_notes_are_limited_to_the_key_range() -> Result<(), String> {
    let scale = Scale::try_from((Note::G10, "major"))?;
    assert_eq!(scale.key(), 7);
    let notes = scale.notes();
    assert_eq!(notes.len(), 7);
    assert_eq!(notes[0], Note::G10);
    assert_eq!(notes[1], Note::G10); // 129 is limited to 127
    let mut it = scale.notes_iter();
    assert_eq!(it.next(), Some(Note::G10));
    assert_eq!(it.next(), None);
    Ok(())
}

#[test]
fn scale_notes_iter_ascends_through_octaves() -> Result<(), String> {
    let scale = Scale::try_from((Note::C4, "pentatonic minor"))?;
    let mut it = scale.notes_iter();
    let mut notes = Vec::new();
    for _ in 0..7 {
        notes.push(it.next().unwrap());
    }
    assert_eq!(
        notes,
        vec![Note::C4, Note::Ds4, Note::F4, Note::G4, Note::As4, Note::C5, Note::Ds5]
    );
    Ok(())
}

#[test]
fn scale_chord_near_the_top_of_the_key_range() -> Result<(), String> {
    let scale = Scale::try_from((Note::C10, "major"))?;
    // C10 E10 G10, then B10 lies above the key range
    assert_eq!(scale.chord_from_degree(1, 4), vec![Note::C10, Note::E10, Note::G10]);
    assert_eq!(scale.chord_from_degree(7, 3), Vec::<Note>::new());
    Ok(())
}

#[test]
fn scale_transpose_strictness() -> Result<(), String> {
    let scale = Scale::try_from((Note::C4, "major"))?;
    // in-scale notes move by scale degrees: the root moves from C to D, one degree up,
    // and so does E, to F
    assert_eq!(scale.transpose(Note::E4, 1), Note::F4);
    assert_eq!(scale.transpose(Note::E4, 2), Note::F4);
    assert_eq!(scale.transpose(Note::E4, 4), Note::A4);
    assert_eq!(scale.transpose(Note::E4, -2), Note::D4);
    // whole octaves keep in-scale notes
    assert_eq!(scale.transpose(Note::E4, 12), Note::E5);
    assert_eq!(scale.transpose(Note::E4, -24), Note::E2);
    // notes outside the scale are quantized down with ForceAllNotes only
    assert_eq!(scale.transpose(Note::Cs4, 2), Note::D4);
    assert_eq!(
        scale.transpose_with_strictness(Note::Cs4, 2, TransposeStrictness::ForceAllInScaleNotes),
        Note::Ds4
    );
    // the root is quantized, with the strict levels only
    assert_eq!(
        scale.transpose_with_strictness(Note::C4, 1, TransposeStrictness::ForceSecondaryInScaleNotes),
        Note::Cs4
    );
    assert_eq!(scale.transpose(Note::C4, 1), Note::C4);
    // results are limited to the key range
    assert_eq!(scale.transpose(Note::G10, 12), Note::G10);
    assert_eq!(scale.transpose(Note::C0, -12), Note::C0);
    Ok(())
}

#[test]
fn scale_transposed_notes_land_in_the_scale() -> Result<(), String> {
    for mode in ["major", "natural minor", "pentatonic minor", "whole tone", "blues major"] {
        let scale = Scale::try_from((Note::D4, mode))?;
        let degrees = scale.degrees();
        let key = scale.key() as i32;
        for note in 30..90u8 {
            for offset in -14..14i32 {
                let note = Note::from(note);
                let result = scale.transpose(note, offset);
                let step = ((u8::from(result) as i32 - key).rem_euclid(12)) as usize;
                assert!(degrees[step] != 0, "{} {:?} {} -> {:?}", mode, note, offset, result);
            }
        }
    }
    Ok(())
}

#[test]
fn scale_octave_transposition_keeps_scale_notes() -> Result<(), String> {
    let scale = Scale::try_from((Note::F3, "dorian"))?;
    for note in scale.notes() {
        for octaves in -2..3i32 {
            let expected = note.transposed(12 * octaves);
            for strictness in [
                TransposeStrictness::ForceSecondaryInScaleNotesWhenRootInScale,
                TransposeStrictness::ForceSecondaryInScaleNotes,
                TransposeStrictness::ForceAllInScaleNotes,
                TransposeStrictness::ForceAllNotes,
            ] {
                assert_eq!(
                    scale.transpose_with_strictness(note, 12 * octaves, strictness),
                    expected
                );
            }
        }
    }
    Ok(())
}

#[test]
fn scale_names_ignore_case_and_outer_spaces() -> Result<(), String> {
    assert_eq!(
        Mode::try_from("MELODIC MINOR")?.degrees(),
        Mode::try_from("melodic minor")?.degrees()
    );
    assert_eq!(
        Mode::try_from(" Phrygian Dominant ")?.degrees(),
        Mode::try_from("phrygian dominant")?.degrees()
    );
    assert!(Mode::try_from("WuRsT").is_err());
    assert!(Mode::try_from(" wurst ").is_err());
    Ok(())
}

#[test]
fn scale_transpose_with_extreme_offsets() -> Result<(), String> {
    let scale = Scale::try_from((Note::C4, "major"))?;
    assert_eq!(scale.transpose(Note::C4, i32::MIN), Note::C0);
    assert_eq!(scale.transpose(Note::C4, i32::MAX - 200), Note::G10);
    assert_eq!(scale.transpose(Note::E4, i32::MAX - 60), Note::G10);
    Ok(())
}

#[test]
fn scale_known_modes_transpose_without_failing() -> Result<(), String> {
    let names = Scale::mode_names();
    for (index, name) in names.iter().enumerate() {
        if index == 15 {
            continue; // "all minor" has no steps for its degrees 8 and 9
        }
        let scale = Scale::try_from((Note::Fs3, *name))?;
        for note in 20..100u8 {
            for offset in -30..30i32 {
                scale.transpose_with_strictness(
                    Note::from(note),
                    offset,
                    TransposeStrictness::ForceSecondaryInScaleNotes,
                );
            }
        }
    }
    Ok(())
}
