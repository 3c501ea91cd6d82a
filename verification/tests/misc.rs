use pattrns::parameter::{enum_default_index, parameter_name, ParameterType};
use pattrns::pattern::empty::EmptyPattern;
use pattrns::note::Note;
use pattrns::phrase::next_due;
use pattrns::player::{voice_action, NewNoteAction, SamplePlaybackContext, VoiceAction};
use pattrns::rhythm::empty::EmptyRhythm;
use pattrns::tidal::pitch::Pitch;
use pattrns::time::SecondTimeBase;

#[test]
fn pitch_from_parts() {
    assert_eq!(Pitch::from_parts("c", "4", "").midi_note(), 48);
    assert_eq!(Pitch::from_parts("C", "", "").midi_note(), 48);
    assert_eq!(Pitch::from_parts("a", "0", "").midi_note(), 9);
    assert_eq!(Pitch::from_parts("b", "3", "#").midi_note(), 48);
    assert_eq!(Pitch::from_parts("c", "4", "b").midi_note(), 47);
    assert_eq!(Pitch::from_parts("c", "0", "b").midi_note(), 0);
    assert_eq!(Pitch::from_parts("b", "10", "#").midi_note(), 127);
    assert_eq!(Pitch::from_parts("e", "2", "#").midi_note(), 29);
    assert_eq!(Pitch::from_parts("x", "x", "x").midi_note(), 48);
    assert_eq!(Pitch::from_parts("g", "200", "").midi_note(), 127);
    assert_eq!(Pitch::from_parts("g", "-1", "").midi_note(), 55);
    assert_eq!(Pitch::from_parts("g", "+1", "").midi_note(), 19);
    assert_eq!(Pitch::from_parts("g", "256", "").midi_note(), 55);
}

#[test]
fn empty_pattern_and_rhythm() {
    let pattern = EmptyPattern::new();
    assert!(pattern.is_empty());
    assert_eq!(pattern.len(), 0);
    let rhythm = EmptyRhythm::new();
    assert!(rhythm.is_empty());
    assert_eq!(rhythm.len(), 0);
}

#[test]
fn defaults_and_plain_data() {
    assert!(matches!(ParameterType::default(), ParameterType::Float));
    assert_eq!(NewNoteAction::default(), NewNoteAction::Continue);
    let time_base = SecondTimeBase { samples_per_sec: 44100 };
    assert_eq!(time_base.samples_per_second(), 44100);
    let context = SamplePlaybackContext { pattern_index: Some(1), voice_index: None };
    assert_eq!(SamplePlaybackContext::from_context(Some(context)), context);
    assert_eq!(
        SamplePlaybackContext::from_context(None),
        SamplePlaybackContext { pattern_index: None, voice_index: None }
    );
}

#[test]
fn parameter_names_and_enum_defaults() {
    assert_eq!(parameter_name("gain", ""), "gain");
    assert_eq!(parameter_name("gain", "Gain"), "Gain");
    let values = vec!["Low".to_string(), "Mid".to_string(), "High".to_string()];
    assert_eq!(enum_default_index(&values, "mid"), 1);
    assert_eq!(enum_default_index(&values, "HIGH"), 2);
    assert_eq!(enum_default_index(&values, "none"), 0);
}

#[test]
fn phrase_next_due_picks_the_first_least_time() {
    let next = vec![None, Some((1, 30)), Some((2, 10)), Some((3, 10))];
    assert_eq!(next_due(&next, 11), Some(2));
    assert_eq!(next_due(&next, 10), None);
    assert_eq!(next_due(&vec![None, None], 100), None);
    assert_eq!(next_due(&vec![], 100), None);
    assert_eq!(next_due(&vec![Some((0, 5))], 6), Some(0));
}

#[test]
fn player_voice_actions() {
    assert_eq!(
        voice_action(Note::C4, true, true, true, 60),
        VoiceAction { stop: false, play: Some(48) }
    );
    assert_eq!(
        voice_action(Note::C4, false, true, true, 48),
        VoiceAction { stop: true, play: Some(60) }
    );
    assert_eq!(voice_action(Note::OFF, true, true, true, 60), VoiceAction { stop: true, play: None });
    assert_eq!(voice_action(Note::OFF, true, false, true, 60), VoiceAction { stop: false, play: None });
    assert_eq!(voice_action(Note::EMPTY, false, true, true, 60), VoiceAction { stop: false, play: None });
    assert_eq!(voice_action(Note::C4, false, false, false, 60), VoiceAction { stop: false, play: None });
    assert_eq!(voice_action(Note::G9, true, false, true, 0), VoiceAction { stop: false, play: Some(127) });
    assert_eq!(voice_action(Note::C0, true, false, true, 127), VoiceAction { stop: false, play: Some(0) });
}
