use pattrns::events::fixed::{FixedPatternEventIter, ToMappedEmitterValue, ToMappedNotesEmitterValue};
use pattrns::events::from_iter::PatternEventIterFromIter;
use pattrns::value::from_iter::EmitterValueFromIter;
use pattrns::events::mapped::MappedPatternEventIter;
use pattrns::events::mapped_note::{MappedNotePatternEventIter, PatternEvent};
use pattrns::events::sequence::PatternEventIterSequence;
use pattrns::value::fixed::FixedEmitterValue;
use pattrns::value::mapped::MappedEmitterValue;

#[test]
fn events_sequence_cycles() {
    let mut it = PatternEventIterSequence::new(vec!["a", "b", "c"]);
    let got: Vec<_> = (0..7).map(|_| it.next().unwrap()).collect();
    assert_eq!(got, vec!["a", "b", "c", "a", "b", "c", "a"]);
    it.reset();
    assert_eq!(it.next(), Some("a"));
    let mut empty = PatternEventIterSequence::<u8>::new(vec![]);
    assert_eq!(empty.next(), None);
}

#[test]
fn events_fixed_repeats() {
    let mut it = FixedPatternEventIter::new(String::from("x"));
    assert_eq!(it.next(), Some(String::from("x")));
    assert_eq!(it.next(), Some(String::from("x")));
    it.reset();
    assert_eq!(it.next(), Some(String::from("x")));
    let mut value = FixedEmitterValue::new(3u8);
    assert_eq!(value.next(), Some(3));
    assert_eq!(value.next(), Some(3));
}

#[test]
fn events_mapped_steps_and_resets() {
    let mut it = MappedPatternEventIter::new(1u32, |e: u32| e * 2);
    let got: Vec<_> = (0..4).map(|_| it.next().unwrap()).collect();
    assert_eq!(got, vec![1, 2, 4, 8]);
    it.reset();
    assert_eq!(it.next(), Some(1));
    let mut value = MappedEmitterValue::new(10i32, |e: &i32| e - 1);
    assert_eq!(value.next(), Some(10));
    assert_eq!(value.next(), Some(9));
    value.reset();
    assert_eq!(value.next(), Some(10));
}

fn notes_of(e: Option<PatternEvent<u8, String>>) -> Vec<u8> {
    match e {
        Some(PatternEvent::NoteEvents(v)) => v,
        _ => panic!("expected note events"),
    }
}

#[test]
fn events_mapped_notes_transpose_each_step() {
    let mut it = MappedNotePatternEventIter::new(
        PatternEvent::<u8, String>::NoteEvents(vec![60, 64, 67]),
        |n: u8| n.wrapping_add(12),
    );
    assert_eq!(notes_of(it.next()), vec![60, 64, 67]);
    assert_eq!(notes_of(it.next()), vec![72, 76, 79]);
    assert_eq!(notes_of(it.next()), vec![84, 88, 91]);
    it.reset();
    assert_eq!(notes_of(it.next()), vec![60, 64, 67]);
}

#[test]
fn events_mapped_notes_keep_parameter_changes() {
    let mut it = MappedNotePatternEventIter::new(
        PatternEvent::<u8, String>::ParameterChangeEvent(String::from("volume")),
        |n: u8| n + 1,
    );
    for _ in 0..3 {
        match it.next() {
            Some(PatternEvent::ParameterChangeEvent(p)) => assert_eq!(p, "volume"),
            _ => panic!("expected a parameter change"),
        }
    }
}

#[test]
fn sequence_cycles_through_its_events() {
    let mut it = PatternEventIterSequence::new(vec![1, 2, 3]);
    let got: Vec<i32> = (0..7).map(|_| it.next().unwrap()).collect();
    assert_eq!(got, vec![1, 2, 3, 1, 2, 3, 1]);
    it.reset();
    assert_eq!(it.next(), Some(1));
    let mut one = PatternEventIterSequence::new(vec![9]);
    assert_eq!((one.next(), one.next()), (Some(9), Some(9)));
}

#[test]
fn fixed_iterators_upgrade_to_mapped_ones() {
    let mut it = FixedPatternEventIter::new(3u32).map_event(|e: u32| e + 1);
    assert_eq!((it.next(), it.next(), it.next()), (Some(3), Some(4), Some(5)));
    let mut notes = FixedPatternEventIter::new(PatternEvent::<u8, String>::NoteEvents(vec![60]))
        .map_notes(|n: u8| n + 2);
    assert_eq!(notes_of(notes.next()), vec![60]);
    assert_eq!(notes_of(notes.next()), vec![62]);
}

#[test]
fn iterators_from_plain_iterators() {
    let mut it = PatternEventIterFromIter::new(vec![1, 2, 3].into_iter());
    assert_eq!((it.next(), it.next()), (Some(1), Some(2)));
    it.reset();
    assert_eq!((it.next(), it.next(), it.next(), it.next()), (Some(1), Some(2), Some(3), None));
    let mut v = EmitterValueFromIter::new((0..2).map(|x| x * 10));
    assert_eq!((v.next(), v.next(), v.next()), (Some(0), Some(10), None));
    v.reset();
    assert_eq!(v.next(), Some(0));
}
