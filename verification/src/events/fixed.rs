//! An event iterator that endlessly emits one fixed event.

use vstd::pervasive::cloned;
use vstd::prelude::*;

use crate::events::mapped::MappedPatternEventIter;
use crate::events::mapped_note::{event_cloned, MappedNotePatternEventIter, PatternEvent};

verus! {

/// Endlessly emits a single, fixed event.
#[derive(Clone)]
pub struct FixedPatternEventIter<E> {
    event: E,
}

impl<E> FixedPatternEventIter<E> {
    /// The event that is emitted.
    pub closed spec fn event_view(&self) -> E {
        self.event
    }

    /// An iterator that endlessly emits `event`.
    pub fn new(event: E) -> (r: Self)
        ensures
            r.event_view() == event,
    {
        Self { event }
    }
}

impl<E: Clone> FixedPatternEventIter<E> {

    /// A clone of the fixed event; the iterator stays as it is.
    pub fn next(&mut self) -> (r: Option<E>)
        ensures
            final(self).event_view() == old(self).event_view(),
            r matches Some(e) && cloned(old(self).event_view(), e),
    {
        Some(self.event.clone())
    }

    /// Fixed events do not change, so there is nothing to reset.
    pub fn reset(&mut self)
        ensures
            final(self).event_view() == old(self).event_view(),
    {
    }
}

/// Turns an event iterator into one whose event is mapped after each step.
pub trait ToMappedEmitterValue<E, F>: Sized {
    fn map_event(self, map: F) -> MappedPatternEventIter<E, F>;
}

impl<E: Clone, F: Fn(E) -> E> ToMappedEmitterValue<E, F> for FixedPatternEventIter<E> {
    /// The mapped iterator that starts with the fixed event.
    fn map_event(self, map: F) -> (r: MappedPatternEventIter<E, F>)
        ensures
            r.event_view() == self.event_view(),
            cloned(self.event_view(), r.initial_event_view()),
            r.map_view() == map,
    {
        MappedPatternEventIter::new(self.event, map)
    }
}

/// Turns an event iterator into one whose notes are mapped after each step.
pub trait ToMappedNotesEmitterValue<N, P, F>: Sized {
    fn map_notes(self, map: F) -> MappedNotePatternEventIter<N, P, F>;
}

impl<N: Clone, P: Clone, F: Fn(N) -> N> ToMappedNotesEmitterValue<N, P, F> for FixedPatternEventIter<
    PatternEvent<N, P>,
> {
    /// The note-mapped iterator that starts with the fixed event.
    fn map_notes(self, map: F) -> (r: MappedNotePatternEventIter<N, P, F>)
        ensures
            r.event_view() == self.event_view(),
            event_cloned(self.event_view(), r.initial_event_view()),
            r.map_view() == map,
    {
        MappedNotePatternEventIter::new(self.event, map)
    }
}

} // verus!
