//! An event iterator whose notes are mapped after each step.

use vstd::pervasive::cloned;
use vstd::prelude::*;

verus! {

/// An event of a pattern: the notes that start together, or a change of a parameter.
pub enum PatternEvent<N, P> {
    NoteEvents(Vec<N>),
    ParameterChangeEvent(P),
}

/// Whether `b` is what cloning `a` may give: the same kind of event, each note or the
/// parameter change a clone of the one in `a`.
pub open spec fn event_cloned<N: Clone, P: Clone>(
    a: PatternEvent<N, P>,
    b: PatternEvent<N, P>,
) -> bool {
    match (a, b) {
        (PatternEvent::NoteEvents(x), PatternEvent::NoteEvents(y)) => x@.len() == y@.len()
            && forall|i: int| 0 <= i < x@.len() ==> cloned(#[trigger] x@[i], y@[i]),
        (PatternEvent::ParameterChangeEvent(p), PatternEvent::ParameterChangeEvent(q)) => cloned(
            p,
            q,
        ),
        _ => false,
    }
}

/// Whether `r` is what `map` may give for a clone of the note `n`.
pub open spec fn note_mapped<N: Clone, F: Fn(N) -> N>(n: N, map: F, r: N) -> bool {
    exists|c: N| cloned(n, c) && #[trigger] call_ensures(map, (c,), r)
}

/// Whether `b` is what mapping each note of `a` with `map` may give: for note events, each
/// note the map's result for a clone of the note at its place; a parameter change stays.
pub open spec fn notes_mapped<N: Clone, P, F: Fn(N) -> N>(
    a: PatternEvent<N, P>,
    map: F,
    b: PatternEvent<N, P>,
) -> bool {
    match a {
        PatternEvent::NoteEvents(x) => match b {
            PatternEvent::NoteEvents(y) => x@.len() == y@.len() && forall|i: int|
                0 <= i < x@.len() ==> #[trigger] note_mapped(x@[i], map, y@[i]),
            _ => false,
        },
        PatternEvent::ParameterChangeEvent(_) => b == a,
    }
}

fn clone_event<N: Clone, P: Clone>(e: &PatternEvent<N, P>) -> (r: PatternEvent<N, P>)
    ensures
        event_cloned(*e, r),
{
    match e {
        PatternEvent::NoteEvents(notes) => PatternEvent::NoteEvents(notes.clone()),
        PatternEvent::ParameterChangeEvent(p) => PatternEvent::ParameterChangeEvent(p.clone()),
    }
}

/// Endlessly emits an event whose notes a map function changes after each step.
pub struct MappedNotePatternEventIter<N, P, F> {
    event: PatternEvent<N, P>,
    initial_event: PatternEvent<N, P>,
    map: F,
}

impl<N: Clone, P: Clone, F: Fn(N) -> N> MappedNotePatternEventIter<N, P, F> {
    /// The event emitted next.
    pub closed spec fn event_view(&self) -> PatternEvent<N, P> {
        self.event
    }

    /// The map function.
    pub closed spec fn map_view(&self) -> F {
        self.map
    }

    /// The event that `reset` starts over with.
    pub closed spec fn initial_event_view(&self) -> PatternEvent<N, P> {
        self.initial_event
    }

    /// An iterator that starts with `event` and maps its notes with `map` after each step.
    pub fn new(event: PatternEvent<N, P>, map: F) -> (r: Self)
        ensures
            r.event_view() == event,
            event_cloned(event, r.initial_event_view()),
            r.map_view() == map,
    {
        let initial_event = clone_event(&event);
        Self { event, initial_event, map }
    }

    /// Starts over with the initial event.
    pub fn reset(&mut self)
        ensures
            event_cloned(old(self).initial_event_view(), final(self).event_view()),
            final(self).initial_event_view() == old(self).initial_event_view(),
            final(self).map_view() == old(self).map_view(),
    {
        self.event = clone_event(&self.initial_event);
    }

    /// The next event; after it, each note of the event becomes what the map function makes
    /// of it, and a parameter change stays as it is.
    pub fn next(&mut self) -> (r: Option<PatternEvent<N, P>>)
        requires
            forall|n: N| call_requires(old(self).map_view(), (n,)),
        ensures
            r matches Some(e) && event_cloned(old(self).event_view(), e),
            notes_mapped(old(self).event_view(), old(self).map_view(), final(self).event_view()),
            final(self).map_view() == old(self).map_view(),
            final(self).initial_event_view() == old(self).initial_event_view(),
    {
        let current = clone_event(&self.event);
        assert(self.map == old(self).map_view());
        let mapped: Option<Vec<N>> = match &self.event {
            PatternEvent::NoteEvents(notes) => {
                let ghost map = self.map;
                let mut out: Vec<N> = Vec::new();
                let mut i: usize = 0;
                while i < notes.len()
                    invariant
                        i <= notes@.len(),
                        map == self.map,
                        out@.len() == i,
                        forall|n: N| call_requires(map, (n,)),
                        forall|j: int|
                            0 <= j < i ==> #[trigger] note_mapped(notes@[j], map, out@[j]),
                    decreases notes@.len() - i,
                {
                    let c = notes[i].clone();
                    let ghost gc = c;
                    let m = (self.map)(c);
                    assert(cloned(notes@[i as int], gc) && call_ensures(map, (gc,), m));
                    assert(note_mapped(notes@[i as int], map, m));
                    let ghost before = out@;
                    out.push(m);
                    assert forall|j: int| 0 <= j < i + 1 implies #[trigger] note_mapped(
                        notes@[j],
                        map,
                        out@[j],
                    ) by {
                        if j < i {
                            assert(out@[j] == before[j]);
                        }
                    }
                    i = i + 1;
                }
                Some(out)
            },
            PatternEvent::ParameterChangeEvent(_) => None,
        };
        match mapped {
            Some(out) => {
                self.event = PatternEvent::NoteEvents(out);
            },
            None => {},
        }
        Some(current)
    }
}

} // verus!
