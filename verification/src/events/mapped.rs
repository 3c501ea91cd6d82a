//! An event iterator whose event is mapped after each step.

use vstd::pervasive::cloned;
use vstd::prelude::*;

verus! {

/// Endlessly emits an event, which a map function changes after each step.
pub struct MappedPatternEventIter<E, F> {
    event: E,
    initial_event: E,
    map: F,
}

impl<E: Clone, F: Fn(E) -> E> MappedPatternEventIter<E, F> {
    /// The event emitted next.
    pub closed spec fn event_view(&self) -> E {
        self.event
    }

    /// The map function.
    pub closed spec fn map_view(&self) -> F {
        self.map
    }

    /// The event that `reset` starts over with.
    pub closed spec fn initial_event_view(&self) -> E {
        self.initial_event
    }

    /// An iterator that starts with `event` and maps it with `map` after each step.
    pub fn new(event: E, map: F) -> (r: Self)
        ensures
            r.event_view() == event,
            cloned(event, r.initial_event_view()),
            r.map_view() == map,
    {
        let initial_event = event.clone();
        Self { event, initial_event, map }
    }

    /// Starts over with the initial event.
    pub fn reset(&mut self)
        ensures
            cloned(old(self).initial_event_view(), final(self).event_view()),
            final(self).initial_event_view() == old(self).initial_event_view(),
            final(self).map_view() == old(self).map_view(),
    {
        self.event = self.initial_event.clone();
    }

    /// The next event, after which the event becomes what the map function makes of it.
    pub fn next(&mut self) -> (r: Option<E>)
        requires
            forall|e: E| call_requires(old(self).map_view(), (e,)),
        ensures
            r matches Some(e) && cloned(old(self).event_view(), e),
            exists|c: E|
                cloned(old(self).event_view(), c) && call_ensures(
                    old(self).map_view(),
                    (c,),
                    final(self).event_view(),
                ),
            final(self).map_view() == old(self).map_view(),
            final(self).initial_event_view() == old(self).initial_event_view(),
    {
        let current = self.event.clone();
        let e = self.event.clone();
        let ghost c = e;
        assert(self.map == old(self).map_view());
        assert(call_requires(old(self).map_view(), (c,)));
        let next = (self.map)(e);
        assert(cloned(self.event, c) && call_ensures(self.map, (c,), next));
        self.event = next;
        Some(current)
    }
}

} // verus!
