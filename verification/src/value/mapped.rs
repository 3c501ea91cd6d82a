//! An emitter value whose event is mapped after each step.

use vstd::pervasive::cloned;
use vstd::prelude::*;

verus! {

/// Emits events which a map function changes after each step, endlessly.
pub struct MappedEmitterValue<E, F> {
    event: E,
    initial_event: E,
    map: F,
}

impl<E: Clone, F: Fn(&E) -> E> MappedEmitterValue<E, F> {
    /// The event emitted next.
    pub closed spec fn event_view(&self) -> E {
        self.event
    }

    /// The event that `reset` starts over with.
    pub closed spec fn initial_event_view(&self) -> E {
        self.initial_event
    }

    /// The map function.
    pub closed spec fn map_view(&self) -> F {
        self.map
    }

    /// An emitter value that starts with `event` and maps it with `map` after each step.
    pub fn new(event: E, map: F) -> (r: Self)
        ensures
            r.event_view() == event,
            cloned(event, r.initial_event_view()),
            r.map_view() == map,
    {
        let initial_event = event.clone();
        Self { event, initial_event, map }
    }

    /// The next event, after which the event becomes what the map function makes of it.
    pub fn next(&mut self) -> (r: Option<E>)
        requires
            forall|e: &E| call_requires(old(self).map_view(), (e,)),
        ensures
            r matches Some(e) && cloned(old(self).event_view(), e),
            call_ensures(old(self).map_view(), (&old(self).event_view(),), final(self).event_view()),
            final(self).map_view() == old(self).map_view(),
            final(self).initial_event_view() == old(self).initial_event_view(),
    {
        let current = self.event.clone();
        assert(self.map == old(self).map_view());
        assert(call_requires(old(self).map_view(), (&self.event,)));
        let next = (self.map)(&self.event);
        self.event = next;
        Some(current)
    }

    /// Starts over with the initial event.
    pub fn reset(&mut self)
        ensures
            cloned(old(self).initial_event_view(), final(self).event_view()),
            final(self).initial_event_view() == old(self).initial_event_view(),
            final(self).map_view() == old(self).map_view(),
    {
        self.event = self.initial_event.clone();
    }
}

} // verus!
