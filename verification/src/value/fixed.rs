//! An emitter value that endlessly emits one fixed event.

use vstd::pervasive::cloned;
use vstd::prelude::*;

verus! {

/// Emits a fixed, immutable event, endlessly.
#[derive(Clone)]
pub struct FixedEmitterValue<E> {
    event: E,
}

impl<E: Clone> FixedEmitterValue<E> {
    /// The event that is emitted.
    pub closed spec fn event_view(&self) -> E {
        self.event
    }

    /// An iterator that endlessly emits `event`.
    pub fn new(event: E) -> (r: Self)
        ensures
            r.event_view() == event,
    {
        Self { event }
    }

    /// A clone of the fixed event; the iterator stays as it is.
    pub fn next(&mut self) -> (r: Option<E>)
        ensures
            final(self).event_view() == old(self).event_view(),
            r matches Some(e) && cloned(old(self).event_view(), e),
    {
        Some(self.event.clone())
    }

    /// Fixed events do not change, so there is nothing to reset.
    pub fn reset(&mut self)
        ensures
            final(self).event_view() == old(self).event_view(),
    {
    }
}

} // verus!
