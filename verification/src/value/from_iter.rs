//! An emitter value that emits what a plain iterator of emitter events yields.

use vstd::pervasive::cloned;
use vstd::prelude::*;
use vstd::std_specs::iter::IteratorSpec;

verus! {

/// Emits the items of a plain iterator; `reset` starts over with a clone of the iterator as
/// it was given.
pub struct EmitterValueFromIter<I> {
    iter: I,
    initial_iter: I,
}

impl<I: Iterator + Clone> EmitterValueFromIter<I> {
    /// The iterator that yields the next items.
    pub closed spec fn iter_view(&self) -> I {
        self.iter
    }

    /// The iterator that `reset` starts over with.
    pub closed spec fn initial_view(&self) -> I {
        self.initial_iter
    }

    /// An emitter value over the items of `iter`.
    pub fn new(iter: I) -> (r: Self)
        ensures
            r.iter_view() == iter,
            cloned(iter, r.initial_view()),
    {
        let initial_iter = iter.clone();
        Self { iter, initial_iter }
    }

    /// The next item of the iterator: for an iterator that obeys the laws of `next`, the
    /// first of the items that remain, or `None` when none remain.
    pub fn next(&mut self) -> (r: Option<I::Item>)
        ensures
            final(self).initial_view() == old(self).initial_view(),
            final(self).iter_view().obeys_prophetic_iter_laws() == old(self).iter_view().obeys_prophetic_iter_laws(),
            old(self).iter_view().obeys_prophetic_iter_laws() ==> if old(
                self,
            ).iter_view().remaining().len() > 0 {
                &&& r == Some(old(self).iter_view().remaining()[0])
                &&& final(self).iter_view().remaining() == old(
                    self,
                ).iter_view().remaining().drop_first()
            } else {
                r is None
            },
    {
        self.iter.next()
    }

    /// Starts over with a clone of the iterator as it was given.
    pub fn reset(&mut self)
        ensures
            final(self).initial_view() == old(self).initial_view(),
            cloned(old(self).initial_view(), final(self).iter_view()),
    {
        self.iter = self.initial_iter.clone();
    }
}

} // verus!
