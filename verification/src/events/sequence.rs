//! An event iterator that endlessly cycles through a sequence of events.

use vstd::pervasive::cloned;
use vstd::prelude::*;

verus! {

/// Endlessly emits a sequence of events, starting over after the last one.
pub struct PatternEventIterSequence<E> {
    events: Vec<E>,
    current: usize,
}

impl<E> PatternEventIterSequence<E> {
    #[verifier::type_invariant]
    spec fn well_formed(self) -> bool {
        &&& self.events@.len() == 0 ==> self.current == 0
        &&& self.events@.len() > 0 ==> self.current < self.events@.len()
    }
}

impl<E: Clone> Clone for PatternEventIterSequence<E> {
    fn clone(&self) -> (r: Self)
        ensures
            r.events_view().len() == self.events_view().len(),
            forall|i: int|
                0 <= i < self.events_view().len() ==> cloned(
                    self.events_view()[i],
                    #[trigger] r.events_view()[i],
                ),
            r.current_view() == self.current_view(),
    {
        proof {
            use_type_invariant(self);
        }
        Self { events: self.events.clone(), current: self.current }
    }
}

impl<E: Clone> PatternEventIterSequence<E> {
    /// The events of the sequence.
    pub closed spec fn events_view(&self) -> Seq<E> {
        self.events@
    }

    /// The position of the event that is emitted next.
    pub closed spec fn current_view(&self) -> int {
        self.current as int
    }

    /// An iterator over `events`, starting at the first.
    pub fn new(events: Vec<E>) -> (r: Self)
        ensures
            r.events_view() == events@,
            r.current_view() == 0,
    {
        Self { events, current: 0 }
    }

    /// The current event, after which the position moves on by one, back to the first event
    /// after the last; `None` for an empty sequence.
    pub fn next(&mut self) -> (r: Option<E>)
        ensures
            final(self).events_view() == old(self).events_view(),
            old(self).events_view().len() == 0 ==> r is None && final(self).current_view()
                == old(self).current_view(),
            old(self).events_view().len() > 0 ==> {
                &&& r matches Some(e) && cloned(
                    old(self).events_view()[old(self).current_view()],
                    e,
                )
                &&& final(self).current_view() == (old(self).current_view() + 1) % (old(
                    self,
                ).events_view().len() as int)
            },
    {
        proof {
            use_type_invariant(&*self);
        }
        if self.events.len() == 0 {
            return None;
        }
        let current = self.events[self.current].clone();
        let ghost len = self.events@.len() as int;
        if self.current + 1 >= self.events.len() {
            proof {
                vstd::arithmetic::div_mod::lemma_mod_self_0(len);
            }
            self.current = 0;
        } else {
            proof {
                vstd::arithmetic::div_mod::lemma_small_mod((self.current + 1) as nat, len as nat);
            }
            self.current = self.current + 1;
        }
        Some(current)
    }

    /// Starts over at the first event.
    pub fn reset(&mut self)
        ensures
            final(self).events_view() == old(self).events_view(),
            final(self).current_view() == 0,
    {
        self.current = 0;
    }
}

/// The position of a sequence of `len` events after `k` calls of `next` from position `p`,
/// each call moving it on by one as `next` states.
pub open spec fn position_after(p: int, k: nat, len: int) -> int
    decreases k,
{
    if k == 0 {
        p
    } else {
        (position_after(p, (k - 1) as nat, len) + 1) % len
    }
}

/// A sequence cycles through its events: after `k` calls of `next` from the start it stands
/// at event `k % len`, so the `(k + 1)`-th call emits a clone of the event at `k % len`.
pub proof fn lemma_sequence_cycles(k: nat, len: int)
    requires
        len > 0,
    ensures
        position_after(0, k, len) == (k as int) % len,
    decreases k,
{
    if k == 0 {
        vstd::arithmetic::div_mod::lemma_small_mod(0, len as nat);
    } else {
        lemma_sequence_cycles((k - 1) as nat, len);
        let q = position_after(0, (k - 1) as nat, len);
        if len == 1 {
            assert((q + 1) % 1 == 0) by (nonlinear_arith);
            assert((k as int) % 1 == 0) by (nonlinear_arith);
        } else {
            vstd::arithmetic::div_mod::lemma_add_mod_noop((k - 1) as int, 1, len);
            vstd::arithmetic::div_mod::lemma_small_mod(1, len as nat);
        }
    }
}

} // verus!
