//! The choice of a phrase's next event among the events that its patterns have ready.

use vstd::prelude::*;

verus! {

/// The time of a ready event.
pub open spec fn slot_time(slot: Option<(usize, u64)>) -> u64 {
    match slot {
        Some((_, t)) => t,
        None => 0,
    }
}

/// The slot of the event that a phrase plays next, among the events that its patterns have
/// ready (`next[i]` holds the pattern's index and the event's sample time, or `None`): the
/// first slot with the least time, when that time lies before `time`; `None` when no ready
/// event is due before `time`.
pub fn next_due(next: &Vec<Option<(usize, u64)>>, time: u64) -> (r: Option<usize>)
    ensures
        match r {
            Some(k) => {
                &&& k < next@.len()
                &&& next@[k as int] is Some
                &&& slot_time(next@[k as int]) < time
                &&& forall|j: int|
                    0 <= j < next@.len() && next@[j] is Some ==> slot_time(next@[k as int])
                        <= slot_time(next@[j])
                &&& forall|j: int|
                    0 <= j < k && next@[j] is Some ==> slot_time(next@[k as int]) < slot_time(
                        next@[j],
                    )
            },
            None => forall|j: int|
                0 <= j < next@.len() && next@[j] is Some ==> slot_time(next@[j]) >= time,
        },
{
    let mut best: Option<usize> = None;
    let mut i: usize = 0;
    while i < next.len()
        invariant
            i <= next@.len(),
            match best {
                Some(k) => {
                    &&& k < i
                    &&& next@[k as int] is Some
                    &&& forall|j: int|
                        0 <= j < i && next@[j] is Some ==> slot_time(next@[k as int]) <= slot_time(
                            next@[j],
                        )
                    &&& forall|j: int|
                        0 <= j < k && next@[j] is Some ==> slot_time(next@[k as int]) < slot_time(
                            next@[j],
                        )
                },
                None => forall|j: int| 0 <= j < i ==> next@[j] is None,
            },
        decreases next@.len() - i,
    {
        match next[i] {
            Some((_, t)) => {
                match best {
                    Some(k) => {
                        let tk = match next[k] {
                            Some((_, tk)) => tk,
                            None => 0,
                        };
                        if t < tk {
                            best = Some(i);
                        }
                    },
                    None => {
                        best = Some(i);
                    },
                }
            },
            None => {},
        }
        i = i + 1;
    }
    match best {
        Some(k) => {
            let tk = match next[k] {
                Some((_, tk)) => tk,
                None => 0,
            };
            if tk < time {
                Some(k)
            } else {
                None
            }
        },
        None => None,
    }
}

} // verus!
