//! The steps that a waker takes each time it is invoked.
use super::{CounterError, Ownership};
use crate::counter::{self, Counter, Event, Trace};
use vstd::prelude::*;

verus! {

/// What [`on_wake`] does to a counter that holds `before`: the value that it leaves, and what it
/// returns.
pub open spec fn on_wake_step(start: usize, before: usize) -> (usize, bool) {
    if before == start {
        (start.wrapping_add(1), false)
    } else {
        (before, before == start.wrapping_add(2))
    }
}

/// What [`claim_ownership`] does to a counter that holds `before`: the value that it leaves, and
/// whether the claim succeeds.
pub open spec fn claim_ownership_step(start: usize, before: usize) -> (
    usize,
    Result<bool, CounterError>,
) {
    if before == start.wrapping_add(2) {
        (start.wrapping_add(4), Ok(true))
    } else if before == start || before == start.wrapping_add(1) || before == start.wrapping_add(
        3,
    ) {
        (before, Err(CounterError::WakerClaim { start, found: before }))
    } else {
        (before, Ok(false))
    }
}

/// The first step of a waker's side of the algorithm. Returns true iff:
///   - the waker is from the current round,
///   - no other waker has been invoked while the future was being polled, and none has claimed
///     ownership yet, and
///   - the future has returned `Pending` this round.
pub fn on_wake(start: usize, counter: &Counter, trace: &mut Trace) -> (proceed: bool)
    requires
        start % 4 == 0,
    ensures
        counter::one_access(old(trace)@, final(trace)@, *counter),
        (final(trace)@.last()->after, proceed) == on_wake_step(start, final(trace)@.last()->before),
{
    let result = counter::compare_exchange(counter, start, start + 1, trace);
    match result {
        // the poll has returned `Pending` and ownership has not been claimed yet
        Err(n) => n == start + 2,
        // this is the first waker to be invoked, but the poll hasn't finished
        Ok(_) => false,
    }
}

/// The second step of a waker's side of the algorithm, which runs only if the first returns true.
/// Returns the ownership of the task iff the waker has claimed it, and must now reschedule the
/// task. A waker that was held up since the first step, while another thread claimed the task and
/// later rounds went on, claims nothing.
pub fn claim_ownership(start: usize, counter: &Counter, trace: &mut Trace) -> (result: Result<
    Option<Ownership>,
    CounterError,
>)
    requires
        start % 4 == 0,
    ensures
        counter::one_access(old(trace)@, final(trace)@, *counter),
        (final(trace)@.last()->after, super::claimed(result)) == claim_ownership_step(
            start,
            final(trace)@.last()->before,
        ),
        result matches Ok(Some(ownership)) ==> ownership.counter() == *counter
            && ownership.value() == final(trace)@.last()->after && ownership.at() == final(trace)@,
{
    let end: usize = start.wrapping_add(4);
    let result = counter::compare_exchange(counter, start + 2, end, trace);
    match result {
        // this thread succeeded in setting the counter to `start + 4`, so has claimed ownership
        Ok(_) => Ok(
            Some(Ownership { counter: Ghost(*counter), value: Ghost(end), at: Ghost(trace@) }),
        ),
        Err(n) => if n == start || n == start + 1 || n == start + 3 {
            Err(CounterError::WakerClaim { start, found: n })
        } else {
            // another thread has already set the counter to `start + 4`, and it may have increased
            // further since then
            Ok(None)
        },
    }
}

/// The trace `events` is that of [`invoke`].
pub open spec fn invokes(counter: Counter, events: Seq<Event>, start: usize) -> bool {
    let first = events[0]->before;
    let second = events[1]->before;
    &&& events.len() >= 1
    &&& events[0] == counter::access(counter, first, on_wake_step(start, first).0)
    &&& if on_wake_step(start, first).1 {
        &&& events.len() == 2
        &&& events[1] == counter::access(counter, second, claim_ownership_step(start, second).0)
    } else {
        events.len() == 1
    }
}

/// Whether the waker has claimed ownership, if `events` is its trace of [`invoke`].
pub open spec fn invocation(events: Seq<Event>, start: usize) -> Result<bool, CounterError> {
    if on_wake_step(start, events[0]->before).1 {
        claim_ownership_step(start, events[1]->before).1
    } else {
        Ok(false)
    }
}

/// A waker's side of the algorithm. Returns the ownership of the task iff this thread has claimed
/// it, and must now reschedule the task.
pub fn invoke(start: usize, counter: &Counter, trace: &mut Trace) -> (result: Result<
    Option<Ownership>,
    CounterError,
>)
    requires
        start % 4 == 0,
    ensures
        counter::extends(old(trace)@, final(trace)@),
        invokes(*counter, counter::since(old(trace)@, final(trace)@), start),
        super::claimed(result) == invocation(counter::since(old(trace)@, final(trace)@), start),
        result matches Ok(Some(ownership)) ==> ownership.counter() == *counter
            && ownership.value() == start.wrapping_add(4) && ownership.at() == final(trace)@,
{
    // if this waker is still valid, ownership is still to be claimed, and the future has returned
    // `Pending`
    if on_wake(start, counter, trace) {
        // try to claim full ownership of the task
        claim_ownership(start, counter, trace)
    } else {
        Ok(None)
    }
}

} // verus!
