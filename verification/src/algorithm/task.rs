//! The steps that a task takes each time it is polled.
use super::{CounterError, Ownership};
use crate::counter::{self, Counter, Event, Trace};
use crate::task::TaskInner;
use std::sync::Arc;
use vstd::prelude::*;

verus! {

/// The counter may be reset at the start of a round whose `start` is a multiple of this, which is
/// every 2^16 polls.
pub const RESET_INTERVAL: usize = 0x40000;

/// What [`was_waker_invoked`] does to a counter that holds `before`: the value that it leaves, and
/// what it returns.
pub open spec fn was_waker_invoked_step(start: usize, before: usize) -> (
    usize,
    Result<bool, CounterError>,
) {
    (
        before.wrapping_add(2),
        if before == start {
            Ok(false)
        } else if before == start.wrapping_add(1) {
            Ok(true)
        } else {
            Err(CounterError::AfterPoll { start, found: before })
        },
    )
}

/// What [`claim_ownership`] does to a counter that holds `before`: the value that it leaves, and
/// whether the claim succeeds.
pub open spec fn claim_ownership_step(start: usize, before: usize) -> (
    usize,
    Result<bool, CounterError>,
) {
    if before == start.wrapping_add(3) {
        (start.wrapping_add(4), Ok(true))
    } else if before == start.wrapping_add(4) {
        (before, Ok(false))
    } else {
        (before, Err(CounterError::TaskClaim { start, found: before }))
    }
}

/// The value that [`task_complete`] leaves in a counter that holds `before`.
pub open spec fn task_complete_step(start: usize, before: usize) -> usize {
    if before == start {
        start.wrapping_add(4)
    } else {
        before
    }
}

/// The first step of the algorithm. Returns the value of the counter.
pub fn get_counter<M, F>(task_inner: &Arc<TaskInner<M, F>>, trace: &mut Trace) -> (value: usize)
    ensures
        final(trace)@ == old(trace)@.push(
            counter::access(task_inner@.counter, value, value),
        ),
{
    task_inner.counter().get(trace)
}

/// The task thread occasionally calls this before polling the task to try and keep the counter
/// from overflowing. Returns a bool that is true iff the counter was reset, and gives back
/// ownership of the `TaskInner` instance, which must have no clones for this to succeed. It is
/// false only if exclusive access to this very instance was asked for and refused.
pub fn try_reset_counter<M, F>(task_inner: Arc<TaskInner<M, F>>, trace: &mut Trace) -> (result: (
    bool,
    Arc<TaskInner<M, F>>,
))
    ensures
        result.1@ == task_inner@,
        if result.0 {
            &&& counter::one_access(old(trace)@, final(trace)@, task_inner@.counter)
            &&& final(trace)@.last()->after == 0
        } else {
            final(trace)@ == old(trace)@.push(
                Event::Refused { counter: task_inner@.counter },
            )
        },
{
    let mut task_inner = task_inner;
    let success: bool;
    if let Some(inner) = counter::try_exclusive(&mut task_inner, trace) {
        counter::set(inner.counter_mut(), 0, trace);
        success = true;
    } else {
        success = false;
    }
    (success, task_inner)
}

/// If the future returned `Pending` after being polled, the task thread calls this to see if a
/// waker has been invoked yet. If this returns true, the task thread continues to the next step of
/// the algorithm.
pub fn was_waker_invoked(start: usize, counter: &Counter, trace: &mut Trace) -> (result: Result<
    bool,
    CounterError,
>)
    requires
        start % 4 == 0,
    ensures
        counter::one_access(old(trace)@, final(trace)@, *counter),
        (final(trace)@.last()->after, result) == was_waker_invoked_step(
            start,
            final(trace)@.last()->before,
        ),
{
    let n: usize = counter::fetch_add(counter, 2, trace);
    if n == start {
        Ok(false)
    } else if n == start + 1 {
        Ok(true)
    } else {
        Err(CounterError::AfterPoll { start, found: n })
    }
}

/// The last step of the task thread's side of the algorithm, called only if `was_waker_invoked`
/// returned true. Returns the ownership of the task iff the task thread has successfully claimed
/// it, and must now reschedule the task.
pub fn claim_ownership(start: usize, counter: &Counter, trace: &mut Trace) -> (result: Result<
    Option<Ownership>,
    CounterError,
>)
    requires
        start % 4 == 0,
    ensures
        counter::one_access(old(trace)@, final(trace)@, *counter),
        (final(trace)@.last()->after, super::claimed(result)) == claim_ownership_step(
            start,
            final(trace)@.last()->before,
        ),
        result matches Ok(Some(ownership)) ==> ownership.counter() == *counter
            && ownership.value() == final(trace)@.last()->after && ownership.at() == final(trace)@,
{
    let end: usize = start.wrapping_add(4);
    let result = counter::compare_exchange(counter, start + 3, end, trace);
    match result {
        // this thread succeeded in setting the counter to `start + 4`, so has claimed ownership
        Ok(_) => Ok(
            Some(Ownership { counter: Ghost(*counter), value: Ghost(end), at: Ghost(trace@) }),
        ),
        Err(n) => if n == end {
            // another thread has already set the counter to `start + 4`
            Ok(None)
        } else {
            Err(CounterError::TaskClaim { start, found: n })
        },
    }
}

/// If the future returned `Ready` after being polled, the task thread calls this instead of
/// `was_waker_invoked`.
///
/// Whether the counter was still at `start` does not matter: either way it is not at `start` any
/// more, so no waker of this round can claim ownership, and the task will not be polled again.
pub fn task_complete(start: usize, counter: &Counter, trace: &mut Trace)
    requires
        start % 4 == 0,
    ensures
        counter::one_access(old(trace)@, final(trace)@, *counter),
        final(trace)@.last()->after == task_complete_step(start, final(trace)@.last()->before),
{
    let _ = counter::compare_exchange(counter, start, start.wrapping_add(4), trace);
}

/// The trace `events` is that of [`begin_round`]: the counter is read, and if its value is a multiple
/// of [`RESET_INTERVAL`] then it is either reset to 0 or the reset is refused.
pub open spec fn begins(counter: Counter, events: Seq<Event>) -> bool {
    let value = events[0]->before;
    &&& events.len() == beginning_len(events)
    &&& events[0] == counter::access(counter, value, value)
    &&& value % RESET_INTERVAL == 0 ==> {
        ||| events[1] == (Event::Refused { counter })
        ||| events[1] == counter::access(counter, events[1]->before, 0)
    }
}

/// How many of the `events` of a poll are those of [`begin_round`].
pub open spec fn beginning_len(events: Seq<Event>) -> nat {
    if events[0]->before % RESET_INTERVAL == 0 {
        2
    } else {
        1
    }
}

/// The value at which the round starts that begins with `events`.
pub open spec fn beginning(events: Seq<Event>) -> usize {
    if beginning_len(events) == 2 && events[1] is Access {
        0
    } else {
        events[0]->before
    }
}

/// The events of a poll begin with those of [`begin_round`].
pub(crate) proof fn lemma_beginning(counter: Counter, first: Seq<Event>, rest: Seq<Event>)
    requires
        begins(counter, first),
    ensures
        beginning_len(first + rest) == first.len(),
        beginning(first + rest) == beginning(first),
        (first + rest).take(first.len() as int) == first,
        (first + rest).skip(first.len() as int) == rest,
{
    let events = first + rest;
    assert(events[0] == first[0]);
    assert(first.len() == 2 ==> events[1] == first[1]);
    assert(events.take(first.len() as int) =~= first);
    assert(events.skip(first.len() as int) =~= rest);
}

/// The trace `events` is that of [`end_round`].
pub open spec fn ends(
    counter: Counter,
    events: Seq<Event>,
    start: usize,
    pending: bool,
) -> bool {
    let first = events[0]->before;
    let second = events[1]->before;
    if pending {
        &&& events.len() >= 1
        &&& events[0] == counter::access(counter, first, was_waker_invoked_step(start, first).0)
        &&& if was_waker_invoked_step(start, first).1 == Ok::<bool, CounterError>(true) {
            &&& events.len() == 2
            &&& events[1] == counter::access(counter, second, claim_ownership_step(start, second).0)
        } else {
            events.len() == 1
        }
    } else {
        &&& events.len() == 1
        &&& events[0] == counter::access(counter, first, task_complete_step(start, first))
    }
}

/// Whether the task thread has claimed ownership, if `events` is its trace of [`end_round`].
pub open spec fn ending(events: Seq<Event>, start: usize, pending: bool) -> Result<
    bool,
    CounterError,
> {
    if pending {
        match was_waker_invoked_step(start, events[0]->before).1 {
            Ok(true) => claim_ownership_step(start, events[1]->before).1,
            result => result,
        }
    } else {
        Ok(false)
    }
}

/// The task thread's part of the algorithm up to where the future is polled. Returns the value of
/// the counter at the start of this round, and gives back ownership of the `TaskInner` instance.
///
/// Every 2^16 polls (i.e. every 2^18 increments) this tries to safely reset the counter, which
/// succeeds iff there are no leftover wakers from previous rounds. It keeps the counter from
/// wrapping: if the counter did wrap, a leftover waker might be unable to detect that it is
/// outdated.
pub fn begin_round<M, F>(task_inner: Arc<TaskInner<M, F>>, trace: &mut Trace) -> (result: (
    usize,
    Arc<TaskInner<M, F>>,
))
    ensures
        result.1@ == task_inner@,
        counter::extends(old(trace)@, final(trace)@),
        begins(task_inner@.counter, counter::since(old(trace)@, final(trace)@)),
        result.0 == beginning(counter::since(old(trace)@, final(trace)@)),
{
    let start: usize = get_counter(&task_inner, trace);
    let ghost read = trace@;
    assert(start & 0x3ffff == start % 0x40000) by (bit_vector);
    if start & 0x3ffff == 0 {
        let (success, inner) = try_reset_counter(task_inner, trace);
        assert(trace@.take(read.len() as int) =~= read);
        assert(counter::since(old(trace)@, trace@)[0] == read.last());
        if success {
            (0, inner)
        } else {
            (start, inner)
        }
    } else {
        (start, task_inner)
    }
}

/// The task thread's part of the algorithm from where the future has been polled. Returns the
/// ownership of the task iff this thread has claimed it, and must now reschedule the task.
pub fn end_round(start: usize, counter: &Counter, pending: bool, trace: &mut Trace) -> (result:
    Result<Option<Ownership>, CounterError>)
    requires
        start % 4 == 0,
    ensures
        counter::extends(old(trace)@, final(trace)@),
        ends(*counter, counter::since(old(trace)@, final(trace)@), start, pending),
        super::claimed(result) == ending(
            counter::since(old(trace)@, final(trace)@),
            start,
            pending,
        ),
        result matches Ok(Some(ownership)) ==> ownership.counter() == *counter
            && ownership.value() == start.wrapping_add(4) && ownership.at() == final(trace)@,
{
    if pending {
        match was_waker_invoked(start, counter, trace) {
            // if a waker has been invoked then try to claim full ownership of the task
            Ok(true) => claim_ownership(start, counter, trace),
            Ok(false) => Ok(None),
            Err(error) => Err(error),
        }
    } else {
        // else the future returned `Ready`, so end the algorithm
        task_complete(start, counter, trace);
        Ok(None)
    }
}

} // verus!
