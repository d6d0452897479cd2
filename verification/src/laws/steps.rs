//! What the steps of the algorithm do to a counter.
use crate::algorithm::{self, task, waker, CounterError, Ownership};
use crate::counter::{Counter, Event, Trace};
use crate::task::TaskInner;
use std::sync::Arc;
use vstd::prelude::*;

verus! {

/// A new counter holds the value that it is given, and that of a new task holds 0. Whoever creates
/// the latter owns the task.
pub proof fn law_new_counter(value: usize, counter: Counter, created: (Counter, Ownership))
    ensures
        call_ensures(Counter::new, (value,), counter) ==> counter.initial() == value,
        call_ensures(algorithm::create_counter, (), created) ==> {
            &&& created.0.initial() == 0
            &&& created.1.counter() == created.0
            &&& created.1.value() == 0
            &&& created.1.at().len() == 0
        },
{
}

/// Reading a counter is one access, which leaves the counter at the value that it returns.
pub proof fn law_read_changes_nothing(counter: &Counter, trace: &mut Trace, value: usize)
    requires
        call_ensures(Counter::get, (counter, trace), value),
    ensures
        final(trace)@ == old(trace)@.push(
            Event::Access { counter: *counter, before: value, after: value },
        ),
{
}

/// The first step of a poll is one access to the counter of that task, which leaves the counter at
/// the value that it returns.
pub proof fn law_get_counter<M, F>(
    task_inner: &Arc<TaskInner<M, F>>,
    trace: &mut Trace,
    value: usize,
)
    requires
        call_ensures(task::get_counter::<M, F>, (task_inner, trace), value),
    ensures
        final(trace)@ == old(trace)@.push(
            Event::Access { counter: task_inner@.counter, before: value, after: value },
        ),
{
}

/// The counter of a task is either set to 0 or left alone. The latter happens only if exclusive access
/// to that very task was refused. The task remains the same.
pub proof fn law_try_reset_counter<M, F>(
    task_inner: Arc<TaskInner<M, F>>,
    trace: &mut Trace,
    result: (bool, Arc<TaskInner<M, F>>),
)
    requires
        call_ensures(task::try_reset_counter::<M, F>, (task_inner, trace), result),
    ensures
        result.1@ == task_inner@,
        final(trace)@ == old(trace)@.push(final(trace)@.last()),
        !result.0 <==> final(trace)@.last() == (Event::Refused {
            counter: task_inner@.counter,
        }),
        result.0 ==> final(trace)@.last() == (Event::Access {
            counter: task_inner@.counter,
            before: final(trace)@.last()->before,
            after: 0,
        }),
{
}

/// A round starts at the value that the counter is found at, or at 0 if it is then reset. A reset is
/// tried if and only if that value is a multiple of 2^18.
pub proof fn law_begin_round<M, F>(
    task_inner: Arc<TaskInner<M, F>>,
    trace: &mut Trace,
    result: (usize, Arc<TaskInner<M, F>>),
)
    requires
        call_ensures(task::begin_round::<M, F>, (task_inner, trace), result),
    ensures
        result.1@ == task_inner@,
        old(trace)@.is_prefix_of(final(trace)@),
        ({
            let counter = task_inner@.counter;
            let events = final(trace)@.skip(old(trace)@.len() as int);
            let found = events[0]->before;
            &&& events[0] == (Event::Access { counter, before: found, after: found })
            &&& if found % 0x40000 != 0 {
                events.len() == 1 && result.0 == found
            } else {
                &&& events.len() == 2
                &&& {
                    ||| events[1] == (Event::Refused { counter }) && result.0 == found
                    ||| events[1] == (Event::Access {
                        counter,
                        before: events[1]->before,
                        after: 0,
                    }) && result.0 == 0
                }
            }
        }),
{
}

/// The first step of a waker moves the counter if and only if it finds it at the start of the
/// waker's round, and then by 1. It lets the waker go on if and only if it finds it 2 above that.
pub proof fn law_on_wake(start: usize, counter: &Counter, trace: &mut Trace, proceed: bool)
    requires
        start % 4 == 0,
        call_ensures(waker::on_wake, (start, counter, trace), proceed),
    ensures
        ({
            let found = final(trace)@.last()->before;
            let left = final(trace)@.last()->after;
            &&& final(trace)@ == old(trace)@.push(
                Event::Access { counter: *counter, before: found, after: left },
            )
            &&& left == if found == start {
                start + 1
            } else {
                found as int
            }
            &&& proceed <==> found == start + 2
        }),
{
}

/// A waker that is invoked again, with nothing in between, finds the counter where it has left it and
/// leaves it there.
pub proof fn law_waking_again_changes_nothing(
    start: usize,
    counter: &Counter,
    first: &mut Trace,
    first_proceeds: bool,
    second: &mut Trace,
    second_proceeds: bool,
)
    requires
        start % 4 == 0,
        call_ensures(waker::on_wake, (start, counter, first), first_proceeds),
        call_ensures(waker::on_wake, (start, counter, second), second_proceeds),
        final(second)@.last()->before == final(first)@.last()->after,
    ensures
        final(second)@.last()->after == final(second)@.last()->before,
        second_proceeds == first_proceeds,
{
}

/// After the future has returned `Pending` the counter is increased by 2, whatever it holds. That a
/// waker was invoked is reported if and only if the counter was 1 above the start of the round.
pub proof fn law_was_waker_invoked(
    start: usize,
    counter: &Counter,
    trace: &mut Trace,
    result: Result<bool, CounterError>,
)
    requires
        start % 4 == 0,
        call_ensures(task::was_waker_invoked, (start, counter, trace), result),
    ensures
        ({
            let found = final(trace)@.last()->before;
            &&& final(trace)@ == old(trace)@.push(
                Event::Access { counter: *counter, before: found, after: found.wrapping_add(2) },
            )
            &&& result == Ok::<bool, CounterError>(false) <==> found == start
            &&& result == Ok::<bool, CounterError>(true) <==> found == start + 1
            &&& result is Err ==> result == Err::<bool, CounterError>(
                CounterError::AfterPoll { start, found },
            )
        }),
{
}

/// If a waker is invoked while the future is being polled then the task thread learns of it.
pub proof fn law_wake_is_reported(
    start: usize,
    counter: &Counter,
    wake: &mut Trace,
    proceed: bool,
    end: &mut Trace,
    result: Result<bool, CounterError>,
)
    requires
        start % 4 == 0,
        call_ensures(waker::on_wake, (start, counter, wake), proceed),
        call_ensures(task::was_waker_invoked, (start, counter, end), result),
        final(wake)@.last()->before == start,
        final(end)@.last()->before == final(wake)@.last()->after,
    ensures
        !proceed,
        result == Ok::<bool, CounterError>(true),
        final(end)@.last()->after == start + 3,
{
}

/// If no waker has been invoked by the time the future has returned then the next one that is goes on
/// to claim the task.
pub proof fn law_wake_after_return_proceeds(
    start: usize,
    counter: &Counter,
    end: &mut Trace,
    result: Result<bool, CounterError>,
    wake: &mut Trace,
    proceed: bool,
)
    requires
        start % 4 == 0,
        call_ensures(task::was_waker_invoked, (start, counter, end), result),
        call_ensures(waker::on_wake, (start, counter, wake), proceed),
        result == Ok::<bool, CounterError>(false),
        final(wake)@.last()->before == final(end)@.last()->after,
    ensures
        proceed,
        final(wake)@.last()->after == final(wake)@.last()->before,
{
}

/// The task thread claims the task if and only if it finds the counter 3 above the start of the round,
/// and then moves it to the end of the round. Otherwise it leaves the counter alone, and if that is
/// not at the end of the round it reports an error.
pub proof fn law_task_claim(
    start: usize,
    counter: &Counter,
    trace: &mut Trace,
    result: Result<Option<Ownership>, CounterError>,
)
    requires
        start % 4 == 0,
        call_ensures(task::claim_ownership, (start, counter, trace), result),
    ensures
        ({
            let found = final(trace)@.last()->before;
            let left = final(trace)@.last()->after;
            &&& final(trace)@ == old(trace)@.push(
                Event::Access { counter: *counter, before: found, after: left },
            )
            &&& left == if found == start + 3 {
                start.wrapping_add(4)
            } else {
                found
            }
            &&& match result {
                Ok(Some(ownership)) => {
                    &&& found == start + 3
                    &&& ownership.counter() == *counter
                    &&& ownership.value() == start.wrapping_add(4)
                    &&& ownership.at() == final(trace)@
                },
                Ok(None) => found == start.wrapping_add(4),
                Err(error) => {
                    &&& found != start + 3 && found != start.wrapping_add(4)
                    &&& error == CounterError::TaskClaim { start, found }
                },
            }
        }),
{
}

/// A waker claims the task if and only if it finds the counter 2 above the start of the waker's round,
/// and then moves it to the end of the round. Otherwise it leaves the counter alone. It reports an
/// error if and only if it finds a value of that round which it cannot have been let on at.
pub proof fn law_waker_claim(
    start: usize,
    counter: &Counter,
    trace: &mut Trace,
    result: Result<Option<Ownership>, CounterError>,
)
    requires
        start % 4 == 0,
        call_ensures(waker::claim_ownership, (start, counter, trace), result),
    ensures
        ({
            let found = final(trace)@.last()->before;
            let left = final(trace)@.last()->after;
            &&& final(trace)@ == old(trace)@.push(
                Event::Access { counter: *counter, before: found, after: left },
            )
            &&& left == if found == start + 2 {
                start.wrapping_add(4)
            } else {
                found
            }
            &&& match result {
                Ok(Some(ownership)) => {
                    &&& found == start + 2
                    &&& ownership.counter() == *counter
                    &&& ownership.value() == start.wrapping_add(4)
                    &&& ownership.at() == final(trace)@
                },
                Ok(None) => found < start || start + 4 <= found,
                Err(error) => {
                    &&& found == start || found == start + 1 || found == start + 3
                    &&& error == CounterError::WakerClaim { start, found }
                },
            }
        }),
{
}

/// Of two claims of the same round, one right after the other, at most the first succeeds. If it does
/// then the second is turned down.
pub proof fn law_claims_exclude_each_other(
    start: usize,
    counter: &Counter,
    first: &mut Trace,
    first_result: Result<Option<Ownership>, CounterError>,
    second: &mut Trace,
    second_result: Result<Option<Ownership>, CounterError>,
)
    requires
        start % 4 == 0,
        call_ensures(task::claim_ownership, (start, counter, first), first_result) || call_ensures(
            waker::claim_ownership,
            (start, counter, first),
            first_result,
        ),
        call_ensures(task::claim_ownership, (start, counter, second), second_result)
            || call_ensures(waker::claim_ownership, (start, counter, second), second_result),
        final(second)@.last()->before == final(first)@.last()->after,
        first_result matches Ok(Some(_)),
    ensures
        second_result matches Ok(None),
        final(second)@.last()->after == final(second)@.last()->before,
{
}

/// When the future has returned `Ready` the counter is moved to the end of the round if it is still at
/// the start of it, and is left alone otherwise.
pub proof fn law_task_complete(start: usize, counter: &Counter, trace: &mut Trace)
    requires
        start % 4 == 0,
        call_ensures(task::task_complete, (start, counter, trace), ()),
    ensures
        ({
            let found = final(trace)@.last()->before;
            &&& final(trace)@ == old(trace)@.push(
                Event::Access {
                    counter: *counter,
                    before: found,
                    after: if found == start {
                        start.wrapping_add(4)
                    } else {
                        found
                    },
                },
            )
        }),
{
}

/// Once the future has returned `Ready` no waker of that round goes on to claim the task, and the
/// counter stays as it is.
pub proof fn law_complete_task_is_not_claimed(
    start: usize,
    counter: &Counter,
    end: &mut Trace,
    wake: &mut Trace,
    proceed: bool,
)
    requires
        start % 4 == 0,
        call_ensures(task::task_complete, (start, counter, end), ()),
        call_ensures(waker::on_wake, (start, counter, wake), proceed),
        final(end)@.last()->before == start || final(end)@.last()->before == start + 1,
        final(wake)@.last()->before == final(end)@.last()->after,
    ensures
        !proceed,
        final(wake)@.last()->after == final(wake)@.last()->before,
{
}

/// After the poll the task thread makes one access if the future has returned `Ready`. If it has
/// returned `Pending` then it increases the counter by 2 and, if the counter was 1 above the start of
/// the round, tries to claim the task. It gets the task if and only if it moves the counter from 3 above
/// the start of the round to the end of it.
pub proof fn law_end_round(
    start: usize,
    counter: &Counter,
    pending: bool,
    trace: &mut Trace,
    result: Result<Option<Ownership>, CounterError>,
)
    requires
        start % 4 == 0,
        call_ensures(task::end_round, (start, counter, pending, trace), result),
    ensures
        old(trace)@.is_prefix_of(final(trace)@),
        ({
            let events = final(trace)@.skip(old(trace)@.len() as int);
            let first = events[0]->before;
            let second = events[1]->before;
            &&& !pending ==> {
                &&& events.len() == 1
                &&& events[0] == (Event::Access {
                    counter: *counter,
                    before: first,
                    after: if first == start {
                        start.wrapping_add(4)
                    } else {
                        first
                    },
                })
                &&& result matches Ok(None)
            }
            &&& pending ==> {
                &&& events[0] == (Event::Access {
                    counter: *counter,
                    before: first,
                    after: first.wrapping_add(2),
                })
                &&& events.len() == if first == start + 1 {
                    2nat
                } else {
                    1nat
                }
                &&& first == start ==> (result matches Ok(None))
                &&& first != start && first != start + 1 ==> (result matches Err(_))
                &&& first == start + 1 ==> {
                    &&& events[1] == (Event::Access {
                        counter: *counter,
                        before: second,
                        after: if second == start + 3 {
                            start.wrapping_add(4)
                        } else {
                            second
                        },
                    })
                    &&& (result matches Ok(Some(_))) <==> second == start + 3
                    &&& (result matches Ok(None)) <==> second == start.wrapping_add(4)
                }
            }
            &&& result matches Ok(Some(ownership)) ==> {
                &&& ownership.counter() == *counter
                &&& ownership.value() == start.wrapping_add(4)
                &&& ownership.at() == final(trace)@
            }
        }),
{
}

/// Invoking a waker makes a second access if and only if the first finds the counter 2 above the start
/// of the waker's round. The waker gets the task if and only if it moves the counter from there to the
/// end of the round.
pub proof fn law_invoke(
    start: usize,
    counter: &Counter,
    trace: &mut Trace,
    result: Result<Option<Ownership>, CounterError>,
)
    requires
        start % 4 == 0,
        call_ensures(waker::invoke, (start, counter, trace), result),
    ensures
        old(trace)@.is_prefix_of(final(trace)@),
        ({
            let events = final(trace)@.skip(old(trace)@.len() as int);
            let first = events[0]->before;
            let second = events[1]->before;
            &&& events[0] == (Event::Access {
                counter: *counter,
                before: first,
                after: if first == start {
                    (start + 1) as usize
                } else {
                    first
                },
            })
            &&& if first == start + 2 {
                &&& events.len() == 2
                &&& events[1] == (Event::Access {
                    counter: *counter,
                    before: second,
                    after: if second == start + 2 {
                        start.wrapping_add(4)
                    } else {
                        second
                    },
                })
                &&& (result matches Ok(Some(_))) <==> second == start + 2
                &&& result is Err <==> second == start || second == start + 1 || second == start + 3
            } else {
                events.len() == 1 && (result matches Ok(None))
            }
            &&& result matches Ok(Some(ownership)) ==> {
                &&& ownership.counter() == *counter
                &&& ownership.value() == start.wrapping_add(4)
                &&& ownership.at() == final(trace)@
            }
        }),
{
}

} // verus!
