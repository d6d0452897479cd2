//! What polling a task and invoking a waker do.
use crate::algorithm::{CounterError, Ownership};
use crate::counter::{Counter, Event, Trace};
use crate::task::{Poll, Pollable, SmartWaker, Task, TaskInner};
use std::sync::Arc;
use vstd::prelude::*;

verus! {

/// A new task holds what it was created with, and its counter holds 0.
pub proof fn law_new_task<M: Send + 'static, F>(
    metadata: M,
    future: F,
    task: Task<M, F>,
    inner: (TaskInner<M, F>, Ownership),
)
    ensures
        call_ensures(Task::<M, F>::new, (metadata, future), task) ==> {
            &&& task.parts().metadata == metadata
            &&& task.parts().future == future
            &&& task.parts().counter.initial() == 0
            &&& task.value() == 0
            &&& task.at().len() == 0
        },
        call_ensures(TaskInner::<M, F>::new, (metadata, future), inner) ==> {
            &&& inner.0@.metadata == metadata
            &&& inner.0@.future == future
            &&& inner.0@.counter.initial() == 0
            &&& inner.1.counter() == inner.0@.counter
            &&& inner.1.value() == 0
        },
{
}

/// The metadata that a task gives access to is that which it was created with.
pub proof fn law_metadata_is_given_back<M: Send + 'static, F>(
    metadata: M,
    future: F,
    task: Task<M, F>,
    found: &M,
)
    requires
        call_ensures(Task::<M, F>::new, (metadata, future), task),
        call_ensures(Task::<M, F>::metadata, (&task,), found),
    ensures
        *found == metadata,
{
}

/// What is stored is given back as it is.
pub proof fn law_storage<M, F>(inner: TaskInner<M, F>, counter: &Counter, metadata: &M, future: &F)
    ensures
        call_ensures(TaskInner::<M, F>::counter, (&inner,), counter) ==> *counter == inner@.counter,
        call_ensures(TaskInner::<M, F>::metadata, (&inner,), metadata) ==> *metadata
            == inner@.metadata,
        call_ensures(TaskInner::<M, F>::future, (&inner,), future) ==> *future == inner@.future,
{
}

/// A counter that is replaced is replaced by the one that is given, and nothing else changes.
pub proof fn law_counter_mut<M, F>(inner: &mut TaskInner<M, F>, counter: &mut Counter)
    requires
        call_ensures(TaskInner::<M, F>::counter_mut, (inner,), counter),
    ensures
        *old(counter) == old(inner)@.counter,
        final(inner)@.counter == *final(counter),
        final(inner)@.metadata == old(inner)@.metadata,
        final(inner)@.future == old(inner)@.future,
{
}

/// A future that has returned is either ready or pending, and not both.
pub proof fn law_poll_variants<T>(poll: Poll<T>, ready: bool, pending: bool)
    requires
        call_ensures(Poll::<T>::is_ready, (&poll,), ready),
        call_ensures(Poll::<T>::is_pending, (&poll,), pending),
    ensures
        ready != pending,
        pending <==> poll == Poll::<T>::Pending,
{
}

/// A waker belongs to the task and to the round that it is made for, and so do its clones. Each has
/// the callback or a clone of it.
pub proof fn law_wakers<
    M: Send + 'static,
    F,
    R: Fn(Task<M, F>) + Send + Clone + 'static,
>(
    task_inner: Arc<TaskInner<M, F>>,
    reschedule_fn: R,
    start: usize,
    waker: SmartWaker<M, F, R>,
    clone: SmartWaker<M, F, R>,
)
    requires
        call_ensures(
            SmartWaker::<M, F, R>::new_waker,
            (task_inner, reschedule_fn, start),
            waker,
        ),
        cloned(waker, clone),
    ensures
        waker.parts() == task_inner@,
        waker.start() == start,
        waker.reschedule_fn() == reschedule_fn,
        clone.parts() == task_inner@,
        clone.start() == start,
        cloned(reschedule_fn, clone.reschedule_fn()),
{
}

/// Stands for whatever implements [`Pollable`].
struct Implementor;

/// What an implementor can rely on: the waker belongs to the task that holds the future, and whoever
/// polls the future gives up the ownership of that very task.
impl<M, R> Pollable<M, R> for Implementor {
    fn poll(&self, waker: SmartWaker<M, Self, R>, ownership: Ownership) -> (output: Poll<()>)
        ensures
            waker.parts().future == *self,
            ownership.counter() == waker.parts().counter,
    {
        Poll::Ready(())
    }
}

/// The events by which a trace is continued are those at its end.
proof fn lemma_skip(before: Seq<Event>, after: Seq<Event>)
    ensures
        before.is_prefix_of(after) ==> {
            let events = after.skip(before.len() as int);
            &&& events.len() == after.len() - before.len()
            &&& forall|i: int|
                0 <= i < events.len() ==> #[trigger] events[i] == after[before.len() + i]
        },
{
}

/// A poll begins by reading the counter of the task. If and only if it finds a multiple of 2^18 it
/// goes on to ask for exclusive access to the task, and sets the counter to 0 unless that is refused.
pub proof fn law_poll_begins<
    M: Send + 'static,
    F: Pollable<M, R>,
    R: Fn(Task<M, F>) + Send + Clone + 'static,
>(
    task: Task<M, F>,
    reschedule_fn: R,
    trace: &mut Trace,
    result: Result<Poll<()>, CounterError>,
)
    requires
        call_ensures(Task::<M, F>::poll::<R>, (task, reschedule_fn, trace), result),
    ensures
        old(trace)@.is_prefix_of(final(trace)@),
        ({
            let counter = task.parts().counter;
            let events = final(trace)@.skip(old(trace)@.len() as int);
            let found = events[0]->before;
            let n: int = if found % 0x40000 == 0 {
                2
            } else {
                1
            };
            let start = if n == 2 && events[1] is Access {
                0
            } else {
                found
            };
            &&& events.len() >= n
            &&& events[0] == (Event::Access { counter, before: found, after: found })
            &&& n == 2 ==> {
                ||| events[1] == (Event::Refused { counter })
                ||| events[1] == (Event::Access { counter, before: events[1]->before, after: 0 })
            }
            &&& result == Err::<Poll<()>, CounterError>(CounterError::Misaligned { start })
                <==> start % 4 != 0
            &&& start % 4 != 0 ==> events.len() == n
        }),
{
    lemma_skip(old(trace)@, final(trace)@);
}

/// The future is polled once, and nothing that a waker could take for its return happens before it has
/// returned: up to then the thread leaves the counter at the start of the round, and what it announces
/// it announces afterwards. What is recorded of the future is what the poll returns.
pub proof fn law_future_returns_before_the_round_ends<
    M: Send + 'static,
    F: Pollable<M, R>,
    R: Fn(Task<M, F>) + Send + Clone + 'static,
>(
    task: Task<M, F>,
    reschedule_fn: R,
    trace: &mut Trace,
    result: Result<Poll<()>, CounterError>,
)
    requires
        call_ensures(Task::<M, F>::poll::<R>, (task, reschedule_fn, trace), result),
    ensures
        ({
            let counter = task.parts().counter;
            let events = final(trace)@.skip(old(trace)@.len() as int);
            let found = events[0]->before;
            let n: int = if found % 0x40000 == 0 {
                2
            } else {
                1
            };
            let start = if n == 2 && events[1] is Access {
                0
            } else {
                found
            };
            start % 4 == 0 ==> {
                &&& n + 2 <= events.len()
                &&& forall|i: int|
                    0 <= i < events.len() ==> (#[trigger] events[i] is Polled <==> i == n)
                &&& forall|i: int|
                    0 <= i < n ==> {
                        ||| #[trigger] events[i] == (Event::Refused { counter })
                        ||| events[i] == (Event::Access {
                            counter,
                            before: events[i]->before,
                            after: start,
                        })
                        ||| i == 0 && n == 2 && events[1] is Access && events[0]->after
                            == events[0]->before
                    }
                &&& events[n] == (Event::Polled { counter, start, pending: events[n]->pending })
                &&& result matches Ok(output) ==> (events[n]->pending <==> output is Pending)
                &&& forall|i: int|
                    n < i < events.len() ==> #[trigger] events[i] == (Event::Access {
                        counter,
                        before: events[i]->before,
                        after: events[i]->after,
                    })
            }
        }),
{
    lemma_skip(old(trace)@, final(trace)@);
}

/// A poll returns what the future returned. The future is given a waker that belongs to the task and to
/// the round, with a clone of the callback, and is polled at the price of the ownership of the task.
pub proof fn law_poll_returns_the_output<
    M: Send + 'static,
    F: Pollable<M, R>,
    R: Fn(Task<M, F>) + Send + Clone + 'static,
>(
    task: Task<M, F>,
    reschedule_fn: R,
    trace: &mut Trace,
    result: Result<Poll<()>, CounterError>,
)
    requires
        call_ensures(Task::<M, F>::poll::<R>, (task, reschedule_fn, trace), result),
    ensures
        ({
            let counter = task.parts().counter;
            let events = final(trace)@.skip(old(trace)@.len() as int);
            let found = events[0]->before;
            let n: int = if found % 0x40000 == 0 {
                2
            } else {
                1
            };
            let start = if n == 2 && events[1] is Access {
                0
            } else {
                found
            };
            result matches Ok(output) ==> {
                &&& events[n]->pending <==> output == Poll::<()>::Pending
                &&& exists|waker: SmartWaker<M, F, R>|
                    {
                        &&& waker.parts() == task.parts()
                        &&& waker.start() == start
                        &&& cloned(reschedule_fn, waker.reschedule_fn())
                        &&& #[trigger] call_ensures(
                            F::poll,
                            (&task.parts().future, waker, task.ownership()),
                            output,
                        )
                    }
            }
        }),
{
    lemma_skip(old(trace)@, final(trace)@);
}

/// If the future returns `Pending` then the thread increases the counter by 2, and that is all if it
/// was at the start of the round. If it was 1 above that then the thread tries to claim the task, and if
/// it moves the counter to the end of the round then it hands the task on.
pub proof fn law_pending_poll<
    M: Send + 'static,
    F: Pollable<M, R>,
    R: Fn(Task<M, F>) + Send + Clone + 'static,
>(
    task: Task<M, F>,
    reschedule_fn: R,
    trace: &mut Trace,
    result: Result<Poll<()>, CounterError>,
)
    requires
        call_ensures(Task::<M, F>::poll::<R>, (task, reschedule_fn, trace), result),
    ensures
        ({
            let counter = task.parts().counter;
            let events = final(trace)@.skip(old(trace)@.len() as int);
            let found = events[0]->before;
            let n: int = if found % 0x40000 == 0 {
                2
            } else {
                1
            };
            let start = if n == 2 && events[1] is Access {
                0
            } else {
                found
            };
            let first = events[n + 1]->before;
            let second = events[n + 2]->before;
            start % 4 == 0 && events[n]->pending ==> {
                &&& events[n + 1] == (Event::Access {
                    counter,
                    before: first,
                    after: first.wrapping_add(2),
                })
                &&& if first == start + 1 {
                    &&& events.len() == n + 3
                    &&& events[n + 2] == (Event::Access {
                        counter,
                        before: second,
                        after: if second == start + 3 {
                            start.wrapping_add(4)
                        } else {
                            second
                        },
                    })
                    &&& result is Ok <==> second == start + 3 || second == start.wrapping_add(4)
                    &&& result is Err ==> result->Err_0 == (CounterError::TaskClaim {
                        start,
                        found: second,
                    })
                    &&& second == start + 3 ==> exists|next: Task<M, F>|
                        {
                            &&& next.parts() == task.parts()
                            &&& next.value() == start.wrapping_add(4)
                            &&& next.at() == final(trace)@
                            &&& #[trigger] call_ensures(reschedule_fn, (next,), ())
                        }
                } else {
                    &&& events.len() == n + 2
                    &&& result is Ok <==> first == start
                    &&& result is Err ==> result->Err_0 == (CounterError::AfterPoll {
                        start,
                        found: first,
                    })
                }
            }
        }),
{
    lemma_skip(old(trace)@, final(trace)@);
}

/// If the future returns `Ready` then so does the poll. The counter is moved to the end of the round if
/// it is still at the start of it, and is left alone otherwise.
pub proof fn law_ready_poll<
    M: Send + 'static,
    F: Pollable<M, R>,
    R: Fn(Task<M, F>) + Send + Clone + 'static,
>(
    task: Task<M, F>,
    reschedule_fn: R,
    trace: &mut Trace,
    result: Result<Poll<()>, CounterError>,
)
    requires
        call_ensures(Task::<M, F>::poll::<R>, (task, reschedule_fn, trace), result),
    ensures
        ({
            let counter = task.parts().counter;
            let events = final(trace)@.skip(old(trace)@.len() as int);
            let found = events[0]->before;
            let n: int = if found % 0x40000 == 0 {
                2
            } else {
                1
            };
            let start = if n == 2 && events[1] is Access {
                0
            } else {
                found
            };
            let first = events[n + 1]->before;
            start % 4 == 0 && !events[n]->pending ==> {
                &&& result matches Ok(output)
                &&& output is Ready
                &&& events.len() == n + 2
                &&& events[n + 1] == (Event::Access {
                    counter,
                    before: first,
                    after: if first == start {
                        start.wrapping_add(4)
                    } else {
                        first
                    },
                })
            }
        }),
{
    lemma_skip(old(trace)@, final(trace)@);
}

/// A poll needs no more of the callback than that it takes the very task that was polled, handed on by
/// the thread that polled it, once the future has returned `Pending` and that thread has moved the
/// counter from 3 above the start of the round to the end of it. So it hands on nothing else.
pub proof fn law_poll_hands_on_only_what_it_claims<
    M: Send + 'static,
    F: Pollable<M, R>,
    R: Fn(Task<M, F>) + Send + Clone + 'static,
>(
    task: Task<M, F>,
    reschedule_fn: R,
    trace: &mut Trace,
)
    requires
        forall|next: Task<M, F>|
            ({
                let counter = task.parts().counter;
                let events = next.at().skip(old(trace)@.len() as int);
                let n: int = if events[0]->before % 0x40000 == 0 {
                    2
                } else {
                    1
                };
                let start = if n == 2 && events[1] is Access {
                    0
                } else {
                    events[0]->before
                };
                &&& next.parts() == task.parts()
                &&& next.value() == start.wrapping_add(4)
                &&& old(trace)@.is_prefix_of(next.at())
                &&& events.len() == n + 3
                &&& events[n] == (Event::Polled { counter, start, pending: true })
                &&& events[n + 1] == (Event::Access {
                    counter,
                    before: start.wrapping_add(1),
                    after: start.wrapping_add(3),
                })
                &&& events[n + 2] == (Event::Access {
                    counter,
                    before: start.wrapping_add(3),
                    after: start.wrapping_add(4),
                })
            }) ==> #[trigger] call_requires(reschedule_fn, (next,)),
    ensures
        call_requires(Task::<M, F>::poll::<R>, (task, reschedule_fn, trace)),
{
}

/// Invoking a waker makes one access to the counter of its task, or two. The first moves the counter
/// from the start of the waker's round by 1. If it finds the counter 2 above that then there is a
/// second one, which moves the counter from there to the end of the round. Any other value is left as
/// it is found.
pub proof fn law_wake_accesses<
    M: Send + 'static,
    F,
    R: Fn(Task<M, F>) + Send + Clone + 'static,
>(
    waker: SmartWaker<M, F, R>,
    trace: &mut Trace,
    result: Result<(), CounterError>,
)
    requires
        waker.start() % 4 == 0,
        call_ensures(SmartWaker::<M, F, R>::wake_by_ref, (&waker, trace), result) || call_ensures(
            SmartWaker::<M, F, R>::wake,
            (waker, trace),
            result,
        ),
    ensures
        old(trace)@.is_prefix_of(final(trace)@),
        ({
            let counter = waker.parts().counter;
            let start = waker.start();
            let events = final(trace)@.skip(old(trace)@.len() as int);
            let first = events[0]->before;
            let second = events[1]->before;
            &&& events.len() == if first == start + 2 {
                2nat
            } else {
                1nat
            }
            &&& events[0] == (Event::Access {
                counter,
                before: first,
                after: if first == start {
                    (start + 1) as usize
                } else {
                    first
                },
            })
            &&& first == start + 2 ==> events[1] == (Event::Access {
                counter,
                before: second,
                after: if second == start + 2 {
                    start.wrapping_add(4)
                } else {
                    second
                },
            })
            &&& result is Err <==> first == start + 2 && (second == start || second == start + 1
                || second == start + 3)
            &&& result is Err ==> result->Err_0 == (CounterError::WakerClaim {
                start,
                found: second,
            })
        }),
{
    lemma_skip(old(trace)@, final(trace)@);
}

/// A waker that has moved the counter to the end of its round hands its task to its callback.
pub proof fn law_claiming_waker_hands_on<
    M: Send + 'static,
    F,
    R: Fn(Task<M, F>) + Send + Clone + 'static,
>(
    waker: SmartWaker<M, F, R>,
    trace: &mut Trace,
    result: Result<(), CounterError>,
)
    requires
        waker.start() % 4 == 0,
        call_ensures(SmartWaker::<M, F, R>::wake_by_ref, (&waker, trace), result) || call_ensures(
            SmartWaker::<M, F, R>::wake,
            (waker, trace),
            result,
        ),
    ensures
        ({
            let counter = waker.parts().counter;
            let start = waker.start();
            let events = final(trace)@.skip(old(trace)@.len() as int);
            let first = events[0]->before;
            let second = events[1]->before;
            first == start + 2 && second == start + 2 ==> {
                &&& result is Ok
                &&& exists|next: Task<M, F>|
                {
                    &&& next.parts() == waker.parts()
                    &&& next.value() == start.wrapping_add(4)
                    &&& next.at() == final(trace)@
                    &&& #[trigger] call_ensures(waker.reschedule_fn(), (next,), ())
                }
            }
        }),
{
    lemma_skip(old(trace)@, final(trace)@);
}

/// Invoking a waker needs no more of the callback than that it takes the waker's task, handed on by the
/// thread that has moved the counter from 2 above the start of the round to the end of it. So it hands
/// on nothing else.
pub proof fn law_waker_hands_on_only_what_it_claims<
    M: Send + 'static,
    F,
    R: Fn(Task<M, F>) + Send + Clone + 'static,
>(
    waker: SmartWaker<M, F, R>,
    trace: &mut Trace,
)
    requires
        forall|next: Task<M, F>|
            ({
                let counter = waker.parts().counter;
                let start = waker.start();
                let events = next.at().skip(old(trace)@.len() as int);
                &&& next.parts() == waker.parts()
                &&& next.value() == start.wrapping_add(4)
                &&& old(trace)@.is_prefix_of(next.at())
                &&& events.len() == 2
                &&& events[0] == (Event::Access {
                    counter,
                    before: start.wrapping_add(2),
                    after: start.wrapping_add(2),
                })
                &&& events[1] == (Event::Access {
                    counter,
                    before: start.wrapping_add(2),
                    after: start.wrapping_add(4),
                })
            }) ==> #[trigger] call_requires(waker.reschedule_fn(), (next,)),
    ensures
        call_requires(SmartWaker::<M, F, R>::wake_by_ref, (&waker, trace)),
        call_requires(SmartWaker::<M, F, R>::wake, (waker, trace)),
{
}

} // verus!
