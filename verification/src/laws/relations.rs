//! How polls and invocations relate that follow each other.
//!
//! One access follows another if it finds the counter at the value that the other has left.
use crate::algorithm::{task, waker, CounterError};
use crate::counter::{Event, Trace};
use crate::round::{self, Entry};
use crate::task::{Poll, Pollable, SmartWaker, Task};
use vstd::prelude::*;

verus! {

/// The events of a poll that follow the return of the future, and those of an invocation, are what
/// a round is made of.
proof fn lemma_poll_takes_part<
    M: Send + 'static,
    F: Pollable<M, R>,
    R: Fn(Task<M, F>) + Send + Clone + 'static,
>(
    task: Task<M, F>,
    reschedule_fn: R,
    trace: &mut Trace,
    result: Result<Poll<()>, CounterError>,
)
    requires
        call_ensures(Task::<M, F>::poll::<R>, (task, reschedule_fn, trace), result),
    ensures
        ({
            let counter = task.parts().counter;
            let events = final(trace)@.skip(old(trace)@.len() as int);
            let found = events[0]->before;
            let n: int = if found % 0x40000 == 0 {
                2
            } else {
                1
            };
            let start = if n == 2 && events[1] is Access {
                0
            } else {
                found
            };
            start % 4 == 0 ==> {
                &&& task::ends(counter, events.skip(n + 1), start, events[n]->pending)
                &&& events.skip(n + 1)[0] == events[n + 1]
                &&& events.len() == n + 3 ==> events.skip(n + 1)[1] == events[n + 2]
            }
        }),
{
}

/// If a task has been polled, is waiting, and one of its wakers is invoked, then that invocation hands
/// the task to the waker's callback.
pub proof fn law_waiting_task_is_woken<
    M: Send + 'static,
    F: Pollable<M, R>,
    R: Fn(Task<M, F>) + Send + Clone + 'static,
>(
    task: Task<M, F>,
    reschedule_fn: R,
    poll: &mut Trace,
    polled: Result<Poll<()>, CounterError>,
    i: int,
    waker: SmartWaker<M, F, R>,
    wake: &mut Trace,
    woken: Result<(), CounterError>,
)
    requires
        call_ensures(Task::<M, F>::poll::<R>, (task, reschedule_fn, poll), polled),
        call_ensures(SmartWaker::<M, F, R>::wake_by_ref, (&waker, wake), woken) || call_ensures(
            SmartWaker::<M, F, R>::wake,
            (waker, wake),
            woken,
        ),
        // the poll has returned `Pending`, and the last thing that it did was to announce that
        polled matches Ok(output) && output is Pending,
        old(poll)@.len() <= i < final(poll)@.len(),
        final(poll)@[i] == (Event::Polled {
            counter: task.parts().counter,
            start: waker.start(),
            pending: true,
        }),
        final(poll)@.last()->before == waker.start(),
        // the waker belongs to the task, and its accesses follow that one
        waker.parts() == task.parts(),
        final(wake)@[old(wake)@.len() as int]->before == final(poll)@.last()->after,
        final(wake)@.last()->before == final(poll)@.last()->after,
    ensures
        woken is Ok,
        final(wake)@.last()->after == waker.start().wrapping_add(4),
        exists|next: Task<M, F>|
            {
                &&& next.parts() == task.parts()
                &&& next.value() == waker.start().wrapping_add(4)
                &&& #[trigger] call_ensures(waker.reschedule_fn(), (next,), ())
            },
{
    let events = final(poll)@.skip(old(poll)@.len() as int);
    assert(events[i - old(poll)@.len()] == final(poll)@[i]);
    assert(events.last() == final(poll)@.last());
    lemma_poll_takes_part(task, reschedule_fn, poll, polled);
    super::calls::law_future_returns_before_the_round_ends(task, reschedule_fn, poll, polled);
    super::calls::law_poll_begins(task, reschedule_fn, poll, polled);
    super::calls::law_pending_poll(task, reschedule_fn, poll, polled);
    super::calls::law_wake_accesses(waker, wake, woken);
    super::calls::law_claiming_waker_hands_on(waker, wake, woken);
    let wake_events = final(wake)@.skip(old(wake)@.len() as int);
    assert(wake_events[0] == final(wake)@[old(wake)@.len() as int]);
    assert(wake_events.last() == final(wake)@.last());
}

/// If a waker is invoked while the future is being polled then the waker does not hand the task on. If
/// the future returns `Pending` then the poll does.
pub proof fn law_wake_during_poll<
    M: Send + 'static,
    F: Pollable<M, R>,
    R: Fn(Task<M, F>) + Send + Clone + 'static,
>(
    task: Task<M, F>,
    reschedule_fn: R,
    poll: &mut Trace,
    polled: Result<Poll<()>, CounterError>,
    i: int,
    waker: SmartWaker<M, F, R>,
    wake: &mut Trace,
    woken: Result<(), CounterError>,
)
    requires
        call_ensures(Task::<M, F>::poll::<R>, (task, reschedule_fn, poll), polled),
        call_ensures(SmartWaker::<M, F, R>::wake_by_ref, (&waker, wake), woken) || call_ensures(
            SmartWaker::<M, F, R>::wake,
            (waker, wake),
            woken,
        ),
        old(poll)@.len() <= i < final(poll)@.len(),
        final(poll)@[i] == (Event::Polled {
            counter: task.parts().counter,
            start: waker.start(),
            pending: final(poll)@[i]->pending,
        }),
        // the waker finds the counter at the start of the round, and the poll goes on from there
        waker.start() % 4 == 0,
        final(wake)@[old(wake)@.len() as int]->before == waker.start(),
        final(poll)@[i + 1]->before == final(wake)@[old(wake)@.len() as int]->after,
        final(poll)@.len() > i + 2 ==> final(poll)@[i + 2]->before == final(poll)@[i + 1]->after,
    ensures
        woken is Ok,
        final(wake)@.len() == old(wake)@.len() + 1,
        polled matches Ok(output) && (output is Pending <==> final(poll)@[i]->pending),
        final(poll)@[i]->pending ==> {
            &&& final(poll)@.last()->after == waker.start().wrapping_add(4)
            &&& exists|next: Task<M, F>|
                {
                    &&& next.parts() == task.parts()
                    &&& next.value() == waker.start().wrapping_add(4)
                    &&& next.at() == final(poll)@
                    &&& #[trigger] call_ensures(reschedule_fn, (next,), ())
                }
        },
{
    let events = final(poll)@.skip(old(poll)@.len() as int);
    assert forall|j: int| 0 <= j < events.len() implies #[trigger] events[j] == final(poll)@[
    old(poll)@.len() + j] by {}
    assert(events[i - old(poll)@.len()] == final(poll)@[i]);
    super::calls::law_poll_begins(task, reschedule_fn, poll, polled);
    super::calls::law_future_returns_before_the_round_ends(task, reschedule_fn, poll, polled);
    super::calls::law_pending_poll(task, reschedule_fn, poll, polled);
    super::calls::law_ready_poll(task, reschedule_fn, poll, polled);
    super::calls::law_wake_accesses(waker, wake, woken);
    let wake_events = final(wake)@.skip(old(wake)@.len() as int);
    assert(wake_events[0] == final(wake)@[old(wake)@.len() as int]);
}

/// A waker of another round does nothing, whatever values of the present round it finds the counter
/// at: it leaves the counter as it is, so it does not claim the task.
pub proof fn law_outdated_waker<
    M: Send + 'static,
    F,
    R: Fn(Task<M, F>) + Send + Clone + 'static,
>(
    waker: SmartWaker<M, F, R>,
    start: usize,
    trace: &mut Trace,
    result: Result<(), CounterError>,
)
    requires
        waker.start() % 4 == 0,
        start % 4 == 0,
        waker.start() != start,
        call_ensures(SmartWaker::<M, F, R>::wake_by_ref, (&waker, trace), result) || call_ensures(
            SmartWaker::<M, F, R>::wake,
            (waker, trace),
            result,
        ),
        start <= final(trace)@[old(trace)@.len() as int]->before < start + 4,
    ensures
        result is Ok,
        final(trace)@.len() == old(trace)@.len() + 1,
        final(trace)@.last()->after == final(trace)@.last()->before,
{
    super::calls::law_wake_accesses(waker, trace, result);
    let events = final(trace)@.skip(old(trace)@.len() as int);
    assert(events[0] == final(trace)@[old(trace)@.len() as int]);
}

/// If a waker has handed its task on then a clone of it, or any other waker of that round, that is
/// invoked next does nothing.
pub proof fn law_task_is_handed_on_once<
    M: Send + 'static,
    F,
    R: Fn(Task<M, F>) + Send + Clone + 'static,
>(
    waker: SmartWaker<M, F, R>,
    first: &mut Trace,
    first_result: Result<(), CounterError>,
    other: SmartWaker<M, F, R>,
    second: &mut Trace,
    second_result: Result<(), CounterError>,
)
    requires
        waker.start() % 4 == 0,
        other.start() == waker.start(),
        call_ensures(SmartWaker::<M, F, R>::wake_by_ref, (&waker, first), first_result),
        call_ensures(SmartWaker::<M, F, R>::wake_by_ref, (&other, second), second_result),
        final(first)@.last()->after == waker.start().wrapping_add(4),
        final(second)@[old(second)@.len() as int]->before == final(first)@.last()->after,
    ensures
        second_result is Ok,
        final(second)@.len() == old(second)@.len() + 1,
        final(second)@.last()->after == final(second)@.last()->before,
{
    super::calls::law_wake_accesses(other, second, second_result);
    let events = final(second)@.skip(old(second)@.len() as int);
    assert(events[0] == final(second)@[old(second)@.len() as int]);
}

/// The first poll of a new task is not refused: it finds the counter as it was created, and polls the
/// future in a round that starts at 0.
pub proof fn law_first_poll<
    M: Send + 'static,
    F: Pollable<M, R>,
    R: Fn(Task<M, F>) + Send + Clone + 'static,
>(
    metadata: M,
    future: F,
    task: Task<M, F>,
    reschedule_fn: R,
    trace: &mut Trace,
    result: Result<Poll<()>, CounterError>,
)
    requires
        call_ensures(Task::<M, F>::new, (metadata, future), task),
        call_ensures(Task::<M, F>::poll::<R>, (task, reschedule_fn, trace), result),
        final(trace)@[old(trace)@.len() as int]->before == task.parts().counter.initial(),
    ensures
        final(trace)@[old(trace)@.len() + 2int] == (Event::Polled {
            counter: task.parts().counter,
            start: 0,
            pending: final(trace)@[old(trace)@.len() + 2int]->pending,
        }),
        result matches Ok(output) ==> exists|waker: SmartWaker<M, F, R>| #[trigger]
            call_ensures(F::poll, (&future, waker, task.ownership()), output),
{
    super::calls::law_poll_begins(task, reschedule_fn, trace, result);
    super::calls::law_future_returns_before_the_round_ends(task, reschedule_fn, trace, result);
    super::calls::law_poll_returns_the_output(task, reschedule_fn, trace, result);
    let events = final(trace)@.skip(old(trace)@.len() as int);
    assert(events[0] == final(trace)@[old(trace)@.len() as int]);
    assert(events[2] == final(trace)@[old(trace)@.len() + 2int]);
}

/// A poll that finds the counter at the value at which the task was handed on is not refused. Its round
/// starts 4 above the one before, so that a waker of that one is not taken for one of its own. Only if
/// the counter is reset does the round start at 0.
pub proof fn law_next_round<
    M: Send + 'static,
    F: Pollable<M, R>,
    R: Fn(Task<M, F>) + Send + Clone + 'static,
>(
    task: Task<M, F>,
    start: usize,
    reschedule_fn: R,
    trace: &mut Trace,
    result: Result<Poll<()>, CounterError>,
)
    requires
        call_ensures(Task::<M, F>::poll::<R>, (task, reschedule_fn, trace), result),
        start % 4 == 0,
        task.value() == start.wrapping_add(4),
        final(trace)@[old(trace)@.len() as int]->before == task.value(),
    ensures
        ({
            let n = old(trace)@.len() as int;
            let counter = task.parts().counter;
            let reset = final(trace)@[n + 1] == (Event::Access {
                counter,
                before: final(trace)@[n + 1]->before,
                after: 0,
            });
            let i = if task.value() % 0x40000 == 0 {
                n + 2
            } else {
                n + 1
            };
            &&& result != Err::<Poll<()>, CounterError>(
                CounterError::Misaligned { start: task.value() },
            )
            &&& final(trace)@[i] is Polled
            &&& final(trace)@[i]->start == if task.value() % 0x40000 == 0 && reset {
                0
            } else {
                start.wrapping_add(4)
            }
            &&& !(task.value() % 0x40000 == 0 && reset) ==> final(trace)@[i]->start != start
        }),
{
    super::calls::law_poll_begins(task, reschedule_fn, trace, result);
    super::calls::law_future_returns_before_the_round_ends(task, reschedule_fn, trace, result);
    let events = final(trace)@.skip(old(trace)@.len() as int);
    assert forall|j: int| 0 <= j < events.len() implies #[trigger] events[j] == final(trace)@[
    old(trace)@.len() + j] by {}
    assert(events[0] == final(trace)@[old(trace)@.len() as int]);
    assert(start.wrapping_add(4) % 4 == 0);
}

/// A poll and invocations of wakers that are interleaved in this way make up a round.
#[verifier::rlimit(50)]
proof fn lemma_calls_make_a_round<
    M: Send + 'static,
    F: Pollable<M, R>,
    R: Fn(Task<M, F>) + Send + Clone + 'static,
>(
    task: Task<M, F>,
    reschedule_fn: R,
    trace: &mut Trace,
    result: Result<Poll<()>, CounterError>,
    i: int,
    start: usize,
    pending: bool,
    wakers: Seq<SmartWaker<M, F, R>>,
    history: Seq<Entry>,
)
    requires
        call_ensures(Task::<M, F>::poll::<R>, (task, reschedule_fn, trace), result),
        old(trace)@.len() <= i < final(trace)@.len(),
        final(trace)@[i] == (Event::Polled { counter: task.parts().counter, start, pending }),
        // the accesses of all threads since the future began to be polled, each of which finds what
        // the one before has left
        forall|k: int|
            0 <= k < history.len() ==> {
                &&& 0 <= #[trigger] history[k].thread <= wakers.len()
                &&& history[k].event == (Event::Access {
                    counter: task.parts().counter,
                    before: if k == 0 {
                        start
                    } else {
                        history[k - 1].event->after
                    },
                    after: history[k].event->after,
                })
            },
        // those of thread 0 are the poll's, and each other thread invokes a waker of the task
        round::of_thread(history, 0) == final(trace)@.skip(i + 1),
        forall|w: int|
            0 <= w < wakers.len() ==> {
                &&& (#[trigger] wakers[w]).parts() == task.parts()
                &&& wakers[w].start() % 4 == 0
                &&& exists|wake: &mut Trace, woken: Result<(), CounterError>|
                    {
                        &&& #[trigger] call_ensures(
                            SmartWaker::<M, F, R>::wake_by_ref,
                            (&wakers[w], wake),
                            woken,
                        )
                        &&& round::of_thread(history, w + 1) == final(wake)@.skip(
                            (*wake)@.len() as int,
                        )
                    }
            },
    ensures
        start % 4 == 0,
        round::is_round(
            history,
            task.parts().counter,
            start,
            pending,
            wakers.map_values(|w: SmartWaker<M, F, R>| w.start()),
        ),
{
    let counter = task.parts().counter;
    let starts = wakers.map_values(|w: SmartWaker<M, F, R>| w.start());
    super::calls::law_poll_begins(task, reschedule_fn, trace, result);
    super::calls::law_future_returns_before_the_round_ends(task, reschedule_fn, trace, result);
    lemma_poll_takes_part(task, reschedule_fn, trace, result);
    let events = final(trace)@.skip(old(trace)@.len() as int);
    let n = i - old(trace)@.len();
    assert(events[n] == final(trace)@[i]);
    assert(events.skip(n + 1) =~= final(trace)@.skip(i + 1));
    assert forall|t: int| 0 < t <= starts.len() implies waker::invokes(
        counter,
        #[trigger] round::of_thread(history, t),
        starts[t - 1],
    ) by {
        assert(starts[t - 1] == wakers[t - 1].start());
    }
    assert forall|k: int| 0 <= k < starts.len() implies #[trigger] starts[k] % 4 == 0 by {
        assert(starts[k] == wakers[k].start());
    }
    assert(round::sequential(history, counter, start)) by {
        assert forall|k: int| 0 <= k < history.len() implies (#[trigger] history[k]).event
            == crate::counter::access(
            counter,
            round::value_after(history, k, start),
            history[k].event->after,
        ) by {
            assert(0 <= history[k].thread);
        }
    }
}

/// However a poll that returns `Pending` and the invocations of any number of wakers are interleaved:
/// if one of them is a waker of that round then exactly one of these calls claims the task, and that one
/// hands it to its callback. If there is none then no call claims the task.
#[verifier::rlimit(50)]
pub proof fn law_exactly_one_call_hands_on<
    M: Send + 'static,
    F: Pollable<M, R>,
    R: Fn(Task<M, F>) + Send + Clone + 'static,
>(
    task: Task<M, F>,
    reschedule_fn: R,
    trace: &mut Trace,
    result: Result<Poll<()>, CounterError>,
    i: int,
    start: usize,
    wakers: Seq<SmartWaker<M, F, R>>,
    history: Seq<Entry>,
)
    requires
        call_ensures(Task::<M, F>::poll::<R>, (task, reschedule_fn, trace), result),
        old(trace)@.len() <= i < final(trace)@.len(),
        final(trace)@[i] == (Event::Polled { counter: task.parts().counter, start, pending: true }),
        // the accesses of all threads since the future began to be polled, each of which finds what
        // the one before has left
        forall|k: int|
            0 <= k < history.len() ==> {
                &&& 0 <= #[trigger] history[k].thread <= wakers.len()
                &&& history[k].event == (Event::Access {
                    counter: task.parts().counter,
                    before: if k == 0 {
                        start
                    } else {
                        history[k - 1].event->after
                    },
                    after: history[k].event->after,
                })
            },
        // those of thread 0 are the poll's, and each other thread invokes a waker of the task
        round::of_thread(history, 0) == final(trace)@.skip(i + 1),
        forall|w: int|
            0 <= w < wakers.len() ==> {
                &&& (#[trigger] wakers[w]).parts() == task.parts()
                &&& wakers[w].start() % 4 == 0
                &&& exists|wake: &mut Trace, woken: Result<(), CounterError>|
                    {
                        &&& #[trigger] call_ensures(
                            SmartWaker::<M, F, R>::wake_by_ref,
                            (&wakers[w], wake),
                            woken,
                        )
                        &&& round::of_thread(history, w + 1) == final(wake)@.skip(
                            (*wake)@.len() as int,
                        )
                    }
            },
    ensures
        result matches Ok(output) && output is Pending,
        if exists|w: int| 0 <= w < wakers.len() && #[trigger] wakers[w].start() == start {
            exists|t: int|
                #![trigger round::of_thread(history, t)]
                {
                    let claim = round::of_thread(history, t).last();
                    &&& 0 <= t <= wakers.len()
                    &&& claim->after == start.wrapping_add(4)
                    &&& claim->before != claim->after
                    &&& t == 0 ==> exists|next: Task<M, F>|
                        next.parts() == task.parts() && #[trigger] call_ensures(
                            reschedule_fn,
                            (next,),
                            (),
                        )
                    &&& t > 0 ==> exists|next: Task<M, F>|
                        next.parts() == task.parts() && #[trigger] call_ensures(
                            wakers[t - 1].reschedule_fn(),
                            (next,),
                            (),
                        )
                    &&& forall|other: int|
                        #![trigger round::of_thread(history, other)]
                        {
                            &&& 0 <= other <= wakers.len()
                            &&& round::of_thread(history, other).last()->after
                                == start.wrapping_add(4)
                            &&& round::of_thread(history, other).last()->before
                                != round::of_thread(history, other).last()->after
                        } ==> other == t
                }
        } else {
            forall|t: int|
                #![trigger round::of_thread(history, t)]
                0 <= t <= wakers.len() ==> {
                    ||| round::of_thread(history, t).last()->after
                        != start.wrapping_add(4)
                    ||| round::of_thread(history, t).last()->before == round::of_thread(
                        history,
                        t,
                    ).last()->after
                }
        },
{
    let counter = task.parts().counter;
    let starts = wakers.map_values(|w: SmartWaker<M, F, R>| w.start());
    super::calls::law_poll_begins(task, reschedule_fn, trace, result);
    super::calls::law_future_returns_before_the_round_ends(task, reschedule_fn, trace, result);
    super::calls::law_pending_poll(task, reschedule_fn, trace, result);
    let events = final(trace)@.skip(old(trace)@.len() as int);
    let n = i - old(trace)@.len();
    assert(events[n] == final(trace)@[i]);
    assert(events.skip(n + 1) =~= final(trace)@.skip(i + 1));
    lemma_calls_make_a_round(
        task,
        reschedule_fn,
        trace,
        result,
        i,
        start,
        true,
        wakers,
        history,
    );
    round::law_round(history, counter, start, true, starts);
    assert forall|t: int| 0 <= t <= wakers.len() implies {
        let claim = (#[trigger] round::of_thread(history, t)).last();
        round::outcome(history, start, true, starts, t) == Ok::<bool, CounterError>(true)
            <==> claim->after == start.wrapping_add(4) && claim->before != claim->after
    } by {
        assert(round::outcome(history, start, true, starts, t) is Ok);
        if t > 0 {
            assert(starts[t - 1] == wakers[t - 1].start());
            assert(waker::invokes(counter, round::of_thread(history, t), starts[t - 1]));
        }
    }
    if exists|w: int| 0 <= w < wakers.len() && #[trigger] wakers[w].start() == start {
        let w = choose|w: int| 0 <= w < wakers.len() && #[trigger] wakers[w].start() == start;
        assert(starts[w] == start);
        assert(starts.contains(start));
        let t = choose|t: int|
            {
                &&& 0 <= t <= wakers.len()
                &&& #[trigger] round::outcome(history, start, true, starts, t) == Ok::<
                    bool,
                    CounterError,
                >(true)
            };
        assert(round::of_thread(history, t).last()->after == start.wrapping_add(4));
    } else {
        assert(!starts.contains(start));
    }
}

/// However a poll that returns `Ready` and the invocations of any number of wakers are interleaved: no
/// waker claims the task. Each makes one access, which leaves the counter as it is or increases it by
/// 1.
#[verifier::rlimit(50)]
pub proof fn law_no_waker_claims_a_complete_task<
    M: Send + 'static,
    F: Pollable<M, R>,
    R: Fn(Task<M, F>) + Send + Clone + 'static,
>(
    task: Task<M, F>,
    reschedule_fn: R,
    trace: &mut Trace,
    result: Result<Poll<()>, CounterError>,
    i: int,
    start: usize,
    wakers: Seq<SmartWaker<M, F, R>>,
    history: Seq<Entry>,
)
    requires
        call_ensures(Task::<M, F>::poll::<R>, (task, reschedule_fn, trace), result),
        old(trace)@.len() <= i < final(trace)@.len(),
        final(trace)@[i] == (Event::Polled { counter: task.parts().counter, start, pending: false }),
        // the accesses of all threads since the future began to be polled, each of which finds what
        // the one before has left
        forall|k: int|
            0 <= k < history.len() ==> {
                &&& 0 <= #[trigger] history[k].thread <= wakers.len()
                &&& history[k].event == (Event::Access {
                    counter: task.parts().counter,
                    before: if k == 0 {
                        start
                    } else {
                        history[k - 1].event->after
                    },
                    after: history[k].event->after,
                })
            },
        // those of thread 0 are the poll's, and each other thread invokes a waker of the task
        round::of_thread(history, 0) == final(trace)@.skip(i + 1),
        forall|w: int|
            0 <= w < wakers.len() ==> {
                &&& (#[trigger] wakers[w]).parts() == task.parts()
                &&& wakers[w].start() % 4 == 0
                &&& exists|wake: &mut Trace, woken: Result<(), CounterError>|
                    {
                        &&& #[trigger] call_ensures(
                            SmartWaker::<M, F, R>::wake_by_ref,
                            (&wakers[w], wake),
                            woken,
                        )
                        &&& round::of_thread(history, w + 1) == final(wake)@.skip(
                            (*wake)@.len() as int,
                        )
                    }
            },
    ensures
        result matches Ok(output) && output is Ready,
        forall|t: int|
            #![trigger round::of_thread(history, t)]
            0 < t <= wakers.len() ==> {
                let event = round::of_thread(history, t).last();
                event->after == event->before || event->after == event->before + 1
            },
{
    let starts = wakers.map_values(|w: SmartWaker<M, F, R>| w.start());
    super::calls::law_poll_begins(task, reschedule_fn, trace, result);
    super::calls::law_future_returns_before_the_round_ends(task, reschedule_fn, trace, result);
    super::calls::law_ready_poll(task, reschedule_fn, trace, result);
    let events = final(trace)@.skip(old(trace)@.len() as int);
    assert(events[i - old(trace)@.len()] == final(trace)@[i]);
    let counter = task.parts().counter;
    lemma_calls_make_a_round(
        task,
        reschedule_fn,
        trace,
        result,
        i,
        start,
        false,
        wakers,
        history,
    );
    round::law_round(history, counter, start, false, starts);
    assert forall|t: int|
        #![trigger round::of_thread(history, t)]
        0 < t <= wakers.len() implies {
        let event = round::of_thread(history, t).last();
        event->after == event->before || event->after == event->before + 1
    } by {
        assert(starts[t - 1] % 4 == 0);
        assert(waker::invokes(counter, round::of_thread(history, t), starts[t - 1]));
        assert(round::outcome(history, start, false, starts, t) == Ok::<bool, CounterError>(false));
    }
}

} // verus!
