use crate::algorithm::{self, CounterError, Ownership};
use crate::counter::{self, Counter, Event, Trace};
use std::sync::Arc;
use vstd::prelude::*;

verus! {

/// What a task consists of.
pub ghost struct TaskParts<M, F> {
    /// The counter that the task shares with its wakers.
    pub counter: Counter,
    /// The task's metadata.
    pub metadata: M,
    /// The task's future.
    pub future: F,
}

/// Stores a task's future and associated data. It is shared between the task and its wakers.
pub struct TaskInner<M, F> {
    /// a counter that is shared between the task and its wakers to coordinate rescheduling
    counter: Counter,
    /// the task's metadata
    metadata: M,
    /// the task's future
    future: F,
}

impl<M, F> View for TaskInner<M, F> {
    type V = TaskParts<M, F>;

    closed spec fn view(&self) -> TaskParts<M, F> {
        TaskParts { counter: self.counter, metadata: self.metadata, future: self.future }
    }
}

impl<M, F> TaskInner<M, F> {
    /// Creates a new [`TaskInner`] that wraps around the provided future.
    pub fn new(metadata: M, future: F) -> (result: (Self, Ownership))
        ensures
            result.0@.counter.initial() == 0,
            result.0@.metadata == metadata,
            result.0@.future == future,
            result.1.counter() == result.0@.counter,
            result.1.value() == 0,
            result.1.at() == Seq::<Event>::empty(),
    {
        let (counter, ownership) = algorithm::create_counter();
        (TaskInner { counter, metadata, future }, ownership)
    }

    /// Returns a shared reference to the task's counter.
    pub fn counter(&self) -> (counter: &Counter)
        ensures
            *counter == self@.counter,
    {
        &self.counter
    }

    /// Returns a mutable reference to the task's counter.
    pub fn counter_mut(&mut self) -> (counter: &mut Counter)
        ensures
            *counter == old(self)@.counter,
            final(self)@ == (TaskParts { counter: *final(counter), ..old(self)@ }),
    {
        &mut self.counter
    }

    /// Returns a shared reference to the task's metadata.
    pub fn metadata(&self) -> (metadata: &M)
        ensures
            *metadata == self@.metadata,
    {
        &self.metadata
    }

    /// Returns a shared reference to the task's future.
    pub fn future(&self) -> (future: &F)
        ensures
            *future == self@.future,
    {
        &self.future
    }
}

/// Whether a future has run to completion, and what with.
#[derive(Debug, PartialEq, Eq)]
pub enum Poll<T> {
    /// The future has completed with this value.
    Ready(T),
    /// The future has not completed yet.
    Pending,
}

impl<T> Poll<T> {
    /// Returns true iff this is `Ready`.
    pub fn is_ready(&self) -> (ready: bool)
        ensures
            ready == (self is Ready),
    {
        matches!(self, Poll::Ready(_))
    }

    /// Returns true iff this is `Pending`.
    pub fn is_pending(&self) -> (pending: bool)
        ensures
            pending == (self is Pending),
    {
        !self.is_ready()
    }
}

/// A place that holds the future of a task with metadata `M`, which is rescheduled by an `R`, and that
/// can have the future polled.
pub trait Pollable<M, R>: Sized {
    /// Polls the future using the provided waker, which belongs to the task that holds the future.
    ///
    /// This is called by [`Task::poll`] only. It is not called on the same instance again by any
    /// thread until it has returned, even if the waker is invoked before it returns: whoever polls
    /// the future has to give up the ownership of the task for it, and there is no other before the
    /// task is rescheduled.
    fn poll(&self, waker: SmartWaker<M, Self, R>, ownership: Ownership) -> Poll<()>
        requires
            waker.parts().future == *self,
            ownership.counter() == waker.parts().counter,
    ;
}

/// A [`Task`] wraps around a future to provide a simple interface for polling it.
///
/// A task cannot be cloned, and polling it takes ownership of it, so that no other code on any
/// thread can poll the same future until the task has been rescheduled.
pub struct Task<M, F> {
    inner: Arc<TaskInner<M, F>>,
    ownership: Ownership,
}

impl<M, F> Task<M, F> {
    /// What the task consists of.
    pub closed spec fn parts(self) -> TaskParts<M, F> {
        self.inner@
    }

    /// The value that the task's counter was given when the task was created or rescheduled.
    pub closed spec fn value(self) -> usize {
        self.ownership.value()
    }

    /// The right to hand the task on.
    pub closed spec fn ownership(self) -> Ownership {
        self.ownership
    }

    /// The trace of the thread that claimed the task, up to where it did. It is empty if the task is
    /// new.
    pub closed spec fn at(self) -> Seq<Event> {
        self.ownership.at()
    }

    #[verifier::type_invariant]
    spec fn inv(self) -> bool {
        &&& self.ownership.counter() == self.inner@.counter
        &&& self.ownership.value() % 4 == 0
    }

    /// Puts the task together again for whoever has claimed the ownership of it.
    fn claimed(inner: Arc<TaskInner<M, F>>, ownership: Ownership) -> (task: Self)
        requires
            ownership.counter() == inner@.counter,
            ownership.value() % 4 == 0,
        ensures
            task.parts() == inner@,
            task.value() == ownership.value(),
            task.at() == ownership.at(),
    {
        Task { inner, ownership }
    }
}

/// The trace `events` is that of a whole poll of a task with the given counter: the round begins, the
/// future is polled once, and only once it has returned the round ends, as it must for what the
/// future returned.
pub open spec fn polls(counter: Counter, events: Seq<Event>, pending: bool) -> bool {
    let len = algorithm::task::beginning_len(events) as int;
    let start = algorithm::task::beginning(events);
    &&& len < events.len()
    &&& algorithm::task::begins(counter, events.take(len))
    &&& events[len] == (Event::Polled { counter, start, pending })
    &&& algorithm::task::ends(counter, ending_events(events), start, pending)
}

/// Those `events` of a poll that follow the return of the future.
pub open spec fn ending_events(events: Seq<Event>) -> Seq<Event> {
    events.skip(algorithm::task::beginning_len(events) as int + 1)
}

/// Whether the thread has claimed ownership, if `events` is its trace of a whole poll.
pub open spec fn poll_ending(events: Seq<Event>, pending: bool) -> Result<bool, CounterError> {
    algorithm::task::ending(ending_events(events), algorithm::task::beginning(events), pending)
}

/// The one condition under which a poll of the task that consists of `parts` hands `task` on: it is
/// the same task, and the ownership of it was claimed at the end of that poll, after the future had
/// returned `Pending`. The poll began when the thread's trace was `before`.
pub open spec fn poll_hands_on<M, F>(
    parts: TaskParts<M, F>,
    before: Seq<Event>,
    task: Task<M, F>,
) -> bool {
    let events = counter::since(before, task.at());
    &&& task.parts() == parts
    &&& counter::extends(before, task.at())
    &&& polls(parts.counter, events, true)
    &&& poll_ending(events, true) == Ok::<bool, CounterError>(true)
    &&& task.value() == algorithm::task::beginning(events).wrapping_add(4)
}

/// The one condition under which invoking a waker hands `task` on: it is the waker's task, and the
/// ownership of it was claimed by that invocation. The waker belongs to the task that consists of
/// `parts` and to the round that started at `start`, and the invocation began when the thread's
/// trace was `before`.
pub open spec fn wake_hands_on<M, F>(
    parts: TaskParts<M, F>,
    start: usize,
    before: Seq<Event>,
    task: Task<M, F>,
) -> bool {
    let events = counter::since(before, task.at());
    &&& task.parts() == parts
    &&& counter::extends(before, task.at())
    &&& algorithm::waker::invokes(parts.counter, events, start)
    &&& algorithm::waker::invocation(events, start) == Ok::<bool, CounterError>(true)
    &&& task.value() == start.wrapping_add(4)
}

/// The task that consists of `parts` has been handed to `reschedule_fn`, by the thread whose trace
/// was `at` when it claimed the ownership of the task. The last access in `at` is the claim.
pub open spec fn rescheduled<M, F, R: Fn(Task<M, F>)>(
    parts: TaskParts<M, F>,
    at: Seq<Event>,
    reschedule_fn: R,
) -> bool {
    exists|task: Task<M, F>|
        {
            &&& task.parts() == parts
            &&& task.at() == at
            &&& task.value() == at.last()->after
            &&& #[trigger] call_ensures(reschedule_fn, (task,), ())
        }
}

/// The future of the task that consists of `parts` has been polled in the round that starts at
/// `start`, at the price of `ownership`, using a waker that belongs to the task and to that
/// round, and returned `output`.
pub open spec fn polled<M, F: Pollable<M, R>, R: Clone>(
    parts: TaskParts<M, F>,
    ownership: Ownership,
    start: usize,
    reschedule_fn: R,
    output: Poll<()>,
) -> bool {
    exists|waker: SmartWaker<M, F, R>|
        {
            &&& waker.parts() == parts
            &&& waker.start() == start
            &&& cloned(reschedule_fn, waker.reschedule_fn())
            &&& #[trigger] call_ensures(F::poll, (&parts.future, waker, ownership), output)
        }
}

/// What [`Task::poll`] does with `task`: it continues the trace from `before` to `after` and returns
/// `result`.
pub open spec fn poll_effect<M, F: Pollable<M, R>, R: Fn(Task<M, F>) + Clone>(
    task: Task<M, F>,
    reschedule_fn: R,
    before: Seq<Event>,
    after: Seq<Event>,
    result: Result<Poll<()>, CounterError>,
) -> bool {
    let parts = task.parts();
    let events = counter::since(before, after);
    let start = algorithm::task::beginning(events);
    if start % 4 == 0 {
        exists|output: Poll<()>|
            {
                let pending = output is Pending;
                &&& #[trigger] polled(parts, task.ownership(), start, reschedule_fn, output)
                &&& polls(parts.counter, events, pending)
                &&& match poll_ending(events, pending) {
                    Ok(claimed) => {
                        &&& result == Ok::<Poll<()>, CounterError>(output)
                        &&& claimed ==> rescheduled(parts, after, reschedule_fn)
                    },
                    Err(error) => result == Err::<Poll<()>, CounterError>(error),
                }
            }
    } else {
        &&& algorithm::task::begins(parts.counter, events)
        &&& result == Err::<Poll<()>, CounterError>(CounterError::Misaligned { start })
    }
}

/// The trace of a poll is made up of those of its parts.
proof fn lemma_polls(
    counter: Counter,
    before: Seq<Event>,
    begun: Seq<Event>,
    returned: Seq<Event>,
    after: Seq<Event>,
    pending: bool,
)
    requires
        counter::extends(before, begun),
        algorithm::task::begins(counter, counter::since(before, begun)),
        ({
            let start = algorithm::task::beginning(counter::since(before, begun));
            &&& returned == begun.push(Event::Polled { counter, start, pending })
            &&& counter::extends(returned, after)
            &&& algorithm::task::ends(counter, counter::since(returned, after), start, pending)
        }),
    ensures
        counter::extends(before, after),
        polls(counter, counter::since(before, after), pending),
        algorithm::task::beginning(counter::since(before, after)) == algorithm::task::beginning(
            counter::since(before, begun),
        ),
        ending_events(counter::since(before, after)) == counter::since(returned, after),
{
    let first = counter::since(before, begun);
    let middle = counter::since(begun, returned);
    let last = counter::since(returned, after);
    counter::lemma_since(begun, returned, after);
    counter::lemma_since(before, begun, after);
    algorithm::task::lemma_beginning(counter, first, middle + last);
    let events = counter::since(before, after);
    assert(events == first + (middle + last));
    assert(events[first.len() as int] == middle[0]);
    assert(events.skip(first.len() as int + 1) =~= last);
}

impl<M: Send + 'static, F> Task<M, F> {
    /// Converts the provided future into a [`Task`] that contains the provided metadata.
    pub fn new(metadata: M, future: F) -> (task: Self)
        ensures
            task.parts().metadata == metadata,
            task.parts().future == future,
            task.value() == 0,
            task.parts().counter.initial() == 0,
            task.at() == Seq::<Event>::empty(),
    {
        let (inner, ownership) = TaskInner::new(metadata, future);
        Task { inner: Arc::new(inner), ownership }
    }

    /// Returns a shared reference to the task's metadata.
    pub fn metadata(&self) -> (metadata: &M)
        ensures
            *metadata == self.parts().metadata,
    {
        self.inner.metadata()
    }
}

/// Polls the future once, using `waker`, and records that it has returned. Whoever polls a future
/// gives up the ownership of the task for it.
fn poll_future<M, F: Pollable<M, R>, R>(
    future: &F,
    waker: SmartWaker<M, F, R>,
    ownership: Ownership,
    trace: &mut Trace,
) -> (output: Poll<()>)
    requires
        waker.parts().future == *future,
        ownership.counter() == waker.parts().counter,
    ensures
        call_ensures(F::poll, (future, waker, ownership), output),
        final(trace)@ == old(trace)@.push(
            Event::Polled {
                counter: waker.parts().counter,
                start: waker.start(),
                pending: output is Pending,
            },
        ),
{
    let ghost counter = waker.parts().counter;
    let ghost start = waker.start();
    let output = future.poll(waker, ownership);
    trace.record_poll(Ghost(counter), Ghost(start), Ghost(output is Pending));
    output
}

impl<M: Send + 'static, F> Task<M, F> {
    /// Polls the task, returning the output of the future.
    ///
    /// If the future returned [`Poll::Pending`] and arranged for its waker to be invoked,
    /// `reschedule_fn` will be called at some point and will be given ownership of this [`Task`].
    /// If this occurs it is guaranteed that the callback will not run until the waker has been
    /// invoked *and* the future has returned, and will be called exactly once. No further
    /// guarantees are made regarding when this callback will be invoked or on what thread. For
    /// example it may be called by a waker on an arbitrary thread in 10 minutes' time, or it might
    /// have already been called on the current thread as part of this function.
    ///
    /// An error means that the task's counter was at an unexpected value. The task is given up: it
    /// is not rescheduled by this function, and the caller does not get it back.
    #[verifier::rlimit(30)]
    pub fn poll<R: Fn(Task<M, F>) + Send + Clone + 'static>(
        self,
        reschedule_fn: R,
        trace: &mut Trace,
    ) -> (result: Result<Poll<()>, CounterError>) where F: Pollable<M, R>
        requires
            forall|task: Task<M, F>|
                poll_hands_on(self.parts(), old(trace)@, task) ==> #[trigger] call_requires(
                    reschedule_fn,
                    (task,),
                ),
        ensures
            counter::extends(old(trace)@, final(trace)@),
            poll_effect(self, reschedule_fn, old(trace)@, final(trace)@, result),
    {
        proof {
            use_type_invariant(&self);
        }
        let ghost parts = self.parts();
        let ghost before = trace@;
        let ownership = self.ownership;
        let (start, inner) = algorithm::task::begin_round(self.inner, trace);
        let ghost begun = trace@;
        if start % 4 != 0 {
            return Err(CounterError::Misaligned { start });
        }
        // Use the value of the counter to create a new waker. As long as the counter does not wrap,
        // no other waker of the task has the same 'start' value.
        let waker = SmartWaker::new_waker(inner.clone(), reschedule_fn.clone(), start);

        // next, poll the task's future using the new waker
        let output = poll_future(inner.future(), waker, ownership, trace);
        let ghost returned = trace@;
        assert(polled(parts, self.ownership(), start, reschedule_fn, output));

        let ended = algorithm::task::end_round(start, inner.counter(), output.is_pending(), trace);
        proof {
            lemma_polls(parts.counter, before, begun, returned, trace@, output is Pending);
        }
        match ended {
            // if this thread has claimed full ownership of the task then reschedule it
            Ok(Some(ownership)) => {
                let task = Task::claimed(inner, ownership);
                assert(poll_hands_on(parts, before, task));
                reschedule_fn(task);
                assert(rescheduled(parts, trace@, reschedule_fn));
            },
            Ok(None) => {},
            Err(error) => {
                return Err(error);
            },
        }
        // return the output from the future
        Ok(output)
    }
}

/// A waker that communicates with its [`Task`] to ensure that the task is not rescheduled until the
/// waker has been invoked and the future has returned, and that it is only rescheduled at most once
/// per poll.
pub struct SmartWaker<M, F, R> {
    /// the inner storage of the task that created this waker
    task_inner: Arc<TaskInner<M, F>>,
    /// the value of the task's counter when this waker was created, i.e. at the start of this
    /// round of the synchronisation algorithm
    start: usize,
    /// the callback that reschedules the task
    reschedule_fn: R,
}

impl<M, F, R> SmartWaker<M, F, R> {
    /// What the waker's task consists of.
    pub closed spec fn parts(self) -> TaskParts<M, F> {
        self.task_inner@
    }

    /// The value of the counter at the start of the waker's round.
    pub closed spec fn start(self) -> usize {
        self.start
    }

    /// The callback that reschedules the task.
    pub closed spec fn reschedule_fn(self) -> R {
        self.reschedule_fn
    }

    #[verifier::type_invariant]
    spec fn inv(self) -> bool {
        self.start % 4 == 0
    }
}

/// What invoking `waker` does: it continues the trace from `before` to `after` and returns `result`.
pub open spec fn wake_effect<M, F, R: Fn(Task<M, F>)>(
    waker: SmartWaker<M, F, R>,
    before: Seq<Event>,
    after: Seq<Event>,
    result: Result<(), CounterError>,
) -> bool {
    let parts = waker.parts();
    let events = counter::since(before, after);
    &&& algorithm::waker::invokes(parts.counter, events, waker.start())
    &&& match algorithm::waker::invocation(events, waker.start()) {
        Ok(claimed) => {
            &&& result == Ok::<(), CounterError>(())
            &&& claimed ==> rescheduled(parts, after, waker.reschedule_fn())
        },
        Err(error) => result == Err::<(), CounterError>(error),
    }
}

impl<M: Send + 'static, F, R: Fn(Task<M, F>) + Send + Clone + 'static> SmartWaker<M, F, R> {
    /// Creates a new [`SmartWaker`].
    pub fn new_waker(task_inner: Arc<TaskInner<M, F>>, reschedule_fn: R, start: usize) -> (waker:
        Self)
        requires
            start % 4 == 0,
        ensures
            waker.parts() == task_inner@,
            waker.start() == start,
            waker.reschedule_fn() == reschedule_fn,
    {
        SmartWaker { task_inner, start, reschedule_fn }
    }

    /// Wakes the task and then consumes the waker. An error means that the task's counter was at an
    /// unexpected value; this invocation has not rescheduled the task.
    pub fn wake(self, trace: &mut Trace) -> (result: Result<(), CounterError>)
        requires
            forall|task: Task<M, F>|
                wake_hands_on(self.parts(), self.start(), old(trace)@, task)
                    ==> #[trigger] call_requires(self.reschedule_fn(), (task,)),
        ensures
            counter::extends(old(trace)@, final(trace)@),
            wake_effect(self, old(trace)@, final(trace)@, result),
    {
        self.wake_by_ref(trace)
    }

    /// Wakes the task without consuming the waker. An error means that the task's counter was at an
    /// unexpected value; this invocation has not rescheduled the task.
    pub fn wake_by_ref(&self, trace: &mut Trace) -> (result: Result<(), CounterError>)
        requires
            forall|task: Task<M, F>|
                wake_hands_on(self.parts(), self.start(), old(trace)@, task)
                    ==> #[trigger] call_requires(self.reschedule_fn(), (task,)),
        ensures
            counter::extends(old(trace)@, final(trace)@),
            wake_effect(*self, old(trace)@, final(trace)@, result),
    {
        proof {
            use_type_invariant(self);
        }
        match algorithm::waker::invoke(self.start, self.task_inner.counter(), trace) {
            Ok(Some(ownership)) => {
                let task = Task::claimed(self.task_inner.clone(), ownership);
                assert(wake_hands_on(self.parts(), self.start(), old(trace)@, task));
                assert(call_requires(self.reschedule_fn(), (task,)));
                (self.reschedule_fn)(task);
                assert(rescheduled(self.parts(), trace@, self.reschedule_fn()));
                Ok(())
            },
            Ok(None) => Ok(()),
            Err(error) => Err(error),
        }
    }
}

impl<M, F, R: Clone> Clone for SmartWaker<M, F, R> {
    fn clone(&self) -> (waker: Self)
        ensures
            waker.parts() == self.parts(),
            waker.start() == self.start(),
            cloned(self.reschedule_fn(), waker.reschedule_fn()),
    {
        proof {
            use_type_invariant(self);
        }
        SmartWaker {
            task_inner: self.task_inner.clone(),
            start: self.start,
            reschedule_fn: self.reschedule_fn.clone(),
        }
    }
}

/// A poll of `task`, or a waker of such a poll, hands `next` on.
pub open spec fn hands_on<M, F>(task: Task<M, F>, next: Task<M, F>) -> bool {
    ||| exists|before: Seq<Event>| #[trigger] poll_hands_on(task.parts(), before, next)
    ||| exists|start: usize, before: Seq<Event>| #[trigger]
        wake_hands_on(task.parts(), start, before, next)
}

/// However often a task is polled and rescheduled, its metadata, its future and its counter remain
/// the same.
pub proof fn law_parts_are_kept<M, F>(tasks: Seq<Task<M, F>>, n: int)
    requires
        0 <= n < tasks.len(),
        forall|k: int|
            0 < k < tasks.len() ==> hands_on(tasks[k - 1], #[trigger] tasks[k]),
    ensures
        tasks[n].parts() == tasks[0].parts(),
    decreases n,
{
    if n > 0 {
        law_parts_are_kept(tasks, n - 1);
        assert(hands_on(tasks[n - 1], tasks[n]));
    }
}

/// A task is handed on only by a thread whose own access has just moved the counter to the end of
/// the round. A waker makes that access from `start + 2`. The thread that polled the task makes it
/// from `start + 3`, after the future has returned `Pending` and the counter was then found at
/// `start + 1`, where the invocation of a waker leaves it.
pub proof fn law_handing_on_follows_claim<M, F>(
    parts: TaskParts<M, F>,
    start: usize,
    before: Seq<Event>,
    task: Task<M, F>,
)
    ensures
        wake_hands_on(parts, start, before, task) ==> task.at().last() == counter::access(
            parts.counter,
            start.wrapping_add(2),
            start.wrapping_add(4),
        ),
        poll_hands_on(parts, before, task) ==> {
            let at = task.at();
            let start = algorithm::task::beginning(counter::since(before, at));
            &&& at.len() >= 3
            &&& at.last() == counter::access(
                parts.counter,
                start.wrapping_add(3),
                start.wrapping_add(4),
            )
            &&& at[at.len() - 2] == counter::access(
                parts.counter,
                start.wrapping_add(1),
                start.wrapping_add(3),
            )
            &&& at[at.len() - 3] == Event::Polled { counter: parts.counter, start, pending: true }
        },
{
    let events = counter::since(before, task.at());
    if poll_hands_on(parts, before, task) {
        let rest = ending_events(events);
        let len = algorithm::task::beginning_len(events) as int;
        assert(rest.len() == 2);
        assert(rest[0] == events[len + 1] && rest[1] == events[len + 2]);
    }
}

/// If a poll hands the task on then the value of the counter has grown by 4 since the poll began,
/// unless that value was a multiple of [`RESET_INTERVAL`](algorithm::task::RESET_INTERVAL) and
/// exclusive access to the task was not refused: it is then 4, since the counter was reset.
pub proof fn law_next_value<M, F>(parts: TaskParts<M, F>, before: Seq<Event>, task: Task<M, F>)
    requires
        poll_hands_on(parts, before, task),
    ensures
        ({
            let events = counter::since(before, task.at());
            let found = events[0]->before;
            task.value() == if found % algorithm::task::RESET_INTERVAL == 0 && events[1] != (
            Event::Refused { counter: parts.counter }) {
                4
            } else {
                found.wrapping_add(4)
            }
        }),
{
    let events = counter::since(before, task.at());
    let first = events.take(algorithm::task::beginning_len(events) as int);
    assert(first[0] == events[0]);
    assert(first.len() == 2 ==> first[1] == events[1]);
}

} // verus!
