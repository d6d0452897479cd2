//! What becomes of one round, however the threads that take part in it are scheduled.
use crate::algorithm::{task, waker, CounterError};
use crate::counter::{self, Counter, Event};
use crate::execution::{self, Action, Invocation, InvocationState, System, TaskState};
use vstd::prelude::*;

verus! {

/// An access to the counter and the thread that makes it. Thread 0 is the task thread; each other
/// thread invokes a waker.
pub ghost struct Entry {
    pub thread: int,
    pub event: Event,
}

/// The trace of one thread.
pub open spec fn of_thread(history: Seq<Entry>, thread: int) -> Seq<Event>
    decreases history.len(),
{
    if history.len() == 0 {
        Seq::empty()
    } else {
        let before = of_thread(history.drop_last(), thread);
        if history.last().thread == thread {
            before.push(history.last().event)
        } else {
            before
        }
    }
}

/// What the counter holds after the first `n` entries of the history.
pub open spec fn value_after(history: Seq<Entry>, n: int, start: usize) -> usize {
    if n == 0 {
        start
    } else {
        history[n - 1].event->after
    }
}

/// The accesses have happened one after the other, from where `counter` held `start`.
pub open spec fn sequential(history: Seq<Entry>, counter: Counter, start: usize) -> bool {
    forall|n: int|
        0 <= n < history.len() ==> (#[trigger] history[n]).event == counter::access(
            counter,
            value_after(history, n, start),
            history[n].event->after,
        )
}

/// The history is that of a round, from where the future starts to be polled.
///
/// The future returns `Pending` or `Ready` as `pending` says, and the task thread does what
/// [`task::end_round`] does. Each other thread does what [`waker::invoke`] does, for a
/// waker whose round started at the value that `wakers` gives. A waker of another round is left over
/// from an earlier one.
pub open spec fn is_round(
    history: Seq<Entry>,
    counter: Counter,
    start: usize,
    pending: bool,
    wakers: Seq<usize>,
) -> bool {
    &&& start % 4 == 0
    &&& forall|i: int|
        0 <= i < wakers.len() ==> #[trigger] wakers[i] % 4 == 0
    &&& forall|n: int| 0 <= n < history.len() ==> 0 <= #[trigger] history[n].thread <= wakers.len()
    &&& sequential(history, counter, start)
    &&& task::ends(counter, of_thread(history, 0), start, pending)
    &&& forall|thread: int|
        0 < thread <= wakers.len() ==> waker::invokes(
            counter,
            #[trigger] of_thread(history, thread),
            wakers[thread - 1],
        )
}

/// Whether the thread has claimed ownership of the task, so that it reschedules the task.
pub open spec fn outcome(
    history: Seq<Entry>,
    start: usize,
    pending: bool,
    wakers: Seq<usize>,
    thread: int,
) -> Result<bool, CounterError> {
    if thread == 0 {
        task::ending(of_thread(history, 0), start, pending)
    } else {
        waker::invocation(of_thread(history, thread), wakers[thread - 1])
    }
}

proof fn lemma_of_thread_take(history: Seq<Entry>, n: int, thread: int)
    requires
        0 <= n < history.len(),
    ensures
        of_thread(history.take(n + 1), thread) == if history[n].thread == thread {
            of_thread(history.take(n), thread).push(history[n].event)
        } else {
            of_thread(history.take(n), thread)
        },
{
    assert(history.take(n + 1).drop_last() =~= history.take(n));
}

proof fn lemma_of_thread_prefix(history: Seq<Entry>, n: int, thread: int)
    requires
        0 <= n <= history.len(),
    ensures
        of_thread(history.take(n), thread).is_prefix_of(of_thread(history, thread)),
    decreases history.len() - n,
{
    if n == history.len() {
        assert(history.take(n) =~= history);
    } else {
        lemma_of_thread_prefix(history, n + 1, thread);
        lemma_of_thread_take(history, n, thread);
    }
}

/// The system at the start of the round.
spec fn at_start(start: usize, wakers: Seq<usize>) -> System {
    System {
        counter: start,
        task: TaskState::Polling { start },
        live: wakers.to_set().insert(start),
        invocations: Seq::new(
            wakers.len(),
            |i: int| Invocation { start: wakers[i], state: InvocationState::Invoked },
        ),
        woken: false,
        polls: 1,
        reschedules: 0,
    }
}

/// The action by which the thread goes on.
spec fn next_action(s: System, pending: bool, thread: int) -> Action {
    if thread == 0 {
        if s.task is Polling {
            Action::Return { pending }
        } else {
            Action::Claim
        }
    } else if s.is_at(thread - 1, InvocationState::Invoked) {
        Action::OnWake { i: thread - 1 }
    } else {
        Action::WakerClaim { i: thread - 1 }
    }
}

/// The system after the first `n` entries of the history.
spec fn after(
    history: Seq<Entry>,
    n: int,
    start: usize,
    pending: bool,
    wakers: Seq<usize>,
) -> System
    decreases n,
{
    if n <= 0 {
        at_start(start, wakers)
    } else {
        let s = after(history, n - 1, start, pending, wakers);
        s.step(next_action(s, pending, history[n - 1].thread))
    }
}

/// The thread has made all its accesses among the first `n` entries.
spec fn done(history: Seq<Entry>, n: int, thread: int) -> bool {
    of_thread(history.take(n), thread).len() == of_thread(history, thread).len()
}

/// The thread has claimed ownership among the first `n` entries.
spec fn winner(
    history: Seq<Entry>,
    n: int,
    start: usize,
    pending: bool,
    wakers: Seq<usize>,
    thread: int,
) -> bool {
    &&& 0 <= thread <= wakers.len()
    &&& done(history, n, thread)
    &&& outcome(history, start, pending, wakers, thread) == Ok::<bool, CounterError>(true)
}

/// The counter is at the end of the round. If it has come round to the `start` value of a waker then
/// that waker may have incremented it.
spec fn at_end(value: usize, start: usize, wakers: Seq<usize>) -> bool {
    let end = start.wrapping_add(4);
    value == end || value == end + 1 && wakers.contains(end)
}

/// The state of the task is what its trace says.
spec fn task_follows(
    history: Seq<Entry>,
    n: int,
    start: usize,
    pending: bool,
    wakers: Seq<usize>,
) -> bool {
    let s = after(history, n, start, pending, wakers);
    let len = of_thread(history.take(n), 0).len();
    let total = of_thread(history, 0).len();
    if len == 0 {
        s.task == TaskState::Polling { start } && (s.woken || s.counter == start)
    } else if len < total {
        s.task == TaskState::Claiming { start } && s.woken
    } else {
        &&& outcome(history, start, pending, wakers, 0) is Ok
        &&& if pending {
            if s.reschedules == 0 {
                s.task == TaskState::Waiting { start }
            } else {
                s.task is Idle && at_end(s.counter, start, wakers)
            }
        } else {
            &&& s.task == TaskState::Complete { start }
            &&& at_end(s.counter, start, wakers) || s.woken && s.counter == start + 1
        }
    }
}

/// The state of an invocation is what its trace says.
spec fn invocation_follows(
    history: Seq<Entry>,
    n: int,
    start: usize,
    pending: bool,
    wakers: Seq<usize>,
    i: int,
) -> bool {
    let s = after(history, n, start, pending, wakers);
    let len = of_thread(history.take(n), i + 1).len();
    let total = of_thread(history, i + 1).len();
    &&& s.invocations[i].start == wakers[i]
    &&& if len == 0 {
        s.invocations[i].state is Invoked
    } else {
        &&& s.woken || wakers[i] != start
        &&& if len < total {
            &&& wakers[i] == start
            &&& s.invocations[i].state is Claiming
            &&& s.task is Waiting || s.task is Idle
        } else {
            &&& s.invocations[i].state is Finished
            &&& outcome(history, start, pending, wakers, i + 1) is Ok
            &&& wakers[i] != start ==> outcome(history, start, pending, wakers, i + 1) == Ok::<
                bool,
                CounterError,
            >(false)
        }
    }
}

/// What holds after the first `n` entries.
spec fn follows(
    history: Seq<Entry>,
    n: int,
    start: usize,
    pending: bool,
    wakers: Seq<usize>,
) -> bool {
    let s = after(history, n, start, pending, wakers);
    &&& s.safe()
    &&& s.polls == 1
    &&& s.live == wakers.to_set().insert(start)
    &&& s.counter == value_after(history, n, start)
    &&& s.invocations.len() == wakers.len()
    &&& task_follows(history, n, start, pending, wakers)
    &&& forall|i: int|
        0 <= i < wakers.len() ==> #[trigger] invocation_follows(
            history,
            n,
            start,
            pending,
            wakers,
            i,
        )
    &&& s.woken ==> wakers.contains(start)
    &&& s.reschedules == 1 ==> s.woken
    &&& forall|x: int, y: int|
        #![trigger winner(history, n, start, pending, wakers, x), winner(history, n, start, pending, wakers, y)]
        winner(history, n, start, pending, wakers, x) && winner(history, n, start, pending, wakers, y)
            ==> x == y
    &&& s.reschedules == 1 <==> exists|x: int| #[trigger]
        winner(history, n, start, pending, wakers, x)
}

proof fn lemma_start(
    history: Seq<Entry>,
    counter: Counter,
    start: usize,
    pending: bool,
    wakers: Seq<usize>,
)
    requires
        is_round(history, counter, start, pending, wakers),
    ensures
        follows(history, 0, start, pending, wakers),
{
    let s = at_start(start, wakers);
    assert forall|k: int| #[trigger] of_thread(history.take(0), k).len() == 0 by {}
    assert forall|i: int| 0 <= i < wakers.len() implies s.live.contains(#[trigger] wakers[i]) by {
        assert(wakers.contains(wakers[i]));
    }
    assert forall|x: usize| #[trigger] s.live.contains(x) implies x % 4 == 0 by {
        if x != start {
            assert(wakers.contains(x));
        }
    }
    assert(s.safe());
    assert forall|i: int| 0 <= i < wakers.len() implies #[trigger] invocation_follows(
        history,
        0,
        start,
        pending,
        wakers,
        i,
    ) by {}
    assert forall|x: int| !#[trigger] winner(history, 0, start, pending, wakers, x) by {
        if 0 < x <= wakers.len() {
            assert(of_thread(history, x).len() > 0);
        }
    }
}

/// What the next entry means for the thread that makes it.
proof fn lemma_entry(history: Seq<Entry>, n: int)
    requires
        0 <= n < history.len(),
    ensures
        ({
            let thread = history[n].thread;
            let len = of_thread(history.take(n), thread).len() as int;
            &&& len < of_thread(history, thread).len()
            &&& of_thread(history, thread)[len] == history[n].event
            &&& of_thread(history.take(n + 1), thread).len() == len + 1
        }),
        forall|k: int|
            k != history[n].thread ==> #[trigger] of_thread(history.take(n + 1), k) == of_thread(
                history.take(n),
                k,
            ),
{
    let thread = history[n].thread;
    let len = of_thread(history.take(n), thread).len() as int;
    assert forall|k: int| k != thread implies #[trigger] of_thread(history.take(n + 1), k)
        == of_thread(history.take(n), k) by {
        lemma_of_thread_take(history, n, k);
    }
    lemma_of_thread_take(history, n, thread);
    lemma_of_thread_prefix(history, n + 1, thread);
    assert(of_thread(history.take(n + 1), thread)[len] == history[n].event);
}

/// The next entry is that of the task thread.
#[verifier::rlimit(30)]
proof fn lemma_task_entry(
    history: Seq<Entry>,
    counter: Counter,
    n: int,
    start: usize,
    pending: bool,
    wakers: Seq<usize>,
)
    requires
        is_round(history, counter, start, pending, wakers),
        0 <= n < history.len(),
        history[n].thread == 0,
        follows(history, n, start, pending, wakers),
    ensures
        follows(history, n + 1, start, pending, wakers),
{
    let s = after(history, n, start, pending, wakers);
    let t = after(history, n + 1, start, pending, wakers);
    let action = next_action(s, pending, 0);
    lemma_entry(history, n);
    execution::lemma_safe_end(s, action);
    assert(t.invocations == s.invocations && t.woken == s.woken && t.live == s.live);
    assert(t.counter == value_after(history, n + 1, start));
    assert forall|i: int| 0 <= i < wakers.len() implies #[trigger] invocation_follows(
        history,
        n + 1,
        start,
        pending,
        wakers,
        i,
    ) by {
        assert(invocation_follows(history, n, start, pending, wakers, i));
    }
    assert(task_follows(history, n + 1, start, pending, wakers));
    assert forall|x: int|
        #![trigger winner(history, n, start, pending, wakers, x)]
        #![trigger winner(history, n + 1, start, pending, wakers, x)]
        x != 0 implies winner(history, n + 1, start, pending, wakers, x) == winner(
        history,
        n,
        start,
        pending,
        wakers,
        x,
    ) by {}
    assert(winner(history, n + 1, start, pending, wakers, 0) == (t.reschedules == 1));
}

/// What remains to be shown for an entry once it is clear what it means for the thread that makes it.
#[verifier::rlimit(30)]
proof fn lemma_waker_follows(
    history: Seq<Entry>,
    counter: Counter,
    n: int,
    start: usize,
    pending: bool,
    wakers: Seq<usize>,
)
    requires
        is_round(history, counter, start, pending, wakers),
        0 <= n < history.len(),
        history[n].thread != 0,
        follows(history, n, start, pending, wakers),
        ({
            let s = after(history, n, start, pending, wakers);
            let t = after(history, n + 1, start, pending, wakers);
            let i = history[n].thread - 1;
            &&& t.safe()
            &&& t.polls == s.polls
            &&& t.live == s.live
            &&& t.counter == value_after(history, n + 1, start)
            &&& t.invocations.len() == s.invocations.len()
            &&& forall|j: int|
                0 <= j < s.invocations.len() && j != i ==> #[trigger] t.invocations[j]
                    == s.invocations[j]
            &&& task_follows(history, n + 1, start, pending, wakers)
            &&& invocation_follows(history, n + 1, start, pending, wakers, i)
            &&& s.task is Waiting || s.task is Idle ==> t.task is Waiting || t.task is Idle
            &&& s.woken ==> t.woken
            &&& t.woken ==> wakers.contains(start)
            &&& t.reschedules == 1 ==> t.woken
            &&& s.reschedules <= t.reschedules <= 1
            &&& winner(history, n + 1, start, pending, wakers, i + 1) == (t.reschedules
                != s.reschedules)
        }),
    ensures
        follows(history, n + 1, start, pending, wakers),
{
    let s = after(history, n, start, pending, wakers);
    let t = after(history, n + 1, start, pending, wakers);
    let thread = history[n].thread;
    lemma_entry(history, n);
    assert forall|j: int| 0 <= j < wakers.len() implies #[trigger] invocation_follows(
        history,
        n + 1,
        start,
        pending,
        wakers,
        j,
    ) by {
        assert(invocation_follows(history, n, start, pending, wakers, j));
    }
    assert forall|x: int|
        #![trigger winner(history, n, start, pending, wakers, x)]
        #![trigger winner(history, n + 1, start, pending, wakers, x)]
        x != thread implies winner(history, n + 1, start, pending, wakers, x) == winner(
        history,
        n,
        start,
        pending,
        wakers,
        x,
    ) by {}
    assert(!winner(history, n, start, pending, wakers, thread));
}

/// The first access of a waker leaves the task as its trace says.
#[verifier::rlimit(30)]
proof fn lemma_on_wake_task(
    history: Seq<Entry>,
    counter: Counter,
    n: int,
    start: usize,
    pending: bool,
    wakers: Seq<usize>,
)
    requires
        is_round(history, counter, start, pending, wakers),
        0 <= n < history.len(),
        history[n].thread != 0,
        of_thread(history.take(n), history[n].thread).len() == 0,
        follows(history, n, start, pending, wakers),
    ensures
        task_follows(history, n + 1, start, pending, wakers),
{
    let s = after(history, n, start, pending, wakers);
    let t = after(history, n + 1, start, pending, wakers);
    let i = history[n].thread - 1;
    let events = of_thread(history, i + 1);
    lemma_entry(history, n);
    assert(invocation_follows(history, n, start, pending, wakers, i));
    execution::lemma_safe_on_wake(s, i);
    assert(t == s.step(Action::OnWake { i }));
    assert(t.task == s.task && t.reschedules == s.reschedules);
    assert(wakers.contains(wakers[i]));
    assert(wakers[i] % 4 == 0);
    if t.counter != s.counter {
        assert(s.counter == wakers[i] && t.counter == wakers[i] + 1);
        assert(s.counter % 4 == 0);
    }
}

/// The first access of a waker leaves its invocation as its trace says.
#[verifier::rlimit(30)]
proof fn lemma_on_wake_invocation(
    history: Seq<Entry>,
    counter: Counter,
    n: int,
    start: usize,
    pending: bool,
    wakers: Seq<usize>,
)
    requires
        is_round(history, counter, start, pending, wakers),
        0 <= n < history.len(),
        history[n].thread != 0,
        of_thread(history.take(n), history[n].thread).len() == 0,
        follows(history, n, start, pending, wakers),
    ensures
        invocation_follows(history, n + 1, start, pending, wakers, history[n].thread - 1),
{
    let s = after(history, n, start, pending, wakers);
    let t = after(history, n + 1, start, pending, wakers);
    let i = history[n].thread - 1;
    let events = of_thread(history, i + 1);
    lemma_entry(history, n);
    assert(invocation_follows(history, n, start, pending, wakers, i));
    execution::lemma_safe_on_wake(s, i);
    assert(t == s.step(Action::OnWake { i }));
    assert(events[0]->before == s.counter);
    assert(t.reschedules == s.reschedules);
    if wakers[i] == start {
        assert(s.in_round(start) || s.woken);
    }
}

/// The next entry is the first access of a thread that invokes a waker.
#[verifier::rlimit(30)]
proof fn lemma_on_wake_entry(
    history: Seq<Entry>,
    counter: Counter,
    n: int,
    start: usize,
    pending: bool,
    wakers: Seq<usize>,
)
    requires
        is_round(history, counter, start, pending, wakers),
        0 <= n < history.len(),
        history[n].thread != 0,
        of_thread(history.take(n), history[n].thread).len() == 0,
        follows(history, n, start, pending, wakers),
    ensures
        follows(history, n + 1, start, pending, wakers),
{
    let s = after(history, n, start, pending, wakers);
    let t = after(history, n + 1, start, pending, wakers);
    let i = history[n].thread - 1;
    let events = of_thread(history, i + 1);
    lemma_entry(history, n);
    assert(invocation_follows(history, n, start, pending, wakers, i));
    execution::lemma_safe_on_wake(s, i);
    lemma_on_wake_task(history, counter, n, start, pending, wakers);
    lemma_on_wake_invocation(history, counter, n, start, pending, wakers);
    assert(t == s.step(Action::OnWake { i }));
    assert(events[0]->before == s.counter);
    assert(events[0]->after == t.counter);
    assert(t.reschedules == s.reschedules);
    if wakers[i] == start {
        assert(wakers.contains(start));
    } else {
        assert(!s.in_round(wakers[i]));
    }
    assert(!winner(history, n + 1, start, pending, wakers, i + 1));
    lemma_waker_follows(history, counter, n, start, pending, wakers);
}

/// The second access of a waker leaves the task as its trace says.
#[verifier::rlimit(30)]
proof fn lemma_waker_claim_task(
    history: Seq<Entry>,
    counter: Counter,
    n: int,
    start: usize,
    pending: bool,
    wakers: Seq<usize>,
)
    requires
        is_round(history, counter, start, pending, wakers),
        0 <= n < history.len(),
        history[n].thread != 0,
        of_thread(history.take(n), history[n].thread).len() != 0,
        follows(history, n, start, pending, wakers),
    ensures
        task_follows(history, n + 1, start, pending, wakers),
{
    let s = after(history, n, start, pending, wakers);
    let t = after(history, n + 1, start, pending, wakers);
    let i = history[n].thread - 1;
    let events = of_thread(history, i + 1);
    lemma_entry(history, n);
    assert(invocation_follows(history, n, start, pending, wakers, i));
    execution::lemma_safe_waker_claim(s, i);
    assert(t == s.step(Action::WakerClaim { i }));
}

/// The second access of a waker leaves its invocation as its trace says.
#[verifier::rlimit(30)]
proof fn lemma_waker_claim_invocation(
    history: Seq<Entry>,
    counter: Counter,
    n: int,
    start: usize,
    pending: bool,
    wakers: Seq<usize>,
)
    requires
        is_round(history, counter, start, pending, wakers),
        0 <= n < history.len(),
        history[n].thread != 0,
        of_thread(history.take(n), history[n].thread).len() != 0,
        follows(history, n, start, pending, wakers),
    ensures
        invocation_follows(history, n + 1, start, pending, wakers, history[n].thread - 1),
{
    let s = after(history, n, start, pending, wakers);
    let t = after(history, n + 1, start, pending, wakers);
    let i = history[n].thread - 1;
    let events = of_thread(history, i + 1);
    lemma_entry(history, n);
    assert(invocation_follows(history, n, start, pending, wakers, i));
    execution::lemma_safe_waker_claim(s, i);
    assert(t == s.step(Action::WakerClaim { i }));
    assert(events[1]->before == s.counter);
    assert(wakers[i] == start);
    if s.task != (TaskState::Waiting { start }) {
        assert(s.task is Idle && at_end(s.counter, start, wakers));
        assert(start.wrapping_add(4) % 4 == 0);
    }
}

/// The next entry is the second access of a thread that invokes a waker.
#[verifier::rlimit(30)]
proof fn lemma_waker_claim_entry(
    history: Seq<Entry>,
    counter: Counter,
    n: int,
    start: usize,
    pending: bool,
    wakers: Seq<usize>,
)
    requires
        is_round(history, counter, start, pending, wakers),
        0 <= n < history.len(),
        history[n].thread != 0,
        of_thread(history.take(n), history[n].thread).len() != 0,
        follows(history, n, start, pending, wakers),
    ensures
        follows(history, n + 1, start, pending, wakers),
{
    let s = after(history, n, start, pending, wakers);
    let t = after(history, n + 1, start, pending, wakers);
    let i = history[n].thread - 1;
    let events = of_thread(history, i + 1);
    lemma_entry(history, n);
    assert(invocation_follows(history, n, start, pending, wakers, i));
    execution::lemma_safe_waker_claim(s, i);
    lemma_waker_claim_task(history, counter, n, start, pending, wakers);
    lemma_waker_claim_invocation(history, counter, n, start, pending, wakers);
    assert(t == s.step(Action::WakerClaim { i }));
    assert(events[1]->before == s.counter);
    assert(events[1]->after == t.counter);
    lemma_waker_follows(history, counter, n, start, pending, wakers);
}

proof fn lemma_follows(
    history: Seq<Entry>,
    counter: Counter,
    n: int,
    start: usize,
    pending: bool,
    wakers: Seq<usize>,
)
    requires
        is_round(history, counter, start, pending, wakers),
        0 <= n <= history.len(),
    ensures
        follows(history, n, start, pending, wakers),
    decreases n,
{
    if n == 0 {
        lemma_start(history, counter, start, pending, wakers);
    } else {
        lemma_follows(history, counter, n - 1, start, pending, wakers);
        let thread = history[n - 1].thread;
        if thread == 0 {
            lemma_task_entry(history, counter, n - 1, start, pending, wakers);
        } else if of_thread(history.take(n - 1), thread).len() == 0 {
            lemma_on_wake_entry(history, counter, n - 1, start, pending, wakers);
        } else {
            lemma_waker_claim_entry(history, counter, n - 1, start, pending, wakers);
        }
    }
}

/// Where the counter is at the end of the round.
proof fn lemma_final_value(
    history: Seq<Entry>,
    counter: Counter,
    start: usize,
    pending: bool,
    wakers: Seq<usize>,
)
    requires
        is_round(history, counter, start, pending, wakers),
        !wakers.contains(start.wrapping_add(4)),
        pending && wakers.contains(start) ==> after(
            history,
            history.len() as int,
            start,
            pending,
            wakers,
        ).reschedules == 1,
    ensures
        ({
            let value = value_after(history, history.len() as int, start);
            if pending {
                value == if wakers.contains(start) {
                    start.wrapping_add(4)
                } else {
                    start.wrapping_add(2)
                }
            } else {
                ||| value == start.wrapping_add(4)
                ||| value == start.wrapping_add(1) && wakers.contains(start)
            }
        }),
{
    let n = history.len() as int;
    lemma_follows(history, counter, n, start, pending, wakers);
    assert(history.take(n) =~= history);
}

/// However the threads are scheduled and however many wakers there are: if the future returns
/// `Pending` and a waker of this round is invoked then exactly one thread claims the ownership of the
/// task, and so reschedules it, and otherwise none does. Wakers that are left over from earlier
/// rounds never claim it, and no thread finds the counter at a value that it does not expect. The
/// counter ends at `start + 4` if the task is rescheduled and at `start + 2` if it is still waiting;
/// if the future returns `Ready` it ends at `start + 4`, or at `start + 1` if a waker of this round
/// was faster. What is said of the counter leaves out that it has come round to the `start` value of
/// a waker that is left over.
#[verifier::rlimit(30)]
pub proof fn law_round(
    history: Seq<Entry>,
    counter: Counter,
    start: usize,
    pending: bool,
    wakers: Seq<usize>,
)
    requires
        is_round(history, counter, start, pending, wakers),
    ensures
        forall|thread: int|
            0 <= thread <= wakers.len() ==> #[trigger] outcome(
                history,
                start,
                pending,
                wakers,
                thread,
            ) is Ok,
        forall|thread: int|
            0 < thread <= wakers.len() && wakers[thread - 1] != start ==> #[trigger] outcome(
                history,
                start,
                pending,
                wakers,
                thread,
            ) == Ok::<bool, CounterError>(false),
        if pending && wakers.contains(start) {
            exists|thread: int|
                {
                    &&& 0 <= thread <= wakers.len()
                    &&& #[trigger] outcome(history, start, pending, wakers, thread) == Ok::<
                        bool,
                        CounterError,
                    >(true)
                    &&& forall|other: int|
                        0 <= other <= wakers.len() && #[trigger] outcome(
                            history,
                            start,
                            pending,
                            wakers,
                            other,
                        ) == Ok::<bool, CounterError>(true) ==> other == thread
                }
        } else {
            forall|thread: int|
                0 <= thread <= wakers.len() ==> #[trigger] outcome(
                    history,
                    start,
                    pending,
                    wakers,
                    thread,
                ) == Ok::<bool, CounterError>(false)
        },
        !wakers.contains(start.wrapping_add(4)) ==> {
            let value = value_after(history, history.len() as int, start);
            if pending {
                value == if wakers.contains(start) {
                    start.wrapping_add(4)
                } else {
                    start.wrapping_add(2)
                }
            } else {
                ||| value == start.wrapping_add(4)
                ||| value == start.wrapping_add(1) && wakers.contains(start)
            }
        },
{
    let n = history.len() as int;
    lemma_follows(history, counter, n, start, pending, wakers);
    let s = after(history, n, start, pending, wakers);
    assert(history.take(n) =~= history);
    assert forall|thread: int| 0 < thread <= wakers.len() implies {
        &&& !s.invocations[thread - 1].in_flight()
        &&& #[trigger] outcome(history, start, pending, wakers, thread) is Ok
        &&& wakers[thread - 1] != start ==> outcome(history, start, pending, wakers, thread) == Ok::<
            bool,
            CounterError,
        >(false)
        &&& s.woken || wakers[thread - 1] != start
    } by {
        assert(invocation_follows(history, n, start, pending, wakers, thread - 1));
        assert(of_thread(history, thread).len() > 0);
    }
    assert forall|thread: int| 0 <= thread <= wakers.len() implies winner(
        history,
        n,
        start,
        pending,
        wakers,
        thread,
    ) == (#[trigger] outcome(history, start, pending, wakers, thread) == Ok::<bool, CounterError>(
        true,
    )) by {}
    if pending && wakers.contains(start) {
        let i = choose|i: int| 0 <= i < wakers.len() && wakers[i] == start;
        assert(outcome(history, start, pending, wakers, i + 1) is Ok);
        assert(s.woken);
        if s.reschedules == 0 {
            let j = choose|j: int| #[trigger] s.claims(j, start);
            assert(outcome(history, start, pending, wakers, j + 1) is Ok);
        }
        let thread = choose|thread: int| #[trigger]
            winner(history, n, start, pending, wakers, thread);
        assert(outcome(history, start, pending, wakers, thread) is Ok);
        assert(s.reschedules == 1);
    } else {
        assert(s.reschedules == 0);
    }
    if !wakers.contains(start.wrapping_add(4)) {
        lemma_final_value(history, counter, start, pending, wakers);
    }
}

} // verus!
