//! All the ways in which the threads that share a task can run, and what holds of each of them.
//!
//! Since every access to the counter is sequentially consistent, whatever the threads do amounts to
//! some sequence of [`Action`]s, each of which is at most one access to the counter. Any number of
//! wakers may be invoked any number of times, at any time, in any round, and each invocation may be
//! held up for any length of time between its accesses.
use crate::algorithm::{task, waker, CounterError};
use crate::counter::{Counter, Event};
use vstd::prelude::*;

verus! {

/// How far the task has got.
pub ghost enum TaskState {
    /// The task is waiting to be polled. Somebody owns the [`Task`](crate::Task).
    Idle,
    /// A thread has begun to poll the task, has read `value` from the counter and is about to try
    /// to reset it.
    Resetting { value: usize },
    /// The future is being polled, in the round that started at `start`.
    Polling { start: usize },
    /// The future has returned `Pending` and the task thread has found that a waker has been
    /// invoked. It is about to claim ownership.
    Claiming { start: usize },
    /// The future has returned `Pending` and the task thread is done. The next waker that claims
    /// ownership will reschedule the task.
    Waiting { start: usize },
    /// The future has returned `Ready`.
    Complete { start: usize },
    /// The task thread has found the counter at a value that it does not expect.
    Failed,
}

/// How far the invocation of a waker has got.
pub ghost enum InvocationState {
    /// It has not accessed the counter yet.
    Invoked,
    /// It is about to claim ownership.
    Claiming,
    /// It is done.
    Finished,
    /// It has found the counter at a value that it does not expect.
    Failed,
}

/// The invocation of a waker.
pub ghost struct Invocation {
    /// The value of the counter at the start of the waker's round.
    pub start: usize,
    /// How far the invocation has got.
    pub state: InvocationState,
}

impl Invocation {
    /// The invocation has not ended yet.
    pub open spec fn in_flight(self) -> bool {
        self.state is Invoked || self.state is Claiming
    }
}

/// A task together with everything that shares its counter.
pub ghost struct System {
    /// What the counter holds.
    pub counter: usize,
    /// How far the task has got.
    pub task: TaskState,
    /// The `start` values of the wakers that have not been dropped.
    pub live: Set<usize>,
    /// The invocations of wakers, in the order in which they were made.
    pub invocations: Seq<Invocation>,
    /// Whether a waker of the latest round has been invoked during that round.
    pub woken: bool,
    /// How many times the future has been polled.
    pub polls: nat,
    /// How many times the task has been rescheduled.
    pub reschedules: nat,
}

/// Something that one of the threads does.
pub ghost enum Action {
    /// A thread begins to poll the task by reading the counter.
    Begin,
    /// That thread tries to reset the counter, and does or is refused.
    Reset { success: bool },
    /// The future returns `Pending` or `Ready`, and the task thread accesses the counter.
    Return { pending: bool },
    /// The task thread tries to claim ownership.
    Claim,
    /// A waker whose round started at `start` is invoked.
    Invoke { start: usize },
    /// The `i`th invocation accesses the counter for the first time.
    OnWake { i: int },
    /// The `i`th invocation tries to claim ownership.
    WakerClaim { i: int },
    /// The last waker whose round started at `start` is dropped.
    Drop { start: usize },
}

/// A task that has just been created.
pub open spec fn initial() -> System {
    System {
        counter: 0,
        task: TaskState::Idle,
        live: Set::empty(),
        invocations: Seq::empty(),
        woken: false,
        polls: 0,
        reschedules: 0,
    }
}

impl System {
    /// The round that started at `start` is the latest one, and the task has not been rescheduled
    /// since.
    pub open spec fn in_round(self, start: usize) -> bool {
        match self.task {
            TaskState::Polling { start: s } => s == start,
            TaskState::Claiming { start: s } => s == start,
            TaskState::Waiting { start: s } => s == start,
            TaskState::Complete { start: s } => s == start,
            _ => false,
        }
    }

    /// There is an invocation `i`, and it is in the given state.
    pub open spec fn is_at(self, i: int, state: InvocationState) -> bool {
        0 <= i < self.invocations.len() && self.invocations[i].state == state
    }

    /// The action is possible now.
    pub open spec fn enabled(self, action: Action) -> bool {
        match action {
            Action::Begin => self.task is Idle,
            // exclusive access is refused as long as there are wakers
            Action::Reset { success } => {
                &&& self.task is Resetting
                &&& success ==> self.live == Set::<usize>::empty()
            },
            Action::Return { .. } => self.task is Polling,
            Action::Claim => self.task is Claiming,
            Action::Invoke { start } => self.live.contains(start),
            Action::OnWake { i } => self.is_at(i, InvocationState::Invoked),
            Action::WakerClaim { i } => self.is_at(i, InvocationState::Claiming),
            // a waker is not dropped before its invocations have ended
            Action::Drop { start } => forall|i: int|
                0 <= i < self.invocations.len() && (#[trigger] self.invocations[i]).in_flight()
                    ==> self.invocations[i].start != start,
        }
    }

    /// What the action leads to.
    pub open spec fn step(self, action: Action) -> System {
        match action {
            Action::Begin => if self.counter % task::RESET_INTERVAL == 0 {
                System { task: TaskState::Resetting { value: self.counter }, ..self }
            } else {
                self.poll_from(self.counter)
            },
            Action::Reset { success } => if success {
                System { counter: 0, ..self.poll_from(0) }
            } else {
                self.poll_from(self.task->value)
            },
            Action::Return { pending } => {
                let start = self.task->Polling_start;
                if pending {
                    let (after, invoked) = task::was_waker_invoked_step(start, self.counter);
                    System {
                        counter: after,
                        task: match invoked {
                            Ok(true) => TaskState::Claiming { start },
                            Ok(false) => TaskState::Waiting { start },
                            Err(_) => TaskState::Failed,
                        },
                        ..self
                    }
                } else {
                    System {
                        counter: task::task_complete_step(start, self.counter),
                        task: TaskState::Complete { start },
                        ..self
                    }
                }
            },
            Action::Claim => {
                let start = self.task->Claiming_start;
                let (after, claimed) = task::claim_ownership_step(start, self.counter);
                System { counter: after, ..self.claim_result(start, claimed) }
            },
            Action::Invoke { start } => System {
                invocations: self.invocations.push(
                    Invocation { start, state: InvocationState::Invoked },
                ),
                ..self
            },
            Action::OnWake { i } => {
                let start = self.invocations[i].start;
                let (after, proceed) = waker::on_wake_step(start, self.counter);
                System {
                    counter: after,
                    woken: self.woken || self.in_round(start),
                    ..self.with_state(
                        i,
                        if proceed {
                            InvocationState::Claiming
                        } else {
                            InvocationState::Finished
                        },
                    )
                }
            },
            Action::WakerClaim { i } => {
                let start = self.invocations[i].start;
                let (after, claimed) = waker::claim_ownership_step(start, self.counter);
                let next = self.with_state(
                    i,
                    if claimed is Ok {
                        InvocationState::Finished
                    } else {
                        InvocationState::Failed
                    },
                );
                if claimed == Ok::<bool, CounterError>(true) {
                    System {
                        counter: after,
                        task: TaskState::Idle,
                        reschedules: self.reschedules + 1,
                        ..next
                    }
                } else {
                    System { counter: after, ..next }
                }
            },
            Action::Drop { start } => System { live: self.live.remove(start), ..self },
        }
    }

    /// The system after the future has begun to be polled in a round that starts at `start`, using a
    /// new waker. If the counter is not at a multiple of 4 then the poll fails instead.
    pub open spec fn poll_from(self, start: usize) -> System {
        if start % 4 == 0 {
            System {
                task: TaskState::Polling { start },
                live: self.live.insert(start),
                woken: false,
                polls: self.polls + 1,
                ..self
            }
        } else {
            System { task: TaskState::Failed, ..self }
        }
    }

    /// The system after the task thread has tried to claim ownership, but for the counter. If another
    /// thread has been faster then the task thread is done.
    pub open spec fn claim_result(self, start: usize, claimed: Result<bool, CounterError>) -> System {
        match claimed {
            Ok(true) => System {
                task: TaskState::Idle,
                reschedules: self.reschedules + 1,
                ..self
            },
            Ok(false) => System { task: TaskState::Waiting { start }, ..self },
            Err(_) => System { task: TaskState::Failed, ..self },
        }
    }

    /// The system with invocation `i` in the given state.
    pub open spec fn with_state(self, i: int, state: InvocationState) -> System {
        System {
            invocations: self.invocations.update(
                i,
                Invocation { start: self.invocations[i].start, state },
            ),
            ..self
        }
    }

    /// The counter has not come round to the `start` value of a waker that is left over from an
    /// earlier round.
    pub open spec fn fresh(self) -> bool {
        self.task is Polling || !self.live.contains(self.counter)
    }
}

/// What the actions lead to, from the creation of the task.
pub open spec fn run(actions: Seq<Action>) -> System
    decreases actions.len(),
{
    if actions.len() == 0 {
        initial()
    } else {
        run(actions.drop_last()).step(actions.last())
    }
}

/// The actions can be taken one after the other.
pub open spec fn feasible(actions: Seq<Action>) -> bool
    decreases actions.len(),
{
    actions.len() > 0 ==> {
        &&& feasible(actions.drop_last())
        &&& run(actions.drop_last()).enabled(actions.last())
    }
}

/// The actions can be taken one after the other, and the counter does not at any time come round to
/// the `start` value of a waker that is left over from an earlier round.
pub open spec fn possible(actions: Seq<Action>) -> bool
    decreases actions.len(),
{
    &&& run(actions).fresh()
    &&& actions.len() > 0 ==> {
        &&& possible(actions.drop_last())
        &&& run(actions.drop_last()).enabled(actions.last())
    }
}

impl System {
    /// Invocation `i` belongs to the round that started at `start` and is about to claim ownership.
    pub open spec fn claims(self, i: int, start: usize) -> bool {
        self.is_at(i, InvocationState::Claiming) && self.invocations[i].start == start
    }

    /// What holds of the system at any time.
    pub open spec fn inv(self) -> bool {
        &&& forall|start: usize| #[trigger] self.live.contains(start) ==> start % 4 == 0
        &&& forall|i: int|
            0 <= i < self.invocations.len() && (#[trigger] self.invocations[i]).in_flight()
                ==> self.live.contains(self.invocations[i].start)
        &&& match self.task {
            TaskState::Idle => self.counter % 4 == 0 && self.polls == self.reschedules,
            TaskState::Resetting { value } => {
                &&& self.counter % 4 == 0
                &&& self.counter == value
                &&& self.polls == self.reschedules
            },
            TaskState::Polling { start } => {
                &&& start % 4 == 0
                &&& self.counter == (if self.woken {
                    start + 1
                } else {
                    start as int
                })
                &&& self.polls == self.reschedules + 1
                &&& forall|i: int| !#[trigger] self.claims(i, start)
            },
            TaskState::Claiming { start } => {
                &&& start % 4 == 0
                &&& self.counter == start + 3
                &&& self.woken
                &&& self.polls == self.reschedules + 1
                &&& forall|i: int| !#[trigger] self.claims(i, start)
            },
            TaskState::Waiting { start } => {
                &&& start % 4 == 0
                &&& self.counter == start + 2
                &&& self.polls == self.reschedules + 1
                &&& self.woken <==> exists|i: int| #[trigger] self.claims(i, start)
            },
            TaskState::Complete { start } => {
                &&& start % 4 == 0
                &&& self.counter == start + 1 || self.counter == start.wrapping_add(4)
                &&& self.polls == self.reschedules + 1
                &&& forall|i: int| !#[trigger] self.claims(i, start)
            },
            TaskState::Failed => false,
        }
    }
}

/// Beginning to poll keeps what holds of the system: the waker of the new round is the only one with
/// its `start` value.
proof fn lemma_begin(s: System, action: Action)
    requires
        s.inv(),
        s.fresh(),
        s.enabled(action),
        action is Begin || action is Reset,
    ensures
        s.step(action).inv(),
{
    let t = s.step(action);
    if t.task is Polling {
        let start = t.task->Polling_start;
        assert forall|i: int| !#[trigger] t.claims(i, start) by {
            if t.claims(i, start) {
                assert(s.invocations[i].in_flight());
            }
        }
    }
}

/// What the task thread does after the poll keeps what holds of the system.
proof fn lemma_end(s: System, action: Action)
    requires
        s.inv(),
        s.enabled(action),
        action is Return || action is Claim,
    ensures
        s.step(action).inv(),
{
    let t = s.step(action);
    assert forall|i: int, x: usize| #[trigger] t.claims(i, x) implies s.claims(i, x) by {}
}

/// Invoking a waker and dropping wakers keep what holds of the system.
proof fn lemma_invoke_or_drop(s: System, action: Action)
    requires
        s.inv(),
        s.enabled(action),
        action is Invoke || action is Drop,
    ensures
        s.step(action).inv(),
{
    let t = s.step(action);
    assert forall|i: int, x: usize|
        #![trigger t.claims(i, x)]
        #![trigger s.claims(i, x)]
        t.claims(i, x) == s.claims(i, x) by {}
}

/// The first access of an invocation keeps what holds of the system. If its round is over then it
/// changes nothing.
#[verifier::rlimit(30)]
proof fn lemma_on_wake(s: System, i: int)
    requires
        s.inv(),
        s.fresh(),
        s.enabled(Action::OnWake { i }),
    ensures
        s.step(Action::OnWake { i }).inv(),
        !s.in_round(s.invocations[i].start) ==> s.step(Action::OnWake { i }).counter == s.counter,
        s.step(Action::OnWake { i }).invocations[i].state is Claiming <==> s.task == (
        TaskState::Waiting { start: s.invocations[i].start }),
{
    let t = s.step(Action::OnWake { i });
    let start = s.invocations[i].start;
    assert(s.invocations[i].in_flight());
    assert(s.live.contains(start) && start % 4 == 0);
    assert forall|j: int, x: usize|
        #![trigger t.claims(j, x)]
        #![trigger s.claims(j, x)]
        j != i implies t.claims(j, x) == s.claims(j, x) by {}
    assert forall|x: usize| !#[trigger] s.claims(i, x) by {}
    if s.task is Waiting && s.in_round(start) {
        assert(t.claims(i, start));
    } else {
        assert forall|x: usize| !#[trigger] t.claims(i, x) by {}
    }
}

/// The second access of an invocation keeps what holds of the system. If its round is over then it
/// changes nothing, and otherwise it reschedules the task.
#[verifier::rlimit(30)]
proof fn lemma_waker_claim(s: System, i: int)
    requires
        s.inv(),
        s.enabled(Action::WakerClaim { i }),
    ensures
        s.step(Action::WakerClaim { i }).inv(),
        ({
            let t = s.step(Action::WakerClaim { i });
            let start = s.invocations[i].start;
            if s.in_round(start) {
                &&& s.task == TaskState::Waiting { start }
                &&& s.woken
                &&& t.task is Idle
                &&& t.counter == start.wrapping_add(4)
                &&& t.reschedules == s.reschedules + 1
                &&& t.invocations[i].state is Finished
            } else {
                &&& t.task == s.task
                &&& t.counter == s.counter
                &&& t.reschedules == s.reschedules
                &&& s.fresh() ==> t.invocations[i].state is Finished
            }
        }),
{
    let t = s.step(Action::WakerClaim { i });
    let start = s.invocations[i].start;
    assert(s.invocations[i].in_flight());
    assert(s.live.contains(start) && start % 4 == 0);
    assert(s.claims(i, start));
    assert forall|j: int, x: usize|
        #![trigger t.claims(j, x)]
        #![trigger s.claims(j, x)]
        j != i implies t.claims(j, x) == s.claims(j, x) by {}
}

/// Every action keeps what holds of the system.
proof fn lemma_step(s: System, action: Action)
    requires
        s.inv(),
        s.fresh(),
        s.enabled(action),
    ensures
        s.step(action).inv(),
{
    match action {
        Action::Begin => lemma_begin(s, action),
        Action::Reset { .. } => lemma_begin(s, action),
        Action::Return { .. } => lemma_end(s, action),
        Action::Claim => lemma_end(s, action),
        Action::Invoke { .. } => lemma_invoke_or_drop(s, action),
        Action::OnWake { i } => lemma_on_wake(s, i),
        Action::WakerClaim { i } => lemma_waker_claim(s, i),
        Action::Drop { .. } => lemma_invoke_or_drop(s, action),
    }
}

/// At any time the counter is where the state of the task says, and the task has been rescheduled
/// once for each time that it has been polled, but for the last time if that poll has not led to
/// a rescheduling. In particular no poll finds the counter at a value that it does not expect.
pub proof fn law_invariant(actions: Seq<Action>)
    requires
        possible(actions),
    ensures
        run(actions).inv(),
    decreases actions.len(),
{
    if actions.len() > 0 {
        law_invariant(actions.drop_last());
        lemma_step(run(actions.drop_last()), actions.last());
    }
}

impl System {
    /// What holds of the system at any time, even if the counter has come round to the `start` value
    /// of a waker that is left over from an earlier round.
    pub open spec fn safe(self) -> bool {
        &&& forall|start: usize| #[trigger] self.live.contains(start) ==> start % 4 == 0
        &&& forall|i: int|
            0 <= i < self.invocations.len() ==> (#[trigger] self.invocations[i]).start % 4 == 0
        &&& match self.task {
            TaskState::Idle => self.counter % 4 <= 1 && self.polls == self.reschedules,
            TaskState::Resetting { value } => {
                &&& value % 4 == 0
                &&& value <= self.counter <= value + 1
                &&& self.polls == self.reschedules
            },
            TaskState::Polling { start } => {
                &&& start % 4 == 0
                &&& start <= self.counter <= start + 1
                &&& self.woken ==> self.counter == start + 1
                &&& self.polls == self.reschedules + 1
            },
            TaskState::Claiming { start } => {
                &&& start % 4 == 0
                &&& self.counter == start + 3
                &&& self.polls == self.reschedules + 1
            },
            TaskState::Waiting { start } => {
                &&& start % 4 == 0
                &&& self.counter == start + 2
                &&& self.woken ==> exists|i: int| #[trigger] self.claims(i, start)
                &&& self.polls == self.reschedules + 1
            },
            TaskState::Complete { .. } => {
                &&& self.counter % 4 <= 1
                &&& self.polls == self.reschedules + 1
            },
            TaskState::Failed => self.counter % 4 <= 1 && self.polls == self.reschedules,
        }
    }
}

/// Beginning to poll keeps the system safe.
proof fn lemma_safe_begin(s: System, action: Action)
    requires
        s.safe(),
        s.enabled(action),
        action is Begin || action is Reset,
    ensures
        s.step(action).safe(),
{
}

/// What the task thread does after the poll keeps the system safe.
pub(crate) proof fn lemma_safe_end(s: System, action: Action)
    requires
        s.safe(),
        s.enabled(action),
        action is Return || action is Claim,
    ensures
        s.step(action).safe(),
        action is Return ==> !(s.step(action).task is Failed),
        action is Claim ==> s.step(action).task is Idle,
{
    let t = s.step(action);
    assert(t.invocations == s.invocations && t.live == s.live && t.woken == s.woken);
    match action {
        Action::Return { pending } => {
            let start = s.task->Polling_start;
            assert(start.wrapping_add(1) == start + 1);
            if pending {
                assert(t.counter == s.counter + 2);
                if s.counter == start {
                    assert(t.task == TaskState::Waiting { start });
                    assert(!s.woken);
                } else {
                    assert(t.task == TaskState::Claiming { start });
                }
            } else {
                assert(t.counter % 4 <= 1);
                assert(t.task is Complete);
            }
        },
        _ => {
            let start = s.task->Claiming_start;
            assert(start.wrapping_add(3) == start + 3);
            assert(start.wrapping_add(4) % 4 == 0);
            assert(t.task is Idle);
        },
    }
}

/// Invoking a waker and dropping wakers keep the system safe.
proof fn lemma_safe_invoke_or_drop(s: System, action: Action)
    requires
        s.safe(),
        s.enabled(action),
        action is Invoke || action is Drop,
    ensures
        s.step(action).safe(),
{
    let t = s.step(action);
    assert forall|i: int, x: usize|
        #![trigger t.claims(i, x)]
        #![trigger s.claims(i, x)]
        t.claims(i, x) == s.claims(i, x) by {}
}

/// The first access of an invocation keeps the system safe. It lets the invocation go on only if the
/// task is waiting for a waker of the same `start` value.
pub(crate) proof fn lemma_safe_on_wake(s: System, i: int)
    requires
        s.safe(),
        s.enabled(Action::OnWake { i }),
    ensures
        s.step(Action::OnWake { i }).safe(),
        s.step(Action::OnWake { i }).invocations[i].state is Claiming <==> s.task == (
        TaskState::Waiting { start: s.invocations[i].start }),
{
    let t = s.step(Action::OnWake { i });
    let start = s.invocations[i].start;
    assert(start % 4 == 0);
    assert forall|j: int, x: usize|
        #![trigger t.claims(j, x)]
        #![trigger s.claims(j, x)]
        j != i implies t.claims(j, x) == s.claims(j, x) by {}
    assert forall|x: usize| !#[trigger] s.claims(i, x) by {}
    if s.task is Waiting && s.in_round(start) {
        assert(t.claims(i, start));
    }
}

/// The second access of an invocation keeps the system safe. It reschedules the task if the task is
/// waiting for a waker of the same `start` value, and otherwise changes nothing.
pub(crate) proof fn lemma_safe_waker_claim(s: System, i: int)
    requires
        s.safe(),
        s.enabled(Action::WakerClaim { i }),
    ensures
        s.step(Action::WakerClaim { i }).safe(),
        ({
            let t = s.step(Action::WakerClaim { i });
            let start = s.invocations[i].start;
            if s.task == (TaskState::Waiting { start }) {
                &&& t.task is Idle
                &&& t.counter == start.wrapping_add(4)
                &&& t.reschedules == s.reschedules + 1
                &&& t.invocations[i].state is Finished
            } else {
                &&& t.task == s.task
                &&& t.counter == s.counter
                &&& t.reschedules == s.reschedules
            }
        }),
{
    let t = s.step(Action::WakerClaim { i });
    let start = s.invocations[i].start;
    assert(start % 4 == 0);
    assert forall|j: int, x: usize|
        #![trigger t.claims(j, x)]
        #![trigger s.claims(j, x)]
        j != i implies t.claims(j, x) == s.claims(j, x) by {}
    if s.counter == start + 2 {
        assert(s.counter % 4 == 2);
        assert(s.task == TaskState::Waiting { start });
    } else {
        assert(s.task != TaskState::Waiting { start });
        assert forall|x: usize| s.in_round(x) implies !#[trigger] s.claims(i, x) || !(
        s.task is Waiting) by {}
    }
}

/// At any time the counter is where the state of the task says, and the task has been rescheduled
/// once for each time that it has been polled, but for the last time if that poll has not led to a
/// rescheduling. This holds even if the counter wraps.
pub proof fn law_safety(actions: Seq<Action>)
    requires
        feasible(actions),
    ensures
        run(actions).safe(),
    decreases actions.len(),
{
    if actions.len() > 0 {
        law_safety(actions.drop_last());
        let s = run(actions.drop_last());
        let action = actions.last();
        match action {
            Action::Invoke { .. } => lemma_safe_invoke_or_drop(s, action),
            Action::Drop { .. } => lemma_safe_invoke_or_drop(s, action),
            Action::OnWake { i } => lemma_safe_on_wake(s, i),
            Action::WakerClaim { i } => lemma_safe_waker_claim(s, i),
            Action::Return { .. } => lemma_safe_end(s, action),
            Action::Claim => lemma_safe_end(s, action),
            _ => lemma_safe_begin(s, action),
        }
    }
}

/// The task is rescheduled at most once by an action, and only once the future has returned
/// `Pending`. The counter is then at the end of the round, and the task waits to be polled. This
/// holds even if the counter wraps.
pub proof fn law_reschedule_conditions(actions: Seq<Action>, action: Action)
    requires
        feasible(actions.push(action)),
    ensures
        ({
            let s = run(actions);
            let t = run(actions.push(action));
            t.reschedules != s.reschedules ==> {
                &&& t.reschedules == s.reschedules + 1
                &&& s.task is Claiming || s.task is Waiting
                &&& t.task is Idle
                &&& exists|start: usize|
                    #[trigger] s.in_round(start) && t.counter == start.wrapping_add(4)
            }
        }),
{
    assert(actions.push(action).drop_last() =~= actions);
    law_safety(actions);
    let s = run(actions);
    let t = run(actions.push(action));
    match action {
        Action::Claim => {
            assert(s.in_round(s.task->Claiming_start));
        },
        Action::WakerClaim { i } => {
            lemma_safe_waker_claim(s, i);
            assert(t.reschedules != s.reschedules ==> s.in_round(s.invocations[i].start));
        },
        _ => {
            assert(t.reschedules == s.reschedules);
        },
    }
}

/// The task is rescheduled only once a waker of that round has been invoked.
pub proof fn law_reschedule_follows_wake(actions: Seq<Action>, action: Action)
    requires
        possible(actions.push(action)),
    ensures
        run(actions.push(action)).reschedules != run(actions).reschedules ==> run(actions).woken,
{
    assert(actions.push(action).drop_last() =~= actions);
    law_invariant(actions);
    let s = run(actions);
    match action {
        Action::Claim => {},
        Action::WakerClaim { i } => {
            lemma_waker_claim(s, i);
        },
        _ => {
            assert(run(actions.push(action)).reschedules == s.reschedules);
        },
    }
}

/// The future is polled by one thread at a time: when a poll starts, every earlier poll has
/// returned and has been followed by exactly one rescheduling. This holds even if the counter
/// wraps.
pub proof fn law_exclusive_polls(actions: Seq<Action>, action: Action)
    requires
        feasible(actions.push(action)),
    ensures
        ({
            let s = run(actions);
            let t = run(actions.push(action));
            t.polls != s.polls ==> {
                &&& t.polls == s.polls + 1
                &&& s.task is Idle || s.task is Resetting
                &&& s.reschedules == s.polls
            }
        }),
{
    assert(actions.push(action).drop_last() =~= actions);
    law_safety(actions);
}

/// Nothing is under way: the task is not being polled and no invocation of a waker is in flight.
pub open spec fn settled(s: System) -> bool {
    &&& s.task is Idle || s.task is Waiting || s.task is Complete
    &&& forall|i: int| 0 <= i < s.invocations.len() ==> !(#[trigger] s.invocations[i]).in_flight()
}

/// Once nothing is under way, each poll that returned `Pending` and whose waker has been invoked has
/// led to the task being rescheduled, exactly once. If the task is still waiting then no waker of
/// the latest round has been invoked. This holds even if the counter wraps.
pub proof fn law_exactly_once(actions: Seq<Action>)
    requires
        feasible(actions),
        settled(run(actions)),
    ensures
        ({
            let s = run(actions);
            match s.task {
                TaskState::Idle => s.reschedules == s.polls,
                TaskState::Waiting { .. } => !s.woken && s.reschedules + 1 == s.polls,
                TaskState::Complete { .. } => s.reschedules + 1 == s.polls,
                _ => false,
            }
        }),
{
    law_safety(actions);
    let s = run(actions);
    if s.task is Waiting && s.woken {
        let i = choose|i: int| #[trigger] s.claims(i, s.task->Waiting_start);
        assert(s.invocations[i].in_flight());
    }
}

/// If a waker of the round has been invoked while the future was being polled, and the future
/// returns `Pending`, then the task thread goes on to claim ownership. This holds even if the counter
/// wraps.
pub proof fn law_wake_during_poll_is_seen(actions: Seq<Action>)
    requires
        feasible(actions),
        run(actions).task is Polling,
        run(actions).woken,
    ensures
        run(actions).step(Action::Return { pending: true }).task is Claiming,
{
    law_safety(actions);
}

/// If the future has returned `Pending` and a waker of that round has been invoked, some thread is
/// about to claim ownership, and whichever thread does so first reschedules the task. This holds even
/// if the counter wraps.
pub proof fn law_wakeup_is_not_lost(actions: Seq<Action>)
    requires
        feasible(actions),
        run(actions).task is Claiming || run(actions).task is Waiting && run(actions).woken,
    ensures
        ({
            let s = run(actions);
            match s.task {
                TaskState::Claiming { .. } => s.step(Action::Claim).reschedules == s.reschedules + 1,
                TaskState::Waiting { start } => {
                    &&& exists|i: int| #[trigger] s.claims(i, start)
                    &&& forall|i: int| #[trigger]
                        s.claims(i, start) ==> s.step(Action::WakerClaim { i }).reschedules
                            == s.reschedules + 1
                },
                _ => false,
            }
        }),
{
    law_safety(actions);
}

/// Once the future has returned `Ready` the task is never polled or rescheduled again. This holds
/// even if the counter wraps.
pub proof fn law_complete_is_final(actions: Seq<Action>, more: Seq<Action>)
    requires
        feasible(actions + more),
        run(actions).task is Complete,
    ensures
        run(actions + more).task == run(actions).task,
        run(actions + more).polls == run(actions).polls,
        run(actions + more).reschedules == run(actions).reschedules,
    decreases more.len(),
{
    if more.len() == 0 {
        assert(actions + more =~= actions);
    } else {
        let before = actions + more.drop_last();
        assert((actions + more).drop_last() =~= before);
        law_complete_is_final(actions, more.drop_last());
        law_safety(before);
        if let Action::WakerClaim { i } = more.last() {
            lemma_safe_waker_claim(run(before), i);
        }
    }
}

/// Once the future has returned the task thread finds the counter at a value that it expects, and
/// its claim always succeeds. This holds even if the counter wraps.
pub proof fn law_task_thread_ends_as_expected(actions: Seq<Action>, action: Action)
    requires
        feasible(actions.push(action)),
    ensures
        action is Return ==> !(run(actions.push(action)).task is Failed),
        action is Claim ==> run(actions.push(action)).task is Idle,
{
    assert(actions.push(action).drop_last() =~= actions);
    law_safety(actions);
    if action is Return || action is Claim {
        lemma_safe_end(run(actions), action);
    }
}

/// The task thread always finds the counter at a value that it expects.
pub proof fn law_task_thread_never_fails(actions: Seq<Action>)
    requires
        possible(actions),
    ensures
        !(run(actions).task is Failed),
{
    law_invariant(actions);
}

/// A waker of an earlier round does nothing when it is invoked: it changes neither the counter nor
/// the task, and it does not reschedule the task.
pub proof fn law_outdated_waker_does_nothing(actions: Seq<Action>, action: Action, i: int)
    requires
        possible(actions.push(action)),
        action == (Action::OnWake { i }) || action == (Action::WakerClaim { i }),
        !run(actions).in_round(run(actions).invocations[i].start),
    ensures
        run(actions.push(action)).counter == run(actions).counter,
        run(actions.push(action)).task == run(actions).task,
        run(actions.push(action)).reschedules == run(actions).reschedules,
{
    assert(actions.push(action).drop_last() =~= actions);
    law_invariant(actions);
    assert(possible(actions));
    if action is OnWake {
        lemma_on_wake(run(actions), i);
    } else {
        lemma_waker_claim(run(actions), i);
    }
}

/// When a round starts there is no other waker with its `start` value.
pub proof fn law_start_values_are_distinct(actions: Seq<Action>, action: Action)
    requires
        possible(actions.push(action)),
        run(actions.push(action)).polls != run(actions).polls,
    ensures
        run(actions.push(action)).task is Polling,
        !run(actions).live.contains(run(actions.push(action)).task->Polling_start),
{
    assert(actions.push(action).drop_last() =~= actions);
    law_invariant(actions);
    assert(possible(actions));
}

/// A waker that tries to claim ownership succeeds iff the task is still waiting in its round, and
/// never finds the counter at a value that it does not expect, however long it has been held up.
pub proof fn law_waker_claim(actions: Seq<Action>, i: int)
    requires
        possible(actions.push(Action::WakerClaim { i })),
    ensures
        ({
            let s = run(actions);
            let t = run(actions.push(Action::WakerClaim { i }));
            let start = s.invocations[i].start;
            &&& t.reschedules == s.reschedules + 1 <==> s.task == (TaskState::Waiting { start })
            &&& t.invocations[i].state is Finished
        }),
{
    let action = Action::WakerClaim { i };
    assert(actions.push(action).drop_last() =~= actions);
    law_invariant(actions);
    assert(possible(actions));
    lemma_waker_claim(run(actions), i);
}

impl System {
    /// The wakers belong to the latest round or to earlier ones, whose `start` values are less.
    spec fn ordered(self) -> bool {
        forall|start: usize| #[trigger]
            self.live.contains(start) ==> match self.task {
                TaskState::Polling { start: latest } => start <= latest,
                TaskState::Claiming { start: latest } => start <= latest,
                TaskState::Waiting { start: latest } => start <= latest,
                TaskState::Complete { start: latest } => start <= latest,
                _ => start < self.counter,
            }
    }

    /// The counter can get to the end of the latest round without wrapping.
    pub open spec fn in_range(self) -> bool {
        forall|start: usize| #[trigger] self.in_round(start) ==> start + 4 <= usize::MAX
    }

    /// The latest round started at a value less than [`RESET_INTERVAL`](task::RESET_INTERVAL).
    spec fn low(self) -> bool {
        &&& self.counter <= task::RESET_INTERVAL
        &&& forall|start: usize| #[trigger] self.in_round(start) ==> start < task::RESET_INTERVAL
    }
}

/// As long as the counter does not wrap, the wakers remain ordered by their rounds.
proof fn lemma_ordered(s: System, action: Action)
    requires
        s.inv(),
        s.ordered(),
        s.fresh(),
        s.in_range(),
        s.enabled(action),
        s.step(action).in_range(),
    ensures
        s.step(action).ordered(),
        s.step(action).fresh(),
{
    let t = s.step(action);
    lemma_step(s, action);
    match action {
        Action::Claim => {
            assert(s.in_round(s.task->Claiming_start));
        },
        Action::OnWake { i } => {
            lemma_on_wake(s, i);
            assert(t.task == s.task && t.live == s.live);
        },
        Action::WakerClaim { i } => {
            lemma_waker_claim(s, i);
            assert(t.live == s.live);
        },
        Action::Return { .. } => {
            assert(s.in_round(s.task->Polling_start));
            assert(t.in_round(s.task->Polling_start));
        },
        _ => {},
    }
}

/// If the counter does not wrap then it does not come round to the `start` value of a waker that is
/// left over from an earlier round.
pub proof fn law_without_wrapping(actions: Seq<Action>)
    requires
        feasible(actions),
        forall|n: int| 0 <= n <= actions.len() ==> run(#[trigger] actions.take(n)).in_range(),
    ensures
        possible(actions),
{
    lemma_without_wrapping(actions);
}

proof fn lemma_without_wrapping(actions: Seq<Action>)
    requires
        feasible(actions),
        forall|n: int| 0 <= n <= actions.len() ==> run(#[trigger] actions.take(n)).in_range(),
    ensures
        possible(actions),
        run(actions).ordered(),
    decreases actions.len(),
{
    assert(actions.take(actions.len() as int) =~= actions);
    if actions.len() > 0 {
        let before = actions.drop_last();
        assert forall|n: int| 0 <= n <= before.len() implies run(
            #[trigger] before.take(n),
        ).in_range() by {
            assert(before.take(n) =~= actions.take(n));
        }
        lemma_without_wrapping(before);
        law_invariant(before);
        assert(before.take(before.len() as int) =~= before);
        lemma_ordered(run(before), actions.last());
    }
}

/// If every attempt to reset the counter succeeds then the counter never exceeds
/// [`RESET_INTERVAL`](task::RESET_INTERVAL), so it does not wrap and does not come round to the
/// `start` value of a waker that is left over from an earlier round.
pub proof fn law_resets_prevent_wrapping(actions: Seq<Action>)
    requires
        feasible(actions),
        forall|n: int|
            0 <= n < actions.len() && #[trigger] actions[n] is Reset ==> actions[n]->success,
    ensures
        possible(actions),
        run(actions).counter <= task::RESET_INTERVAL,
{
    lemma_resets(actions);
}

/// As long as every attempt to reset the counter succeeds, the counter remains low.
proof fn lemma_low(s: System, action: Action)
    requires
        s.inv(),
        s.low(),
        s.fresh(),
        s.enabled(action),
        action is Reset ==> action->success,
    ensures
        s.step(action).low(),
{
    let t = s.step(action);
    match action {
        Action::Claim => {
            assert(s.in_round(s.task->Claiming_start));
        },
        Action::OnWake { i } => {
            lemma_on_wake(s, i);
            assert(t.task == s.task);
            assert(forall|x: usize| t.in_round(x) == s.in_round(x));
            assert(t.counter <= task::RESET_INTERVAL);
        },
        Action::WakerClaim { i } => {
            let start = s.invocations[i].start;
            lemma_waker_claim(s, i);
            if s.in_round(start) {
                assert(t.counter <= task::RESET_INTERVAL);
            } else {
                assert(forall|x: usize| t.in_round(x) == s.in_round(x));
            }
        },
        Action::Return { .. } => {
            assert(s.in_round(s.task->Polling_start));
            assert(forall|x: usize| t.in_round(x) ==> s.in_round(x));
        },
        Action::Begin => {},
        Action::Reset { .. } => {},
        _ => {
            assert(forall|x: usize| t.in_round(x) == s.in_round(x));
        },
    }
}

proof fn lemma_resets(actions: Seq<Action>)
    requires
        feasible(actions),
        forall|n: int|
            0 <= n < actions.len() && #[trigger] actions[n] is Reset ==> actions[n]->success,
    ensures
        possible(actions),
        run(actions).ordered(),
        run(actions).low(),
    decreases actions.len(),
{
    if actions.len() > 0 {
        let before = actions.drop_last();
        lemma_resets(before);
        law_invariant(before);
        let s = run(before);
        lemma_low(s, actions.last());
        lemma_ordered(s, actions.last());
    }
}

/// The actions `Begin` and `Reset` are what [`task::begin_round`] does: a thread whose trace is
/// `events` changes the counter as they do, and polls the future under the same conditions and from
/// the same value.
pub proof fn law_begin_round_actions(s: System, cell: Counter, events: Seq<Event>)
    requires
        task::begins(cell, events),
    ensures
        s.task is Idle && s.counter == events[0]->before ==> {
            let t = s.step(Action::Begin);
            &&& t.counter == events[0]->after
            &&& if events.len() == 1 {
                t == s.poll_from(task::beginning(events))
            } else {
                t.task == TaskState::Resetting { value: events[0]->before }
            }
        },
        s.task == (TaskState::Resetting { value: events[0]->before }) && events.len() == 2 ==> {
            let t = s.step(Action::Reset { success: events[1] is Access });
            &&& t.counter == if events[1] is Access {
                events[1]->after
            } else {
                s.counter
            }
            &&& t == System { counter: t.counter, ..s.poll_from(task::beginning(events)) }
        },
{
}

/// The actions `Return` and `Claim` are what [`task::end_round`] does: a thread whose trace is
/// `events` changes the counter as they do, and reschedules the task under the same conditions.
pub proof fn law_end_round_actions(
    s: System,
    cell: Counter,
    events: Seq<Event>,
    start: usize,
    pending: bool,
)
    requires
        task::ends(cell, events, start, pending),
    ensures
        s.task == (TaskState::Polling { start }) && s.counter == events[0]->before ==> {
            let t = s.step(Action::Return { pending });
            &&& t.counter == events[0]->after
            &&& t.task is Claiming <==> events.len() == 2
            &&& t.task is Failed <==> events.len() == 1 && task::ending(events, start, pending) is Err
            &&& t.reschedules == s.reschedules
        },
        s.task == (TaskState::Claiming { start }) && events.len() == 2 && s.counter
            == events[1]->before ==> {
            let t = s.step(Action::Claim);
            &&& t.counter == events[1]->after
            &&& t.reschedules == s.reschedules + 1 <==> task::ending(events, start, pending) == Ok::<
                bool,
                CounterError,
            >(true)
        },
{
}

/// The actions `OnWake` and `WakerClaim` are what [`waker::invoke`] does: a thread whose trace is
/// `events` changes the counter as they do, and reschedules the task under the same conditions.
pub proof fn law_invoke_actions(s: System, cell: Counter, events: Seq<Event>, i: int)
    requires
        0 <= i < s.invocations.len(),
        waker::invokes(cell, events, s.invocations[i].start),
    ensures
        s.is_at(i, InvocationState::Invoked) && s.counter == events[0]->before ==> {
            let t = s.step(Action::OnWake { i });
            &&& t.counter == events[0]->after
            &&& t.invocations[i].state is Claiming <==> events.len() == 2
            &&& t.reschedules == s.reschedules
        },
        s.is_at(i, InvocationState::Claiming) && events.len() == 2 && s.counter
            == events[1]->before ==> {
            let t = s.step(Action::WakerClaim { i });
            let outcome = waker::invocation(events, s.invocations[i].start);
            &&& t.counter == events[1]->after
            &&& t.invocations[i].state is Failed <==> outcome is Err
            &&& t.reschedules == s.reschedules + 1 <==> outcome == Ok::<bool, CounterError>(true)
        },
{
}

} // verus!
