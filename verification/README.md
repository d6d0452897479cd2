# Smartpoll

Smartpoll is a library which provides a `Task` abstraction that simplifies polling futures, with
machine-checked proofs (in Verus) of the synchronisation that it rests on.

## How it works

A `Task` wraps around a top-level future. Its `poll` method synchronises the polls of the future by
communicating with the task's wakers to ensure that the task is not rescheduled until the future has
returned. The rescheduling code is a closure passed to `Task::poll`.

## What is proved

- `src/counter.rs` is the shared counter. What the standard library's atomics do is taken on trust
  here. A counter can only be accessed through this module, which records each access in the trace
  of a thread. The library cannot start a trace, so the one it is given holds all of its accesses.
- `src/algorithm.rs` and `src/algorithm/` are the steps of the algorithm. Their contracts say exactly
  what each step does to the counter and what it makes of what it finds.
- `src/task.rs` holds tasks and wakers. Polling a future, and handing a task on, each take the
  ownership of the task, which there is only one of. The contracts of `Task::poll` and
  `SmartWaker::wake_by_ref` say which accesses are made, that the task is handed on if and only if
  they claim its ownership, and that it is the same task.
- `src/round.rs` proves that in every round exactly one thread claims the ownership of the task, and
  so reschedules it, if the future returned `Pending` and a waker was invoked, and that no thread
  does otherwise, for any number of wakers and however the threads are scheduled.
- `src/execution.rs` proves the same and more of the whole life of a task: that the future is never
  polled by two threads at once and that no wake-up is lost, whether or not the counter wraps; that
  outdated wakers do nothing as long as it does not; and that resetting it keeps it from wrapping.

`app/` joins the library to the standard library's futures, which takes pinning and unsafe code.
