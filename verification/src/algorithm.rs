//! The synchronisation algorithm.
//!
//! One purpose of the [`Task`](crate::Task) abstraction is to synchronise the polls of each task:
//! while a future is being polled on a particular thread, no other thread must poll it.
//!
//! When a task is polled its future is given a waker. Once the future has been polled it may make
//! arbitrarily many clones of the waker and arrange for each of them to be invoked at any time on
//! any thread, and it will return either `Pending` or `Ready`. The purpose of the algorithm is to
//! ensure that:
//!   - If `Pending` is returned and a waker is invoked, the rescheduling code is called exactly
//!     once, but only once both conditions have been met.
//!   - If `Ready` is returned, the rescheduling code is not called.
//!
//! The algorithm operates in rounds; one round corresponds to one poll of the task. The code for
//! each round is split into two parts: [`task`] is run by the thread that polls the task, and
//! [`waker`] is run by the waker of that round, or a clone of it, whenever it is invoked.
//!
//! The participants communicate by atomically increasing a shared counter. Over the course of a
//! round it increases from some initial value labelled `start` to `start + 4`, which then becomes
//! the value of `start` for the next round. The counter is occasionally reset to 0 before the start
//! of a round to prevent it from wrapping, but only if there are no leftover wakers from previous
//! rounds.
//!
//! At the start of the round the task thread reads the value of the counter and labels it `start`.
//! It creates a new waker which has a copy of `start` and uses that waker to poll the future. It then
//! acts according to the following pseudocode:
//!
//! ```text
//! if the future returned `Pending` {
//!     let old_value = counter.fetch_add(2);
//!     if old_value == start + 1 {
//!         // a waker has been invoked and incremented the counter
//!         // the counter now has a value of `start + 3`
//!         if counter.compare_exchange(start + 3, start + 4) is successful {
//!             // we have taken full ownership of the task and must reschedule it
//!             reschedule(task);
//!         }
//!     }
//!     return `Pending`;
//! } else {
//!     // the future returned `Ready`, so complete the round and return
//!     counter.compare_exchange(start, start + 4);
//!     return `Ready`;
//! }
//! ```
//!
//! At arbitrary times the waker and its clones each run the following:
//!
//! ```text
//! if counter.compare_exchange(start, start + 1) is unsuccessful because counter == start + 2 {
//!     // the future has returned `Pending` and no other waker has claimed ownership yet
//!     if counter.compare_exchange(start + 2, start + 4) is successful {
//!         // we have taken full ownership of the task and must reschedule it
//!         reschedule(task);
//!     }
//! }
//! ```
//!
//! Each atomic access has its own function, and a specification function that says what the access
//! does to a counter that holds a given value. [`crate::round`] and [`crate::execution`] are about
//! all the sequences in which these accesses can take place.
use crate::counter::{Counter, Event};
use vstd::prelude::*;

pub mod task;
pub mod waker;

verus! {

/// A step of the algorithm found the counter at a value that the step does not expect.
#[derive(Debug, Clone, Copy, PartialEq, Eq, Structural)]
pub enum CounterError {
    /// A poll began while the counter was not at a multiple of 4.
    Misaligned { start: usize },
    /// After the future returned `Pending` the counter was neither `start` nor `start + 1`.
    AfterPoll { start: usize, found: usize },
    /// The task thread tried to claim ownership while the counter was neither `start + 3` nor
    /// `start + 4`.
    TaskClaim { start: usize, found: usize },
    /// A waker tried to claim ownership while the counter was `start`, `start + 1` or `start + 3`.
    WakerClaim { start: usize, found: usize },
}

/// The right to poll the task or to hand it on to be polled.
///
/// Whoever creates a task's counter gets the first one. Each further one comes from a successful
/// claim, that is from an access that moved the counter to the end of a round. It cannot be
/// copied, a task cannot be put together without one, and a future cannot be polled without giving
/// one up.
pub struct Ownership {
    counter: Ghost<Counter>,
    value: Ghost<usize>,
    at: Ghost<Seq<Event>>,
}

impl Ownership {
    /// The counter of the task that is owned.
    pub closed spec fn counter(self) -> Counter {
        self.counter@
    }

    /// The value that the counter was created with, or that it was given by the access that the
    /// ownership comes from.
    pub closed spec fn value(self) -> usize {
        self.value@
    }

    /// The trace of the thread that got the ownership, up to and with the access that it comes from.
    /// It is empty if the ownership came with a new counter.
    pub closed spec fn at(self) -> Seq<Event> {
        self.at@
    }
}

/// Creates the counter of a new task, which holds 0, together with the ownership of the task.
pub fn create_counter() -> (created: (Counter, Ownership))
    ensures
        created.0.initial() == 0,
        created.1.counter() == created.0,
        created.1.value() == 0,
        created.1.at() == Seq::<Event>::empty(),
{
    let counter = Counter::new(0);
    let ownership = Ownership {
        counter: Ghost(counter),
        value: Ghost(0),
        at: Ghost(Seq::empty()),
    };
    (counter, ownership)
}

/// Whether an attempt to claim ownership succeeded, failed or met an unexpected value.
pub open spec fn claimed(result: Result<Option<Ownership>, CounterError>) -> Result<
    bool,
    CounterError,
> {
    match result {
        Ok(ownership) => Ok(ownership is Some),
        Err(error) => Err(error),
    }
}

} // verus!
