//! The record of what a thread does.
//!
//! Only this module can reach the events in a trace. Its functions start a trace, or add to it that a
//! future has returned; they have no counter at hand. What is done to a counter is added by the
//! functions of [`crate::counter`] that do it. So nothing that is recorded can be taken back or
//! replaced.
use crate::counter::Counter;
use vstd::prelude::*;

verus! {

/// Something that a thread does with a counter, or with the future that the counter belongs to.
pub ghost enum Event {
    /// One atomic access to `counter`, which held `before` immediately before the access and `after`
    /// immediately after it.
    Access { counter: Counter, before: usize, after: usize },
    /// An attempt to get exclusive access to the task that has `counter`, which was refused.
    Refused { counter: Counter },
    /// The future of the task that has `counter` was polled in the round that started at `start`,
    /// and has returned.
    Polled { counter: Counter, start: usize, pending: bool },
}

/// A value that stands for a thread. Whoever runs the threads implements this, for a type of their
/// own. There is no such type in this library, so that nothing in it can start a [`Trace`].
pub trait Thread {

}

/// A log of what one thread does with counters and with the futures that they belong to, in the
/// order in which it does it.
///
/// A trace takes no space and holds nothing at run time. It starts out empty, and only what accesses
/// a counter or polls a future adds to it: there is no way to claim an access that was not made, and
/// none to access a counter without a trace that records it. It takes a [`Thread`] to start one and it
/// cannot be copied, so a function of this library that is given a trace has no other: that trace
/// holds all the accesses that the function makes.
pub struct Trace {
    events: Ghost<Seq<Event>>,
}

impl View for Trace {
    type V = Seq<Event>;

    closed spec fn view(&self) -> Seq<Event> {
        self.events@
    }
}

impl Trace {
    /// Creates the empty trace of a thread.
    pub fn new<T: Thread>(_thread: &T) -> (trace: Self)
        ensures
            trace@ == Seq::<Event>::empty(),
    {
        Trace { events: Ghost(Seq::empty()) }
    }

    /// Records that the future of the task that has `counter` has returned, having been polled in
    /// the round that started at `start`.
    pub(crate) fn record_poll(
        &mut self,
        counter: Ghost<Counter>,
        start: Ghost<usize>,
        pending: Ghost<bool>,
    )
        ensures
            final(self)@ == old(self)@.push(
                Event::Polled { counter: counter@, start: start@, pending: pending@ },
            ),
    {
        self.events = Ghost(
            self.events@.push(
                Event::Polled { counter: counter@, start: start@, pending: pending@ },
            ),
        );
    }
}

} // verus!
