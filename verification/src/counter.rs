//! The shared counter and the record of what is done to it.
//!
//! Every access to a counter is sequentially consistent: all threads agree on one order in which
//! the accesses took place. What a counter holds is not a property of the [`Counter`] as a value
//! (any thread may change it at any time); in specifications that value only stands for the identity
//! of the counter. What *can* be stated is what one thread's accesses saw and what they left
//! behind, and that is what a [`Trace`] records.
//!
//! Only this module can reach the atomic in a counter. Each of its functions makes one call into the
//! standard library and records its effect. What they say of it is taken on trust. (The specifications
//! that come with Verus let these calls be made, but say nothing about the values in an atomic.) So
//! there is no access to a counter that is not recorded. What else is done with counters is in
//! [`crate::access`], and what becomes of the records is in [`crate::trace`].
use crate::task::TaskInner;
use std::sync::atomic::{AtomicUsize, Ordering};
use std::sync::Arc;
use vstd::prelude::*;

pub use crate::trace::{Event, Thread, Trace};

verus! {

/// A counter that threads share. It can only be accessed through the functions of this module, which
/// take a [`Trace`] to record it in.
pub struct Counter {
    cell: AtomicUsize,
    initial: Ghost<usize>,
}

impl Counter {
    /// The value that the counter was created with.
    pub closed spec fn initial(self) -> usize {
        self.initial@
    }
}

/// The access to `counter` that found `before` and left `after`.
pub open spec fn access(counter: Counter, before: usize, after: usize) -> Event {
    Event::Access { counter, before, after }
}

/// The trace `new` is `old` followed by one access to `counter`.
pub open spec fn one_access(old: Seq<Event>, new: Seq<Event>, counter: Counter) -> bool {
    new == old.push(access(counter, new.last()->before, new.last()->after))
}

/// The trace `new` continues `old`.
pub open spec fn extends(old: Seq<Event>, new: Seq<Event>) -> bool {
    old.is_prefix_of(new)
}

/// The events by which the trace `new` continues `old`.
pub open spec fn since(old: Seq<Event>, new: Seq<Event>) -> Seq<Event> {
    new.skip(old.len() as int)
}

/// A trace that has been continued twice holds the events of both times.
pub(crate) proof fn lemma_since(first: Seq<Event>, second: Seq<Event>, third: Seq<Event>)
    requires
        extends(first, second),
        extends(second, third),
    ensures
        extends(first, third),
        since(first, third) == since(first, second) + since(second, third),
{
    assert(since(first, third) =~= since(first, second) + since(second, third));
}

/// Creates a counter that holds `value`.
///
/// Taken on trust of `AtomicUsize::new`: the new counter holds its argument.
#[verifier::external_body]
pub(crate) fn create(value: usize) -> (counter: Counter)
    ensures
        counter.initial() == value,
{
    Counter { cell: AtomicUsize::new(value), initial: Ghost(value) }
}

/// Reads the counter.
///
/// Taken on trust of `AtomicUsize::load`: it returns the value that the counter holds, and leaves it
/// unchanged. Which value that is depends on what the other threads have done.
#[verifier::external_body]
pub(crate) fn load(counter: &Counter, trace: &mut Trace) -> (value: usize)
    ensures
        final(trace)@ == old(trace)@.push(access(*counter, value, value)),
{
    counter.cell.load(Ordering::SeqCst)
}

/// Adds `amount` to the counter and returns the previous value.
///
/// Taken on trust of `AtomicUsize::fetch_add`: it returns the value that the counter held before,
/// and the addition wraps around on overflow. Which value that is depends on what the other threads
/// have done.
#[verifier::external_body]
pub(crate) fn fetch_add(counter: &Counter, amount: usize, trace: &mut Trace) -> (previous:
    usize)
    ensures
        final(trace)@ == old(trace)@.push(
            access(*counter, previous, previous.wrapping_add(amount)),
        ),
{
    counter.cell.fetch_add(amount, Ordering::SeqCst)
}

/// Sets the counter to `new` if it holds `current`. Returns the previous value: as `Ok` if it was
/// `current`, so that the counter was changed, and as `Err` otherwise.
///
/// Taken on trust of `AtomicUsize::compare_exchange`: just that. Which value the counter holds
/// depends on what the other threads have done.
#[verifier::external_body]
pub(crate) fn compare_exchange(
    counter: &Counter,
    current: usize,
    new: usize,
    trace: &mut Trace,
) -> (result: Result<usize, usize>)
    ensures
        match result {
            Ok(previous) => {
                &&& previous == current
                &&& final(trace)@ == old(trace)@.push(access(*counter, previous, new))
            },
            Err(previous) => {
                &&& previous != current
                &&& final(trace)@ == old(trace)@.push(access(*counter, previous, previous))
            },
        },
{
    counter.cell.compare_exchange(current, new, Ordering::SeqCst, Ordering::SeqCst)
}

/// Sets a counter that no other thread can access at the moment.
///
/// Taken on trust of `AtomicUsize::get_mut`: the reference that it returns leads to the value that
/// the counter holds, and the counter remains the same counter. What it held before depends on
/// what other threads have done in the past.
#[verifier::external_body]
pub(crate) fn set(counter: &mut Counter, value: usize, trace: &mut Trace)
    ensures
        *final(counter) == *old(counter),
        one_access(old(trace)@, final(trace)@, *old(counter)),
        final(trace)@.last()->after == value,
{
    *counter.cell.get_mut() = value;
}

/// Tries to get exclusive access to the task behind `this`, which is refused if there are other
/// pointers to it.
///
/// Taken on trust of `Arc::get_mut`: a reference that it returns leads to the value behind the
/// `Arc`, and without one the `Arc` is left as it was. It returns one iff there is no other pointer
/// to the same value. How many there are depends on what the other threads hold, so nothing is
/// said of when that is.
#[verifier::external_body]
pub(crate) fn try_exclusive<'a, M, F>(
    this: &'a mut Arc<TaskInner<M, F>>,
    trace: &mut Trace,
) -> (inner: Option<&'a mut TaskInner<M, F>>)
    ensures
        match inner {
            Some(value) => {
                &&& *value == **old(this)
                &&& **final(this) == *final(value)
                &&& final(trace)@ == old(trace)@
            },
            None => {
                &&& *final(this) == *old(this)
                &&& final(trace)@ == old(trace)@.push(
                    Event::Refused { counter: old(this)@.counter },
                )
            },
        },
{
    Arc::get_mut(this)
}

} // verus!
