//! What each step of the algorithm does to the counter.

use smartpoll::algorithm::{create_counter, task as task_steps, waker as waker_steps, CounterError};
use smartpoll::counter::{Counter, Thread, Trace};
use smartpoll::task::TaskInner;
use std::sync::Arc;

/// The thread that runs a test.
struct TestThread;

impl Thread for TestThread {}

fn new_trace() -> Trace {
    Trace::new(&TestThread)
}

fn value(counter: &Counter) -> usize {
    counter.get(&mut new_trace())
}

/// The storage of a task whose counter holds `value`.
fn inner_at(value: usize) -> TaskInner<&'static str, ()> {
    let (mut inner, _ownership) = TaskInner::new("metadata", ());
    *inner.counter_mut() = Counter::new(value);
    inner
}

#[test]
fn on_wake_cases() {
    // (value before, value after, result) for a waker whose round starts at 8
    for (before, after, result) in [
        (8, 9, false),
        (9, 9, false),
        (10, 10, true),
        (11, 11, false),
        (12, 12, false),
        (4, 4, false),
        (6, 6, false),
        (0, 0, false),
    ] {
        let counter = Counter::new(before);
        assert_eq!(waker_steps::on_wake(8, &counter, &mut new_trace()), result);
        assert_eq!(value(&counter), after);
    }
}

#[test]
fn waker_claim_cases() {
    for (before, after, result) in [
        (10, 12, Ok(true)),
        (12, 12, Ok(false)),
        (8, 8, Err(CounterError::WakerClaim { start: 8, found: 8 })),
        (9, 9, Err(CounterError::WakerClaim { start: 8, found: 9 })),
        (11, 11, Err(CounterError::WakerClaim { start: 8, found: 11 })),
        // later rounds, and one after the counter was reset
        (13, 13, Ok(false)),
        (14, 14, Ok(false)),
        (16, 16, Ok(false)),
        (0, 0, Ok(false)),
        (2, 2, Ok(false)),
    ] {
        let counter = Counter::new(before);
        let claimed = waker_steps::claim_ownership(8, &counter, &mut new_trace());
        assert_eq!(claimed.map(|ownership| ownership.is_some()), result);
        assert_eq!(value(&counter), after);
    }
}

#[test]
fn was_waker_invoked_cases() {
    for (before, after, result) in [
        (8, 10, Ok(false)),
        (9, 11, Ok(true)),
        (10, 12, Err(CounterError::AfterPoll { start: 8, found: 10 })),
        (4, 6, Err(CounterError::AfterPoll { start: 8, found: 4 })),
        (
            usize::MAX,
            1,
            Err(CounterError::AfterPoll {
                start: 8,
                found: usize::MAX,
            }),
        ),
    ] {
        let counter = Counter::new(before);
        let invoked = task_steps::was_waker_invoked(8, &counter, &mut new_trace());
        assert_eq!(invoked, result);
        assert_eq!(value(&counter), after);
    }
}

#[test]
fn task_claim_cases() {
    for (before, after, result) in [
        (11, 12, Ok(true)),
        (12, 12, Ok(false)),
        (8, 8, Err(CounterError::TaskClaim { start: 8, found: 8 })),
        (10, 10, Err(CounterError::TaskClaim { start: 8, found: 10 })),
    ] {
        let counter = Counter::new(before);
        let claimed = task_steps::claim_ownership(8, &counter, &mut new_trace());
        assert_eq!(claimed.map(|ownership| ownership.is_some()), result);
        assert_eq!(value(&counter), after);
    }
}

#[test]
fn task_complete_cases() {
    for (before, after) in [(8, 12), (9, 9), (4, 4)] {
        let counter = Counter::new(before);
        task_steps::task_complete(8, &counter, &mut new_trace());
        assert_eq!(value(&counter), after);
    }
}

#[test]
fn last_round_before_wrapping() {
    let start = usize::MAX - 3;

    let counter = Counter::new(start + 1);
    assert_eq!(
        task_steps::was_waker_invoked(start, &counter, &mut new_trace()),
        Ok(true)
    );
    assert!(task_steps::claim_ownership(start, &counter, &mut new_trace())
        .unwrap()
        .is_some());
    assert_eq!(value(&counter), 0);

    let counter = Counter::new(start + 2);
    assert!(waker_steps::invoke(start, &counter, &mut new_trace())
        .unwrap()
        .is_some());
    assert_eq!(value(&counter), 0);

    let counter = Counter::new(start);
    task_steps::task_complete(start, &counter, &mut new_trace());
    assert_eq!(value(&counter), 0);
}

#[test]
fn new_counters_hold_zero() {
    let (counter, _ownership) = create_counter();
    assert_eq!(value(&counter), 0);
}

#[test]
fn task_storage_keeps_its_parts() {
    let (mut inner, _ownership) = TaskInner::new("metadata", [1, 2, 3]);
    assert_eq!(*inner.metadata(), "metadata");
    assert_eq!(*inner.future(), [1, 2, 3]);
    assert_eq!(value(inner.counter()), 0);
    *inner.counter_mut() = Counter::new(5);
    assert_eq!(value(inner.counter()), 5);
    assert_eq!(*inner.metadata(), "metadata");
    assert_eq!(*inner.future(), [1, 2, 3]);
}

#[test]
fn rounds_start_at_the_counter() {
    let (start, inner) = task_steps::begin_round(Arc::new(inner_at(12)), &mut new_trace());
    assert_eq!(start, 12);
    assert_eq!(value(inner.counter()), 12);
    assert_eq!(*inner.metadata(), "metadata");
}

#[test]
fn the_counter_is_reset_if_there_are_no_wakers() {
    let inner = inner_at(3 * task_steps::RESET_INTERVAL);
    let (start, inner) = task_steps::begin_round(Arc::new(inner), &mut new_trace());
    assert_eq!(start, 0);
    assert_eq!(value(inner.counter()), 0);
    assert_eq!(*inner.metadata(), "metadata");
}

#[test]
fn the_counter_is_not_reset_while_there_are_wakers() {
    let inner = Arc::new(inner_at(0x40000));
    let _clone = inner.clone();
    let (start, inner) = task_steps::begin_round(inner, &mut new_trace());
    assert_eq!(start, 0x40000);
    assert_eq!(value(inner.counter()), 0x40000);

    // nor is it before the interval has passed
    let (start, inner) = task_steps::begin_round(Arc::new(inner_at(0x3fffc)), &mut new_trace());
    assert_eq!(start, 0x3fffc);
    assert_eq!(value(inner.counter()), 0x3fffc);
}

#[test]
fn try_reset_counter_reports_success() {
    let inner = Arc::new(inner_at(44));
    let clone = inner.clone();
    let (success, inner) = task_steps::try_reset_counter(inner, &mut new_trace());
    assert!(!success);
    assert_eq!(task_steps::get_counter(&inner, &mut new_trace()), 44);
    drop(clone);
    let (success, inner) = task_steps::try_reset_counter(inner, &mut new_trace());
    assert!(success);
    assert_eq!(task_steps::get_counter(&inner, &mut new_trace()), 0);
}

#[test]
fn wakers_that_find_the_task_waiting_race_for_it() {
    // two wakers get past their first step; the one that claims first gets the task
    let counter = Counter::new(4);
    let mut trace = new_trace();
    assert!(task_steps::end_round(4, &counter, true, &mut trace)
        .unwrap()
        .is_none());
    assert!(waker_steps::on_wake(4, &counter, &mut trace));
    assert!(waker_steps::on_wake(4, &counter, &mut trace));
    assert!(waker_steps::claim_ownership(4, &counter, &mut trace)
        .unwrap()
        .is_some());
    assert!(waker_steps::claim_ownership(4, &counter, &mut trace)
        .unwrap()
        .is_none());
    assert_eq!(value(&counter), 8);
}

#[test]
fn a_waker_that_is_held_up_into_a_later_round_claims_nothing() {
    let counter = Counter::new(4);
    let mut trace = new_trace();
    assert!(task_steps::end_round(4, &counter, true, &mut trace)
        .unwrap()
        .is_none());
    assert!(waker_steps::on_wake(4, &counter, &mut trace));
    // another waker gets the task, which is polled again
    assert!(waker_steps::invoke(4, &counter, &mut trace)
        .unwrap()
        .is_some());
    assert!(task_steps::end_round(8, &counter, true, &mut trace)
        .unwrap()
        .is_none());
    assert!(waker_steps::claim_ownership(4, &counter, &mut trace)
        .unwrap()
        .is_none());
    assert_eq!(value(&counter), 10);
    // and the later round goes on undisturbed
    assert!(waker_steps::invoke(8, &counter, &mut trace)
        .unwrap()
        .is_some());
    assert_eq!(value(&counter), 12);
}

#[test]
fn the_task_thread_reschedules_if_the_waker_was_faster() {
    let counter = Counter::new(16);
    let mut trace = new_trace();
    assert!(waker_steps::invoke(16, &counter, &mut trace)
        .unwrap()
        .is_none());
    assert!(waker_steps::invoke(16, &counter, &mut trace)
        .unwrap()
        .is_none());
    assert_eq!(value(&counter), 17);
    assert!(task_steps::end_round(16, &counter, true, &mut trace)
        .unwrap()
        .is_some());
    assert_eq!(value(&counter), 20);
    assert!(waker_steps::invoke(16, &counter, &mut trace)
        .unwrap()
        .is_none());
    assert_eq!(value(&counter), 20);
}

#[test]
fn a_completed_task_is_not_rescheduled() {
    for woken in [false, true] {
        let counter = Counter::new(16);
        let mut trace = new_trace();
        if woken {
            assert!(waker_steps::invoke(16, &counter, &mut trace)
                .unwrap()
                .is_none());
        }
        assert!(task_steps::end_round(16, &counter, false, &mut trace)
            .unwrap()
            .is_none());
        assert_eq!(value(&counter), if woken { 17 } else { 20 });
        assert!(waker_steps::invoke(16, &counter, &mut trace)
            .unwrap()
            .is_none());
        assert_eq!(value(&counter), if woken { 17 } else { 20 });
    }
}

#[test]
fn a_round_that_wraps_hands_the_task_on_once() {
    // the last round before the counter wraps, and the first one after it
    let start = usize::MAX - 3;
    let counter = Counter::new(start);
    let mut trace = new_trace();
    assert!(task_steps::end_round(start, &counter, true, &mut trace)
        .unwrap()
        .is_none());
    assert!(waker_steps::on_wake(start, &counter, &mut trace));
    assert!(waker_steps::invoke(start, &counter, &mut trace)
        .unwrap()
        .is_some());
    assert_eq!(value(&counter), 0);
    assert!(waker_steps::claim_ownership(start, &counter, &mut trace)
        .unwrap()
        .is_none());

    // wakers of the last round do nothing in the next one
    assert!(waker_steps::invoke(start, &counter, &mut trace)
        .unwrap()
        .is_none());
    assert!(waker_steps::invoke(0, &counter, &mut trace)
        .unwrap()
        .is_none());
    assert!(waker_steps::claim_ownership(start, &counter, &mut trace)
        .unwrap()
        .is_none());
    assert!(task_steps::end_round(0, &counter, true, &mut trace)
        .unwrap()
        .is_some());
    assert_eq!(value(&counter), 4);
}

#[test]
fn the_counter_grows_by_four_unless_it_is_reset() {
    // (value when the poll begins, whether there is a leftover waker, value when it has ended)
    for (found, leftover, end) in [
        (8, false, 12),
        (8, true, 12),
        (0, false, 4),
        (0x40000, false, 4),
        (0x40000, true, 0x40004),
        (0x40004, false, 0x40008),
    ] {
        let inner = Arc::new(inner_at(found));
        let clone = leftover.then_some(inner.clone());
        let mut trace = new_trace();
        let (start, inner) = task_steps::begin_round(inner, &mut trace);
        assert!(waker_steps::invoke(start, inner.counter(), &mut trace)
            .unwrap()
            .is_none());
        assert!(
            task_steps::end_round(start, inner.counter(), true, &mut trace)
                .unwrap()
                .is_some()
        );
        assert_eq!(value(inner.counter()), end);
        drop(clone);
    }
}
