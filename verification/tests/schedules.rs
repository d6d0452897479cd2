//! Runs the steps of the algorithm in every order in which the threads can take them.

use smartpoll::algorithm::{task as task_steps, waker as waker_steps};
use smartpoll::counter::{Counter, Thread, Trace};
use std::cell::RefCell;
use std::future::Future;
use std::pin::Pin;
use std::rc::Rc;
use std::sync::atomic::{AtomicUsize, Ordering};
use std::sync::Arc;
use std::task::{Context, Poll, Wake, Waker};

/// The thread that runs a test.
struct TestThread;

impl Thread for TestThread {}

fn new_trace() -> Trace {
    Trace::new(&TestThread)
}

/// Returns a [`Future`] that yields control to the executor once before completing.
fn yield_once() -> YieldFuture {
    YieldFuture(true)
}

struct YieldFuture(bool);

impl Future for YieldFuture {
    type Output = ();
    fn poll(mut self: Pin<&mut Self>, cx: &mut Context<'_>) -> Poll<Self::Output> {
        if self.0 {
            self.0 = false;
            cx.waker().wake_by_ref();
            Poll::Pending
        } else {
            Poll::Ready(())
        }
    }
}

struct Noop;

impl Wake for Noop {
    fn wake(self: Arc<Self>) {}
}

/// Returns a [`Waker`] that does nothing when invoked.
fn noop_waker() -> Waker {
    Waker::from(Arc::new(Noop))
}

type BoxedFuture = Pin<Box<dyn Future<Output = ()>>>;

/// Used to run a collection of [`Future`]s multiple times, exhausting every possible sequence in
/// which they can be polled. Does not wait for [`Waker`] invocation so must not be used as a
/// general-purpose executor.
struct Sequencer {
    num_futures: Option<usize>,
    noop_waker: Waker,
    next_sequence: Vec<usize>,
}

impl Sequencer {
    fn new() -> Self {
        Self {
            num_futures: None,
            noop_waker: noop_waker(),
            next_sequence: vec![0],
        }
    }

    fn prepare(future: impl Future<Output = ()> + 'static) -> BoxedFuture {
        Box::pin(future)
    }

    /// Run the provided collection of [`Future`]s according to the next unexplored polling
    /// sequence. Will panic if a different number of futures are provided than were given in a
    /// previous call for the same `Sequencer`, or if any of the futures complete sooner than they
    /// did in an earlier sequence.
    fn run_next_sequence(&mut self, mut futures: Vec<BoxedFuture>) -> bool {
        let num_futures = futures.len();
        if let Some(previous) = self.num_futures {
            assert!(
                previous == num_futures,
                "the number of futures to run has changed"
            );
        }
        self.num_futures = Some(num_futures);

        let mut cx = Context::from_waker(&self.noop_waker);
        let sequence = &mut self.next_sequence;
        let mut completed_at: Vec<Option<usize>> = vec![None; num_futures];
        let mut i = 0;

        loop {
            // poll the futures according to the current sequence
            while i < sequence.len() {
                let future_i = sequence[i];
                assert!(
                    completed_at[future_i].is_none(),
                    "nondeterminism detected: a future completed sooner than it did in a previous \
                    sequence"
                );
                if futures[future_i].as_mut().poll(&mut cx).is_ready() {
                    completed_at[future_i] = Some(i);
                }
                i += 1;
            }
            // once we've reached the end of the sequence, add a future that has not yet completed
            match completed_at.iter().position(|time| time.is_none()) {
                Some(uncompleted) => sequence.push(uncompleted),
                None => break,
            }
        }

        // once all futures have completed, advance the last item of the sequence to the next future
        // which had not yet completed at that point in time, or drop it if there is none
        while let Some(last) = sequence.pop() {
            let position = sequence.len();
            let next = (last + 1..num_futures)
                .find(|&future_i| completed_at[future_i].is_some_and(|time| time >= position));
            if let Some(next) = next {
                sequence.push(next);
                return false;
            }
        }
        // we have explored all possible sequences, so finish
        true
    }
}

/// async version of the task thread's side of the algorithm
async fn new_task_thread(
    start: usize,
    counter: Rc<Counter>,
    reschedule: impl Fn(),
    is_pending: bool,
) {
    let counter = counter.as_ref();
    let mut trace = new_trace();

    // if the future returned `Pending`
    if is_pending {
        let waker_invoked = task_steps::was_waker_invoked(start, counter, &mut trace).unwrap();
        yield_once().await; // yield to the sequencer to allow other "threads" to run

        // if a waker has been invoked
        if waker_invoked {
            // try to claim full ownership of the task
            if task_steps::claim_ownership(start, counter, &mut trace)
                .unwrap()
                .is_some()
            {
                // if successful then reschedule the task
                reschedule();
            }
        }
    } else {
        // else the future returned `Ready`, so end the algorithm
        task_steps::task_complete(start, counter, &mut trace);
    }
}

/// async version of a waker's side of the algorithm
async fn new_waker_thread(start: usize, counter: Rc<Counter>, reschedule: impl Fn()) {
    let counter = counter.as_ref();
    let mut trace = new_trace();

    let should_proceed = waker_steps::on_wake(start, counter, &mut trace);
    yield_once().await; // yield to the sequencer to allow other "threads" to run

    if should_proceed {
        // try to claim full ownership of the task
        if waker_steps::claim_ownership(start, counter, &mut trace)
            .unwrap()
            .is_some()
        {
            // if successful then reschedule the task
            reschedule();
        }
    }
}

#[test]
fn algorithm_test1() {
    //! Check that the algorithm always reschedules the task exactly once when:
    //!   - the future returns `Pending`;
    //!   - N wakers were used this round, for each N in {1,2,3,4}; and
    //!   - there are no leftover wakers from previous rounds of the algorithm.

    for num_wakers in 1..=4 {
        let mut sequencer = Sequencer::new();

        loop {
            let start = 0;
            let counter = Rc::new(Counter::new(start));

            let times_rescheduled = Rc::new(AtomicUsize::new(0));
            let reschedule_counter = times_rescheduled.clone();
            let reschedule = move || {
                reschedule_counter.fetch_add(1, Ordering::SeqCst);
            };

            let mut futures = Vec::with_capacity(num_wakers + 1);

            futures.push(Sequencer::prepare(new_task_thread(
                start,
                counter.clone(),
                reschedule.clone(),
                true,
            )));

            for _ in 0..num_wakers {
                futures.push(Sequencer::prepare(new_waker_thread(
                    start,
                    counter.clone(),
                    reschedule.clone(),
                )));
            }

            let done = sequencer.run_next_sequence(futures);

            assert!(times_rescheduled.load(Ordering::SeqCst) == 1);

            if done {
                break;
            }
        }
    }
}

#[test]
fn algorithm_test2() {
    //! Check that the algorithm never reschedules the task when:
    //!   - the future returns `Pending`,
    //!   - no wakers were used this round, and
    //!   - there are no leftover wakers from previous rounds of the algorithm.

    let mut sequencer = Sequencer::new();

    loop {
        let start = 0;
        let counter = Rc::new(Counter::new(start));

        let times_rescheduled = Rc::new(AtomicUsize::new(0));
        let reschedule_counter = times_rescheduled.clone();
        let reschedule = move || {
            reschedule_counter.fetch_add(1, Ordering::SeqCst);
        };

        let done = sequencer.run_next_sequence(vec![Sequencer::prepare(new_task_thread(
            start,
            counter.clone(),
            reschedule.clone(),
            true,
        ))]);

        assert!(times_rescheduled.load(Ordering::SeqCst) == 0);

        if done {
            break;
        }
    }
}

#[test]
fn algorithm_test3() {
    //! Check that the algorithm never reschedules the task when:
    //!   - the future returns `Ready`;
    //!   - N wakers were used this round, for each N in {0, 1}; and
    //!   - there are no leftover wakers from previous rounds of the algorithm.

    for num_wakers in 0..=1 {
        let mut sequencer = Sequencer::new();

        loop {
            let start = 0;
            let counter = Rc::new(Counter::new(start));

            let times_rescheduled = Rc::new(AtomicUsize::new(0));
            let reschedule_counter = times_rescheduled.clone();
            let reschedule = move || {
                reschedule_counter.fetch_add(1, Ordering::SeqCst);
            };

            let mut futures = Vec::with_capacity(num_wakers + 1);

            futures.push(Sequencer::prepare(new_task_thread(
                start,
                counter.clone(),
                reschedule.clone(),
                false,
            )));

            for _ in 0..num_wakers {
                futures.push(Sequencer::prepare(new_waker_thread(
                    start,
                    counter.clone(),
                    reschedule.clone(),
                )));
            }

            let done = sequencer.run_next_sequence(futures);

            assert!(times_rescheduled.load(Ordering::SeqCst) == 0);

            if done {
                break;
            }
        }
    }
}

#[test]
fn algorithm_test4() {
    //! Check that a waker whose 'start' value is less than that of the current round will
    //! not reschedule the task when invoked, when:
    //!   - there are N outdated wakers, for each N in {1, 2};
    //!   - each outdated waker's start value is N less than this round's, for each N in {4, 8};
    //!   - the future returns either `Ready` or `Pending`; and
    //!   - N wakers were used in the current round, for each N in {0, 1, 2}.

    let old_wakers = [
        (4, None),
        (4, Some(4)),
        (8, None),
        (8, Some(4)),
        (8, Some(8)),
    ];

    for old_wakers in old_wakers {
        for is_pending in [true, false] {
            for num_wakers in 0..=2 {
                let mut sequencer = Sequencer::new();

                loop {
                    let start = 20;
                    let counter = Rc::new(Counter::new(start));

                    let times_rescheduled = Rc::new(AtomicUsize::new(0));
                    let reschedule_counter = times_rescheduled.clone();
                    let reschedule = move || {
                        reschedule_counter.fetch_add(1, Ordering::SeqCst);
                    };

                    let mut futures = Vec::with_capacity(num_wakers + 1);

                    futures.push(Sequencer::prepare(new_task_thread(
                        start,
                        counter.clone(),
                        reschedule.clone(),
                        is_pending,
                    )));

                    for _ in 0..num_wakers {
                        futures.push(Sequencer::prepare(new_waker_thread(
                            start,
                            counter.clone(),
                            reschedule.clone(),
                        )));
                    }

                    futures.push(Sequencer::prepare(new_waker_thread(
                        start - old_wakers.0,
                        counter.clone(),
                        || panic!("outdated waker called reschedule()"),
                    )));

                    if let Some(diff) = old_wakers.1 {
                        futures.push(Sequencer::prepare(new_waker_thread(
                            start - diff,
                            counter.clone(),
                            || panic!("outdated waker called reschedule()"),
                        )))
                    }

                    let done = sequencer.run_next_sequence(futures);

                    match times_rescheduled.load(Ordering::SeqCst) {
                        n if n == if is_pending && num_wakers > 0 { 1 } else { 0 } => (),
                        n => panic!(
                            "incorrectly rescheduled {n} times\n\
                            is_pending == {is_pending},\n\
                            num_wakers == {num_wakers}\n,
                            old_wakers == {:?}\n",
                            old_wakers
                        ),
                    };

                    if done {
                        break;
                    }
                }
            }
        }
    }
}

#[test]
fn correctness() {
    let mut sequencer = Sequencer::new();

    loop {
        let start = 0;
        let counter = Rc::new(Counter::new(start));

        let done = sequencer.run_next_sequence(vec![
            Sequencer::prepare(new_task_thread(start, counter.clone(), || (), true)),
            Sequencer::prepare(new_waker_thread(start, counter.clone(), || ())),
            Sequencer::prepare(new_waker_thread(start, counter.clone(), || ())),
        ]);

        if done {
            break;
        }
    }
}

/// Runs all possible interleavings of the futures returned by the provided closure.
/// The closure must produce the same list of futures each time it is invoked.
fn run_interleavings(mut init_fn: impl FnMut() -> Vec<BoxedFuture>) {
    let mut sequencer = Sequencer::new();
    loop {
        let futures = init_fn();
        assert!(!futures.is_empty(), "`init_fn` didn't return any futures");
        if sequencer.run_next_sequence(futures) {
            break;
        }
    }
}

#[test]
fn exhaustive_proof_2_wakers() {
    run_interleavings(|| {
        println!("next execution");
        let start = 0;
        let counter = Rc::new(Counter::new(start));
        vec![
            Box::pin(new_task_thread(
                start,
                counter.clone(),
                || println!("  task thread reschedules the task"),
                true,
            )),
            Box::pin(new_waker_thread(start, counter.clone(), || {
                println!("  waker thread reschedules the task")
            })),
            Box::pin(new_waker_thread(start, counter.clone(), || {
                println!("  waker thread reschedules the task")
            })),
        ]
    });
}

#[test]
fn permute_steps() {
    let start = 0;
    let counter = Rc::new(Counter::new(start));

    let task_counter = counter.clone();
    let mut task_thread = Sequencer::prepare(async move {
        new_task_thread(
            start,
            task_counter,
            || println!("task thread has permission to reschedule"),
            true,
        )
        .await;
        println!("task thread complete");
    });
    let new_waker_thread = |waker_counter| {
        Sequencer::prepare(async move {
            new_waker_thread(start, waker_counter, || {
                println!("waker thread has permission to reschedule")
            })
            .await;
            println!("waker thread complete");
        })
    };
    let mut waker_thread_a = new_waker_thread(counter.clone());
    let mut waker_thread_b = new_waker_thread(counter.clone());

    let waker = noop_waker();
    let mut cx = Context::from_waker(&waker);
    for _ in 0..2 {
        let _ = task_thread.as_mut().poll(&mut cx);
        let _ = waker_thread_a.as_mut().poll(&mut cx);
        let _ = waker_thread_b.as_mut().poll(&mut cx);
    }
    assert_eq!(counter.get(&mut new_trace()), 4);

    println!("done");
}

/// Check that `yield_once` yields control once and then completes.
#[test]
fn yield_test() {
    let waker = noop_waker();
    let mut cx = Context::from_waker(&waker);
    let mut future = Box::pin(yield_once());
    assert!(future.as_mut().poll(&mut cx).is_pending());
    assert!(future.as_mut().poll(&mut cx).is_ready());
}

/// Check the same of an async block that yields.
#[test]
fn yield_now() {
    let waker = noop_waker();
    let mut cx = Context::from_waker(&waker);
    let mut future = Sequencer::prepare(async { yield_once().await });
    assert!(future.as_mut().poll(&mut cx).is_pending());
    assert!(future.as_mut().poll(&mut cx).is_ready());
}

#[derive(Debug, Clone, Copy, PartialEq, Eq)]
enum LogEntry {
    NewSequence(usize),
    Pending(usize),
    Ready(usize),
}

#[derive(Clone)]
struct Log(Rc<RefCell<Vec<LogEntry>>>);

impl Log {
    fn new() -> Self {
        Self(Rc::new(RefCell::new(vec![])))
    }
    fn add(&self, entry: LogEntry) {
        self.0.borrow_mut().push(entry);
    }
}

struct LoggerFut {
    log: Log,
    id: usize,
    polls_remaining: usize,
}

impl LoggerFut {
    fn new(log: Log, id: usize, polls_remaining: usize) -> Self {
        Self {
            log,
            id,
            polls_remaining,
        }
    }
}

impl Future for LoggerFut {
    type Output = ();
    fn poll(mut self: Pin<&mut Self>, cx: &mut Context<'_>) -> Poll<Self::Output> {
        if self.polls_remaining > 0 {
            self.polls_remaining -= 1;
            self.log.add(LogEntry::Pending(self.id));
            cx.waker().wake_by_ref();
            Poll::Pending
        } else {
            self.log.add(LogEntry::Ready(self.id));
            Poll::Ready(())
        }
    }
}

/// What polling a future that completes after one poll and a future that completes after two polls
/// logs, in each of the sequences in which they can be polled.
fn expected_log() -> Vec<LogEntry> {
    vec![
        LogEntry::NewSequence(0),
        LogEntry::Pending(1),
        LogEntry::Ready(1),
        LogEntry::Pending(2),
        LogEntry::Pending(2),
        LogEntry::Ready(2),
        LogEntry::NewSequence(1),
        LogEntry::Pending(1),
        LogEntry::Pending(2),
        LogEntry::Ready(1),
        LogEntry::Pending(2),
        LogEntry::Ready(2),
        LogEntry::NewSequence(2),
        LogEntry::Pending(1),
        LogEntry::Pending(2),
        LogEntry::Pending(2),
        LogEntry::Ready(1),
        LogEntry::Ready(2),
        LogEntry::NewSequence(3),
        LogEntry::Pending(1),
        LogEntry::Pending(2),
        LogEntry::Pending(2),
        LogEntry::Ready(2),
        LogEntry::Ready(1),
        LogEntry::NewSequence(4),
        LogEntry::Pending(2),
        LogEntry::Pending(1),
        LogEntry::Ready(1),
        LogEntry::Pending(2),
        LogEntry::Ready(2),
        LogEntry::NewSequence(5),
        LogEntry::Pending(2),
        LogEntry::Pending(1),
        LogEntry::Pending(2),
        LogEntry::Ready(1),
        LogEntry::Ready(2),
        LogEntry::NewSequence(6),
        LogEntry::Pending(2),
        LogEntry::Pending(1),
        LogEntry::Pending(2),
        LogEntry::Ready(2),
        LogEntry::Ready(1),
        LogEntry::NewSequence(7),
        LogEntry::Pending(2),
        LogEntry::Pending(2),
        LogEntry::Pending(1),
        LogEntry::Ready(1),
        LogEntry::Ready(2),
        LogEntry::NewSequence(8),
        LogEntry::Pending(2),
        LogEntry::Pending(2),
        LogEntry::Pending(1),
        LogEntry::Ready(2),
        LogEntry::Ready(1),
        LogEntry::NewSequence(9),
        LogEntry::Pending(2),
        LogEntry::Pending(2),
        LogEntry::Ready(2),
        LogEntry::Pending(1),
        LogEntry::Ready(1),
    ]
}

/// Check that the sequencer works correctly using a hand-written test case.
#[test]
fn sequencer() {
    let log = Log::new();
    let mut sequencer = Sequencer::new();
    let mut sequence_counter = 0;

    loop {
        log.add(LogEntry::NewSequence(sequence_counter));
        sequence_counter += 1;
        let done = sequencer.run_next_sequence(vec![
            Sequencer::prepare(LoggerFut::new(log.clone(), 1, 1)),
            Sequencer::prepare(LoggerFut::new(log.clone(), 2, 2)),
        ]);
        if done {
            break;
        }
    }

    let log = log.0.borrow();
    let expected = expected_log();
    for (i, entry) in expected.iter().enumerate() {
        assert!(log[i] == *entry);
    }
    assert!(log.len() == 60);
}

/// Check that `run_interleavings` works correctly using the same test case.
#[test]
fn interleave_futures() {
    let log = Log::new();
    let test_log = log.clone();

    let mut execution_counter = 0;
    run_interleavings(move || {
        log.add(LogEntry::NewSequence(execution_counter));
        execution_counter += 1;
        vec![
            Box::pin(LoggerFut::new(log.clone(), 1, 1)),
            Box::pin(LoggerFut::new(log.clone(), 2, 2)),
        ]
    });

    let log = test_log.0.borrow();
    let expected = expected_log();
    for (i, entry) in expected.iter().enumerate() {
        assert!(log[i] == *entry);
    }
    assert!(log.len() == 60);
}
