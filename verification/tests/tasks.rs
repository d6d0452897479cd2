//! Polls tasks that hold actual futures, on one thread and on several.

use smartpoll::algorithm::Ownership;
use smartpoll::counter::{Thread, Trace};
use smartpoll::task::{Poll, Pollable, SmartWaker};
use smartpoll::Task;
use std::future::Future;
use std::pin::Pin;
use std::sync::atomic::{AtomicUsize, Ordering};
use std::sync::{mpsc, Arc, Mutex};
use std::task::{Context, Poll as StdPoll, Wake, Waker};

/// The thread that runs a test.
struct TestThread;

impl Thread for TestThread {}

fn new_trace() -> Trace {
    Trace::new(&TestThread)
}

/// Holds a future.
struct FutureCell(Mutex<Pin<Box<dyn Future<Output = ()> + Send>>>);

fn cell(future: impl Future<Output = ()> + Send + 'static) -> FutureCell {
    FutureCell(Mutex::new(Box::pin(future)))
}

struct Shim<M, R>(Mutex<SmartWaker<M, FutureCell, R>>);

impl<M, R> Wake for Shim<M, R>
where
    M: Send + Sync + 'static,
    R: Fn(Task<M, FutureCell>) + Send + Clone + 'static,
{
    fn wake(self: Arc<Self>) {
        let waker = self.0.lock().unwrap().clone();
        waker.wake(&mut new_trace()).unwrap();
    }
}

impl<M, R> Pollable<M, R> for FutureCell
where
    M: Send + Sync + 'static,
    R: Fn(Task<M, FutureCell>) + Send + Clone + 'static,
{
    fn poll(&self, waker: SmartWaker<M, Self, R>, _ownership: Ownership) -> Poll<()> {
        let waker = Waker::from(Arc::new(Shim(Mutex::new(waker))));
        let mut future = self.0.try_lock().unwrap();
        match future.as_mut().poll(&mut Context::from_waker(&waker)) {
            StdPoll::Ready(()) => Poll::Ready(()),
            StdPoll::Pending => Poll::Pending,
        }
    }
}

/// Yields control to the executor the given number of times before completing.
struct Yield(u32);

impl Future for Yield {
    type Output = ();
    fn poll(mut self: Pin<&mut Self>, cx: &mut Context<'_>) -> StdPoll<Self::Output> {
        if self.0 > 0 {
            self.0 -= 1;
            cx.waker().wake_by_ref();
            StdPoll::Pending
        } else {
            StdPoll::Ready(())
        }
    }
}

/// Tests using `Task::poll()` with the simplest possible future.
#[test]
fn test_0() {
    struct Fut;
    impl Future for Fut {
        type Output = ();
        fn poll(self: Pin<&mut Self>, _: &mut Context<'_>) -> StdPoll<Self::Output> {
            StdPoll::Ready(())
        }
    }
    fn recursive_poll(task: Task<(), FutureCell>) {
        task.poll(recursive_poll, &mut new_trace()).unwrap();
    }
    recursive_poll(Task::new((), cell(Fut)));
}

/// Tests using `Task` to poll a future which doesn't immediately complete.
#[test]
fn test_1() {
    struct Fut(u8);
    impl Future for Fut {
        type Output = ();
        fn poll(mut self: Pin<&mut Self>, cx: &mut Context<'_>) -> StdPoll<Self::Output> {
            if self.0 > 0 {
                self.0 -= 1;
                cx.waker().wake_by_ref();
                StdPoll::Pending
            } else {
                StdPoll::Ready(())
            }
        }
    }
    fn recursive_poll(task: Task<(), FutureCell>) {
        task.poll(recursive_poll, &mut new_trace()).unwrap();
    }
    recursive_poll(Task::new((), cell(Fut(2))));
}

#[test]
fn metadata_is_preserved() {
    //! Check that the metadata of the task passed to the rescheduling callback is the same
    //! metadata that was passed to the original task.

    let task = Task::new(Box::new(()), cell(Yield(1)));

    // the task's metadata is a Box that points to a unique address
    let addr = format!("{:p}", &**task.metadata());

    let result = task.poll(
        move |task: Task<Box<()>, FutureCell>| {
            // Check that the task's metadata is the original Box by checking that it is a Box which
            // points to the same address as the original.
            assert!(addr == format!("{:p}", &**task.metadata()))
        },
        &mut new_trace(),
    );
    assert!(result.unwrap().is_pending());
}

#[test]
fn poll_returns_the_output_of_the_future() {
    let (queue_tx, queue_rx) = mpsc::channel();
    let reschedule = move |task| queue_tx.send(task).unwrap();
    let mut task: Task<(), FutureCell> = Task::new((), cell(Yield(2)));
    for _ in 0..2 {
        let result = task.poll(reschedule.clone(), &mut new_trace()).unwrap();
        assert!(result.is_pending());
        assert!(!result.is_ready());
        task = queue_rx.try_recv().unwrap();
        assert!(queue_rx.try_recv().is_err());
    }
    let result = task.poll(reschedule, &mut new_trace()).unwrap();
    assert!(result.is_ready());
    assert!(!result.is_pending());
    assert!(queue_rx.try_recv().is_err());
}

#[test]
fn the_waker_reschedules_a_waiting_task_once() {
    let stored: Arc<Mutex<Vec<Waker>>> = Arc::new(Mutex::new(vec![]));
    let future_stored = stored.clone();
    let mut first = true;
    let future = std::future::poll_fn(move |cx| {
        if first {
            first = false;
            let mut stored = future_stored.lock().unwrap();
            stored.push(cx.waker().clone());
            stored.push(cx.waker().clone());
            StdPoll::Pending
        } else {
            StdPoll::Ready(())
        }
    });

    let (queue_tx, queue_rx) = mpsc::channel();
    let reschedule = move |task| queue_tx.send(task).unwrap();
    let task: Task<&'static str, FutureCell> = Task::new("name", cell(future));
    let result = task.poll(reschedule.clone(), &mut new_trace()).unwrap();
    assert!(result.is_pending());
    // nobody has woken the task yet
    assert!(queue_rx.try_recv().is_err());

    let wakers = std::mem::take(&mut *stored.lock().unwrap());
    for waker in &wakers {
        waker.wake_by_ref();
    }
    let task = queue_rx.try_recv().unwrap();
    assert!(queue_rx.try_recv().is_err());
    assert_eq!(*task.metadata(), "name");

    // outdated wakers do nothing, whether the task is idle or complete
    wakers[0].wake_by_ref();
    assert!(queue_rx.try_recv().is_err());
    assert!(task
        .poll(reschedule, &mut new_trace())
        .unwrap()
        .is_ready());
    for waker in wakers {
        waker.wake();
    }
    assert!(queue_rx.try_recv().is_err());
}

#[test]
fn a_task_can_be_polled_past_the_reset_interval() {
    let (queue_tx, queue_rx) = mpsc::channel();
    let reschedule = move |task| queue_tx.send(task).unwrap();
    let mut task: Task<(), FutureCell> = Task::new((), cell(Yield(70_000)));
    let mut polls = 1;
    while task
        .poll(reschedule.clone(), &mut new_trace())
        .unwrap()
        .is_pending()
    {
        task = queue_rx.try_recv().unwrap();
        assert!(queue_rx.try_recv().is_err());
        polls += 1;
    }
    assert_eq!(polls, 70_001);
}

#[test]
fn a_work_queue_runs_all_tasks() {
    let num_tasks = 50;
    let (queue_tx, queue_rx) = mpsc::channel::<Task<usize, FutureCell>>();
    for i in 0..num_tasks {
        queue_tx.send(Task::new(i, cell(Yield(20)))).unwrap();
    }
    let reschedule = move |task| queue_tx.send(task).unwrap();

    let mut completed = vec![];
    let mut num_polls = 0;
    while let Ok(task) = queue_rx.try_recv() {
        num_polls += 1;
        let metadata = *task.metadata();
        if task
            .poll(reschedule.clone(), &mut new_trace())
            .unwrap()
            .is_ready()
        {
            completed.push(metadata);
        }
    }
    completed.sort();
    assert_eq!(completed, (0..num_tasks).collect::<Vec<_>>());
    assert_eq!(num_polls, num_tasks * 21);
}

#[test]
fn a_waker_that_outlives_its_round_does_not_reschedule_a_later_one() {
    let stored: Arc<Mutex<Vec<Waker>>> = Arc::new(Mutex::new(vec![]));
    let future_stored = stored.clone();
    let mut remaining = 3;
    let future = std::future::poll_fn(move |cx| {
        if remaining == 0 {
            return StdPoll::Ready(());
        }
        remaining -= 1;
        future_stored.lock().unwrap().push(cx.waker().clone());
        StdPoll::Pending
    });

    let num_rescheduled = Arc::new(AtomicUsize::new(0));
    let (queue_tx, queue_rx) = mpsc::channel();
    let reschedule_counter = num_rescheduled.clone();
    let reschedule = move |task| {
        reschedule_counter.fetch_add(1, Ordering::SeqCst);
        queue_tx.send(task).unwrap();
    };
    let mut task: Task<(), FutureCell> = Task::new((), cell(future));
    for round in 0..3 {
        assert!(task
            .poll(reschedule.clone(), &mut new_trace())
            .unwrap()
            .is_pending());
        let wakers = stored.lock().unwrap().clone();
        assert_eq!(wakers.len(), round + 1);
        for waker in &wakers[..round] {
            waker.wake_by_ref();
        }
        assert_eq!(num_rescheduled.load(Ordering::SeqCst), round);
        wakers[round].wake_by_ref();
        assert_eq!(num_rescheduled.load(Ordering::SeqCst), round + 1);
        task = queue_rx.try_recv().unwrap();
    }
    assert!(task
        .poll(reschedule, &mut new_trace())
        .unwrap()
        .is_ready());
    assert_eq!(num_rescheduled.load(Ordering::SeqCst), 3);
}

#[test]
fn a_task_remains_the_same_for_its_whole_life() {
    let (queue_tx, queue_rx) = mpsc::channel();
    let reschedule = move |task| queue_tx.send(task).unwrap();
    let mut task: Task<Box<u32>, FutureCell> = Task::new(Box::new(7), cell(Yield(100)));
    let addr = format!("{:p}", &**task.metadata());
    for _ in 0..100 {
        assert!(task
            .poll(reschedule.clone(), &mut new_trace())
            .unwrap()
            .is_pending());
        task = queue_rx.try_recv().unwrap();
        assert_eq!(**task.metadata(), 7);
        assert_eq!(addr, format!("{:p}", &**task.metadata()));
    }
    assert!(task
        .poll(reschedule, &mut new_trace())
        .unwrap()
        .is_ready());
}

/// Counts how often it is cloned.
struct Clones(Arc<AtomicUsize>);

impl Clone for Clones {
    fn clone(&self) -> Self {
        self.0.fetch_add(1, Ordering::SeqCst);
        Clones(self.0.clone())
    }
}

#[test]
fn a_poll_clones_the_callback_once() {
    let num_clones = Arc::new(AtomicUsize::new(0));
    let clones = Clones(num_clones.clone());
    let reschedule = move |_: Task<(), FutureCell>| {
        let _clones = &clones;
        unreachable!()
    };
    let task: Task<(), FutureCell> = Task::new((), cell(Yield(0)));
    assert!(task
        .poll(reschedule, &mut new_trace())
        .unwrap()
        .is_ready());
    assert_eq!(num_clones.load(Ordering::SeqCst), 1);
}
