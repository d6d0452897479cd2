//! Smartpoll provides a [`Task`] type that makes it easy to write your own multithreaded executor
//! for async Rust.
//!
//! A [`Task`] is created from a future. To poll a task you just need to provide a closure that will
//! schedule the task to be polled again. This will be invoked if the task does not complete, but
//! only once the task is ready to be rescheduled. Tasks can also store metadata.
//!
//! Polling a task takes ownership of it, so that no other code on any thread has access to its
//! future. The future is given a waker that it can use to signal that it is ready to be
//! rescheduled. [`Task::poll`] and the waker communicate to ensure that the task is not rescheduled
//! until after the future has returned, and is then rescheduled exactly once, even if the waker is
//! cloned. So the future is only ever accessible to one thread at any given time.
//!
//!   - [`task`] holds the task and its wakers.
//!   - [`algorithm`] explains and implements the synchronisation.
//!   - [`counter`] and [`access`] are the shared counter by which the threads communicate, and
//!     [`trace`] is the record of what they do.
//!   - [`round`] and [`execution`] prove that the synchronisation is correct however the threads are
//!     scheduled: the former for a single poll of the task, the latter for its whole life.
//!   - [`laws`] states what the calls of this library do and how they relate to each other.
//!
//! How a future is stored and polled is left to the [`task::Pollable`] trait: it takes pinning and
//! interior mutability, which are outside the reach of these proofs.
pub mod access;
pub mod algorithm;
pub mod counter;
pub mod execution;
pub mod laws;
pub mod round;
pub mod task;
pub mod trace;

pub use task::Task;
