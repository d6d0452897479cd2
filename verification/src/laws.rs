//! What the calls of this library do, and how they relate to each other.
//!
//! Each law speaks of calls: of what went into them, of what they returned, and of the events by which
//! they continued the trace that they were given. An access to a counter is given by the value that
//! it found and by the value that it left.
//!
//!   - [`steps`] is about the steps of the algorithm.
//!   - [`calls`] is about polling tasks and invoking wakers.
//!   - [`relations`] is about polls and invocations that follow each other.
pub mod calls;
pub mod relations;
pub mod steps;
