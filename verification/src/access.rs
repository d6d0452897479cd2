//! Creating and reading counters.
use crate::counter::{self, Counter, Trace};
use vstd::prelude::*;

verus! {

impl Counter {
    /// Creates a counter that holds `value`.
    pub fn new(value: usize) -> (counter: Self)
        ensures
            counter.initial() == value,
    {
        counter::create(value)
    }

    /// Returns the value of the counter.
    pub fn get(&self, trace: &mut Trace) -> (value: usize)
        ensures
            final(trace)@ == old(trace)@.push(counter::access(*self, value, value)),
    {
        counter::load(self, trace)
    }
}

} // verus!
