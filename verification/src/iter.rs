//! A lazy ascending sequence, the demonstration of suspendable computation
//! outside I/O: each drive yields the next natural number, resuming exactly
//! where it left off. The embedding program prints the values; the
//! generator itself is pure state.

use vstd::prelude::*;

verus! {

/// The endless ascending sequence, paused between elements.
pub struct Counter {
    next_n: u64,
}

impl Counter {
    /// The value the next drive will yield.
    pub closed spec fn next_view(&self) -> u64 {
        self.next_n
    }

    /// The value the next drive will yield, without advancing.
    pub fn peek_next(&self) -> (n: u64)
        ensures
            n == self.next_view(),
    {
        self.next_n
    }

    /// One drive: yield the current value and move past it.
    pub fn next_value(&mut self) -> (n: u64)
        requires
            old(self).next_view() < u64::MAX,
        ensures
            n == old(self).next_view(),
            final(self).next_view() == old(self).next_view() + 1,
    {
        let n = self.next_n;
        self.next_n = self.next_n + 1;
        n
    }
}

/// The sequence of every natural number, starting at zero.
pub fn inf() -> (c: Counter)
    ensures
        c.next_view() == 0,
{
    Counter { next_n: 0 }
}

} // verus!
