//! Counters that are moved to, or shared with, another thread.
//!
//! `Counter` is moved between threads: one owner at a time counts its hits.
//! (A `Cell` would let it count through `&self`;
//! here the owner counts through `&mut self`, which is what moving it
//! guarantees anyway.) `CounterSync` is shared: its count is an atomic that
//! several threads increment at once.
use vstd::prelude::*;
use std::sync::atomic::{AtomicU32, Ordering};

verus! {

/// A counter owned by one thread at a time.
#[derive(Debug)]
pub struct Counter {
    hits: u32,
}

impl Counter {
    /// The number of hits so far.
    pub closed spec fn count(&self) -> nat {
        self.hits as nat
    }

    /// A counter with no hits.
    pub fn new() -> (c: Self)
        ensures
            c.count() == 0,
    {
        Counter { hits: 0 }
    }

    /// Counts one hit. The increment overflows (and panics) at `u32::MAX`.
    pub fn hit(&mut self)
        requires
            old(self).count() < u32::MAX,
        ensures
            final(self).count() == old(self).count() + 1,
    {
        self.hits = self.hits + 1;
    }

    /// The number of hits so far.
    pub fn hits(&self) -> (n: u32)
        ensures
            n == self.count(),
    {
        self.hits
    }
}

/// A counter shared between threads.
#[derive(Debug)]
pub struct CounterSync {
    hits: AtomicU32,
}

impl CounterSync {
    /// A counter with no hits.
    pub fn new() -> Self {
        CounterSync { hits: AtomicU32::new(0) }
    }

    /// Counts one hit: `fetch_add(1)`, which wraps on overflow. Other
    /// threads may count at the same time, so nothing is stated of the
    /// count itself.
    pub fn hit(&self) {
        self.hits.fetch_add(1, Ordering::SeqCst);
    }

    /// The count as one load sees it; other threads may change it at any
    /// time.
    pub fn hits(&self) -> u32 {
        self.hits.load(Ordering::SeqCst)
    }
}

} // verus!
