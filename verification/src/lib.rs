//! Concurrency primitives as verified models: a spin lock, two futex
//! mutexes, one-shot and queue channels, reference counting with and
//! without weak pointers, lazy initialisation races, and the work queue of
//! a condition variable, each as a sequentially consistent model (the spin
//! lock also with the views its acquire and release ordering keeps); and
//! a lock guarding a relaxed counter, modelled with the counter's
//! modification order and each thread's view, where acquire and release
//! ordering is what keeps every increment.
//! Each call is one atomic step of one thread; the invariants of each
//! protocol are proved to hold after every step.
use vstd::prelude::*;

pub mod cell;
pub mod chapter2;
pub mod chapter3;
pub mod chapter4;
pub mod chapter5;
pub mod chapter6;
pub mod chapter7;
pub mod chapter9;
pub mod thread;

verus! {

/// Adds ten to the integer behind `num`.
pub fn add_ten(num: &mut i32)
    requires
        *old(num) + 10 <= i32::MAX,
    ensures
        *final(num) == *old(num) + 10,
{
    *num += 10;
}

} // verus!
