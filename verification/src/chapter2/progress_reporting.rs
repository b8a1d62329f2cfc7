//! The progress-reporting demos: how long processing one item takes, and
//! what the main thread reports about the workers' progress.
//!
//! Each item's simulated work time is derived from its number by a cheap
//! hash, so that items take between 20 and 69 milliseconds.
use vstd::prelude::*;

verus! {

/// The multiplier of the hash (the 64-bit golden-ratio constant).
pub const HASH_MULTIPLIER: u64 = 0x9E3779B97F4A7C15;

/// A 64-bit word with its two halves swapped: rotating left by 32 bits.
pub open spec fn swap_halves(h: u64) -> u64 {
    (h << 32u64) | (h >> 32u64)
}

/// The work time, in milliseconds, of item `x`.
pub open spec fn delay_of(x: u64) -> u64 {
    (swap_halves(((x as nat * HASH_MULTIPLIER as nat) % 0x1_0000_0000_0000_0000) as u64) % 50
        + 20) as u64
}

/// The work time, in milliseconds, of item `x`: the item number times the
/// multiplier (wrapping), rotated by 32 bits, reduced to 20..=69.
pub fn work_delay_ms(x: u64) -> (d: u64)
    ensures
        d == delay_of(x),
        20 <= d < 70,
{
    let h = x.wrapping_mul(HASH_MULTIPLIER);
    let rotated = (h << 32u64) | (h >> 32u64);
    rotated % 50 + 20
}

/// What the main thread reports, once it has read how many of the hundred
/// items are done and their total processing time.
#[derive(Clone, Copy, Debug, PartialEq, Eq, Structural)]
pub enum Progress {
    /// All hundred items are done: reporting stops.
    Done,
    /// No item is done yet.
    NothingDone,
    /// `done` items are done, in the average time given in whole seconds
    /// and the nanoseconds beyond them.
    Working { done: usize, average_secs: u64, average_subsec_nanos: u32 },
}

/// The average processing time in nanoseconds, rounded down, of `n` items
/// that took `total_micros` microseconds together.
pub open spec fn average_nanos(total_micros: u64, n: u32) -> int {
    (total_micros * 1000) / (n as int)
}

/// The report for `n` items done in `total_micros` microseconds in all.
/// At a hundred the work is done; at none there is nothing to average;
/// otherwise the total is divided by `n` taken as a `u32`, which must not
/// be zero (the division would panic).
pub fn progress(n: usize, total_micros: u64) -> (p: Progress)
    requires
        n == 0 || n == 100 || n as u32 != 0,
    ensures
        n == 100 ==> p == Progress::Done,
        n == 0 ==> p == Progress::NothingDone,
        n != 0 && n != 100 ==> {
            &&& p matches Progress::Working { done, average_secs, average_subsec_nanos }
            &&& done == n
            &&& average_secs * 1_000_000_000 + average_subsec_nanos == average_nanos(
                total_micros,
                n as u32,
            )
            &&& average_subsec_nanos < 1_000_000_000
        },
{
    if n == 100 {
        return Progress::Done;
    }
    if n == 0 {
        return Progress::NothingDone;
    }
    let d: u32 = n as u32;
    let total: u128 = total_micros as u128 * 1000;
    let average: u128 = total / (d as u128);
    assert(average <= total) by (nonlinear_arith)
        requires
            d > 0,
            average == total / (d as u128),
    ;
    let secs: u128 = average / 1_000_000_000;
    let nanos: u128 = average % 1_000_000_000;
    Progress::Working {
        done: n,
        average_secs: secs as u64,
        average_subsec_nanos: nanos as u32,
    }
}

} // verus!
