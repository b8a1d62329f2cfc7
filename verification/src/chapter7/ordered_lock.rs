//! The lock of the memory-ordering measurements, a flag taken with `swap`
//! and released with `store`, guarding a counter that is loaded and stored
//! with relaxed operations; modelled with the order of the counter's
//! modifications rather than as sequentially consistent.
//!
//! The counter's writes are kept in their modification order. Each thread
//! has a view: the index of the latest write it is bound to see. A relaxed
//! load may return any write from the thread's view on, and moves the view
//! up to it. An `Acquire` swap that reads the `Release` store of an unlock
//! brings the unlocking thread's view along; with `Relaxed` on both ends
//! (the compiler fences order nothing in the processor) nothing is brought
//! along. The flag itself is only touched by read-modify-write swaps and
//! the unlocking store, so a swap always reads its latest value.
use vstd::prelude::*;

verus! {

/// Where one thread stands in one round of its loop.
#[derive(Clone, Copy, Debug, PartialEq, Eq, Structural)]
pub enum CounterStep {
    /// Not in the lock.
    Idle,
    /// Its last swap saw the flag set; it swaps again.
    Spinning,
    /// Holds the lock.
    Locked,
    /// Holds the lock and has loaded this value of the counter.
    Loaded(usize),
    /// Holds the lock and has stored the incremented value.
    Stored,
}

/// One thread: its view of the counter and where it stands.
#[derive(Clone, Copy, Debug, PartialEq, Eq, Structural)]
pub struct CounterThread {
    pub view: usize,
    pub step: CounterStep,
}

/// The thread is inside the lock.
pub open spec fn in_lock(x: CounterThread) -> bool {
    x.step is Locked || x.step is Loaded || x.step is Stored
}

/// No two threads are inside the lock at once.
pub open spec fn one_inside(s: Seq<CounterThread>) -> bool {
    forall|i: int, j: int|
        0 <= i < s.len() && 0 <= j < s.len() && in_lock(s[i]) && in_lock(s[j]) ==> i == j
}

/// Some thread is inside the lock.
pub open spec fn someone_inside(s: Seq<CounterThread>) -> bool {
    exists|i: int| 0 <= i < s.len() && in_lock(s[i])
}

/// Every write of the counter is one more than the write before it: the
/// counter equals the number of increments.
pub open spec fn counts_every_increment(w: Seq<usize>) -> bool {
    forall|i: int| 0 <= i < w.len() ==> w[i] == i
}

/// What acquire and release ordering keep: the last unlock published every
/// write, the thread inside the lock sees the latest write, and what it
/// loaded is the latest write.
pub open spec fn ordered_inv(locked: bool, flag_view: nat, w: Seq<usize>, s: Seq<CounterThread>) -> bool {
    &&& counts_every_increment(w)
    &&& !locked ==> flag_view == w.len() - 1
    &&& forall|i: int| 0 <= i < s.len() && in_lock(s[i]) ==> s[i].view == w.len() - 1
    &&& forall|i: int|
        0 <= i < s.len() && (#[trigger] s[i]).step is Loaded ==> s[i].step->Loaded_0 == w.len() - 1
}

/// The flag, the counter's writes in modification order, and the threads.
pub struct OrderedLock {
    acquire_release: bool,
    locked: bool,
    flag_view: usize,
    writes: Vec<usize>,
    threads: Vec<CounterThread>,
}

impl OrderedLock {
    /// Whether the lock is taken with `Acquire` and released with
    /// `Release` (otherwise both are `Relaxed`).
    pub closed spec fn acquire_release(&self) -> bool {
        self.acquire_release
    }

    /// Whether the flag is set.
    pub closed spec fn locked(&self) -> bool {
        self.locked
    }

    /// The view that the last store to the flag published.
    pub closed spec fn flag_view(&self) -> nat {
        self.flag_view as nat
    }

    /// The counter's writes in modification order, the initial 0 first.
    pub closed spec fn writes(&self) -> Seq<usize> {
        self.writes@
    }

    /// The registered threads.
    pub closed spec fn threads(&self) -> Seq<CounterThread> {
        self.threads@
    }

    /// The invariant: at most one thread inside the lock, the flag set
    /// exactly while one is, every view pointing at a write, and with
    /// acquire and release ordering also `ordered_inv`.
    pub open spec fn wf(&self) -> bool {
        &&& self.writes().len() >= 1
        &&& self.flag_view() < self.writes().len()
        &&& forall|i: int|
            0 <= i < self.threads().len() ==> (#[trigger] self.threads()[i]).view
                < self.writes().len()
        &&& one_inside(self.threads())
        &&& (self.locked() <==> someone_inside(self.threads()))
        &&& self.acquire_release() ==> ordered_inv(
            self.locked(),
            self.flag_view(),
            self.writes(),
            self.threads(),
        )
    }

    /// A free lock and a counter of 0, with no threads yet.
    pub fn new(acquire_release: bool) -> (r: Self)
        ensures
            r.wf(),
            r.acquire_release() == acquire_release,
            !r.locked(),
            r.flag_view() == 0,
            r.writes() == seq![0usize],
            r.threads() == Seq::<CounterThread>::empty(),
    {
        let mut writes: Vec<usize> = Vec::new();
        writes.push(0);
        OrderedLock { acquire_release, locked: false, flag_view: 0, writes, threads: Vec::new() }
    }

    /// Thread `t`, as it stands.
    pub fn thread(&self, t: usize) -> (x: CounterThread)
        requires
            t < self.threads().len(),
        ensures
            x == self.threads()[t as int],
    {
        self.threads[t]
    }

    /// The counter's value once every thread has been joined: its last
    /// write.
    pub fn value(&self) -> (v: usize)
        requires
            self.wf(),
        ensures
            v == self.writes().last(),
    {
        self.writes[self.writes.len() - 1]
    }

    /// Spawns one more thread, which starts outside the lock and sees the
    /// counter's initial write; returns its index.
    pub fn add_thread(&mut self) -> (t: usize)
        requires
            old(self).wf(),
            old(self).threads().len() < usize::MAX,
        ensures
            final(self).wf(),
            t == old(self).threads().len(),
            final(self).threads() == old(self).threads().push(
                CounterThread { view: 0, step: CounterStep::Idle },
            ),
            final(self).writes() == old(self).writes(),
            final(self).locked() == old(self).locked(),
            final(self).flag_view() == old(self).flag_view(),
            final(self).acquire_release() == old(self).acquire_release(),
    {
        let t = self.threads.len();
        self.threads.push(CounterThread { view: 0, step: CounterStep::Idle });
        proof {
            let s0 = old(self).threads@;
            let s1 = self.threads@;
            assert forall|i: int| 0 <= i < s0.len() implies s1[i] == s0[i] by {}
            if someone_inside(s0) {
                let h = choose|h: int| 0 <= h < s0.len() && in_lock(s0[h]);
                assert(in_lock(s1[h]));
            }
            if someone_inside(s1) {
                let h = choose|h: int| 0 <= h < s1.len() && in_lock(s1[h]);
                assert(in_lock(s0[h]));
            }
        }
        t
    }

    /// One round of the spinning loop of thread `t`: `swap(true)`. If the
    /// flag was clear the thread is inside the lock, and with `Acquire` it
    /// now sees at least what the last unlock published; otherwise it
    /// spins.
    pub fn lock(&mut self, t: usize)
        requires
            old(self).wf(),
            t < old(self).threads().len(),
            !in_lock(old(self).threads()[t as int]),
        ensures
            final(self).wf(),
            final(self).locked(),
            final(self).writes() == old(self).writes(),
            final(self).flag_view() == old(self).flag_view(),
            final(self).acquire_release() == old(self).acquire_release(),
            ({
                let x = old(self).threads()[t as int];
                let seen = if old(self).acquire_release() && x.view < old(self).flag_view() {
                    old(self).flag_view()
                } else {
                    x.view as nat
                };
                &&& !old(self).locked() ==> final(self).threads() == old(self).threads().update(
                    t as int,
                    CounterThread { view: seen as usize, step: CounterStep::Locked },
                )
                &&& old(self).locked() ==> final(self).threads() == old(self).threads().update(
                    t as int,
                    CounterThread { view: x.view, step: CounterStep::Spinning },
                )
            }),
    {
        let ghost s0 = self.threads@;
        let x = self.threads[t];
        let was = self.locked;
        self.locked = true;
        if !was {
            let view = if self.acquire_release && x.view < self.flag_view {
                self.flag_view
            } else {
                x.view
            };
            self.threads.set(t, CounterThread { view, step: CounterStep::Locked });
            proof {
                let s1 = self.threads@;
                assert(!someone_inside(s0));
                assert forall|i: int| 0 <= i < s1.len() && i != t implies !in_lock(s1[i]) by {
                    assert(s1[i] == s0[i]);
                    if in_lock(s0[i]) {
                        assert(someone_inside(s0));
                    }
                }
                assert(in_lock(s1[t as int]));
            }
        } else {
            self.threads.set(t, CounterThread { view: x.view, step: CounterStep::Spinning });
            proof {
                let s1 = self.threads@;
                let h = choose|h: int| 0 <= h < s0.len() && in_lock(s0[h]);
                assert(h != t);
                assert(s1[h] == s0[h]);
                assert(in_lock(s1[h]));
                assert forall|i: int| 0 <= i < s1.len() && in_lock(s1[i]) implies i != t && s1[i]
                    == s0[i] by {}
            }
        }
    }

    /// Thread `t`, inside the lock, loads the counter (`Relaxed`) and reads
    /// write `r`, which must be at or after its view; its view moves up to
    /// `r`. The value read is returned.
    pub fn load(&mut self, t: usize, r: usize) -> (v: usize)
        requires
            old(self).wf(),
            t < old(self).threads().len(),
            old(self).threads()[t as int].step == CounterStep::Locked,
            old(self).threads()[t as int].view <= r < old(self).writes().len(),
        ensures
            final(self).wf(),
            v == old(self).writes()[r as int],
            final(self).threads() == old(self).threads().update(
                t as int,
                CounterThread { view: r, step: CounterStep::Loaded(v) },
            ),
            final(self).writes() == old(self).writes(),
            final(self).locked() == old(self).locked(),
            final(self).flag_view() == old(self).flag_view(),
            final(self).acquire_release() == old(self).acquire_release(),
    {
        let v = self.writes[r];
        let ghost s0 = self.threads@;
        self.threads.set(t, CounterThread { view: r, step: CounterStep::Loaded(v) });
        proof {
            let s1 = self.threads@;
            assert forall|i: int| 0 <= i < s1.len() && i != t implies s1[i] == s0[i] by {}
            assert(in_lock(s1[t as int]));
            assert forall|i: int| 0 <= i < s1.len() && in_lock(s1[i]) implies in_lock(s0[i]) by {}
            assert(in_lock(s0[t as int]));
        }
        v
    }

    /// Thread `t` stores the value it loaded plus one (`Relaxed`): a new
    /// write at the end of the modification order, which its view moves
    /// to. The increment must not overflow.
    pub fn store(&mut self, t: usize)
        requires
            old(self).wf(),
            t < old(self).threads().len(),
            old(self).threads()[t as int].step is Loaded,
            old(self).threads()[t as int].step->Loaded_0 < usize::MAX,
            old(self).writes().len() < usize::MAX,
        ensures
            final(self).wf(),
            final(self).writes() == old(self).writes().push(
                (old(self).threads()[t as int].step->Loaded_0 + 1) as usize,
            ),
            final(self).threads() == old(self).threads().update(
                t as int,
                CounterThread {
                    view: old(self).writes().len() as usize,
                    step: CounterStep::Stored,
                },
            ),
            final(self).locked() == old(self).locked(),
            final(self).flag_view() == old(self).flag_view(),
            final(self).acquire_release() == old(self).acquire_release(),
    {
        let x = self.threads[t];
        let v = match x.step {
            CounterStep::Loaded(v) => v,
            _ => 0,
        };
        let ghost s0 = self.threads@;
        let n = self.writes.len();
        self.writes.push(v + 1);
        self.threads.set(t, CounterThread { view: n, step: CounterStep::Stored });
        proof {
            let s1 = self.threads@;
            let w0 = old(self).writes@;
            let w1 = self.writes@;
            assert forall|i: int| 0 <= i < s1.len() && i != t implies s1[i] == s0[i] by {}
            assert forall|i: int| 0 <= i < s1.len() && in_lock(s1[i]) implies in_lock(s0[i]) by {}
            assert(in_lock(s0[t as int]));
            assert(in_lock(s1[t as int]));
            assert forall|i: int| 0 <= i < s1.len() implies (#[trigger] s1[i]).view < w1.len() by {
                if i != t {
                    assert(s1[i] == s0[i]);
                }
            }
            if self.acquire_release {
                assert forall|i: int| 0 <= i < w1.len() implies w1[i] == i by {
                    if i < w0.len() {
                        assert(w1[i] == w0[i]);
                    }
                }
                assert forall|i: int| 0 <= i < s1.len() && in_lock(s1[i]) implies s1[i].view
                    == w1.len() - 1 by {
                    if i != t {
                        assert(in_lock(s0[i]));
                    }
                }
                assert forall|i: int|
                    0 <= i < s1.len() && (#[trigger] s1[i]).step is Loaded implies s1[i].step->Loaded_0
                    == w1.len() - 1 by {
                    if i != t {
                        assert(in_lock(s0[i]));
                    }
                }
            }
        }
    }

    /// Thread `t` unlocks: `store(false)`. With `Release` the store
    /// publishes the thread's view; with `Relaxed` it publishes nothing
    /// beyond the initial write.
    pub fn unlock(&mut self, t: usize)
        requires
            old(self).wf(),
            t < old(self).threads().len(),
            old(self).threads()[t as int].step == CounterStep::Stored,
        ensures
            final(self).wf(),
            !final(self).locked(),
            final(self).flag_view() == (if old(self).acquire_release() {
                old(self).threads()[t as int].view as nat
            } else {
                0
            }),
            final(self).threads() == old(self).threads().update(
                t as int,
                CounterThread { view: old(self).threads()[t as int].view, step: CounterStep::Idle },
            ),
            final(self).writes() == old(self).writes(),
            final(self).acquire_release() == old(self).acquire_release(),
    {
        let x = self.threads[t];
        let ghost s0 = self.threads@;
        self.locked = false;
        self.flag_view = if self.acquire_release {
            x.view
        } else {
            0
        };
        self.threads.set(t, CounterThread { view: x.view, step: CounterStep::Idle });
        proof {
            let s1 = self.threads@;
            assert(in_lock(s0[t as int]));
            assert forall|i: int| 0 <= i < s1.len() implies !in_lock(s1[i]) by {
                if i != t {
                    assert(s1[i] == s0[i]);
                }
            }
            assert forall|i: int| 0 <= i < s1.len() implies (#[trigger] s1[i]).view
                < self.writes@.len() by {
                if i != t {
                    assert(s1[i] == s0[i]);
                }
            }
        }
    }
}

/// With acquire and release ordering no increment is lost: under the
/// invariant `wf`, which `new` establishes and every step re-establishes,
/// the counter's latest write equals the number of increments made, and a
/// thread inside the lock sees the latest write, so its load can return
/// nothing older.
pub proof fn lemma_no_lost_increment(c: &OrderedLock)
    requires
        c.wf(),
        c.acquire_release(),
    ensures
        c.writes().last() == c.writes().len() - 1,
        forall|i: int|
            0 <= i < c.threads().len() && in_lock(c.threads()[i]) ==> c.threads()[i].view
                == c.writes().len() - 1,
{
}

} // verus!
