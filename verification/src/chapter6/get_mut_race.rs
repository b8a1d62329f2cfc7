//! The optimised `Arc`'s `get_mut` racing with every other operation, one
//! atomic step at a time.
//!
//! Each registered thread owns some `Arc`s and `Weak`s of one allocation.
//! `get_mut` locks the weak counter (`compare_exchange(1, usize::MAX)`),
//! looks at the `Arc` counter, and stores the weak counter back to 1;
//! `downgrade` loads the weak counter and retries its `compare_exchange`
//! while the counter is locked; `upgrade` loads the `Arc` counter and
//! retries its `compare_exchange`. Every interleaving of these steps keeps
//! the counters exact, and a thread that `get_mut` lets through is the only
//! owner of any handle for as long as it keeps the `&mut`.
use vstd::prelude::*;

verus! {

/// Where one thread stands.
#[derive(Clone, Copy, Debug, PartialEq, Eq, Structural)]
pub enum OpStep {
    /// In no operation.
    Idle,
    /// Dropped the last `Arc`; about to drop the data and the implicit weak.
    DroppingLast,
    /// In `downgrade`, having loaded the weak counter.
    DowngradeLoaded(usize),
    /// In `upgrade`, having loaded the `Arc` counter.
    UpgradeLoaded(usize),
    /// In `get_mut`, holding the weak counter locked.
    Locked,
    /// In `get_mut`, the weak counter locked, having seen whether the `Arc`
    /// counter was 1.
    Checked(bool),
    /// `get_mut` returned the `&mut`, which is still in use.
    Exclusive,
}

/// One thread: how many `Arc`s and `Weak`s it owns, and where it stands.
#[derive(Clone, Copy, Debug, PartialEq, Eq, Structural)]
pub struct ThreadState {
    pub arcs: usize,
    pub weaks: usize,
    pub step: OpStep,
}

/// The `Arc`s owned by all threads.
pub open spec fn total_arcs(s: Seq<ThreadState>) -> int
    decreases s.len(),
{
    if s.len() == 0 {
        0
    } else {
        total_arcs(s.drop_last()) + s.last().arcs
    }
}

/// The `Weak`s owned by all threads.
pub open spec fn total_weaks(s: Seq<ThreadState>) -> int
    decreases s.len(),
{
    if s.len() == 0 {
        0
    } else {
        total_weaks(s.drop_last()) + s.last().weaks
    }
}

/// Replacing one thread's state changes the totals by the difference.
pub proof fn lemma_totals_update(s: Seq<ThreadState>, i: int, x: ThreadState)
    requires
        0 <= i < s.len(),
    ensures
        total_arcs(s.update(i, x)) == total_arcs(s) - s[i].arcs + x.arcs,
        total_weaks(s.update(i, x)) == total_weaks(s) - s[i].weaks + x.weaks,
    decreases s.len(),
{
    let u = s.update(i, x);
    if i == s.len() - 1 {
        assert(u.drop_last() =~= s.drop_last());
    } else {
        lemma_totals_update(s.drop_last(), i, x);
        assert(u.drop_last() =~= s.drop_last().update(i, x));
    }
}

/// A new thread adds what it owns.
pub proof fn lemma_totals_push(s: Seq<ThreadState>, x: ThreadState)
    ensures
        total_arcs(s.push(x)) == total_arcs(s) + x.arcs,
        total_weaks(s.push(x)) == total_weaks(s) + x.weaks,
{
    assert(s.push(x).drop_last() =~= s);
}

/// No thread owns more than all threads, and when one thread owns all
/// of them the others own none.
pub proof fn lemma_totals_bound(s: Seq<ThreadState>, i: int)
    requires
        0 <= i < s.len(),
    ensures
        s[i].arcs <= total_arcs(s),
        s[i].weaks <= total_weaks(s),
        total_arcs(s) == s[i].arcs ==> forall|j: int|
            0 <= j < s.len() && j != i ==> #[trigger] s[j].arcs == 0,
    decreases s.len(),
{
    let p = s.drop_last();
    let n = s.len() - 1;
    lemma_totals_nonneg(p);
    assert(total_arcs(s) == total_arcs(p) + s[n].arcs);
    assert(total_weaks(s) == total_weaks(p) + s[n].weaks);
    if i == n {
        if total_arcs(s) == s[i].arcs {
            assert forall|j: int| 0 <= j < s.len() && j != i implies #[trigger] s[j].arcs == 0 by {
                lemma_totals_bound(p, j);
                assert(p[j] == s[j]);
            }
        }
    } else {
        lemma_totals_bound(p, i);
        assert(p[i] == s[i]);
        if total_arcs(s) == s[i].arcs {
            assert(s[n].arcs == 0);
            assert forall|j: int| 0 <= j < s.len() && j != i implies #[trigger] s[j].arcs == 0 by {
                if j != n {
                    assert(p[j] == s[j]);
                }
            }
        }
    }
}

/// The totals are never negative.
pub proof fn lemma_totals_nonneg(s: Seq<ThreadState>)
    ensures
        total_arcs(s) >= 0,
        total_weaks(s) >= 0,
    decreases s.len(),
{
    if s.len() > 0 {
        lemma_totals_nonneg(s.drop_last());
    }
}

/// When all threads own one `Arc` between them and thread `i` owns one,
/// no other thread owns any.
pub proof fn lemma_sole_arc(s: Seq<ThreadState>, i: int)
    requires
        0 <= i < s.len(),
        total_arcs(s) == 1,
        s[i].arcs >= 1,
    ensures
        s[i].arcs == 1,
        forall|j: int| 0 <= j < s.len() && j != i ==> #[trigger] s[j].arcs == 0,
{
    lemma_totals_bound(s, i);
}

/// Thread `i` stands at `step`.
pub open spec fn at(s: Seq<ThreadState>, i: int, step: OpStep) -> bool {
    0 <= i < s.len() && s[i].step == step
}

/// Thread `i` holds the weak counter locked.
pub open spec fn locking(s: Seq<ThreadState>, i: int) -> bool {
    0 <= i < s.len() && (s[i].step is Locked || s[i].step is Checked)
}

/// Some thread is dropping the last `Arc`.
pub open spec fn dropping(s: Seq<ThreadState>) -> bool {
    exists|i: int| at(s, i, OpStep::DroppingLast)
}

/// The weak count the `Arc`s hold together.
pub open spec fn implicit_weak(d: usize, s: Seq<ThreadState>) -> int {
    if d > 0 || dropping(s) {
        1
    } else {
        0
    }
}

/// What each thread's step needs of what it owns.
pub open spec fn step_ok(d: usize, x: ThreadState) -> bool {
    match x.step {
        OpStep::Idle => true,
        OpStep::DroppingLast => d == 0,
        OpStep::DowngradeLoaded(_) => x.arcs >= 1,
        OpStep::UpgradeLoaded(_) => x.weaks >= 1,
        OpStep::Locked => x.arcs >= 1,
        OpStep::Checked(unique) => x.arcs >= 1 && (unique ==> d == 1),
        OpStep::Exclusive => x.arcs == 1 && d == 1,
    }
}

/// The invariant of the race.
pub open spec fn race_inv(d: usize, a: usize, live: bool, s: Seq<ThreadState>) -> bool {
    &&& d == total_arcs(s)
    &&& d <= usize::MAX / 2 + 1
    &&& forall|i: int| 0 <= i < s.len() ==> step_ok(d, #[trigger] s[i])
    &&& forall|i: int, j: int| at(s, i, OpStep::DroppingLast) && at(s, j, OpStep::DroppingLast) ==> i == j
    &&& (live <==> d > 0 || dropping(s))
    &&& (a == usize::MAX <==> exists|i: int| locking(s, i))
    &&& forall|i: int, j: int| locking(s, i) && locking(s, j) ==> i == j
    &&& a == usize::MAX ==> total_weaks(s) == 0 && d >= 1
    &&& a != usize::MAX ==> a == total_weaks(s) + implicit_weak(d, s)
    &&& a != usize::MAX ==> a <= usize::MAX / 2 + 1
    &&& (exists|i: int| at(s, i, OpStep::Exclusive)) ==> total_weaks(s) == 0 && a == 1
}

/// The shared counters of one allocation and the threads that own handles
/// to it.
pub struct GetMutRace {
    data_ref_count: usize,
    alloc_ref_count: usize,
    data_live: bool,
    threads: Vec<ThreadState>,
}

impl GetMutRace {
    /// The `Arc` counter.
    pub closed spec fn data_count(&self) -> usize {
        self.data_ref_count
    }

    /// The weak counter (`usize::MAX` while locked).
    pub closed spec fn alloc_count(&self) -> usize {
        self.alloc_ref_count
    }

    /// Whether the data has not been dropped yet.
    pub closed spec fn data_live(&self) -> bool {
        self.data_live
    }

    /// Every thread's handles and step.
    pub closed spec fn threads(&self) -> Seq<ThreadState> {
        self.threads@
    }

    /// The invariant holds.
    pub open spec fn wf(&self) -> bool {
        race_inv(self.data_count(), self.alloc_count(), self.data_live(), self.threads())
    }

    /// A new allocation, whose one `Arc` is owned by thread 0.
    pub fn new() -> (r: Self)
        ensures
            r.wf(),
            r.data_count() == 1,
            r.alloc_count() == 1,
            r.data_live(),
            r.threads() == seq![ThreadState { arcs: 1, weaks: 0, step: OpStep::Idle }],
    {
        let mut threads = Vec::new();
        threads.push(ThreadState { arcs: 1, weaks: 0, step: OpStep::Idle });
        let r = GetMutRace {
            data_ref_count: 1,
            alloc_ref_count: 1,
            data_live: true,
            threads,
        };
        proof {
            let s = r.threads@;
            assert(s.drop_last() =~= Seq::<ThreadState>::empty());
            assert(total_arcs(Seq::<ThreadState>::empty()) == 0);
            assert(total_weaks(Seq::<ThreadState>::empty()) == 0);
            assert(total_arcs(s) == 1);
            assert(total_weaks(s) == 0);
            assert(!dropping(s));
            assert forall|i: int| !locking(s, i) by {}
        }
        r
    }

    /// Where thread `t` stands and what it owns.
    pub fn thread(&self, t: usize) -> (x: ThreadState)
        requires
            t < self.threads().len(),
        ensures
            x == self.threads()[t as int],
    {
        self.threads[t]
    }

    /// The weak counter, as it stands.
    pub fn current_alloc_count(&self) -> (a: usize)
        ensures
            a == self.alloc_count(),
    {
        self.alloc_ref_count
    }

    /// The `Arc` counter, as it stands.
    pub fn current_data_count(&self) -> (d: usize)
        ensures
            d == self.data_count(),
    {
        self.data_ref_count
    }

    /// Registers a thread that owns no handle yet; returns its index.
    pub fn add_thread(&mut self) -> (t: usize)
        requires
            old(self).wf(),
            old(self).threads().len() < usize::MAX,
        ensures
            final(self).wf(),
            t == old(self).threads().len(),
            final(self).threads() == old(self).threads().push(
                ThreadState { arcs: 0, weaks: 0, step: OpStep::Idle },
            ),
            final(self).data_count() == old(self).data_count(),
            final(self).alloc_count() == old(self).alloc_count(),
            final(self).data_live() == old(self).data_live(),
    {
        let t = self.threads.len();
        let x = ThreadState { arcs: 0, weaks: 0, step: OpStep::Idle };
        self.threads.push(x);
        proof {
            let s0 = old(self).threads@;
            let s1 = self.threads@;
            lemma_totals_push(s0, x);
            assert forall|i: int| 0 <= i < s1.len() implies step_ok(
                self.data_ref_count,
                #[trigger] s1[i],
            ) by {
                if i < s0.len() {
                    assert(s1[i] == s0[i]);
                }
            }
            assert forall|i: int| at(s1, i, OpStep::DroppingLast) <==> at(s0, i, OpStep::DroppingLast) by {}
            assert forall|i: int| locking(s1, i) <==> locking(s0, i) by {}
            assert forall|i: int| at(s1, i, OpStep::Exclusive) <==> at(s0, i, OpStep::Exclusive) by {}
            assert(dropping(s1) == dropping(s0));
        }
        t
    }

    /// `Arc::clone` by thread `t`: `fetch_add(1)` on the `Arc` counter. The
    /// process aborts when the counter before exceeds `usize::MAX / 2`.
    pub fn clone_arc(&mut self, t: usize)
        requires
            old(self).wf(),
            t < old(self).threads().len(),
            old(self).threads()[t as int].step == OpStep::Idle,
            old(self).threads()[t as int].arcs >= 1,
            old(self).data_count() <= usize::MAX / 2,
        ensures
            final(self).wf(),
            final(self).data_count() == old(self).data_count() + 1,
            final(self).alloc_count() == old(self).alloc_count(),
            final(self).data_live() == old(self).data_live(),
            final(self).threads() == old(self).threads().update(
                t as int,
                ThreadState {
                    arcs: (old(self).threads()[t as int].arcs + 1) as usize,
                    ..old(self).threads()[t as int]
                },
            ),
    {
        let ghost s0 = self.threads@;
        let d0 = self.data_ref_count;
        proof {
            lemma_totals_bound(s0, t as int);
        }
        let x = self.threads[t];
        let y = ThreadState { arcs: x.arcs + 1, ..x };
        self.data_ref_count = d0 + 1;
        self.threads.set(t, y);
        proof {
            let s1 = self.threads@;
            lemma_totals_update(s0, t as int, y);
            // No thread can be checking for, or holding, the sole `Arc`: t owns one.
            assert forall|i: int| 0 <= i < s1.len() implies step_ok(self.data_ref_count, #[trigger] s1[i]) by {
                if i != t as int {
                    assert(s1[i] == s0[i]);
                    assert(step_ok(d0, s0[i]));
                    if d0 == 1 && s0[i].arcs >= 1 {
                        lemma_sole_arc(s0, i);
                    }
                }
            }
            assert forall|i: int| !at(s1, i, OpStep::DroppingLast) by {
                if at(s1, i, OpStep::DroppingLast) {
                    assert(s1[i] == s0[i]);
                    assert(step_ok(d0, s0[i]));
                }
            }
            assert forall|i: int| !at(s0, i, OpStep::DroppingLast) by {
                if at(s0, i, OpStep::DroppingLast) {
                    assert(step_ok(d0, s0[i]));
                }
            }
            assert forall|i: int| locking(s1, i) <==> locking(s0, i) by {}
            assert forall|i: int| !at(s1, i, OpStep::Exclusive) by {
                if at(s1, i, OpStep::Exclusive) {
                    assert(s1[i] == s0[i]);
                    assert(step_ok(d0, s0[i]));
                    lemma_sole_arc(s0, i);
                }
            }
            if exists|i: int| locking(s0, i) {
                let i = choose|i: int| locking(s0, i);
                assert(locking(s1, i));
            }
        }
    }

    /// `Arc::drop` by thread `t`: `fetch_sub(1)` on the `Arc` counter. If it
    /// was the last `Arc` the thread goes on to drop the data and the
    /// implicit weak.
    pub fn drop_arc(&mut self, t: usize)
        requires
            old(self).wf(),
            t < old(self).threads().len(),
            old(self).threads()[t as int].step == OpStep::Idle,
            old(self).threads()[t as int].arcs >= 1,
        ensures
            final(self).wf(),
            final(self).data_count() == old(self).data_count() - 1,
            final(self).alloc_count() == old(self).alloc_count(),
            final(self).data_live() == old(self).data_live(),
            final(self).threads() == old(self).threads().update(
                t as int,
                ThreadState {
                    arcs: (old(self).threads()[t as int].arcs - 1) as usize,
                    weaks: old(self).threads()[t as int].weaks,
                    step: if old(self).data_count() == 1 {
                        OpStep::DroppingLast
                    } else {
                        OpStep::Idle
                    },
                },
            ),
    {
        let ghost s0 = self.threads@;
        let d0 = self.data_ref_count;
        proof {
            lemma_totals_bound(s0, t as int);
        }
        let x = self.threads[t];
        let step = if d0 == 1 {
            OpStep::DroppingLast
        } else {
            OpStep::Idle
        };
        let y = ThreadState { arcs: x.arcs - 1, weaks: x.weaks, step };
        self.data_ref_count = d0 - 1;
        self.threads.set(t, y);
        proof {
            let s1 = self.threads@;
            lemma_totals_update(s0, t as int, y);
            assert forall|i: int| 0 <= i < s1.len() && i != t implies s1[i] == s0[i] by {}
            assert forall|i: int| 0 <= i < s1.len() implies step_ok(
                self.data_ref_count,
                #[trigger] s1[i],
            ) by {
                if i != t as int {
                    assert(step_ok(d0, s0[i]));
                    if d0 == 1 && s0[i].arcs >= 1 {
                        lemma_sole_arc(s0, i);
                    }
                }
            }
            assert forall|i: int| !at(s0, i, OpStep::DroppingLast) by {
                if at(s0, i, OpStep::DroppingLast) {
                    assert(step_ok(d0, s0[i]));
                }
            }
            assert forall|i: int| at(s1, i, OpStep::DroppingLast) implies i == t by {}
            if d0 == 1 {
                assert(at(s1, t as int, OpStep::DroppingLast));
            }
            assert forall|i: int| locking(s1, i) <==> locking(s0, i) by {}
            if exists|i: int| locking(s0, i) {
                let i = choose|i: int| locking(s0, i);
                assert(locking(s1, i));
                assert(step_ok(d0, s0[i]));
                if d0 == 1 {
                    lemma_sole_arc(s0, i);
                }
            }
            assert forall|i: int| !at(s1, i, OpStep::Exclusive) by {
                if at(s1, i, OpStep::Exclusive) {
                    assert(step_ok(d0, s0[i]));
                    lemma_sole_arc(s0, i);
                }
            }
        }
    }

    /// Thread `t`, having dropped the last `Arc`, drops the data and then
    /// the implicit weak (`fetch_sub(1)` on the weak counter).
    pub fn finish_drop(&mut self, t: usize)
        requires
            old(self).wf(),
            t < old(self).threads().len(),
            old(self).threads()[t as int].step == OpStep::DroppingLast,
        ensures
            final(self).wf(),
            final(self).data_count() == old(self).data_count(),
            final(self).alloc_count() == old(self).alloc_count() - 1,
            !final(self).data_live(),
            final(self).threads() == old(self).threads().update(
                t as int,
                ThreadState { step: OpStep::Idle, ..old(self).threads()[t as int] },
            ),
    {
        let ghost s0 = self.threads@;
        proof {
            lemma_totals_nonneg(s0);
            assert(step_ok(self.data_ref_count, s0[t as int]));
            assert(at(s0, t as int, OpStep::DroppingLast));
            assert forall|i: int| !locking(s0, i) by {
                if locking(s0, i) {
                    assert(step_ok(self.data_ref_count, s0[i]));
                    lemma_totals_bound(s0, i);
                }
            }
        }
        let x = self.threads[t];
        let y = ThreadState { step: OpStep::Idle, ..x };
        self.data_live = false;
        self.alloc_ref_count = self.alloc_ref_count - 1;
        self.threads.set(t, y);
        proof {
            let s1 = self.threads@;
            lemma_totals_update(s0, t as int, y);
            assert forall|i: int| 0 <= i < s1.len() && i != t implies s1[i] == s0[i] by {}
            assert forall|i: int| !at(s1, i, OpStep::DroppingLast) by {
                if at(s1, i, OpStep::DroppingLast) {
                    assert(at(s0, i, OpStep::DroppingLast));
                }
            }
            assert forall|i: int| !locking(s1, i) by {
                if locking(s1, i) {
                    assert(locking(s0, i));
                }
            }
            assert forall|i: int| !at(s1, i, OpStep::Exclusive) by {
                if at(s1, i, OpStep::Exclusive) {
                    assert(step_ok(self.data_ref_count, s0[i]));
                }
            }
            assert forall|i: int| 0 <= i < s1.len() implies step_ok(
                self.data_ref_count,
                #[trigger] s1[i],
            ) by {
                if i != t as int {
                    assert(step_ok(self.data_ref_count, s0[i]));
                }
            }
        }
    }

    /// Thread `from` sends one of its `Arc`s to thread `to` (moving it
    /// between threads changes no counter).
    pub fn send_arc(&mut self, from: usize, to: usize)
        requires
            old(self).wf(),
            from < old(self).threads().len(),
            to < old(self).threads().len(),
            from != to,
            old(self).threads()[from as int].step == OpStep::Idle,
            old(self).threads()[to as int].step == OpStep::Idle,
            old(self).threads()[from as int].arcs >= 1,
        ensures
            final(self).wf(),
            final(self).data_count() == old(self).data_count(),
            final(self).alloc_count() == old(self).alloc_count(),
            final(self).data_live() == old(self).data_live(),
            final(self).threads() == old(self).threads().update(
                from as int,
                ThreadState {
                    arcs: (old(self).threads()[from as int].arcs - 1) as usize,
                    ..old(self).threads()[from as int]
                },
            ).update(
                to as int,
                ThreadState {
                    arcs: (old(self).threads()[to as int].arcs + 1) as usize,
                    ..old(self).threads()[to as int]
                },
            ),
    {
        let ghost s0 = self.threads@;
        proof {
            lemma_totals_bound(s0, from as int);
            lemma_totals_bound(s0, to as int);
        }
        let x = self.threads[from];
        let y = self.threads[to];
        let x1 = ThreadState { arcs: x.arcs - 1, ..x };
        let y1 = ThreadState { arcs: y.arcs + 1, ..y };
        self.threads.set(from, x1);
        let ghost s_mid = self.threads@;
        self.threads.set(to, y1);
        proof {
            let s1 = self.threads@;
            lemma_totals_update(s0, from as int, x1);
            lemma_totals_update(s_mid, to as int, y1);
            assert forall|i: int| 0 <= i < s1.len() && i != from && i != to implies s1[i] == s0[i] by {}
            self.lemma_two_idle_changed(s0, s1, from as int, to as int);
        }
    }

    /// Thread `from` sends one of its `Weak`s to thread `to`.
    pub fn send_weak(&mut self, from: usize, to: usize)
        requires
            old(self).wf(),
            from < old(self).threads().len(),
            to < old(self).threads().len(),
            from != to,
            old(self).threads()[from as int].step == OpStep::Idle,
            old(self).threads()[to as int].step == OpStep::Idle,
            old(self).threads()[from as int].weaks >= 1,
        ensures
            final(self).wf(),
            final(self).data_count() == old(self).data_count(),
            final(self).alloc_count() == old(self).alloc_count(),
            final(self).data_live() == old(self).data_live(),
            final(self).threads() == old(self).threads().update(
                from as int,
                ThreadState {
                    weaks: (old(self).threads()[from as int].weaks - 1) as usize,
                    ..old(self).threads()[from as int]
                },
            ).update(
                to as int,
                ThreadState {
                    weaks: (old(self).threads()[to as int].weaks + 1) as usize,
                    ..old(self).threads()[to as int]
                },
            ),
    {
        let ghost s0 = self.threads@;
        proof {
            lemma_totals_bound(s0, from as int);
            lemma_totals_bound(s0, to as int);
            lemma_totals_nonneg(s0);
        }
        let x = self.threads[from];
        let y = self.threads[to];
        let x1 = ThreadState { weaks: x.weaks - 1, ..x };
        let y1 = ThreadState { weaks: y.weaks + 1, ..y };
        self.threads.set(from, x1);
        let ghost s_mid = self.threads@;
        self.threads.set(to, y1);
        proof {
            let s1 = self.threads@;
            lemma_totals_update(s0, from as int, x1);
            lemma_totals_update(s_mid, to as int, y1);
            assert forall|i: int| 0 <= i < s1.len() && i != from && i != to implies s1[i] == s0[i] by {}
            self.lemma_two_idle_changed(s0, s1, from as int, to as int);
        }
    }

    /// Only two idle threads' handles changed, and both stay idle.
    proof fn lemma_two_idle_changed(&self, s0: Seq<ThreadState>, s1: Seq<ThreadState>, a: int, b: int)
        requires
            self.threads@ == s1,
            0 <= a < s0.len(),
            0 <= b < s0.len(),
            s1.len() == s0.len(),
            forall|i: int| 0 <= i < s0.len() && i != a && i != b ==> s1[i] == s0[i],
            s0[a].step == OpStep::Idle,
            s0[b].step == OpStep::Idle,
            s1[a].step == OpStep::Idle,
            s1[b].step == OpStep::Idle,
            forall|i: int| 0 <= i < s0.len() ==> step_ok(self.data_ref_count, #[trigger] s0[i]),
            forall|i: int, j: int|
                at(s0, i, OpStep::DroppingLast) && at(s0, j, OpStep::DroppingLast) ==> i == j,
            forall|i: int, j: int| locking(s0, i) && locking(s0, j) ==> i == j,
        ensures
            forall|i: int| 0 <= i < s1.len() ==> step_ok(self.data_ref_count, #[trigger] s1[i]),
            forall|i: int, j: int|
                at(s1, i, OpStep::DroppingLast) && at(s1, j, OpStep::DroppingLast) ==> i == j,
            forall|i: int, j: int| locking(s1, i) && locking(s1, j) ==> i == j,
            dropping(s1) == dropping(s0),
            (exists|i: int| locking(s1, i)) == (exists|i: int| locking(s0, i)),
            (exists|i: int| at(s1, i, OpStep::Exclusive)) == (exists|i: int|
                at(s0, i, OpStep::Exclusive)),
    {
        assert forall|i: int| 0 <= i < s1.len() implies step_ok(
            self.data_ref_count,
            #[trigger] s1[i],
        ) by {
            if i != a && i != b {
                assert(step_ok(self.data_ref_count, s0[i]));
            }
        }
        assert forall|i: int| at(s1, i, OpStep::DroppingLast) <==> at(s0, i, OpStep::DroppingLast) by {}
        assert forall|i: int| locking(s1, i) <==> locking(s0, i) by {}
        assert forall|i: int| at(s1, i, OpStep::Exclusive) <==> at(s0, i, OpStep::Exclusive) by {}
        if dropping(s0) {
            let i = choose|i: int| at(s0, i, OpStep::DroppingLast);
            assert(at(s1, i, OpStep::DroppingLast));
        }
        if dropping(s1) {
            let i = choose|i: int| at(s1, i, OpStep::DroppingLast);
            assert(at(s0, i, OpStep::DroppingLast));
        }
        if exists|i: int| locking(s0, i) {
            let i = choose|i: int| locking(s0, i);
            assert(locking(s1, i));
        }
        if exists|i: int| locking(s1, i) {
            let i = choose|i: int| locking(s1, i);
            assert(locking(s0, i));
        }
        if exists|i: int| at(s0, i, OpStep::Exclusive) {
            let i = choose|i: int| at(s0, i, OpStep::Exclusive);
            assert(at(s1, i, OpStep::Exclusive));
        }
        if exists|i: int| at(s1, i, OpStep::Exclusive) {
            let i = choose|i: int| at(s1, i, OpStep::Exclusive);
            assert(at(s0, i, OpStep::Exclusive));
        }
    }

    /// `Weak::clone` by thread `t`: `fetch_add(1)` on the weak counter. The
    /// process aborts when the counter before exceeds `usize::MAX / 2`.
    pub fn clone_weak(&mut self, t: usize)
        requires
            old(self).wf(),
            t < old(self).threads().len(),
            old(self).threads()[t as int].step == OpStep::Idle,
            old(self).threads()[t as int].weaks >= 1,
            old(self).alloc_count() <= usize::MAX / 2,
        ensures
            final(self).wf(),
            final(self).data_count() == old(self).data_count(),
            final(self).alloc_count() == old(self).alloc_count() + 1,
            final(self).data_live() == old(self).data_live(),
            final(self).threads() == old(self).threads().update(
                t as int,
                ThreadState {
                    weaks: (old(self).threads()[t as int].weaks + 1) as usize,
                    ..old(self).threads()[t as int]
                },
            ),
    {
        let ghost s0 = self.threads@;
        proof {
            lemma_totals_bound(s0, t as int);
        }
        let x = self.threads[t];
        let y = ThreadState { weaks: x.weaks + 1, ..x };
        self.alloc_ref_count = self.alloc_ref_count + 1;
        self.threads.set(t, y);
        proof {
            let s1 = self.threads@;
            lemma_totals_update(s0, t as int, y);
            self.lemma_unchanged_steps(s0, s1, t as int);
        }
    }

    /// `Weak::drop` by thread `t`: `fetch_sub(1)` on the weak counter; the
    /// last count frees the allocation.
    pub fn drop_weak(&mut self, t: usize)
        requires
            old(self).wf(),
            t < old(self).threads().len(),
            old(self).threads()[t as int].step == OpStep::Idle,
            old(self).threads()[t as int].weaks >= 1,
        ensures
            final(self).wf(),
            final(self).data_count() == old(self).data_count(),
            final(self).alloc_count() == old(self).alloc_count() - 1,
            final(self).data_live() == old(self).data_live(),
            final(self).threads() == old(self).threads().update(
                t as int,
                ThreadState {
                    weaks: (old(self).threads()[t as int].weaks - 1) as usize,
                    ..old(self).threads()[t as int]
                },
            ),
    {
        let ghost s0 = self.threads@;
        proof {
            lemma_totals_bound(s0, t as int);
        }
        let x = self.threads[t];
        let y = ThreadState { weaks: x.weaks - 1, ..x };
        self.alloc_ref_count = self.alloc_ref_count - 1;
        self.threads.set(t, y);
        proof {
            let s1 = self.threads@;
            lemma_totals_update(s0, t as int, y);
            self.lemma_unchanged_steps(s0, s1, t as int);
        }
    }

    /// Only thread `t`'s handles changed, and its step stayed `Idle`: what
    /// the invariant says of the steps carries over.
    proof fn lemma_unchanged_steps(&self, s0: Seq<ThreadState>, s1: Seq<ThreadState>, t: int)
        requires
            0 <= t < s0.len(),
            s1.len() == s0.len(),
            forall|i: int| 0 <= i < s0.len() && i != t ==> s1[i] == s0[i],
            s0[t].step == OpStep::Idle,
            s1[t].step == OpStep::Idle,
            forall|i: int| 0 <= i < s0.len() ==> step_ok(self.data_ref_count, #[trigger] s0[i]),
        ensures
            forall|i: int| 0 <= i < s1.len() ==> step_ok(self.data_ref_count, #[trigger] s1[i]),
            forall|i: int| at(s1, i, OpStep::DroppingLast) <==> at(s0, i, OpStep::DroppingLast),
            forall|i: int| locking(s1, i) <==> locking(s0, i),
            forall|i: int| at(s1, i, OpStep::Exclusive) <==> at(s0, i, OpStep::Exclusive),
            dropping(s1) == dropping(s0),
            (exists|i: int| locking(s1, i)) == (exists|i: int| locking(s0, i)),
            (exists|i: int| at(s1, i, OpStep::Exclusive)) == (exists|i: int|
                at(s0, i, OpStep::Exclusive)),
    {
        assert forall|i: int| 0 <= i < s1.len() implies step_ok(
            self.data_ref_count,
            #[trigger] s1[i],
        ) by {
            if i != t {
                assert(step_ok(self.data_ref_count, s0[i]));
            }
        }
        assert forall|i: int| at(s1, i, OpStep::DroppingLast) <==> at(s0, i, OpStep::DroppingLast) by {}
        assert forall|i: int| locking(s1, i) <==> locking(s0, i) by {}
        assert forall|i: int| at(s1, i, OpStep::Exclusive) <==> at(s0, i, OpStep::Exclusive) by {}
        if dropping(s0) {
            let i = choose|i: int| at(s0, i, OpStep::DroppingLast);
            assert(at(s1, i, OpStep::DroppingLast));
        }
        if dropping(s1) {
            let i = choose|i: int| at(s1, i, OpStep::DroppingLast);
            assert(at(s0, i, OpStep::DroppingLast));
        }
        if exists|i: int| locking(s0, i) {
            let i = choose|i: int| locking(s0, i);
            assert(locking(s1, i));
        }
        if exists|i: int| locking(s1, i) {
            let i = choose|i: int| locking(s1, i);
            assert(locking(s0, i));
        }
        if exists|i: int| at(s0, i, OpStep::Exclusive) {
            let i = choose|i: int| at(s0, i, OpStep::Exclusive);
            assert(at(s1, i, OpStep::Exclusive));
        }
        if exists|i: int| at(s1, i, OpStep::Exclusive) {
            let i = choose|i: int| at(s1, i, OpStep::Exclusive);
            assert(at(s0, i, OpStep::Exclusive));
        }
    }

    /// Changes only thread `t`'s step, to one that the invariant allows
    /// given what `t` owns; the counters stay.
    fn set_step(&mut self, t: usize, step: OpStep)
        requires
            t < old(self).threads().len(),
        ensures
            final(self).threads() == old(self).threads().update(
                t as int,
                ThreadState { step, ..old(self).threads()[t as int] },
            ),
            final(self).data_count() == old(self).data_count(),
            final(self).alloc_count() == old(self).alloc_count(),
            final(self).data_live() == old(self).data_live(),
    {
        let x = self.threads[t];
        self.threads.set(t, ThreadState { step, ..x });
    }

    /// `downgrade` by thread `t` starts: it loads the weak counter.
    pub fn downgrade_load(&mut self, t: usize)
        requires
            old(self).wf(),
            t < old(self).threads().len(),
            old(self).threads()[t as int].step == OpStep::Idle,
            old(self).threads()[t as int].arcs >= 1,
        ensures
            final(self).wf(),
            final(self).data_count() == old(self).data_count(),
            final(self).alloc_count() == old(self).alloc_count(),
            final(self).data_live() == old(self).data_live(),
            final(self).threads() == old(self).threads().update(
                t as int,
                ThreadState {
                    step: OpStep::DowngradeLoaded(old(self).alloc_count()),
                    ..old(self).threads()[t as int]
                },
            ),
    {
        let ghost s0 = self.threads@;
        let n = self.alloc_ref_count;
        self.set_step(t, OpStep::DowngradeLoaded(n));
        proof {
            self.lemma_step_change(s0, t as int);
        }
    }

    /// One round of `downgrade`'s loop for thread `t`, which loaded `n`.
    /// While the counter is locked (`n` is `usize::MAX`) it loads again;
    /// otherwise `compare_exchange(n, n + 1)` either gives it a `Weak` or
    /// hands it the current value to retry with. `downgrade` asserts
    /// (panics) when `n` exceeds `usize::MAX / 2`.
    pub fn downgrade_try(&mut self, t: usize) -> (done: bool)
        requires
            old(self).wf(),
            t < old(self).threads().len(),
            old(self).threads()[t as int].step is DowngradeLoaded,
            old(self).threads()[t as int].step->DowngradeLoaded_0 == usize::MAX
                || old(self).threads()[t as int].step->DowngradeLoaded_0 <= usize::MAX / 2,
        ensures
            final(self).wf(),
            final(self).data_count() == old(self).data_count(),
            final(self).data_live() == old(self).data_live(),
            ({
                let n = old(self).threads()[t as int].step->DowngradeLoaded_0;
                let x = old(self).threads()[t as int];
                &&& done <==> (n != usize::MAX && old(self).alloc_count() == n)
                &&& done ==> final(self).alloc_count() == n + 1 && final(self).threads()
                    == old(self).threads().update(
                    t as int,
                    ThreadState { arcs: x.arcs, weaks: (x.weaks + 1) as usize, step: OpStep::Idle },
                )
                &&& !done ==> final(self).alloc_count() == old(self).alloc_count()
                    && final(self).threads() == old(self).threads().update(
                    t as int,
                    ThreadState {
                        step: OpStep::DowngradeLoaded(old(self).alloc_count()),
                        ..x
                    },
                )
            }),
    {
        let ghost s0 = self.threads@;
        let x = self.threads[t];
        let n = match x.step {
            OpStep::DowngradeLoaded(n) => n,
            _ => 0,
        };
        let current = self.alloc_ref_count;
        if n == usize::MAX || current != n {
            self.set_step(t, OpStep::DowngradeLoaded(current));
            proof {
                self.lemma_step_change(s0, t as int);
            }
            return false;
        }
        proof {
            lemma_totals_bound(s0, t as int);
            assert(step_ok(self.data_ref_count, s0[t as int]));
            assert forall|i: int| !locking(s0, i) by {}
            assert forall|i: int| !at(s0, i, OpStep::Exclusive) by {
                if at(s0, i, OpStep::Exclusive) {
                    assert(step_ok(self.data_ref_count, s0[i]));
                    lemma_sole_arc(s0, i);
                    assert(s0[t as int].arcs == 0);
                }
            }
        }
        let y = ThreadState { arcs: x.arcs, weaks: x.weaks + 1, step: OpStep::Idle };
        self.alloc_ref_count = n + 1;
        self.threads.set(t, y);
        proof {
            let s1 = self.threads@;
            lemma_totals_update(s0, t as int, y);
            self.lemma_step_change_to_idle(s0, s1, t as int);
        }
        true
    }

    /// `upgrade` by thread `t` starts: it loads the `Arc` counter.
    pub fn upgrade_load(&mut self, t: usize)
        requires
            old(self).wf(),
            t < old(self).threads().len(),
            old(self).threads()[t as int].step == OpStep::Idle,
            old(self).threads()[t as int].weaks >= 1,
        ensures
            final(self).wf(),
            final(self).data_count() == old(self).data_count(),
            final(self).alloc_count() == old(self).alloc_count(),
            final(self).data_live() == old(self).data_live(),
            final(self).threads() == old(self).threads().update(
                t as int,
                ThreadState {
                    step: OpStep::UpgradeLoaded(old(self).data_count()),
                    ..old(self).threads()[t as int]
                },
            ),
    {
        let ghost s0 = self.threads@;
        let n = self.data_ref_count;
        self.set_step(t, OpStep::UpgradeLoaded(n));
        proof {
            self.lemma_step_change(s0, t as int);
        }
    }

    /// One round of `upgrade`'s loop for thread `t`, which loaded `n`: with
    /// `n` 0 the data is gone and the upgrade fails; otherwise
    /// `compare_exchange(n, n + 1)` either gives it an `Arc` or hands it the
    /// current value to retry with. `upgrade` asserts (panics) when `n`
    /// exceeds `usize::MAX / 2`.
    pub fn upgrade_try(&mut self, t: usize) -> (outcome: Option<bool>)
        requires
            old(self).wf(),
            t < old(self).threads().len(),
            old(self).threads()[t as int].step is UpgradeLoaded,
            old(self).threads()[t as int].step->UpgradeLoaded_0 <= usize::MAX / 2,
        ensures
            final(self).wf(),
            final(self).alloc_count() == old(self).alloc_count(),
            final(self).data_live() == old(self).data_live(),
            ({
                let n = old(self).threads()[t as int].step->UpgradeLoaded_0;
                let x = old(self).threads()[t as int];
                &&& n == 0 ==> outcome == Some(false) && final(self).data_count()
                    == old(self).data_count() && final(self).threads()
                    == old(self).threads().update(t as int, ThreadState { step: OpStep::Idle, ..x })
                &&& n != 0 && old(self).data_count() == n ==> outcome == Some(true)
                    && final(self).data_count() == n + 1 && final(self).threads()
                    == old(self).threads().update(
                    t as int,
                    ThreadState { arcs: (x.arcs + 1) as usize, weaks: x.weaks, step: OpStep::Idle },
                )
                &&& n != 0 && old(self).data_count() != n ==> outcome is None
                    && final(self).data_count() == old(self).data_count() && final(self).threads()
                    == old(self).threads().update(
                    t as int,
                    ThreadState { step: OpStep::UpgradeLoaded(old(self).data_count()), ..x },
                )
            }),
    {
        let ghost s0 = self.threads@;
        let x = self.threads[t];
        let n = match x.step {
            OpStep::UpgradeLoaded(n) => n,
            _ => 0,
        };
        if n == 0 {
            self.set_step(t, OpStep::Idle);
            proof {
                self.lemma_step_change(s0, t as int);
            }
            return Some(false);
        }
        let current = self.data_ref_count;
        if current != n {
            self.set_step(t, OpStep::UpgradeLoaded(current));
            proof {
                self.lemma_step_change(s0, t as int);
            }
            return None;
        }
        proof {
            lemma_totals_bound(s0, t as int);
            assert(step_ok(self.data_ref_count, s0[t as int]));
        }
        let y = ThreadState { arcs: x.arcs + 1, weaks: x.weaks, step: OpStep::Idle };
        self.data_ref_count = n + 1;
        self.threads.set(t, y);
        proof {
            let s1 = self.threads@;
            lemma_totals_update(s0, t as int, y);
            assert forall|i: int| 0 <= i < s1.len() && i != t implies s1[i] == s0[i] by {}
            assert forall|i: int| !locking(s0, i) by {}
            assert forall|i: int| !at(s0, i, OpStep::Exclusive) by {}
            assert forall|i: int| !at(s0, i, OpStep::DroppingLast) by {
                if at(s0, i, OpStep::DroppingLast) {
                    assert(step_ok(n, s0[i]));
                }
            }
            assert forall|i: int| 0 <= i < s1.len() implies step_ok(
                self.data_ref_count,
                #[trigger] s1[i],
            ) by {
                if i != t as int {
                    assert(step_ok(n, s0[i]));
                    assert(!locking(s0, i));
                    assert(!at(s0, i, OpStep::Exclusive));
                    assert(!at(s0, i, OpStep::DroppingLast));
                }
            }
            assert forall|i: int| !at(s1, i, OpStep::DroppingLast) by {
                if at(s1, i, OpStep::DroppingLast) {
                    assert(at(s0, i, OpStep::DroppingLast));
                }
            }
            assert forall|i: int| !locking(s1, i) by {
                if locking(s1, i) {
                    assert(locking(s0, i));
                }
            }
            assert forall|i: int| !at(s1, i, OpStep::Exclusive) by {
                if at(s1, i, OpStep::Exclusive) {
                    assert(at(s0, i, OpStep::Exclusive));
                }
            }
        }
        Some(true)
    }

    /// `get_mut` by thread `t` starts: `compare_exchange(1, usize::MAX)` on
    /// the weak counter. It fails (and `get_mut` returns `None`) unless the
    /// counter is 1, that is, unless no `Weak` exists.
    pub fn get_mut_lock(&mut self, t: usize) -> (locked: bool)
        requires
            old(self).wf(),
            t < old(self).threads().len(),
            old(self).threads()[t as int].step == OpStep::Idle,
            old(self).threads()[t as int].arcs >= 1,
        ensures
            final(self).wf(),
            final(self).data_count() == old(self).data_count(),
            final(self).data_live() == old(self).data_live(),
            locked <==> old(self).alloc_count() == 1,
            locked ==> final(self).alloc_count() == usize::MAX && final(self).threads()
                == old(self).threads().update(
                t as int,
                ThreadState { step: OpStep::Locked, ..old(self).threads()[t as int] },
            ),
            !locked ==> final(self).alloc_count() == old(self).alloc_count() && final(self).threads()
                == old(self).threads(),
    {
        if self.alloc_ref_count != 1 {
            return false;
        }
        let ghost s0 = self.threads@;
        proof {
            lemma_totals_bound(s0, t as int);
            lemma_totals_nonneg(s0);
            assert forall|i: int| !locking(s0, i) by {}
            assert forall|i: int| !at(s0, i, OpStep::Exclusive) by {
                if at(s0, i, OpStep::Exclusive) {
                    assert(step_ok(self.data_ref_count, s0[i]));
                    lemma_sole_arc(s0, i);
                    assert(s0[t as int].arcs == 0);
                }
            }
        }
        self.alloc_ref_count = usize::MAX;
        self.set_step(t, OpStep::Locked);
        proof {
            let s1 = self.threads@;
            lemma_totals_update(s0, t as int, s1[t as int]);
            assert forall|i: int| 0 <= i < s1.len() && i != t implies s1[i] == s0[i] by {}
            assert(locking(s1, t as int));
            assert forall|i: int, j: int| locking(s1, i) && locking(s1, j) implies i == j by {
                if i != t as int {
                    assert(locking(s0, i));
                }
                if j != t as int {
                    assert(locking(s0, j));
                }
            }
            assert forall|i: int| 0 <= i < s1.len() implies step_ok(
                self.data_ref_count,
                #[trigger] s1[i],
            ) by {
                if i != t as int {
                    assert(step_ok(self.data_ref_count, s0[i]));
                }
            }
            assert forall|i: int| at(s1, i, OpStep::DroppingLast) <==> at(s0, i, OpStep::DroppingLast) by {}
            assert(dropping(s1) == dropping(s0)) by {
                if dropping(s0) {
                    let i = choose|i: int| at(s0, i, OpStep::DroppingLast);
                    assert(at(s1, i, OpStep::DroppingLast));
                }
                if dropping(s1) {
                    let i = choose|i: int| at(s1, i, OpStep::DroppingLast);
                    assert(at(s0, i, OpStep::DroppingLast));
                }
            }
            assert forall|i: int| !at(s1, i, OpStep::Exclusive) by {
                if at(s1, i, OpStep::Exclusive) {
                    assert(at(s0, i, OpStep::Exclusive));
                }
            }
        }
        true
    }

    /// `get_mut`, with the weak counter locked, loads the `Arc` counter and
    /// notes whether it is 1.
    pub fn get_mut_check(&mut self, t: usize)
        requires
            old(self).wf(),
            t < old(self).threads().len(),
            old(self).threads()[t as int].step == OpStep::Locked,
        ensures
            final(self).wf(),
            final(self).data_count() == old(self).data_count(),
            final(self).alloc_count() == old(self).alloc_count(),
            final(self).data_live() == old(self).data_live(),
            final(self).threads() == old(self).threads().update(
                t as int,
                ThreadState {
                    step: OpStep::Checked(old(self).data_count() == 1),
                    ..old(self).threads()[t as int]
                },
            ),
    {
        let ghost s0 = self.threads@;
        let unique = self.data_ref_count == 1;
        self.set_step(t, OpStep::Checked(unique));
        proof {
            self.lemma_step_change(s0, t as int);
        }
    }

    /// `get_mut` stores the weak counter back to 1, unlocking it. If the
    /// `Arc` counter was 1 the thread now holds the `&mut`; otherwise
    /// `get_mut` returns `None`.
    pub fn get_mut_unlock(&mut self, t: usize) -> (exclusive: bool)
        requires
            old(self).wf(),
            t < old(self).threads().len(),
            old(self).threads()[t as int].step is Checked,
        ensures
            final(self).wf(),
            final(self).data_count() == old(self).data_count(),
            final(self).alloc_count() == 1,
            final(self).data_live() == old(self).data_live(),
            exclusive == old(self).threads()[t as int].step->Checked_0,
            final(self).threads() == old(self).threads().update(
                t as int,
                ThreadState {
                    step: if exclusive {
                        OpStep::Exclusive
                    } else {
                        OpStep::Idle
                    },
                    ..old(self).threads()[t as int]
                },
            ),
    {
        let ghost s0 = self.threads@;
        let x = self.threads[t];
        let unique = match x.step {
            OpStep::Checked(u) => u,
            _ => false,
        };
        proof {
            assert(locking(s0, t as int));
            assert(step_ok(self.data_ref_count, s0[t as int]));
            lemma_totals_bound(s0, t as int);
            if unique {
                lemma_sole_arc(s0, t as int);
            }
            assert forall|i: int| !at(s0, i, OpStep::Exclusive) by {
                if at(s0, i, OpStep::Exclusive) {
                    assert(step_ok(self.data_ref_count, s0[i]));
                    lemma_sole_arc(s0, i);
                    assert(s0[t as int].arcs == 0);
                }
            }
            assert forall|i: int| !at(s0, i, OpStep::DroppingLast) by {
                if at(s0, i, OpStep::DroppingLast) {
                    assert(step_ok(self.data_ref_count, s0[i]));
                }
            }
        }
        let step = if unique {
            OpStep::Exclusive
        } else {
            OpStep::Idle
        };
        self.alloc_ref_count = 1;
        self.set_step(t, step);
        proof {
            let s1 = self.threads@;
            lemma_totals_update(s0, t as int, s1[t as int]);
            assert forall|i: int| 0 <= i < s1.len() && i != t implies s1[i] == s0[i] by {}
            assert forall|i: int| !locking(s1, i) by {
                if locking(s1, i) {
                    assert(locking(s0, i));
                }
            }
            assert forall|i: int| 0 <= i < s1.len() implies step_ok(
                self.data_ref_count,
                #[trigger] s1[i],
            ) by {
                if i != t as int {
                    assert(step_ok(self.data_ref_count, s0[i]));
                }
            }
            assert forall|i: int| !at(s1, i, OpStep::DroppingLast) by {
                if at(s1, i, OpStep::DroppingLast) {
                    assert(at(s0, i, OpStep::DroppingLast));
                }
            }
        }
        unique
    }

    /// The thread that `get_mut` let through is done with the `&mut`.
    pub fn release_exclusive(&mut self, t: usize)
        requires
            old(self).wf(),
            t < old(self).threads().len(),
            old(self).threads()[t as int].step == OpStep::Exclusive,
        ensures
            final(self).wf(),
            final(self).data_count() == old(self).data_count(),
            final(self).alloc_count() == old(self).alloc_count(),
            final(self).data_live() == old(self).data_live(),
            final(self).threads() == old(self).threads().update(
                t as int,
                ThreadState { step: OpStep::Idle, ..old(self).threads()[t as int] },
            ),
    {
        let ghost s0 = self.threads@;
        self.set_step(t, OpStep::Idle);
        proof {
            self.lemma_step_change(s0, t as int);
        }
    }

    /// Only thread `t`'s step changed (its handles and the counters did not),
    /// from or to steps that do not touch the lock, the drop or the
    /// exclusive access, or from a locking step to another: the invariant
    /// carries over.
    proof fn lemma_step_change(&self, s0: Seq<ThreadState>, t: int)
        requires
            race_inv(self.data_ref_count, self.alloc_ref_count, self.data_live, s0),
            0 <= t < s0.len(),
            self.threads@.len() == s0.len(),
            forall|i: int| 0 <= i < s0.len() && i != t ==> self.threads@[i] == s0[i],
            self.threads@[t].arcs == s0[t].arcs,
            self.threads@[t].weaks == s0[t].weaks,
            step_ok(self.data_ref_count, self.threads@[t]),
            s0[t].step != OpStep::DroppingLast,
            self.threads@[t].step != OpStep::DroppingLast,
            locking(s0, t) == locking(self.threads@, t),
            s0[t].step == OpStep::Exclusive ==> self.threads@[t].step == OpStep::Idle,
            self.threads@[t].step != OpStep::Exclusive,
        ensures
            self.wf(),
    {
        let s1 = self.threads@;
        lemma_totals_update(s0, t, s1[t]);
        assert(s1 =~= s0.update(t, s1[t]));
        assert forall|i: int| 0 <= i < s1.len() implies step_ok(
            self.data_ref_count,
            #[trigger] s1[i],
        ) by {
            if i != t {
                assert(step_ok(self.data_ref_count, s0[i]));
            }
        }
        assert forall|i: int| at(s1, i, OpStep::DroppingLast) <==> at(s0, i, OpStep::DroppingLast) by {}
        assert forall|i: int| locking(s1, i) <==> locking(s0, i) by {}
        assert forall|i: int| at(s1, i, OpStep::Exclusive) implies at(s0, i, OpStep::Exclusive) by {}
        if dropping(s0) {
            let i = choose|i: int| at(s0, i, OpStep::DroppingLast);
            assert(at(s1, i, OpStep::DroppingLast));
        }
        if dropping(s1) {
            let i = choose|i: int| at(s1, i, OpStep::DroppingLast);
            assert(at(s0, i, OpStep::DroppingLast));
        }
        if exists|i: int| locking(s0, i) {
            let i = choose|i: int| locking(s0, i);
            assert(locking(s1, i));
        }
        if exists|i: int| locking(s1, i) {
            let i = choose|i: int| locking(s1, i);
            assert(locking(s0, i));
        }
        if exists|i: int| at(s1, i, OpStep::Exclusive) {
            let i = choose|i: int| at(s1, i, OpStep::Exclusive);
            assert(at(s0, i, OpStep::Exclusive));
        }
    }

    /// Thread `t` took a `Weak` in `downgrade` and is idle again; no thread
    /// was locking or holding exclusive access.
    proof fn lemma_step_change_to_idle(&self, s0: Seq<ThreadState>, s1: Seq<ThreadState>, t: int)
        requires
            self.threads@ == s1,
            0 <= t < s0.len(),
            s1.len() == s0.len(),
            forall|i: int| 0 <= i < s0.len() && i != t ==> s1[i] == s0[i],
            s1[t].step == OpStep::Idle,
            s0[t].step is DowngradeLoaded,
            forall|i: int| 0 <= i < s0.len() ==> step_ok(self.data_ref_count, #[trigger] s0[i]),
            forall|i: int| !locking(s0, i),
            forall|i: int| !at(s0, i, OpStep::Exclusive),
            forall|i: int, j: int|
                at(s0, i, OpStep::DroppingLast) && at(s0, j, OpStep::DroppingLast) ==> i == j,
        ensures
            forall|i: int| 0 <= i < s1.len() ==> step_ok(self.data_ref_count, #[trigger] s1[i]),
            forall|i: int, j: int|
                at(s1, i, OpStep::DroppingLast) && at(s1, j, OpStep::DroppingLast) ==> i == j,
            dropping(s1) == dropping(s0),
            forall|i: int| !locking(s1, i),
            forall|i: int| !at(s1, i, OpStep::Exclusive),
    {
        assert forall|i: int| 0 <= i < s1.len() implies step_ok(
            self.data_ref_count,
            #[trigger] s1[i],
        ) by {
            if i != t {
                assert(step_ok(self.data_ref_count, s0[i]));
            }
        }
        assert forall|i: int| at(s1, i, OpStep::DroppingLast) <==> at(s0, i, OpStep::DroppingLast) by {}
        assert forall|i: int| !locking(s1, i) by {
            if locking(s1, i) {
                assert(locking(s0, i));
            }
        }
        assert forall|i: int| !at(s1, i, OpStep::Exclusive) by {
            if at(s1, i, OpStep::Exclusive) {
                assert(at(s0, i, OpStep::Exclusive));
            }
        }
        if dropping(s0) {
            let i = choose|i: int| at(s0, i, OpStep::DroppingLast);
            assert(at(s1, i, OpStep::DroppingLast));
        }
        if dropping(s1) {
            let i = choose|i: int| at(s1, i, OpStep::DroppingLast);
            assert(at(s0, i, OpStep::DroppingLast));
        }
    }
}

/// The counters are exact, from the invariant `wf` that `new` establishes
/// and that every step re-establishes: the `Arc` counter is the number of
/// `Arc`s owned; the weak counter, unless locked, is the number of `Weak`s plus one while any
/// `Arc` exists (or the last is being dropped); while it is locked, exactly
/// one thread is inside `get_mut` and no `Weak` exists; and the data lives
/// exactly while an `Arc` does or the last one is being dropped.
pub proof fn lemma_counters_exact(r: &GetMutRace)
    requires
        r.wf(),
    ensures
        race_inv(r.data_count(), r.alloc_count(), r.data_live(), r.threads()),
{
}

/// The thread that `get_mut` lets through is alone: it owns the only `Arc`,
/// no other thread owns any handle, and no `Weak` exists, for as long as it
/// keeps the `&mut`.
pub proof fn lemma_exclusive_is_alone(r: &GetMutRace, t: int)
    requires
        r.wf(),
        at(r.threads(), t, OpStep::Exclusive),
    ensures
        r.data_count() == 1,
        r.alloc_count() == 1,
        r.threads()[t].arcs == 1,
        total_weaks(r.threads()) == 0,
        forall|j: int|
            0 <= j < r.threads().len() && j != t ==> (#[trigger] r.threads()[j]).arcs == 0
                && r.threads()[j].weaks == 0,
{
    let s = r.threads();
    assert(step_ok(r.data_count(), s[t]));
    assert(exists|i: int| at(s, i, OpStep::Exclusive));
    lemma_sole_arc(s, t);
    assert forall|j: int| 0 <= j < s.len() && j != t implies (#[trigger] r.threads()[j]).arcs == 0
        && r.threads()[j].weaks == 0 by {
        lemma_totals_bound(s, j);
    }
}

} // verus!
