//! The futex mutex with three states, as a sequentially consistent model.
//!
//! The shared word `state` is 0 (unlocked), 1 (locked, no waiter announced)
//! or 2 (locked, waiters announced). Every thread that takes part is
//! registered and its place inside `lock` / the guard's drop is tracked,
//! one atomic step at a time, so that the protocol's invariants can be
//! stated over every interleaving of those steps.
use vstd::prelude::*;

verus! {

/// Where one thread stands in the locking protocol.
#[derive(Clone, Copy, Debug, PartialEq, Eq, Structural)]
pub enum Step {
    /// Outside `lock` and without a guard.
    Idle,
    /// Inside `lock`, about to `swap(2)` (after a failed fast path,
    /// after a wake-up, or after `wait` found the state changed).
    Contending,
    /// `swap(2)` saw the lock taken; about to call `wait(&state, 2)`.
    Checking,
    /// Blocked inside `wait`.
    Sleeping,
    /// Owns the lock: a guard exists.
    Holding,
    /// Dropped the guard, `swap(0)` returned 2; about to `wake_one`.
    Waking,
}

/// Thread `i` owns the lock.
pub open spec fn holding(steps: Seq<Step>, i: int) -> bool {
    0 <= i < steps.len() && steps[i] == Step::Holding
}

/// Some thread owns the lock.
pub open spec fn some_holder(steps: Seq<Step>) -> bool {
    exists|i: int| holding(steps, i)
}

/// No two threads own the lock at once.
pub open spec fn mutual_exclusion(steps: Seq<Step>) -> bool {
    forall|i: int, j: int| holding(steps, i) && holding(steps, j) ==> i == j
}

/// Thread `i` is blocked in `wait`.
pub open spec fn sleeping(steps: Seq<Step>, i: int) -> bool {
    0 <= i < steps.len() && steps[i] == Step::Sleeping
}

/// Thread `i` is running and will touch `state` again before it can sleep
/// or return: it contends, checks, or is about to wake a sleeper.
pub open spec fn awake_in_protocol(steps: Seq<Step>, i: int) -> bool {
    0 <= i < steps.len() && (steps[i] == Step::Contending || steps[i] == Step::Checking
        || steps[i] == Step::Waking)
}

/// Whenever a thread sleeps, either the state announces waiters (so the
/// next unlock wakes one), or some running thread is still on its way
/// through the protocol: no wake-up is lost.
pub open spec fn no_lost_wakeup(state: u32, steps: Seq<Step>) -> bool {
    (exists|i: int| sleeping(steps, i)) ==> state == 2 || exists|j: int|
        awake_in_protocol(steps, j)
}

/// The invariant of the protocol.
pub open spec fn protocol_inv(state: u32, steps: Seq<Step>) -> bool {
    &&& state <= 2
    &&& mutual_exclusion(steps)
    &&& (state == 0 <==> !some_holder(steps))
    &&& no_lost_wakeup(state, steps)
}

/// A mutex whose lock word is a plain value and whose threads are tracked.
pub struct Mutex<T> {
    state: u32,
    value: T,
    threads: Vec<Step>,
    id: Ghost<int>,
}

/// Proof that a thread holds the lock; handed out by the locking steps.
/// It must be given back to `unlock`: letting it go out of scope releases
/// nothing, and the lock stays held.
#[must_use]
pub struct MutexGuard {
    thread: usize,
    lock_id: Ghost<int>,
}

impl MutexGuard {
    /// The thread that holds the lock.
    pub closed spec fn thread(&self) -> nat {
        self.thread as nat
    }

    /// The lock this guard belongs to.
    pub closed spec fn lock_id(&self) -> int {
        self.lock_id@
    }
}

impl<T> Mutex<T> {
    /// The identity of this lock. Locks made by separate calls of `new`
    /// are not known to share one, so a guard is only ever used with the
    /// lock that handed it out.
    pub closed spec fn id(&self) -> int {
        self.id@
    }

    /// The lock word.
    pub closed spec fn state(&self) -> u32 {
        self.state
    }

    /// The protected value.
    pub closed spec fn value(&self) -> T {
        self.value
    }

    /// Where each registered thread stands.
    pub closed spec fn steps(&self) -> Seq<Step> {
        self.threads@
    }

    /// The protocol invariant holds.
    pub open spec fn wf(&self) -> bool {
        protocol_inv(self.state(), self.steps())
    }

    /// A new mutex is unlocked, holds `value`, and has no threads yet.
    pub fn new(value: T) -> (m: Self)
        ensures
            m.wf(),
            m.state() == 0,
            m.value() == value,
            m.steps() == Seq::<Step>::empty(),
    {
        let ghost id: int = arbitrary();
        Mutex { state: 0, value, threads: Vec::new(), id: Ghost(id) }
    }

    /// The lock word, as it stands.
    pub fn current_state(&self) -> (s: u32)
        ensures
            s == self.state(),
    {
        self.state
    }

    /// Where thread `t` stands.
    pub fn step(&self, t: usize) -> (s: Step)
        requires
            t < self.steps().len(),
        ensures
            s == self.steps()[t as int],
    {
        self.threads[t]
    }

    /// Registers one more thread, which starts idle; returns its index.
    pub fn add_thread(&mut self) -> (t: usize)
        requires
            old(self).wf(),
            old(self).steps().len() < usize::MAX,
        ensures
            final(self).id() == old(self).id(),
            final(self).wf(),
            t == old(self).steps().len(),
            final(self).steps() == old(self).steps().push(Step::Idle),
            final(self).state() == old(self).state(),
            final(self).value() == old(self).value(),
    {
        let t = self.threads.len();
        self.threads.push(Step::Idle);
        proof {
            let s0 = old(self).threads@;
            let s1 = self.threads@;
            assert forall|i: int| holding(s1, i) implies holding(s0, i) by {}
            assert forall|i: int| sleeping(s1, i) implies sleeping(s0, i) by {}
            if exists|j: int| awake_in_protocol(s0, j) {
                let j = choose|j: int| awake_in_protocol(s0, j);
                assert(awake_in_protocol(s1, j));
            }
            if some_holder(s0) {
                let j = choose|j: int| holding(s0, j);
                assert(holding(s1, j));
            }
        }
        t
    }

    /// The fast path of `lock`: `compare_exchange(0, 1)`. On success the
    /// thread holds the lock; otherwise it goes on to contend.
    pub fn lock(&mut self, t: usize) -> (guard: Option<MutexGuard>)
        requires
            old(self).wf(),
            t < old(self).steps().len(),
            old(self).steps()[t as int] == Step::Idle,
        ensures
            final(self).id() == old(self).id(),
            guard matches Some(g) ==> g.lock_id() == old(self).id(),
            final(self).wf(),
            final(self).value() == old(self).value(),
            old(self).state() == 0 ==> {
                &&& final(self).state() == 1
                &&& final(self).steps() == old(self).steps().update(t as int, Step::Holding)
                &&& guard is Some && guard->0.thread() == t
            },
            old(self).state() != 0 ==> {
                &&& final(self).state() == old(self).state()
                &&& final(self).steps() == old(self).steps().update(t as int, Step::Contending)
                &&& guard is None
            },
    {
        let ghost s0 = self.threads@;
        if self.state == 0 {
            self.state = 1;
            self.threads.set(t, Step::Holding);
            proof {
                let s1 = self.threads@;
                assert(holding(s1, t as int));
                assert forall|i: int, j: int| holding(s1, i) && holding(s1, j) implies i == j by {
                    if i != t as int {
                        assert(holding(s0, i));
                    }
                    if j != t as int {
                        assert(holding(s0, j));
                    }
                }
                if exists|i: int| sleeping(s1, i) {
                    let i = choose|i: int| sleeping(s1, i);
                    assert(sleeping(s0, i));
                    let j = choose|j: int| awake_in_protocol(s0, j);
                    assert(awake_in_protocol(s1, j));
                }
            }
            Some(MutexGuard { thread: t, lock_id: self.id })
        } else {
            self.threads.set(t, Step::Contending);
            proof {
                let s1 = self.threads@;
                assert(awake_in_protocol(s1, t as int));
                assert forall|i: int| holding(s1, i) implies holding(s0, i) by {}
                let h = choose|h: int| holding(s0, h);
                assert(holding(s1, h));
            }
            None
        }
    }

    /// The slow path of `lock`: `swap(2)`. If the lock was free the thread
    /// now holds it (the state stays 2: it cannot know that nobody waits);
    /// otherwise it goes on to check the state and wait.
    pub fn contend(&mut self, t: usize) -> (guard: Option<MutexGuard>)
        requires
            old(self).wf(),
            t < old(self).steps().len(),
            old(self).steps()[t as int] == Step::Contending,
        ensures
            final(self).id() == old(self).id(),
            guard matches Some(g) ==> g.lock_id() == old(self).id(),
            final(self).wf(),
            final(self).value() == old(self).value(),
            final(self).state() == 2,
            old(self).state() == 0 ==> {
                &&& final(self).steps() == old(self).steps().update(t as int, Step::Holding)
                &&& guard is Some && guard->0.thread() == t
            },
            old(self).state() != 0 ==> {
                &&& final(self).steps() == old(self).steps().update(t as int, Step::Checking)
                &&& guard is None
            },
    {
        let ghost s0 = self.threads@;
        let was = self.state;
        self.state = 2;
        if was == 0 {
            self.threads.set(t, Step::Holding);
            proof {
                let s1 = self.threads@;
                assert(holding(s1, t as int));
                assert forall|i: int, j: int| holding(s1, i) && holding(s1, j) implies i == j by {
                    if i != t as int {
                        assert(holding(s0, i));
                    }
                    if j != t as int {
                        assert(holding(s0, j));
                    }
                }
            }
            Some(MutexGuard { thread: t, lock_id: self.id })
        } else {
            self.threads.set(t, Step::Checking);
            proof {
                let s1 = self.threads@;
                assert forall|i: int| holding(s1, i) implies holding(s0, i) by {}
                let h = choose|h: int| holding(s0, h);
                assert(holding(s1, h));
            }
            None
        }
    }

    /// `wait(&state, 2)`: sleeps if the state is still 2, else returns at once
    /// and the thread contends again.
    pub fn wait(&mut self, t: usize)
        requires
            old(self).wf(),
            t < old(self).steps().len(),
            old(self).steps()[t as int] == Step::Checking,
        ensures
            final(self).id() == old(self).id(),
            final(self).wf(),
            final(self).value() == old(self).value(),
            final(self).state() == old(self).state(),
            old(self).state() == 2 ==> final(self).steps() == old(self).steps().update(
                t as int,
                Step::Sleeping,
            ),
            old(self).state() != 2 ==> final(self).steps() == old(self).steps().update(
                t as int,
                Step::Contending,
            ),
    {
        let ghost s0 = self.threads@;
        if self.state == 2 {
            self.threads.set(t, Step::Sleeping);
        } else {
            self.threads.set(t, Step::Contending);
            proof {
                assert(awake_in_protocol(self.threads@, t as int));
            }
        }
        proof {
            let s1 = self.threads@;
            assert forall|i: int| holding(s1, i) <==> holding(s0, i) by {}
            if some_holder(s0) {
                let h = choose|h: int| holding(s0, h);
                assert(holding(s1, h));
            }
        }
    }

    /// `wait` returns without a wake-up: the futex allows that at any time.
    pub fn spurious_wakeup(&mut self, t: usize)
        requires
            old(self).wf(),
            t < old(self).steps().len(),
            old(self).steps()[t as int] == Step::Sleeping,
        ensures
            final(self).id() == old(self).id(),
            final(self).wf(),
            final(self).value() == old(self).value(),
            final(self).state() == old(self).state(),
            final(self).steps() == old(self).steps().update(t as int, Step::Contending),
    {
        let ghost s0 = self.threads@;
        self.threads.set(t, Step::Contending);
        proof {
            let s1 = self.threads@;
            assert(awake_in_protocol(s1, t as int));
            assert forall|i: int| holding(s1, i) <==> holding(s0, i) by {}
            if some_holder(s0) {
                let h = choose|h: int| holding(s0, h);
                assert(holding(s1, h));
            }
        }
    }

    /// Dropping the guard: `swap(0)`. If waiters were announced the thread
    /// goes on to wake one, otherwise it is done.
    pub fn unlock(&mut self, guard: MutexGuard)
        requires
            guard.lock_id() == old(self).id(),
            old(self).wf(),
            guard.thread() < old(self).steps().len(),
            old(self).steps()[guard.thread() as int] == Step::Holding,
        ensures
            final(self).id() == old(self).id(),
            final(self).wf(),
            final(self).value() == old(self).value(),
            final(self).state() == 0,
            old(self).state() == 2 ==> final(self).steps() == old(self).steps().update(
                guard.thread() as int,
                Step::Waking,
            ),
            old(self).state() != 2 ==> final(self).steps() == old(self).steps().update(
                guard.thread() as int,
                Step::Idle,
            ),
    {
        let ghost s0 = self.threads@;
        let t = guard.thread;
        let was = self.state;
        self.state = 0;
        if was == 2 {
            self.threads.set(t, Step::Waking);
            proof {
                assert(awake_in_protocol(self.threads@, t as int));
            }
        } else {
            self.threads.set(t, Step::Idle);
            proof {
                let s1 = self.threads@;
                if exists|i: int| sleeping(s1, i) {
                    let i = choose|i: int| sleeping(s1, i);
                    assert(sleeping(s0, i));
                    let j = choose|j: int| awake_in_protocol(s0, j);
                    assert(awake_in_protocol(s1, j));
                }
            }
        }
        proof {
            let s1 = self.threads@;
            assert forall|i: int| !holding(s1, i) by {
                if holding(s1, i) {
                    assert(holding(s0, i));
                    assert(holding(s0, t as int));
                }
            }
        }
    }

    /// The index of the first sleeping thread, if any.
    pub fn first_sleeper(&self) -> (r: Option<usize>)
        ensures
            match r {
                Some(u) => sleeping(self.steps(), u as int) && forall|i: int|
                    0 <= i < u ==> !sleeping(self.steps(), i),
                None => forall|i: int| !sleeping(self.steps(), i),
            },
    {
        let mut i: usize = 0;
        while i < self.threads.len()
            invariant
                i <= self.threads@.len(),
                forall|k: int| 0 <= k < i ==> !sleeping(self.threads@, k),
            decreases self.threads@.len() - i,
        {
            if self.threads[i] == Step::Sleeping {
                return Some(i);
            }
            i += 1;
        }
        None
    }

    /// `wake_one`: the thread that unlocked wakes the chosen sleeper (any
    /// sleeping thread may be chosen; there must be none when nobody is
    /// chosen) and is then done.
    pub fn wake_one(&mut self, t: usize, woken: Option<usize>)
        requires
            old(self).wf(),
            t < old(self).steps().len(),
            old(self).steps()[t as int] == Step::Waking,
            match woken {
                Some(u) => sleeping(old(self).steps(), u as int),
                None => forall|i: int| !sleeping(old(self).steps(), i),
            },
        ensures
            final(self).id() == old(self).id(),
            final(self).wf(),
            final(self).value() == old(self).value(),
            final(self).state() == old(self).state(),
            match woken {
                Some(u) => final(self).steps() == old(self).steps().update(
                    t as int,
                    Step::Idle,
                ).update(u as int, Step::Contending),
                None => final(self).steps() == old(self).steps().update(t as int, Step::Idle),
            },
    {
        let ghost s0 = self.threads@;
        self.threads.set(t, Step::Idle);
        match woken {
            Some(u) => {
                self.threads.set(u, Step::Contending);
                proof {
                    assert(awake_in_protocol(self.threads@, u as int));
                }
            },
            None => {},
        }
        proof {
            let s1 = self.threads@;
            assert forall|i: int| holding(s1, i) <==> holding(s0, i) by {}
            if some_holder(s0) {
                let h = choose|h: int| holding(s0, h);
                assert(holding(s1, h));
            }
            if exists|i: int| sleeping(s1, i) {
                let i = choose|i: int| sleeping(s1, i);
                assert(sleeping(s0, i));
            }
        }
    }

    /// Read access through the guard.
    pub fn get<'a>(&'a self, guard: &MutexGuard) -> (r: &'a T)
        requires
            guard.lock_id() == self.id(),
            guard.thread() < self.steps().len(),
            self.steps()[guard.thread() as int] == Step::Holding,
        ensures
            *r == self.value(),
    {
        &self.value
    }

    /// Write access through the guard.
    pub fn get_mut<'a>(&'a mut self, guard: &MutexGuard) -> (r: &'a mut T)
        requires
            guard.lock_id() == old(self).id(),
            guard.thread() < old(self).steps().len(),
            old(self).steps()[guard.thread() as int] == Step::Holding,
        ensures
            final(self).id() == old(self).id(),
            *r == old(self).value(),
            final(self).value() == *final(r),
            final(self).wf() == old(self).wf(),
            final(self).state() == old(self).state(),
            final(self).steps() == old(self).steps(),
    {
        &mut self.value
    }
}

/// The protocol invariant, unfolded from `wf`, which `new` establishes and
/// each locking step re-establishes: at most one holder, the state is 0
/// exactly while nobody holds the lock, and no sleeping thread is
/// forgotten.
pub proof fn lemma_protocol_safe<T>(m: &Mutex<T>)
    requires
        m.wf(),
    ensures
        protocol_inv(m.state(), m.steps()),
{
}

/// State 1 means "locked, no waiter announced": when it holds and no thread
/// is on its way through `lock` or a wake-up, no thread sleeps.
pub proof fn lemma_state_one_has_no_sleeper<T>(m: &Mutex<T>)
    requires
        m.wf(),
        m.state() == 1,
        forall|j: int| !awake_in_protocol(m.steps(), j),
    ensures
        forall|i: int| !sleeping(m.steps(), i),
{
}

} // verus!
