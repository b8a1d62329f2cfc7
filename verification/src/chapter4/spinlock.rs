//! A spin lock as a sequentially consistent model.
//!
//! The flag `locked` is what the atomic boolean holds. `lock` is one round
//! of the spinning loop (`swap(true)`); a thread whose swap saw the flag set
//! spins and calls `lock` again. Every thread is registered so that mutual
//! exclusion can be stated over every interleaving of their steps. What
//! the `Acquire` swap and the `Release` store add, that each holder sees
//! what the previous holders wrote, is modelled in `chapter7::ordered_lock`.
use vstd::prelude::*;

verus! {

/// Where one thread stands.
#[derive(Clone, Copy, Debug, PartialEq, Eq, Structural)]
pub enum Step {
    /// Not trying to lock and holding no guard.
    Idle,
    /// Its last `swap(true)` saw the lock taken; it spins and swaps again.
    Spinning,
    /// Owns the lock: a guard exists.
    Holding,
}

/// Thread `i` owns the lock.
pub open spec fn holding(steps: Seq<Step>, i: int) -> bool {
    0 <= i < steps.len() && steps[i] == Step::Holding
}

/// Some thread owns the lock.
pub open spec fn some_holder(steps: Seq<Step>) -> bool {
    exists|i: int| holding(steps, i)
}

/// No two threads own the lock at once.
pub open spec fn mutual_exclusion(steps: Seq<Step>) -> bool {
    forall|i: int, j: int| holding(steps, i) && holding(steps, j) ==> i == j
}

/// The invariant of the lock: one holder at most, and the flag is set
/// exactly while somebody holds the lock.
pub open spec fn lock_inv(locked: bool, steps: Seq<Step>) -> bool {
    &&& mutual_exclusion(steps)
    &&& (locked <==> some_holder(steps))
}

/// What the `Acquire` swap and the `Release` store keep, over the views of
/// the protected value: `version` writes have been made under the lock,
/// each thread has seen the first `views[i]` of them, and the last unlock
/// published `flag_view`. While the lock is free the last unlock has
/// published every write, and the holder has seen every write.
pub open spec fn ordering_inv(
    locked: bool,
    flag_view: nat,
    version: nat,
    steps: Seq<Step>,
    views: Seq<nat>,
) -> bool {
    &&& views.len() == steps.len()
    &&& forall|i: int| 0 <= i < views.len() ==> views[i] <= version
    &&& !locked ==> flag_view == version
    &&& forall|i: int| holding(steps, i) ==> views[i] == version
}

/// Proof that a thread holds the lock; it is handed out by `lock` and given
/// back to `unlock`, which releases the lock. Letting it go out of scope
/// releases nothing: the lock stays held.
#[must_use]
pub struct Guard {
    thread: usize,
    lock_id: Ghost<int>,
}

impl Guard {
    /// The thread that holds the lock.
    pub closed spec fn thread(&self) -> nat {
        self.thread as nat
    }

    /// The lock this guard belongs to.
    pub closed spec fn lock_id(&self) -> int {
        self.lock_id@
    }
}

/// A spin lock protecting a `T`.
pub struct SpinLock<T> {
    locked: bool,
    value: T,
    threads: Vec<Step>,
    id: Ghost<int>,
    version: Ghost<nat>,
    flag_view: Ghost<nat>,
    views: Ghost<Seq<nat>>,
}

impl<T> SpinLock<T> {
    /// The identity of this lock. Locks made by separate calls of `new`
    /// are not known to share one, so a guard is only ever used with the
    /// lock that handed it out.
    pub closed spec fn id(&self) -> int {
        self.id@
    }

    /// Whether the flag is set.
    pub closed spec fn is_locked(&self) -> bool {
        self.locked
    }

    /// The protected value.
    pub closed spec fn value(&self) -> T {
        self.value
    }

    /// Where each registered thread stands.
    pub closed spec fn steps(&self) -> Seq<Step> {
        self.threads@
    }

    /// How many writes have been made to the value under the lock.
    pub closed spec fn version(&self) -> nat {
        self.version@
    }

    /// How many of those writes the last unlock published.
    pub closed spec fn flag_view(&self) -> nat {
        self.flag_view@
    }

    /// How many of those writes each registered thread has seen.
    pub closed spec fn views(&self) -> Seq<nat> {
        self.views@
    }

    /// The lock invariant and the ordering invariant hold.
    pub open spec fn wf(&self) -> bool {
        &&& lock_inv(self.is_locked(), self.steps())
        &&& ordering_inv(
            self.is_locked(),
            self.flag_view(),
            self.version(),
            self.steps(),
            self.views(),
        )
    }

    /// A new lock is free, holds `value`, and has no threads yet.
    pub fn new(value: T) -> (s: Self)
        ensures
            s.wf(),
            !s.is_locked(),
            s.value() == value,
            s.steps() == Seq::<Step>::empty(),
            s.version() == 0,
    {
        let ghost id: int = arbitrary();
        SpinLock {
            locked: false,
            value,
            threads: Vec::new(),
            id: Ghost(id),
            version: Ghost(0),
            flag_view: Ghost(0),
            views: Ghost(Seq::empty()),
        }
    }

    /// Whether the flag is set, as it stands.
    pub fn locked(&self) -> (b: bool)
        ensures
            b == self.is_locked(),
    {
        self.locked
    }

    /// Where thread `t` stands.
    pub fn step(&self, t: usize) -> (s: Step)
        requires
            t < self.steps().len(),
        ensures
            s == self.steps()[t as int],
    {
        self.threads[t]
    }

    /// Registers one more thread, which starts idle; returns its index.
    pub fn add_thread(&mut self) -> (t: usize)
        requires
            old(self).wf(),
            old(self).steps().len() < usize::MAX,
        ensures
            final(self).id() == old(self).id(),
            final(self).wf(),
            t == old(self).steps().len(),
            final(self).steps() == old(self).steps().push(Step::Idle),
            final(self).is_locked() == old(self).is_locked(),
            final(self).value() == old(self).value(),
            final(self).version() == old(self).version(),
            final(self).flag_view() == old(self).flag_view(),
            final(self).views() == old(self).views().push(0),
    {
        let t = self.threads.len();
        self.threads.push(Step::Idle);
        self.views = Ghost(self.views@.push(0));
        proof {
            let s0 = old(self).threads@;
            let s1 = self.threads@;
            assert forall|i: int| holding(s1, i) <==> holding(s0, i) by {}
            if some_holder(s0) {
                let j = choose|j: int| holding(s0, j);
                assert(holding(s1, j));
            }
        }
        t
    }

    /// One round of the spinning loop: `swap(true)`. The thread gets the
    /// guard if the flag was clear, and spins otherwise.
    pub fn lock(&mut self, t: usize) -> (guard: Option<Guard>)
        requires
            old(self).wf(),
            t < old(self).steps().len(),
            old(self).steps()[t as int] != Step::Holding,
        ensures
            final(self).id() == old(self).id(),
            guard matches Some(g) ==> g.lock_id() == old(self).id(),
            final(self).wf(),
            final(self).is_locked(),
            final(self).value() == old(self).value(),
            final(self).version() == old(self).version(),
            final(self).flag_view() == old(self).flag_view(),
            !old(self).is_locked() ==> {
                &&& final(self).steps() == old(self).steps().update(t as int, Step::Holding)
                &&& guard is Some && guard->0.thread() == t
                &&& final(self).views() == old(self).views().update(
                    t as int,
                    if old(self).views()[t as int] < old(self).flag_view() {
                        old(self).flag_view()
                    } else {
                        old(self).views()[t as int]
                    },
                )
            },
            old(self).is_locked() ==> {
                &&& final(self).steps() == old(self).steps().update(t as int, Step::Spinning)
                &&& guard is None
                &&& final(self).views() == old(self).views()
            },
    {
        let ghost s0 = self.threads@;
        let was = self.locked;
        self.locked = true;
        if !was {
            self.threads.set(t, Step::Holding);
            let ghost v = self.views@[t as int];
            let ghost f = self.flag_view@;
            self.views = Ghost(self.views@.update(t as int, if v < f { f } else { v }));
            proof {
                let s1 = self.threads@;
                assert(holding(s1, t as int));
                assert forall|i: int, j: int| holding(s1, i) && holding(s1, j) implies i == j by {
                    if i != t as int {
                        assert(holding(s0, i));
                    }
                    if j != t as int {
                        assert(holding(s0, j));
                    }
                }
            }
            Some(Guard { thread: t, lock_id: self.id })
        } else {
            self.threads.set(t, Step::Spinning);
            proof {
                let s1 = self.threads@;
                assert forall|i: int| holding(s1, i) implies holding(s0, i) by {}
                let h = choose|h: int| holding(s0, h);
                assert(holding(s1, h));
            }
            None
        }
    }

    /// Releases the lock: `store(false)`, as the guard's drop does.
    pub fn unlock(&mut self, guard: Guard)
        requires
            guard.lock_id() == old(self).id(),
            old(self).wf(),
            guard.thread() < old(self).steps().len(),
            old(self).steps()[guard.thread() as int] == Step::Holding,
        ensures
            final(self).id() == old(self).id(),
            final(self).wf(),
            !final(self).is_locked(),
            final(self).value() == old(self).value(),
            final(self).steps() == old(self).steps().update(guard.thread() as int, Step::Idle),
            final(self).version() == old(self).version(),
            final(self).views() == old(self).views(),
            final(self).flag_view() == old(self).views()[guard.thread() as int],
    {
        let ghost s0 = self.threads@;
        let t = guard.thread;
        self.locked = false;
        self.flag_view = Ghost(self.views@[t as int]);
        self.threads.set(t, Step::Idle);
        proof {
            let s1 = self.threads@;
            assert forall|i: int| !holding(s1, i) by {
                if holding(s1, i) {
                    assert(holding(s0, i));
                    assert(holding(s0, t as int));
                }
            }
        }
    }

    /// Read access through the guard (the guard's `Deref`).
    pub fn get<'a>(&'a self, guard: &Guard) -> (r: &'a T)
        requires
            guard.lock_id() == self.id(),
            guard.thread() < self.steps().len(),
            self.steps()[guard.thread() as int] == Step::Holding,
        ensures
            *r == self.value(),
    {
        &self.value
    }

    /// Write access through the guard (the guard's `DerefMut`).
    pub fn get_mut<'a>(&'a mut self, guard: &Guard) -> (r: &'a mut T)
        requires
            guard.lock_id() == old(self).id(),
            old(self).wf(),
            guard.thread() < old(self).steps().len(),
            old(self).steps()[guard.thread() as int] == Step::Holding,
        ensures
            final(self).id() == old(self).id(),
            *r == old(self).value(),
            final(self).value() == *final(r),
            final(self).wf(),
            final(self).is_locked() == old(self).is_locked(),
            final(self).steps() == old(self).steps(),
            final(self).version() == old(self).version() + 1,
            final(self).flag_view() == old(self).flag_view(),
            final(self).views() == old(self).views().update(
                guard.thread() as int,
                old(self).version() + 1,
            ),
    {
        let ghost t = guard.thread as int;
        self.version = Ghost(self.version@ + 1);
        self.views = Ghost(self.views@.update(t, self.version@));
        proof {
            let st = self.threads@;
            assert(holding(st, t));
            assert forall|i: int| holding(st, i) implies self.views@[i] == self.version@ by {
                assert(i == t);
            }
            assert forall|i: int| 0 <= i < self.views@.len() implies self.views@[i]
                <= self.version@ by {
                if i != t {
                    assert(self.views@[i] == old(self).views@[i]);
                }
            }
        }
        &mut self.value
    }
}

/// Mutual exclusion, from the invariant `wf` that `new` establishes and
/// that `add_thread`, `lock` and `unlock` each re-establish: there is at
/// most one holder, and the flag is set exactly while someone holds it.
pub proof fn lemma_mutual_exclusion<T>(lock: &SpinLock<T>)
    requires
        lock.wf(),
    ensures
        mutual_exclusion(lock.steps()),
        lock.is_locked() <==> some_holder(lock.steps()),
{
}

/// Every unlock happens before the next lock, from the invariant `wf` that
/// `new` establishes and every step re-establishes: the `Release` store of
/// an unlock publishes every write the unlocking thread saw, which is every
/// write made under the lock so far, and the `Acquire` swap that takes the
/// lock next brings them to the new holder, who thus sees every write made
/// under the lock before it.
pub proof fn lemma_unlock_happens_before_lock<T>(lock: &SpinLock<T>)
    requires
        lock.wf(),
    ensures
        !lock.is_locked() ==> lock.flag_view() == lock.version(),
        forall|i: int| holding(lock.steps(), i) ==> lock.views()[i] == lock.version(),
{
}

/// While one thread holds the lock, any other thread's `lock` round fails
/// and leaves that thread spinning.
pub proof fn lemma_holder_excludes_others<T>(lock: &SpinLock<T>, holder: int, other: int)
    requires
        lock.wf(),
        holding(lock.steps(), holder),
        other != holder,
    ensures
        lock.is_locked(),
        !holding(lock.steps(), other),
{
}

} // verus!
