use atomics_and_locks::chapter7::ordered_lock::{CounterStep, OrderedLock};
use atomics_and_locks::chapter4::spinlock::{SpinLock, Step as SpinStep};
use atomics_and_locks::chapter9::mutex;
use atomics_and_locks::chapter9::mutex_optimised;
use atomics_and_locks::chapter9::mutex::Step as TwoStep;
use atomics_and_locks::chapter9::mutex_optimised::Step as OptStep;

#[test]
fn spinlock_demo_sequence() {
    // Two threads push into a vector under the lock, one after the other.
    let mut x = SpinLock::new(Vec::new());
    let a = x.add_thread();
    let b = x.add_thread();

    let ga = x.lock(a).expect("the lock is free");
    // While a holds the lock, b spins.
    assert!(x.lock(b).is_none());
    assert_eq!(x.step(b), SpinStep::Spinning);
    x.get_mut(&ga).push(1);
    x.unlock(ga);

    let gb = x.lock(b).expect("the lock was released");
    x.get_mut(&gb).push(2);
    x.get_mut(&gb).push(2);
    x.unlock(gb);

    let g = x.lock(a).unwrap();
    assert!(x.get(&g).as_slice() == [1, 2, 2] || x.get(&g).as_slice() == [2, 2, 1]);
    x.unlock(g);
    assert!(!x.locked());
}

#[test]
fn mutex_uncontended_needs_no_wake() {
    let mut m = mutex_optimised::Mutex::new(0);
    let t = m.add_thread();
    let g = m.lock(t).expect("fast path on a free lock");
    assert_eq!(m.current_state(), 1);
    *m.get_mut(&g) += 1;
    m.unlock(g);
    // The state was 1, so the unlocking thread is done: no wake-up call.
    assert_eq!(m.current_state(), 0);
    assert_eq!(m.step(t), mutex_optimised::Step::Idle);
    assert_eq!(m.first_sleeper(), None);
}

#[test]
fn mutex_optimised_contention_wakes_a_sleeper() {
    let mut m = mutex_optimised::Mutex::new(0);
    let a = m.add_thread();
    let b = m.add_thread();
    let ga = m.lock(a).unwrap();
    // b's fast path fails; its swap(2) announces a waiter; it sleeps.
    assert!(m.lock(b).is_none());
    assert_eq!(m.step(b), OptStep::Contending);
    assert!(m.contend(b).is_none());
    assert_eq!(m.current_state(), 2);
    m.wait(b);
    assert_eq!(m.step(b), OptStep::Sleeping);
    // a unlocks, sees 2, and wakes b.
    *m.get_mut(&ga) += 1;
    m.unlock(ga);
    assert_eq!(m.current_state(), 0);
    assert_eq!(m.step(a), OptStep::Waking);
    let sleeper = m.first_sleeper();
    assert_eq!(sleeper, Some(b));
    m.wake_one(a, sleeper);
    assert_eq!(m.step(b), OptStep::Contending);
    // b takes the lock with state 2, since it cannot know nobody else waits.
    let gb = m.contend(b).expect("the lock is free");
    assert_eq!(m.current_state(), 2);
    *m.get_mut(&gb) += 1;
    assert_eq!(*m.get(&gb), 2);
    m.unlock(gb);
    assert_eq!(m.step(b), OptStep::Waking);
    m.wake_one(b, None);
    assert_eq!(m.current_state(), 0);
}

#[test]
fn mutex_optimised_wait_returns_when_state_changed() {
    let mut m = mutex_optimised::Mutex::new(());
    let a = m.add_thread();
    let b = m.add_thread();
    let ga = m.lock(a).unwrap();
    assert!(m.lock(b).is_none());
    assert!(m.contend(b).is_none());
    m.unlock(ga);
    m.wake_one(a, None);
    // The state is no longer 2, so wait returns at once.
    m.wait(b);
    assert_eq!(m.step(b), OptStep::Contending);
    assert!(m.contend(b).is_some());
}

#[test]
fn mutex_optimised_spurious_wakeup() {
    let mut m = mutex_optimised::Mutex::new(());
    let a = m.add_thread();
    let b = m.add_thread();
    let ga = m.lock(a).unwrap();
    assert!(m.lock(b).is_none());
    assert!(m.contend(b).is_none());
    m.wait(b);
    m.spurious_wakeup(b);
    assert_eq!(m.step(b), OptStep::Contending);
    // Still locked: the swap(2) sends b back to waiting.
    assert!(m.contend(b).is_none());
    assert_eq!(m.step(b), OptStep::Checking);
    m.unlock(ga);
    assert_eq!(m.step(a), OptStep::Waking);
}

#[test]
fn mutex_two_state_wakes_on_every_unlock() {
    let mut m = mutex::Mutex::new(10);
    let a = m.add_thread();
    let b = m.add_thread();
    let ga = m.lock(a).unwrap();
    assert_eq!(m.current_state(), 1);
    assert!(m.lock(b).is_none());
    m.wait(b);
    assert_eq!(m.step(b), TwoStep::Sleeping);
    *m.get_mut(&ga) += 5;
    m.unlock(ga);
    assert_eq!(m.current_state(), 0);
    assert_eq!(m.step(a), TwoStep::Waking);
    m.wake_one(a, m.first_sleeper());
    assert_eq!(m.step(b), TwoStep::Contending);
    let gb = m.lock(b).unwrap();
    assert_eq!(*m.get(&gb), 15);
    m.unlock(gb);
    // Even uncontended, the simple mutex goes on to wake (a syscall).
    assert_eq!(m.step(b), TwoStep::Waking);
    m.wake_one(b, None);
    assert_eq!(m.step(b), TwoStep::Idle);
}

#[test]
fn mutex_optimised_state_one_while_a_woken_thread_contends() {
    let mut m = mutex_optimised::Mutex::new(0);
    let a = m.add_thread();
    let b = m.add_thread();
    let c = m.add_thread();
    let d = m.add_thread();
    let ga = m.lock(a).unwrap();
    for t in [b, c] {
        assert!(m.lock(t).is_none());
        assert!(m.contend(t).is_none());
        m.wait(t);
        assert_eq!(m.step(t), OptStep::Sleeping);
    }
    // a unlocks and wakes b only.
    m.unlock(ga);
    m.wake_one(a, Some(b));
    // d's fast path takes the free lock: state 1 although c still sleeps,
    // because b is on its way and will announce itself again.
    let gd = m.lock(d).unwrap();
    assert_eq!(m.current_state(), 1);
    assert_eq!(m.step(c), OptStep::Sleeping);
    assert_eq!(m.step(b), OptStep::Contending);
    assert!(m.contend(b).is_none());
    assert_eq!(m.current_state(), 2);
    m.unlock(gd);
    assert_eq!(m.step(d), OptStep::Waking);
}

#[test]
fn spinlock_next_holder_sees_the_write() {
    let mut x = SpinLock::new(0);
    let a = x.add_thread();
    let b = x.add_thread();
    let g = x.lock(a).unwrap();
    *x.get_mut(&g) = 5;
    x.unlock(g);
    let g = x.lock(b).unwrap();
    assert_eq!(*x.get(&g), 5);
    x.unlock(g);
}

#[test]
fn mutex_next_holder_sees_the_write() {
    let mut m = mutex::Mutex::new(0);
    let a = m.add_thread();
    let b = m.add_thread();
    let g = m.lock(a).unwrap();
    *m.get_mut(&g) = 5;
    m.unlock(g);
    m.wake_one(a, None);
    let g = m.lock(b).unwrap();
    assert_eq!(*m.get(&g), 5);
    m.unlock(g);
}

#[test]
fn mutex_optimised_next_holder_sees_the_write() {
    let mut m = mutex_optimised::Mutex::new(0);
    let a = m.add_thread();
    let b = m.add_thread();
    let g = m.lock(a).unwrap();
    *m.get_mut(&g) = 5;
    m.unlock(g);
    let g = m.lock(b).unwrap();
    assert_eq!(*m.get(&g), 5);
    m.unlock(g);
}

#[test]
fn ordered_lock_with_acquire_release_counts_every_increment() {
    let mut c = OrderedLock::new(true);
    let a = c.add_thread();
    let b = c.add_thread();
    for _ in 0..3 {
        for t in [a, b] {
            c.lock(t);
            // Inside the lock the thread sees the latest write.
            let latest = c.thread(t).view;
            let v = c.load(t, latest);
            assert_eq!(v, latest);
            c.store(t);
            c.unlock(t);
        }
    }
    assert_eq!(c.value(), 6);
}

#[test]
fn ordered_lock_with_relaxed_can_lose_an_increment() {
    let mut c = OrderedLock::new(false);
    let a = c.add_thread();
    let b = c.add_thread();
    c.lock(a);
    assert_eq!(c.load(a, 0), 0);
    c.store(a);
    c.unlock(a);
    // The relaxed unlock published nothing: b still sees only the initial
    // write, and may load it.
    c.lock(b);
    assert_eq!(c.thread(b).view, 0);
    assert_eq!(c.load(b, 0), 0);
    c.store(b);
    c.unlock(b);
    // Two increments, and the counter holds 1.
    assert_eq!(c.value(), 1);
}

#[test]
fn ordered_lock_second_swap_spins() {
    let mut c = OrderedLock::new(true);
    let a = c.add_thread();
    let b = c.add_thread();
    c.lock(a);
    c.lock(b);
    assert_eq!(c.thread(b).step, CounterStep::Spinning);
    assert_eq!(c.thread(a).step, CounterStep::Locked);
}
