use atomics_and_locks::chapter6::get_mut_race::{GetMutRace, OpStep};

#[test]
fn get_mut_alone_gets_exclusive_access() {
    let mut r = GetMutRace::new();
    assert!(r.get_mut_lock(0));
    assert_eq!(r.current_alloc_count(), usize::MAX);
    r.get_mut_check(0);
    assert!(r.get_mut_unlock(0));
    assert_eq!(r.thread(0).step, OpStep::Exclusive);
    assert_eq!(r.current_alloc_count(), 1);
    r.release_exclusive(0);
}

#[test]
fn get_mut_refused_while_a_weak_exists() {
    let mut r = GetMutRace::new();
    r.downgrade_load(0);
    assert!(r.downgrade_try(0));
    assert_eq!(r.current_alloc_count(), 2);
    assert!(!r.get_mut_lock(0));
    r.drop_weak(0);
    assert!(r.get_mut_lock(0));
}

#[test]
fn downgrade_spins_while_get_mut_holds_the_lock() {
    let mut r = GetMutRace::new();
    let b = r.add_thread();
    r.clone_arc(0);
    r.send_arc(0, b);
    assert_eq!(r.current_data_count(), 2);

    // Thread 0 locks the weak counter; thread b starts a downgrade.
    assert!(r.get_mut_lock(0));
    r.downgrade_load(b);
    assert_eq!(r.thread(b).step, OpStep::DowngradeLoaded(usize::MAX));
    // While locked, the downgrade only reloads.
    assert!(!r.downgrade_try(b));
    assert!(!r.downgrade_try(b));

    // Thread 0 sees two Arcs: not unique.
    r.get_mut_check(0);
    assert!(!r.get_mut_unlock(0));
    assert_eq!(r.thread(0).step, OpStep::Idle);

    // Unlocked: the downgrade reloads 1 and then succeeds.
    assert!(!r.downgrade_try(b));
    assert!(r.downgrade_try(b));
    assert_eq!(r.current_alloc_count(), 2);
    assert_eq!(r.thread(b).weaks, 1);
}

#[test]
fn upgrade_fails_after_last_arc_dropped() {
    let mut r = GetMutRace::new();
    let b = r.add_thread();
    r.downgrade_load(0);
    assert!(r.downgrade_try(0));
    r.send_weak(0, b);
    r.drop_arc(0);
    assert_eq!(r.thread(0).step, OpStep::DroppingLast);
    r.finish_drop(0);
    assert_eq!(r.current_alloc_count(), 1);
    r.upgrade_load(b);
    assert_eq!(r.upgrade_try(b), Some(false));
    r.drop_weak(b);
    assert_eq!(r.current_alloc_count(), 0);
}

#[test]
fn upgrade_retries_after_a_concurrent_clone() {
    let mut r = GetMutRace::new();
    let b = r.add_thread();
    r.downgrade_load(0);
    assert!(r.downgrade_try(0));
    r.send_weak(0, b);
    r.upgrade_load(b);
    assert_eq!(r.thread(b).step, OpStep::UpgradeLoaded(1));
    // Thread 0 clones in between: the compare-exchange fails and b retries.
    r.clone_arc(0);
    assert_eq!(r.upgrade_try(b), None);
    assert_eq!(r.upgrade_try(b), Some(true));
    assert_eq!(r.current_data_count(), 3);
    assert_eq!(r.thread(b).arcs, 1);
}
