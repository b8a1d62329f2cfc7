use atomics_and_locks::chapter6::arc;
use atomics_and_locks::chapter6::arc_weak;
use atomics_and_locks::chapter6::arc_weak_opt;
use std::sync::atomic::AtomicUsize;
use std::sync::atomic::Ordering::Relaxed;

#[test]
fn arc_test() {
    static NUM_DROPS: AtomicUsize = AtomicUsize::new(0);

    struct DetectDrop;

    impl Drop for DetectDrop {
        fn drop(&mut self) {
            NUM_DROPS.fetch_add(1, Relaxed);
        }
    }

    // Two Arcs sharing an object containing a string and a DetectDrop.
    let (x, mut shared) = arc::Arc::new(("hello", DetectDrop));
    let y = x.clone(&mut shared);

    // Both handles see the data.
    assert_eq!(x.deref(&shared).0, "hello");
    assert_eq!(y.deref(&shared).0, "hello");

    // Dropping x: y still keeps the data alive.
    drop(x.drop(&mut shared));
    assert_eq!(NUM_DROPS.load(Relaxed), 0);

    // Dropping the remaining Arc drops the data.
    drop(y.drop(&mut shared));
    assert_eq!(NUM_DROPS.load(Relaxed), 1);
}

#[test]
fn arc_test_get_mut() {
    let (mut x, mut shared) = arc::Arc::new(42);
    assert_eq!(arc::Arc::get_mut(&mut x, &mut shared), Some(&mut 42));
    let y = x.clone(&mut shared);
    assert_eq!(arc::Arc::get_mut(&mut x, &mut shared), None);
    drop(y.drop(&mut shared));
    assert_eq!(arc::Arc::get_mut(&mut x, &mut shared), Some(&mut 42));
}

#[test]
fn arc_get_mut_writes_through() {
    let (mut x, mut shared) = arc::Arc::new(1);
    if let Some(v) = arc::Arc::get_mut(&mut x, &mut shared) {
        *v = 7;
    }
    assert_eq!(*x.deref(&shared), 7);
    assert_eq!(x.drop(&mut shared), Some(7));
}

#[test]
fn arc_clone_then_drop_drops_nothing() {
    let (x, mut shared) = arc::Arc::new(String::from("kept"));
    let y = x.clone(&mut shared);
    assert_eq!(y.drop(&mut shared), None);
    assert_eq!(x.deref(&shared), "kept");
    assert_eq!(x.drop(&mut shared), Some(String::from("kept")));
}

#[test]
fn arc_weak_test() {
    static NUM_DROPS: AtomicUsize = AtomicUsize::new(0);

    struct DetectDrop;

    impl Drop for DetectDrop {
        fn drop(&mut self) {
            NUM_DROPS.fetch_add(1, Relaxed);
        }
    }

    // An Arc with two weak pointers.
    let (x, mut shared) = arc_weak::Arc::new(("hello", DetectDrop));
    let y = arc_weak::Arc::downgrade(&x, &mut shared);
    let z = arc_weak::Arc::downgrade(&x, &mut shared);

    // The weak pointer can be upgraded at this point.
    let upgraded = y.upgrade(&mut shared).unwrap();
    // The Weak goes away once upgraded.
    y.drop(&mut shared);
    let y = upgraded;
    assert_eq!(y.deref(&shared).0, "hello");
    // x is still available.
    assert_eq!(x.deref(&shared).0, "hello");
    drop(y.drop(&mut shared));

    // The data isn't dropped yet, and the weak pointer can be upgraded.
    assert_eq!(NUM_DROPS.load(Relaxed), 0);
    let upgraded = z.upgrade(&mut shared);
    assert!(upgraded.is_some());
    drop(upgraded.unwrap().drop(&mut shared));

    // Drop the Arc.
    drop(x.drop(&mut shared));

    // Now the data is dropped, and the weak pointer can't be upgraded.
    assert_eq!(NUM_DROPS.load(Relaxed), 1);
    assert!(z.upgrade(&mut shared).is_none());
    z.drop(&mut shared);
}

#[test]
fn arc_weak_test_get_mut() {
    let (mut x, mut shared) = arc_weak::Arc::new(42);
    assert_eq!(arc_weak::Arc::get_mut(&mut x, &mut shared), Some(&mut 42));
    let y = x.clone(&mut shared);
    assert_eq!(arc_weak::Arc::get_mut(&mut x, &mut shared), None);
    drop(y.drop(&mut shared));
    assert_eq!(arc_weak::Arc::get_mut(&mut x, &mut shared), Some(&mut 42));
}

#[test]
fn arc_weak_get_mut_refused_while_weak_exists() {
    let (mut x, mut shared) = arc_weak::Arc::new(5);
    let w = arc_weak::Arc::downgrade(&x, &mut shared);
    assert_eq!(arc_weak::Arc::get_mut(&mut x, &mut shared), None);
    let w2 = w.clone(&mut shared);
    w.drop(&mut shared);
    assert_eq!(arc_weak::Arc::get_mut(&mut x, &mut shared), None);
    w2.drop(&mut shared);
    assert_eq!(arc_weak::Arc::get_mut(&mut x, &mut shared), Some(&mut 5));
}

#[test]
fn arc_weak_opt_test() {
    static NUM_DROPS: AtomicUsize = AtomicUsize::new(0);

    struct DetectDrop;

    impl Drop for DetectDrop {
        fn drop(&mut self) {
            NUM_DROPS.fetch_add(1, Relaxed);
        }
    }

    // An Arc with two weak pointers.
    let (x, mut shared) = arc_weak_opt::Arc::new(("hello", DetectDrop));
    let y = arc_weak_opt::Arc::downgrade(&x, &mut shared);
    let z = arc_weak_opt::Arc::downgrade(&x, &mut shared);

    // The weak pointer can be upgraded at this point.
    let upgraded = y.upgrade(&mut shared).unwrap();
    // The Weak goes away once upgraded.
    y.drop(&mut shared);
    let y = upgraded;
    assert_eq!(y.deref(&shared).0, "hello");
    // x is still available.
    assert_eq!(x.deref(&shared).0, "hello");
    drop(y.drop(&mut shared));

    // The data isn't dropped yet, and the weak pointer can be upgraded.
    assert_eq!(NUM_DROPS.load(Relaxed), 0);
    let upgraded = z.upgrade(&mut shared);
    assert!(upgraded.is_some());
    drop(upgraded.unwrap().drop(&mut shared));

    // Drop the Arc.
    drop(x.drop(&mut shared));

    // Now the data is dropped, and the weak pointer can't be upgraded.
    assert_eq!(NUM_DROPS.load(Relaxed), 1);
    assert!(z.upgrade(&mut shared).is_none());
    z.drop(&mut shared);
}

#[test]
fn arc_weak_opt_test_get_mut() {
    let (mut x, mut shared) = arc_weak_opt::Arc::new(42);
    assert_eq!(arc_weak_opt::Arc::get_mut(&mut x, &mut shared), Some(&mut 42));
    let y = x.clone(&mut shared);
    assert_eq!(arc_weak_opt::Arc::get_mut(&mut x, &mut shared), None);
    drop(y.drop(&mut shared));
    assert_eq!(arc_weak_opt::Arc::get_mut(&mut x, &mut shared), Some(&mut 42));
}

#[test]
fn arc_weak_opt_get_mut_refused_while_weak_exists() {
    let (mut x, mut shared) = arc_weak_opt::Arc::new(5);
    let w = arc_weak_opt::Arc::downgrade(&x, &mut shared);
    assert_eq!(arc_weak_opt::Arc::get_mut(&mut x, &mut shared), None);
    w.drop(&mut shared);
    assert_eq!(arc_weak_opt::Arc::get_mut(&mut x, &mut shared), Some(&mut 5));
}

#[test]
fn arc_weak_opt_weak_outlives_data() {
    let (x, mut shared) = arc_weak_opt::Arc::new(String::from("gone"));
    let w = arc_weak_opt::Arc::downgrade(&x, &mut shared);
    assert_eq!(x.drop(&mut shared), Some(String::from("gone")));
    assert!(w.upgrade(&mut shared).is_none());
    w.drop(&mut shared);
}

#[test]
fn chapter6_run_all_does_nothing() {
    atomics_and_locks::chapter6::run_all();
}
