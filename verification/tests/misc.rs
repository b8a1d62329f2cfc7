use atomics_and_locks::thread::{keeps_waiting, parking_step, ConsumerAction, ParkAction, WorkQueue};
use atomics_and_locks::add_ten;
use atomics_and_locks::cell::{Counter, CounterSync};
use atomics_and_locks::chapter2::lazy_init::{KeyRace, KeyStep};
use atomics_and_locks::chapter2::progress_reporting::{progress, work_delay_ms, Progress};
use atomics_and_locks::chapter3::relaxed::is_unexpected;
use atomics_and_locks::chapter3::lazy_init::{Data, DataRace, DataStep};

#[test]
fn add_ten_adds_ten() {
    let mut n = 5;
    add_ten(&mut n);
    assert_eq!(n, 15);
    let mut m = -20;
    add_ten(&mut m);
    assert_eq!(m, -10);
}

#[test]
fn counter_moves_between_threads() {
    let mut c = Counter::new();
    c.hit();
    // Moved to the other owner, which hits twice and hands it back.
    let mut moved = c;
    moved.hit();
    moved.hit();
    let c = moved;
    assert_eq!(c.hits(), 3);
}

#[test]
fn counter_sync_is_shared() {
    let c = CounterSync::new();
    c.hit();
    let shared = &c;
    shared.hit();
    shared.hit();
    assert_eq!(c.hits(), 3);
}

#[test]
fn work_delay_matches_the_hash() {
    for x in [0u64, 1, 2, 25, 99, 12345, u64::MAX] {
        let expected = (x.wrapping_mul(0x9E3779B97F4A7C15).rotate_left(32) % 50) + 20;
        let d = work_delay_ms(x);
        assert_eq!(d, expected);
        assert!((20..70).contains(&d));
    }
    assert_eq!(work_delay_ms(0), 20);
}

#[test]
fn key_race_with_store_can_disagree() {
    let mut race = KeyRace::new();
    let a = race.add_thread();
    let b = race.add_thread();
    race.load(a);
    race.load(b);
    race.generate(a, 11);
    race.generate(b, 22);
    race.publish_with_store(a);
    race.publish_with_store(b);
    assert_eq!(race.step(a), KeyStep::Done(11));
    assert_eq!(race.step(b), KeyStep::Done(22));
    assert_eq!(race.key(), 22);
}

#[test]
fn key_race_with_compare_exchange_agrees() {
    let mut race = KeyRace::new();
    let a = race.add_thread();
    let b = race.add_thread();
    race.load(a);
    race.load(b);
    race.generate(a, 11);
    race.generate(b, 22);
    race.publish_with_compare_exchange(a);
    race.publish_with_compare_exchange(b);
    assert_eq!(race.step(a), KeyStep::Done(11));
    assert_eq!(race.step(b), KeyStep::Done(11));
    assert_eq!(race.key(), 11);
}

#[test]
fn get_key_keeps_the_first_key() {
    let mut race = KeyRace::new();
    let a = race.add_thread();
    let b = race.add_thread();
    let c = race.add_thread();
    let ka = race.get_key(a);
    let kb = race.get_key_with_compare_exchange(b);
    let kc = race.get_key_with_store(c);
    assert_eq!(ka, race.key());
    if ka != 0 {
        assert_eq!(kb, ka);
        assert_eq!(kc, ka);
    }
}

#[test]
fn data_new_counts_up() {
    assert_eq!(Data::new(0), Data(1, 2, 3, 4));
    assert_eq!(Data::new(7), Data(8, 9, 10, 11));
}

#[test]
fn data_race_loser_frees_its_value() {
    let mut race = DataRace::new();
    let a = race.add_thread();
    let b = race.add_thread();
    race.load(a);
    race.load(b);
    race.allocate(a, 0);
    race.allocate(b, 1);
    assert_eq!(race.publish(b), None);
    assert_eq!(race.publish(a), Some(Data(1, 2, 3, 4)));
    assert_eq!(race.step(a), DataStep::Done(Data(2, 3, 4, 5)));
    let c = race.add_thread();
    // Once a value is published, any number is fine: nothing is computed.
    assert_eq!(race.get_data(c, usize::MAX), Data(2, 3, 4, 5));
    // A thread may get the value again.
    assert_eq!(race.get_data(a, 0), Data(2, 3, 4, 5));
}

#[test]
fn progress_reports_done_at_a_hundred() {
    assert_eq!(progress(100, 12_345), Progress::Done);
}

#[test]
fn progress_reports_nothing_done_at_zero() {
    assert_eq!(progress(0, 0), Progress::NothingDone);
}

#[test]
fn progress_averages_in_nanoseconds() {
    // 4 items in 10 microseconds: 2.5 microseconds each.
    assert_eq!(
        progress(4, 10),
        Progress::Working { done: 4, average_secs: 0, average_subsec_nanos: 2_500 }
    );
    // 3 items in 10 seconds: 3.333333333 seconds each, rounded down.
    assert_eq!(
        progress(3, 10_000_000),
        Progress::Working { done: 3, average_secs: 3, average_subsec_nanos: 333_333_333 }
    );
    // The same as dividing the duration.
    let d = std::time::Duration::from_micros(10_000_000) / 3;
    assert_eq!(d, std::time::Duration::new(3, 333_333_333));
}

#[test]
fn relaxed_observations_classified() {
    assert!(!is_unexpected(0, 0));
    assert!(!is_unexpected(10, 20));
    assert!(is_unexpected(10, 0));
    assert!(is_unexpected(0, 20));
}

#[test]
fn parking_consumer_decisions() {
    assert_eq!(parking_step(Some(3), false), ParkAction::Print(3));
    assert_eq!(parking_step(Some(4), true), ParkAction::Print(4));
    assert_eq!(parking_step(None, true), ParkAction::Exit);
    assert_eq!(parking_step(None, false), ParkAction::Park);
}

#[test]
fn condvar_consumer_waits_only_with_nothing_to_do() {
    assert!(keeps_waiting(true, false));
    assert!(!keeps_waiting(true, true));
    assert!(!keeps_waiting(false, false));
    assert!(!keeps_waiting(false, true));
}

#[test]
fn condvar_work_queue_processes_all_then_exits() {
    let mut q = WorkQueue::new();
    // Nothing yet: the consumer waits.
    assert!(q.must_wait());
    assert_eq!(q.consume(), None);
    for i in 0..20 {
        q.push(i);
    }
    assert!(!q.must_wait());
    for i in 0..20 {
        assert_eq!(q.consume(), Some(ConsumerAction::Process(i)));
    }
    // Empty but not done: the consumer waits again.
    assert_eq!(q.consume(), None);
    q.finish();
    assert!(!q.must_wait());
    assert_eq!(q.consume(), Some(ConsumerAction::Exit));
}

#[test]
fn condvar_work_queue_done_with_items_left_processes_them_first() {
    let mut q = WorkQueue::new();
    q.push(7);
    q.finish();
    assert_eq!(q.consume(), Some(ConsumerAction::Process(7)));
    assert_eq!(q.consume(), Some(ConsumerAction::Exit));
}
