use theos::msi::Msi;
use theos::sleepq::{SleepQueues, MAX_SLEEPERS, NO_HANDLE, TIMED_OUT, WOKEN};

#[test]
fn sleep_then_wakeup_reports_woken() {
    let mut q = SleepQueues::new();
    let h = q.sleep(0, 77, 0, 1000, 5).unwrap();
    assert_eq!(h, 0);
    assert_eq!(q.active_count(0), 1);
    assert_eq!(q.wakeup(77), vec![5]);
    assert_eq!(q.commit(h), WOKEN);
    assert_eq!(q.active_count(0), 0);
}

#[test]
fn sleep_times_out_at_deadline() {
    let mut q = SleepQueues::new();
    let h = q.prepare(2, 9, 500, 1000, 11);
    assert_eq!(h, (2u64 << 32) | 0);
    assert_eq!(q.entry(2, 0).deadline_ns, 1500);
    assert_eq!(q.tick(2, 1499), Vec::<u64>::new());
    assert_eq!(q.tick(2, 1500), vec![11]);
    assert_eq!(q.entry(2, 0).deadline_ns, 0);
    // a later wakeup does not change the outcome back
    assert_eq!(q.tick(2, 9999), Vec::<u64>::new());
    assert_eq!(q.commit(h), TIMED_OUT);
}

#[test]
fn wakeup_wakes_every_sleeper_on_ident_in_order() {
    let mut q = SleepQueues::new();
    q.prepare(0, 1, 0, 0, 10);
    q.prepare(0, 2, 0, 0, 20);
    q.prepare(1, 1, 0, 0, 30);
    q.prepare(0, 1, 0, 0, 40);
    assert_eq!(q.wakeup(1), vec![10, 40, 30]);
    assert_eq!(q.wakeup(3), Vec::<u64>::new());
}

#[test]
fn full_table_gives_no_handle() {
    let mut q = SleepQueues::new();
    for i in 0..MAX_SLEEPERS {
        assert_ne!(q.prepare(3, 1, 0, 0, i as u64), NO_HANDLE);
    }
    assert_eq!(q.prepare(3, 1, 0, 0, 99), NO_HANDLE);
    assert!(q.sleep(3, 1, 0, 0, 99).is_none());
    assert_eq!(q.commit(NO_HANDLE), TIMED_OUT);
    // a handle out of range names no entry
    assert_eq!(q.commit((9u64 << 32) | 1), TIMED_OUT);
    assert_eq!(q.commit(70), TIMED_OUT);
}

#[test]
fn handle_decodes_to_cpu_and_index() {
    let q = SleepQueues::new();
    assert_eq!(q.commit_target((3u64 << 32) | 17), Some((3, 17)));
    assert_eq!(q.commit_target(NO_HANDLE), None);
    assert_eq!(q.commit_target((8u64 << 32) | 1), None);
}

#[test]
fn msi_counts_and_wakes() {
    let mut q = SleepQueues::new();
    let mut m = Msi::new();
    assert_eq!(m.interrupt(&mut q), Vec::<u64>::new());
    q.prepare(0, 55, 0, 0, 3);
    m.set_waker(55);
    assert_eq!(m.interrupt(&mut q), vec![3]);
    assert_eq!(m.take(), 2);
    assert_eq!(m.take(), 0);
}

#[test]
fn untimed_sleep_survives_ticks_and_other_wakeups() {
    let mut q = SleepQueues::new();
    let h = q.sleep(1, 5, 0, 100, 3).unwrap();
    q.tick(1, u64::MAX);
    assert!(q.wakeup(6).is_empty());
    q.tick(1, 1_000_000);
    assert_eq!(q.commit(h), WOKEN);
}

#[test]
fn wakeup_before_sleep_is_not_kept() {
    let mut q = SleepQueues::new();
    assert!(q.wakeup(42).is_empty());
    let h = q.sleep(0, 42, 100_000, 1000, 8).unwrap();
    q.tick(0, 50_000);
    assert_eq!(q.entry(0, 0).outcome, WOKEN);
    assert_eq!(q.tick(0, 101_000), vec![8]);
    assert!(q.wakeup(7).is_empty());
    assert_eq!(q.commit(h), TIMED_OUT);
}

#[test]
fn targeted_wakeup_leaves_other_sleeps() {
    let mut q = SleepQueues::new();
    let a1 = q.sleep(0, 1, 50_000_000, 0, 10).unwrap();
    let a2 = q.sleep(0, 1, 50_000_000, 0, 11).unwrap();
    let b = q.sleep(0, 2, 100_000, 0, 12).unwrap();
    assert_eq!(q.wakeup(1), vec![10, 11]);
    assert_eq!(q.entry(0, 2).outcome, WOKEN);
    assert_eq!(q.tick(0, 200_000), vec![12]);
    assert_eq!(q.commit(a1), WOKEN);
    assert_eq!(q.commit(a2), WOKEN);
    assert_eq!(q.commit(b), TIMED_OUT);
}

#[test]
fn take_counts_interrupts_since_last_take() {
    let mut m = Msi::new();
    let mut q = SleepQueues::new();
    for _ in 0..5 {
        m.interrupt(&mut q);
    }
    assert_eq!(m.take(), 5);
    assert_eq!(m.take(), 0);
    m.interrupt(&mut q);
    assert_eq!(m.take(), 1);
}

#[test]
fn timed_sleep_is_released_only_by_its_ident_or_deadline() {
    let mut q = SleepQueues::new();
    let h = q.prepare(1, 5, 1000, 0, 42);
    let before = q.entry(1, 0);
    // neither an early tick nor a wakeup of another ident hands the task back
    assert_eq!(q.tick(1, 999), Vec::<u64>::new());
    assert_eq!(q.wakeup(6), Vec::<u64>::new());
    let e = q.entry(1, 0);
    assert!(e.active && e.ident == before.ident && e.deadline_ns == before.deadline_ns && e.outcome == WOKEN);
    // its wakeup does
    assert_eq!(q.wakeup(5), vec![42]);
    assert_eq!(q.entry(1, 0).outcome, WOKEN);
    // the deadline passing before the task runs again turns the outcome to TIMED_OUT
    assert_eq!(q.tick(1, 1000), vec![42]);
    assert_eq!(q.commit(h), TIMED_OUT);
}

#[test]
fn timed_sleep_woken_before_deadline_reports_woken() {
    let mut q = SleepQueues::new();
    let h = q.prepare(0, 8, 1000, 100, 3);
    assert_eq!(q.tick(0, 500), Vec::<u64>::new());
    assert_eq!(q.wakeup(8), vec![3]);
    assert_eq!(q.tick(0, 1099), Vec::<u64>::new());
    assert_eq!(q.commit(h), WOKEN);
}
