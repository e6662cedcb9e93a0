use theos::idle::setup_idle;
use theos::scheduler::{initial_frame, task_handle, task_of, user_initial_frame, Schedulers, Switch, Task, TaskRef, TaskState, WakeHints};
use theos::sleepq::{SleepQueues, TIMED_OUT};

fn r(cpu: usize, priority: usize, slot: usize) -> TaskRef {
    TaskRef { cpu, priority, slot }
}

#[test]
fn frames_layout() {
    assert_eq!(initial_frame(0x1234), [0, 0, 0, 0, 0, 0, 0x1234]);
    assert_eq!(user_initial_frame(0xAA, 0xBB, 0xCC), [0xCC, 0xBB, 0, 0, 0, 0, 0xAA]);
}

#[test]
fn spawn_task_assigns_increasing_pids() {
    let mut s = Schedulers::new();
    assert_eq!(s.next_pid(), 0);
    let p0 = s.spawn_task(0, 1, 0x1000, 0x2000, 0x3000, 0x4000);
    let p1 = s.spawn_task(0, 1, 0x1000, 0x2000, 0x3000, 0x4000);
    let p2 = s.spawn_task(1, 3, 0x1000, 0x2000, 0x3000, 0x4000);
    assert_eq!((p0, p1, p2), (0, 1, 2));
    assert_eq!(s.next_pid(), 3);
    let t = s.task(r(0, 1, 1)).unwrap();
    assert_eq!(t.pid, 1);
    assert!(t.state == TaskState::Ready);
    assert_eq!(s.find_task_by_pid(2), Some(r(1, 3, 0)));
    assert_eq!(s.find_task_by_pid(7), None);
}

#[test]
fn find_next_task_prefers_highest_priority_round_robin() {
    let mut s = Schedulers::new();
    s.spawn_task(0, 1, 0, 0, 0, 0);
    s.spawn_task(0, 1, 0, 0, 0, 0);
    s.spawn_task(0, 0, 0, 0, 0, 0);
    // current slot at priority 1 is 0: the first probe is slot 1.
    assert_eq!(s.find_next_task(0), Some(r(0, 1, 1)));
    assert_eq!(s.find_next_task(0), Some(r(0, 1, 0)));
    assert_eq!(s.find_next_task(0), Some(r(0, 1, 1)));
    assert_eq!(s.find_next_task(1), None);
}

#[test]
fn blocked_tasks_are_skipped_and_woken() {
    let mut s = Schedulers::new();
    s.spawn_task(0, 2, 0, 0, 0, 0);
    s.spawn_task(0, 1, 0, 0, 0, 0);
    let first = s.start(0).unwrap();
    assert_eq!(first, r(0, 2, 0));
    // the task blocks: no wake pending, so the lower priority task runs.
    assert!(s.block_current(0, first) == Switch::To(r(0, 1, 0)));
    assert!(s.task(first).unwrap().state == TaskState::Blocked);
    assert_eq!(s.find_ipc_waiting(0), Some(first));
    s.wake(Some(first));
    let t = s.task(first).unwrap();
    assert!(t.state == TaskState::Ready);
    assert!(t.wake_pending);
    // a pending wake is consumed and the task keeps running.
    assert!(s.block_current(0, first) == Switch::Stay);
    assert!(!s.task(first).unwrap().wake_pending);
}

#[test]
fn yield_now_stays_when_alone() {
    let mut s = Schedulers::new();
    s.spawn_task(2, 4, 0, 0, 0, 0);
    let cur = s.start(2).unwrap();
    assert!(s.yield_now(2, cur) == Switch::Stay);
}

#[test]
fn kill_current_task_removes_it() {
    let mut s = Schedulers::new();
    s.spawn_task(0, 1, 0, 0, 0, 0);
    s.spawn_task(0, 1, 0, 0, 0, 0);
    let cur = s.start(0).unwrap();
    assert_eq!(cur, r(0, 1, 0));
    let next = s.kill_current_task(0, cur);
    assert_eq!(next, Some(r(0, 1, 1)));
    assert!(s.task(cur).is_none());
}

#[test]
fn setup_idle_places_idle_task_with_frame() {
    let mut s = Schedulers::new();
    let (placed, frame) = setup_idle(&mut s, 0, 0x5000, 0x9000, 0x7000, 0xABCD);
    assert_eq!(placed, Some(r(0, 0, 0)));
    assert_eq!(frame, [0, 0, 0, 0, 0, 0, 0xABCD]);
    let t = s.task(r(0, 0, 0)).unwrap();
    assert_eq!(t.pid, -1);
    assert_eq!(t.ksp, 0x9000 - 56);
    assert_eq!(t.kstack_top, 0x9000);
    let (placed2, _) = setup_idle(&mut s, 1, 0, 0x9000, 0, 0);
    assert_eq!(placed2, Some(r(1, 0, 0)));
    assert_eq!(s.task(r(1, 0, 0)).unwrap().pid, -2);
}

#[test]
fn wake_hint_switches_directly() {
    let mut s = Schedulers::new();
    s.spawn_task(0, 1, 0, 0, 0, 0);
    s.spawn_task(0, 1, 0, 0, 0, 0);
    let cur = s.start(0).unwrap();
    let mut h = WakeHints::new();
    assert!(h.try_direct_wake(&s, 0, cur).is_none());
    h.set_wake_hint(0, Some(r(0, 1, 1)));
    assert!(h.try_direct_wake(&s, 0, cur) == Some(Switch::To(r(0, 1, 1))));
    // the hint is used up
    assert!(h.try_direct_wake(&s, 0, cur).is_none());
    h.set_wake_hint(0, Some(cur));
    assert!(h.try_direct_wake(&s, 0, cur) == Some(Switch::Stay));
}

#[test]
fn task_new_is_fresh() {
    let t = Task::new(3, 1, 2, 3, 4, 9);
    assert_eq!(t.priority, 3);
    assert_eq!(t.pid, 9);
    assert!(!t.wake_pending);
    assert!(t.ipc_con.iter().all(|c| c.is_none()));
}

#[test]
fn blocked_task_waits_for_its_own_wake() {
    let mut s = Schedulers::new();
    s.spawn_task(0, 2, 0, 0, 0, 0);
    s.spawn_task(0, 1, 0, 0, 0, 0);
    let first = s.start(0).unwrap();
    assert!(s.block_current(0, first) == Switch::To(r(0, 1, 0)));
    // a wake of another task leaves the blocked one blocked
    s.wake(Some(r(0, 1, 0)));
    assert!(s.task(first).unwrap().state == TaskState::Blocked);
    // its own wake makes it ready
    s.wake(Some(first));
    assert!(s.task(first).unwrap().state == TaskState::Ready);
}

#[test]
fn task_handle_names_the_task_again() {
    let t = r(3, 5, 9);
    let h = task_handle(t);
    assert_eq!(h, (3u64 << 32) | (5 << 16) | 9);
    assert_eq!(task_of(h), t);
}

#[test]
fn wake_all_wakes_the_named_tasks_only() {
    let mut s = Schedulers::new();
    s.spawn_task(0, 2, 0, 0, 0, 0);
    s.spawn_task(0, 1, 0, 0, 0, 0);
    s.spawn_task(0, 1, 0, 0, 0, 0);
    let first = s.start(0).unwrap();
    assert!(s.block_current(0, first) != Switch::Stay);
    // a handle of an empty place and one out of range are passed over
    s.wake_all(&vec![task_handle(r(0, 1, 1)), task_handle(r(5, 0, 0)), u64::MAX]);
    assert!(s.task(first).unwrap().state == TaskState::Blocked);
    assert!(s.task(r(0, 1, 1)).unwrap().wake_pending);
    s.wake_all(&vec![task_handle(first)]);
    assert!(s.task(first).unwrap().state == TaskState::Ready);
}

#[test]
fn sleeping_task_runs_again_when_its_deadline_passes() {
    let mut s = Schedulers::new();
    s.spawn_task(0, 2, 0, 0, 0, 0);
    s.spawn_task(0, 1, 0, 0, 0, 0);
    let me = s.start(0).unwrap();
    let mut q = SleepQueues::new();
    let h = q.prepare(0, 0x77, 1000, 0, task_handle(me));
    assert!(s.block_current(0, me) == Switch::To(r(0, 1, 0)));
    let early = q.tick(0, 999);
    s.wake_all(&early);
    assert!(s.task(me).unwrap().state == TaskState::Blocked);
    let due = q.tick(0, 1000);
    s.wake_all(&due);
    assert!(s.task(me).unwrap().state == TaskState::Ready);
    assert_eq!(q.commit(h), TIMED_OUT);
}
