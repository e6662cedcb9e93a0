use theos::ipc::IPCState;
use theos::kernel::{Kernel, Outcome, Then};
use theos::scheduler::{Switch, TaskRef, TaskState};
use theos::syscalls::{decode, Syscall, UNKNOWN_SYSCALL};

fn at(slot: usize) -> TaskRef {
    TaskRef { cpu: 0, priority: 1, slot }
}

/// A kernel with two tasks at priority 1 on CPU 0: pid 0 in slot 0, pid 1 in slot 1.
fn two_tasks() -> Kernel {
    let mut k = Kernel::new(0x1003, 0xffff_8000_0000_0000, 0x40_0000);
    assert_eq!(k.sched.spawn_task(0, 1, 0, 0, 0, 0x1000), 0);
    assert_eq!(k.sched.spawn_task(0, 1, 0, 0, 0, 0x2000), 1);
    k
}

fn ret(o: Outcome) -> u64 {
    match o {
        Outcome::Return(v) => v,
        _ => panic!("the call did not return a value"),
    }
}

#[test]
fn kernel_connect_write_read_round_trip() {
    let mut k = two_tasks();
    assert_eq!(ret(k.syscall(0, at(0), Syscall::IpcConnect { peer: 1 }, &[])), 0);
    // connecting again finds the same connection
    assert_eq!(ret(k.syscall(0, at(0), Syscall::IpcConnect { peer: 1 }, &[])), 0);
    let w = k.syscall(0, at(0), Syscall::IpcWrite { ipcd: 0, msg: 0x5000, len: 3 }, b"abc");
    assert_eq!(ret(w), 0);
    // the peer got a connection back to pid 0, holding the message
    let b = k.sched.task(at(1)).unwrap();
    let c = b.ipc_con[0].unwrap();
    assert_eq!(c.peer_pid, 0);
    assert!(c.has_msg);
    match k.syscall(0, at(1), Syscall::IpcRead { out: 0x7000, ipcd: 0 }, &[]) {
        Outcome::Deliver { out, msg, value } => {
            assert_eq!(out, 0x7000);
            assert_eq!(value, 0);
            assert_eq!(msg.len, 3);
            assert_eq!(&msg.data[..3], b"abc");
        },
        _ => panic!("no message delivered"),
    }
    // nothing left: the reader blocks and reads again later
    match k.syscall(0, at(1), Syscall::IpcRead { out: 0x7000, ipcd: 0 }, &[]) {
        Outcome::Leave { then, .. } => assert_eq!(then, Then::Retry),
        _ => panic!("the reader should block"),
    }
    assert_eq!(k.sched.task(at(1)).unwrap().state, TaskState::Blocked);
}

#[test]
fn kernel_read_on_missing_connection_returns_one() {
    let mut k = two_tasks();
    assert_eq!(ret(k.syscall(0, at(0), Syscall::IpcRead { out: 0, ipcd: 3 }, &[])), 1);
    assert_eq!(ret(k.syscall(0, at(0), Syscall::IpcRead { out: 0, ipcd: -1 }, &[])), 1);
    assert_eq!(ret(k.syscall(0, at(0), Syscall::IpcWrite { ipcd: 5, msg: 0, len: 1 }, b"x")), 1);
}

#[test]
fn kernel_write_to_missing_peer_returns_one() {
    let mut k = two_tasks();
    assert_eq!(ret(k.syscall(0, at(0), Syscall::IpcConnect { peer: 42 }, &[])), 0);
    assert_eq!(ret(k.syscall(0, at(0), Syscall::IpcWrite { ipcd: 0, msg: 0, len: 1 }, b"x")), 1);
}

#[test]
fn kernel_recv_any_takes_first_waiting_connection() {
    let mut k = two_tasks();
    match k.syscall(0, at(1), Syscall::RecvAny { out: 9 }, &[]) {
        Outcome::Leave { then, .. } => assert_eq!(then, Then::Retry),
        _ => panic!("nothing waits yet"),
    }
    assert_eq!(ret(k.syscall(0, at(0), Syscall::IpcConnect { peer: 1 }, &[])), 0);
    assert_eq!(ret(k.syscall(0, at(0), Syscall::IpcWrite { ipcd: 0, msg: 0, len: 2 }, b"hi")), 0);
    // the blocked reader was woken by the write
    let b = k.sched.task(at(1)).unwrap();
    assert_eq!(b.state, TaskState::Ready);
    assert!(b.wake_pending);
    match k.syscall(0, at(1), Syscall::RecvAny { out: 9 }, &[]) {
        Outcome::Deliver { out, msg, value } => {
            assert_eq!(out, 9);
            assert_eq!(value, 0);
            assert_eq!(&msg.data[..2], b"hi");
        },
        _ => panic!("a message waits"),
    }
}

#[test]
fn kernel_call_waits_for_the_reply() {
    let mut k = two_tasks();
    assert_eq!(ret(k.syscall(0, at(0), Syscall::IpcConnect { peer: 1 }, &[])), 0);
    match k.syscall(0, at(0), Syscall::IpcCall { ipcd: 0, msg: 0, len: 4, out: 0x8000 }, b"ping") {
        Outcome::Leave { then, .. } => assert_eq!(then, Then::AwaitReply { ipcd: 0, out: 0x8000 }),
        _ => panic!("the caller waits"),
    }
    let a = k.sched.task(at(0)).unwrap();
    assert_eq!(a.ipc_con[0].unwrap().state, IPCState::AwaitingReply);
    assert_eq!(a.state, TaskState::Blocked);
    match k.syscall(0, at(1), Syscall::IpcRead { out: 1, ipcd: 0 }, &[]) {
        Outcome::Deliver { msg, .. } => assert_eq!(&msg.data[..4], b"ping"),
        _ => panic!("the request waits"),
    }
    assert_eq!(ret(k.syscall(0, at(1), Syscall::IpcReply { msg: 0, len: 4, ipcd: 0 }, b"pong")), 0);
    match k.await_reply(0, at(0), 0, 0x8000) {
        Outcome::Deliver { out, msg, value } => {
            assert_eq!(out, 0x8000);
            assert_eq!(value, 0);
            assert_eq!(msg.len, 4);
            assert_eq!(&msg.data[..4], b"pong");
        },
        _ => panic!("the reply waits"),
    }
    let a = k.sched.task(at(0)).unwrap();
    assert_eq!(a.ipc_con[0].unwrap().state, IPCState::Open);
    assert!(!a.ipc_con[0].unwrap().has_msg);
}

#[test]
fn kernel_failed_call_reopens_the_connection() {
    let mut k = two_tasks();
    assert_eq!(ret(k.syscall(0, at(0), Syscall::IpcCall { ipcd: 0, msg: 0, len: 1, out: 0 }, b"x")), 1);
    assert_eq!(ret(k.syscall(0, at(0), Syscall::IpcConnect { peer: 77 }, &[])), 0);
    assert_eq!(ret(k.syscall(0, at(0), Syscall::IpcCall { ipcd: 0, msg: 0, len: 1, out: 0 }, b"x")), 1);
    assert_eq!(k.sched.task(at(0)).unwrap().ipc_con[0].unwrap().state, IPCState::Open);
}

#[test]
fn kernel_block_and_notify() {
    let mut k = two_tasks();
    // nobody serves service 2 yet
    assert_eq!(ret(k.syscall(0, at(0), Syscall::Notify { service: 2 }, &[])), 0);
    match k.syscall(0, at(1), Syscall::Block { service: 2 }, &[]) {
        Outcome::Leave { to, then } => {
            assert_eq!(then, Then::Return(0));
            assert_eq!(to, Switch::To(at(0)));
        },
        _ => panic!("the server blocks"),
    }
    assert_eq!(k.sched.task(at(1)).unwrap().state, TaskState::Blocked);
    match k.syscall(0, at(0), Syscall::Notify { service: 2 }, &[]) {
        Outcome::Wake { core } => assert_eq!(core, 0),
        _ => panic!("the server's CPU is interrupted"),
    }
    let b = k.sched.task(at(1)).unwrap();
    assert_eq!(b.state, TaskState::Ready);
    assert!(b.wake_pending);
    // a pending wake keeps the next block from switching away
    match k.syscall(0, at(1), Syscall::Block { service: 2 }, &[]) {
        Outcome::Leave { to, .. } => assert_eq!(to, Switch::Stay),
        _ => panic!("blocking gives a switch"),
    }
    assert!(!k.sched.task(at(1)).unwrap().wake_pending);
}

#[test]
fn kernel_simple_calls() {
    let mut k = two_tasks();
    assert_eq!(ret(k.syscall(0, at(1), Syscall::GetPid, &[])), 1);
    assert_eq!(ret(k.syscall(0, at(0), Syscall::Unknown, &[])), UNKNOWN_SYSCALL);
    assert_eq!(ret(k.syscall(0, at(0), decode(99, 0, 0, 0, 0), &[])), UNKNOWN_SYSCALL);
    assert_eq!(ret(k.syscall(0, at(0), Syscall::SetDirectWake { on: true }, &[])), 0);
    assert!(k.direct_wake);
    // no memory: the allocation gives 0
    assert_eq!(ret(k.syscall(0, at(0), Syscall::AllocPages { order: 0 }, &[])), 0);
    assert!(matches!(k.syscall(0, at(0), Syscall::Print { buf: 0, buf_len: 0 }, &[]), Outcome::Print));
    assert!(matches!(k.syscall(0, at(0), Syscall::Exit, &[]), Outcome::Exit));
    match k.syscall(0, at(0), Syscall::Yield, &[]) {
        Outcome::Leave { to, then } => {
            assert_eq!(then, Then::Return(0));
            assert_eq!(to, Switch::To(at(1)));
        },
        _ => panic!("yield gives a switch"),
    }
}

#[test]
fn kernel_free_then_alloc_gives_the_block_back() {
    let mut k = two_tasks();
    assert_eq!(ret(k.syscall(0, at(0), Syscall::FreePages { addr: 0x20_0000, order: 0 }, &[])), 0);
    assert_eq!(k.pmm.free_memory(), 4096);
    assert_eq!(ret(k.syscall(0, at(0), Syscall::AllocPages { order: 0 }, &[])), 0x20_0000);
    assert_eq!(k.pmm.free_memory(), 0);
}

#[test]
fn kernel_register_irq_routes_the_line() {
    let mut k = two_tasks();
    assert_eq!(k.irqs.route(1), -1);
    assert_eq!(ret(k.syscall(0, at(0), Syscall::RegisterIrq { irq: 1, service: 3 }, &[])), 0);
    assert_eq!(k.irqs.route(1), 3);
    assert_eq!(k.irqs.route(40), -1);
    assert_eq!(k.irqs.dispatch(&mut k.arena, 1, 0x1e), Some(3));
    assert_eq!(ret(k.syscall(0, at(0), Syscall::RegisterIrq { irq: 99, service: 3 }, &[])), 0);
    assert_eq!(k.irqs.dispatch(&mut k.arena, 2, 0), None);
}

#[test]
fn kernel_spawn_of_a_bad_image_fails() {
    let mut k = two_tasks();
    let o = k.syscall(0, at(0), Syscall::Spawn { image: 0, image_len: 4, cpu: 0 }, b"\x7fELX");
    assert_eq!(ret(o), u64::MAX);
}

#[test]
fn kernel_map_and_unmap_in_the_callers_space() {
    let mut k = two_tasks();
    for i in 0..8u64 {
        assert_eq!(ret(k.syscall(0, at(0), Syscall::FreePages { addr: 0x10_0000 + i * 0x1000, order: 0 }, &[])), 0);
    }
    // the caller's top-level table at 0x1000 is not one the kernel holds: nothing is mapped
    assert_eq!(ret(k.syscall(0, at(0), Syscall::MapPage { virt: 0x40_0000, phys: 0x9000, flags: 7 }, &[])), 0);
    assert_eq!(ret(k.syscall(0, at(0), Syscall::UnmapPage { virt: 0x40_0000 }, &[])), 0);
}

fn elf_image() -> Vec<u8> {
    let mut d = vec![0u8; 64];
    d[0..4].copy_from_slice(&[0x7F, b'E', b'L', b'F']);
    d[4] = 2;
    d[7] = 0xAE;
    d[24..32].copy_from_slice(&0x401000u64.to_le_bytes());
    d[32..40].copy_from_slice(&64u64.to_le_bytes());
    d[54..56].copy_from_slice(&56u16.to_le_bytes());
    d[56..58].copy_from_slice(&1u16.to_le_bytes());
    let mut ph = vec![0u8; 56];
    ph[0..4].copy_from_slice(&1u32.to_le_bytes());
    ph[8..16].copy_from_slice(&0xB0u64.to_le_bytes());
    ph[16..24].copy_from_slice(&0x400800u64.to_le_bytes());
    ph[32..40].copy_from_slice(&0x20u64.to_le_bytes());
    ph[40..48].copy_from_slice(&0x1900u64.to_le_bytes());
    d.extend_from_slice(&ph);
    d.resize(d.len() + 0x100, 0xCC);
    d
}

#[test]
fn kernel_spawn_starts_a_task() {
    let mut k = two_tasks();
    assert!(k.sched.pids_below_max());
    k.pmm.free_page(0x40_0000, 10);
    let image = elf_image();
    match k.syscall(0, at(0), Syscall::Spawn { image: 0, image_len: image.len() as u64, cpu: 0 }, &image) {
        Outcome::Spawned { pid, pages, frame, ksp } => {
            assert_eq!(pid, 2);
            assert_eq!(pages.len(), 3);
            assert_eq!(frame, [0x401000, 0x1004_0000, 0, 0, 0, 0, 0x40_0000]);
            let t = k.sched.task(at(2)).unwrap();
            assert_eq!(t.pid, 2);
            assert_eq!(t.priority, 1);
            assert_eq!(t.state, TaskState::Ready);
            assert_eq!(t.cr3, 0x40_0000);
            assert_eq!(t.stack, 0);
            assert_eq!(t.ksp, ksp);
            assert_eq!(t.kstack_top, ksp + 56);
            assert_eq!((t.kstack_top - 8192 - 0xffff_8000_0000_0000) % 0x1_0000, 0);
        },
        _ => panic!("the image loads"),
    }
}

#[test]
fn kernel_timer_tick_prefers_the_wake_hint() {
    let mut k = two_tasks();
    assert_eq!(k.timer_tick(0, None), Switch::Stay);
    assert_eq!(k.timer_tick(0, Some(at(0))), Switch::To(at(1)));
    k.hints.set_wake_hint(0, Some(at(0)));
    assert_eq!(k.timer_tick(0, Some(at(1))), Switch::To(at(0)));
    // the hint was taken: the next tick goes round the run queue
    assert_eq!(k.timer_tick(0, Some(at(1))), Switch::To(at(0)));
    k.hints.set_wake_hint(0, Some(at(1)));
    assert_eq!(k.timer_tick(0, Some(at(1))), Switch::Stay);
}

#[test]
fn kernel_irq_reaches_its_server() {
    let mut k = two_tasks();
    assert_eq!(k.on_irq(1, 0x1e), None);
    assert_eq!(ret(k.syscall(0, at(1), Syscall::RegisterIrq { irq: 1, service: 3 }, &[])), 0);
    // routed, but no server registered for the service yet
    assert_eq!(k.on_irq(1, 0x1e), None);
    assert_eq!(k.arena.irq_pop(1), Some(0x1e));
    assert!(matches!(k.syscall(0, at(1), Syscall::Block { service: 3 }, &[]), Outcome::Return(0)));
    // the request left by the interrupt was waiting, so the server did not block
    assert_eq!(k.sched.task(at(1)).unwrap().state, TaskState::Ready);
    assert_eq!(k.on_irq(1, 0x9e), Some(0));
    assert!(k.sched.task(at(1)).unwrap().wake_pending);
    assert_eq!(k.arena.irq_pop(1), Some(0x9e));
    assert_eq!(k.on_irq(7, 0), None);
}

#[test]
fn kernel_pids_run_out_at_the_largest() {
    let mut k = two_tasks();
    assert!(k.sched.pids_below_max());
    assert!(k.sched.spawn(0, theos::scheduler::Task::new(2, 0, 0, 0, 0, i32::MAX)).is_some());
    assert!(!k.sched.pids_below_max());
}

#[test]
fn kernel_first_task_gets_the_large_stack() {
    let mut k = Kernel::new(0, 0xffff_8000_0000_0000, 0x40_0000);
    k.pmm.free_page(0x40_0000, 10);
    match k.spawn_first(&elf_image()) {
        Outcome::Spawned { pid, frame, .. } => {
            assert_eq!(pid, 0);
            assert_eq!(frame[0], 0x401000);
            assert_eq!(frame[1], 0x1000_0000 + 512 * 0x1000);
        },
        _ => panic!("the image loads"),
    }
    let t = k.sched.task(TaskRef { cpu: 0, priority: 1, slot: 0 }).unwrap();
    assert_eq!(t.pid, 0);
    assert_eq!(t.cr3, 0x40_0000);
    assert_eq!(k.sched.start(0), Some(TaskRef { cpu: 0, priority: 1, slot: 0 }));
    let mut bad = elf_image();
    bad[0] = 0;
    assert_eq!(ret(k.spawn_first(&bad)), u64::MAX);
}
