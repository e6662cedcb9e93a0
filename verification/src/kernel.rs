use vstd::prelude::*;
use crate::arena::{Arena, MAX_IRQ, MAX_USER_MAILBOXES};
use crate::ipc::{
    alloc_con, conn, conn_of, conn_set, conn_to, find_conn_to, holds_msg, read_ipc, recv_any, write_ipc, write_post,
    IPCConnection, IPCMessage, IPCState, MAX_IPC_MSG_LEN,
    MessagePool, ServerReg, Servers, IPC_POOL_SIZE, MAX_IPC_CONNECTIONS_PER_TASK, MAX_SERVICES,
};
use crate::irq::IrqRoutes;
use crate::pmm::{aligned, alloc_spec, bsz, free_bytes, free_spec, BuddyAllocator, MAX_ORDER};
use crate::scheduler::{
    first_with_pid, is_fresh, ready, task_matches, user_initial_frame, valid_ref, walk_index, Schedulers, Switch, Task, TaskRef,
    TaskState, WakeHints, KSTACK_ORDER, MAX_CPUS, PRIORITY_LEVELS,
};
use crate::syscalls::{
    peer_end, route_ipc_peer, route_post, spawn_image, spawn_spec, Syscall, INIT_STACK_PAGES, UNKNOWN_SYSCALL, USER_STACK_PAGES,
};
use crate::elf::LoadedPage;
use crate::vmm::{map_spec, unmap_spec, PageTables, FREE_TABLE_LIMIT};

verus! {

/// Every connection of a task names a message slot inside the pool or none, and
/// one that holds a message names a slot.
pub open spec fn task_ok(t: Task) -> bool {
    forall|i: int| 0 <= i < MAX_IPC_CONNECTIONS_PER_TASK ==> (#[trigger] t.ipc_con@[i] matches Some(c) ==> (c.ipc_pool_idx
        < IPC_POOL_SIZE && (c.has_msg ==> c.ipc_pool_idx >= 0)))
}

/// Every task the scheduler holds is `task_ok`.
pub open spec fn tasks_ok(s: Schedulers) -> bool {
    forall|r: TaskRef| #[trigger] valid_ref(r) && s.at(r) is Some ==> task_ok(s.at(r).unwrap())
}

/// The kernel's state: the tasks, the message pool, physical memory, the page
/// tables, the shared arena, the interrupt routes, the service registry and the
/// wake-up hints.
pub struct Kernel {
    pub sched: Schedulers,
    pub pool: MessagePool,
    pub pmm: BuddyAllocator,
    pub tables: PageTables,
    pub arena: Arena,
    pub irqs: IrqRoutes,
    pub servers: Servers,
    pub hints: WakeHints,
    /// Whether a woken server is switched to at the next tick.
    pub direct_wake: bool,
    /// The first entry of the kernel's own top-level table, shared by every
    /// address space.
    pub boot_entry: u64,
    /// Where physical memory appears in the kernel's address space.
    pub direct_map: u64,
    /// The address of the code through which a new task enters user mode.
    pub user_entry: u64,
}

impl Kernel {
    /// A kernel with no tasks, no memory, no tables, no routes and no servers.
    pub fn new(boot_entry: u64, direct_map: u64, user_entry: u64) -> (k: Self)
        ensures
            k.wf(),
            forall|t: TaskRef| valid_ref(t) ==> k.sched.at(t) is None,
            k.pmm@ == Seq::new(MAX_ORDER as nat, |i: int| Seq::<u64>::empty()),
            k.tables@ == Map::<u64, Seq<u64>>::empty(),
            !k.direct_wake,
            k.boot_entry == boot_entry,
            k.direct_map == direct_map,
            k.user_entry == user_entry,
    {
        Kernel {
            sched: Schedulers::new(),
            pool: MessagePool::new(),
            pmm: BuddyAllocator::new(),
            tables: PageTables::new(),
            arena: Arena::new(),
            irqs: IrqRoutes::new(),
            servers: Servers::new(),
            hints: WakeHints::new(),
            direct_wake: false,
            boot_entry,
            direct_map,
            user_entry,
        }
    }

    /// The lengths a well-formed kernel's views have: one wake hint per CPU, and
    /// the arena's tables.
    pub proof fn lemma_shapes(&self)
        requires
            self.wf(),
        ensures
            self.hints.hints_view().len() == MAX_CPUS,
            self.arena.mailboxes_view().len() == crate::arena::MAX_MAILBOXES,
            self.arena.inboxes_view().len() == crate::arena::MAX_SERVICES,
            self.arena.rings_view().len() == MAX_IRQ,
    {
        self.hints.lemma_len();
        self.arena.lemma_sizes();
    }

    pub open spec fn wf(&self) -> bool {
        &&& self.sched.wf()
        &&& self.pool.wf()
        &&& self.pmm.wf()
        &&& self.tables.wf()
        &&& self.arena.wf()
        &&& self.servers.wf()
        &&& self.hints.wf()
        &&& tasks_ok(self.sched)
    }
}

/// What happens after a system call left the CPU, when the caller runs again.
#[derive(Debug, Clone, Copy, PartialEq, Eq, Structural)]
pub enum Then {
    /// The call returns this value.
    Return(u64),
    /// The call is made again.
    Retry,
    /// The caller goes on waiting for the answer on `ipcd` (see `await_reply`).
    AwaitReply { ipcd: i32, out: u64 },
}

/// What the machine does to complete a system call.
pub enum Outcome {
    /// The call returns `value`.
    Return(u64),
    /// `msg` is copied to the caller's `out`, and the call returns `value`.
    Deliver { out: u64, msg: IPCMessage, value: u64 },
    /// The call's bytes go to the serial line, under its lock; the call returns 0.
    Print,
    /// The caller gives up the CPU as `to` says; `then` says what follows.
    Leave { to: Switch, then: Then },
    /// The wake-up interrupt goes to CPU `core`; the call returns 0.
    Wake { core: u32 },
    /// A task was spawned with process id `pid`: the bytes of each loaded page are
    /// copied into its frame, `frame` is written from `ksp` up on the new task's
    /// kernel stack, and the call returns `pid`.
    Spawned { pid: i32, pages: Vec<LoadedPage>, frame: [u64; 7], ksp: u64 },
    /// The calling task ends.
    Exit,
}

/// `a` taken modulo 2^64.
pub open spec fn wrap(a: int) -> u64 {
    (a % 0x1_0000_0000_0000_0000) as u64
}

/// Spawning the executable `image` on `cpu` with `stack_pages` pages of user
/// stack: as `spawn_spec` says, then two kernel
/// stack blocks are taken from the allocator (the first is left unused), the new
/// task's kernel stack top is 8192 bytes above the second as the kernel sees it,
/// its first frame (`user_initial_frame`) sits in the 56 bytes below the top, and
/// the task is added at priority 1 with the next pid (`spawned`). When the image
/// does not load the call returns `u64::MAX`.
pub open spec fn spawn_post(k0: Kernel, k1: Kernel, cpu: int, image: Seq<u8>, stack_pages: u64, o: Outcome) -> bool {
    let (want, m, l) = spawn_spec(k0.tables@, k0.pmm@, image, k0.boot_entry, stack_pages);
    &&& k1 == (Kernel { sched: k1.sched, tables: k1.tables, pmm: k1.pmm, ..k0 })
    &&& k1.tables@ == m
    &&& k1.pmm.spec_total_memory() == k0.pmm.spec_total_memory()
    &&& match want {
        None => o == Outcome::Return(u64::MAX) && k1.pmm@ == l && k1.sched == k0.sched,
        Some((pml4, entry, pages, top)) => {
            let (s, l4) = alloc_spec(l, KSTACK_ORDER as nat);
            let (kphys, l5) = alloc_spec(l4, KSTACK_ORDER as nat);
            let ktop = wrap(k0.direct_map + kphys + 8192);
            let ksp = wrap(ktop - 56);
            &&& k1.pmm@ == l5
            &&& o matches Outcome::Spawned { pid, pages: pg, frame, ksp: k } && pg@ == pages && k == ksp
                && frame@ == seq![entry, top, 0u64, 0, 0, 0, k0.user_entry]
                && Schedulers::spawned(k0.sched, k1.sched, cpu, 1, 0, ksp, ktop, pml4, pid)
        },
    }
}

/// Opening a connection of the task at `cur` to `peer`: its first connection to
/// `peer` when there is one, else a new one in its first free slot; `u64::MAX`
/// (the descriptor -1) when all slots are taken.
pub open spec fn connect_post(k0: Kernel, k1: Kernel, cur: TaskRef, peer: i32, o: Outcome) -> bool {
    let me = k0.sched.at(cur).unwrap();
    ||| exists|i: int| 0 <= i < MAX_IPC_CONNECTIONS_PER_TASK && #[trigger] conn_to(me.ipc_con@[i], peer)
        && (forall|j: int| 0 <= j < i ==> !conn_to(#[trigger] me.ipc_con@[j], peer)) && o == Outcome::Return(i as u64)
        && k1 == k0
    ||| (forall|j: int| 0 <= j < MAX_IPC_CONNECTIONS_PER_TASK ==> !conn_to(#[trigger] me.ipc_con@[j], peer)) && exists|f: int|
        0 <= f < MAX_IPC_CONNECTIONS_PER_TASK && #[trigger] me.ipc_con@[f] is None && (forall|j: int| 0 <= j < f
            ==> #[trigger] me.ipc_con@[j] is Some) && o == Outcome::Return(f as u64) && k1 == (Kernel { sched: k1.sched, ..k0 })
            && conn_set(
            k0.sched,
            k1.sched,
            cur,
            f,
            Some(IPCConnection { peer_pid: peer, state: IPCState::Open, ipc_pool_idx: -1i32, has_msg: false }),
        )
    ||| (forall|j: int| 0 <= j < MAX_IPC_CONNECTIONS_PER_TASK ==> !conn_to(#[trigger] me.ipc_con@[j], peer))
        && (forall|j: int| 0 <= j < MAX_IPC_CONNECTIONS_PER_TASK ==> #[trigger] me.ipc_con@[j] is Some)
        && o == Outcome::Return(u64::MAX) && k1 == k0
}

/// Reading connection `ipcd`: 1 when it is no connection; its message, delivered to
/// `out`, when one waits (the flag is cleared); otherwise the caller blocks and
/// makes the call again when it runs.
pub open spec fn read_post(k0: Kernel, k1: Kernel, cpu: int, cur: TaskRef, out: u64, ipcd: i32, o: Outcome) -> bool {
    let me = k0.sched.at(cur).unwrap();
    match conn_of(me, ipcd) {
        None => o == Outcome::Return(1) && k1 == k0,
        Some(c) => if c.has_msg {
            &&& o == (Outcome::Deliver { out, msg: k0.pool.messages_view()[c.ipc_pool_idx as int], value: 0 })
            &&& k1 == (Kernel { sched: k1.sched, ..k0 })
            &&& conn_set(k0.sched, k1.sched, cur, ipcd as int, Some(IPCConnection { has_msg: false, ..c }))
        } else {
            &&& o matches Outcome::Leave { to, then } && then == Then::Retry && Schedulers::blocked(k0.sched, k1.sched, cpu, cur, to)
            &&& k1 == (Kernel { sched: k1.sched, ..k0 })
        },
    }
}

/// Receiving on any connection: the message of the first connection holding one,
/// delivered to `out` with the connection as the value (its flag cleared); when
/// none holds one, the caller blocks and makes the call again when it runs.
pub open spec fn recv_any_post(k0: Kernel, k1: Kernel, cpu: int, cur: TaskRef, out: u64, o: Outcome) -> bool {
    let me = k0.sched.at(cur).unwrap();
    &&& k1 == (Kernel { sched: k1.sched, ..k0 })
    &&& match o {
        Outcome::Deliver { out: o2, msg, value } => o2 == out && exists|i: int| 0 <= i < MAX_IPC_CONNECTIONS_PER_TASK
            && #[trigger] holds_msg(me.ipc_con@[i]) && (forall|j: int| 0 <= j < i ==> !holds_msg(#[trigger] me.ipc_con@[j]))
            && value == i as u64 && msg == k0.pool.messages_view()[me.ipc_con@[i].unwrap().ipc_pool_idx as int]
            && conn_set(k0.sched, k1.sched, cur, i, Some(IPCConnection { has_msg: false, ..me.ipc_con@[i].unwrap() })),
        Outcome::Leave { to, then } => then == Then::Retry && (forall|j: int| 0 <= j < MAX_IPC_CONNECTIONS_PER_TASK
            ==> !holds_msg(#[trigger] me.ipc_con@[j])) && Schedulers::blocked(k0.sched, k1.sched, cpu, cur, to),
        _ => false,
    }
}

/// A server with no work: the caller is registered as the server of `service` on
/// `cpu`; it returns at once when a request waits in the service's inbox, and
/// otherwise blocks and returns 0 when it runs again.
pub open spec fn block_post(k0: Kernel, k1: Kernel, cpu: int, cur: TaskRef, service: u32, o: Outcome) -> bool {
    let me = k0.sched.at(cur).unwrap();
    &&& k1 == (Kernel { sched: k1.sched, servers: k1.servers, ..k0 })
    &&& service < MAX_SERVICES ==> k1.servers.view() == k0.servers.view().update(
        service as int,
        ServerReg { pid: me.pid, core: cpu as u32, used: true },
    )
    &&& service >= MAX_SERVICES ==> k1.servers.view() == k0.servers.view()
    &&& if service < MAX_SERVICES && exists|k: int| #[trigger] k0.arena.inbox_entry_waits(service as int, k) {
        o == Outcome::Return(0) && k1.sched == k0.sched
    } else {
        o matches Outcome::Leave { to, then } && then == Then::Return(0) && Schedulers::blocked(k0.sched, k1.sched, cpu, cur, to)
    }
}

/// Waking the server of `service`: when one is registered, the first task with
/// its pid (if any) is woken and becomes the wake hint of the server's CPU, and
/// the wake-up interrupt goes to that CPU; otherwise nothing happens.
pub open spec fn notify_post(k0: Kernel, k1: Kernel, service: u32, o: Outcome) -> bool {
    if service >= MAX_SERVICES || !k0.servers.view()[service as int].used {
        o == Outcome::Return(0) && k1 == k0
    } else {
        let reg = k0.servers.view()[service as int];
        &&& o == Outcome::Wake { core: reg.core }
        &&& k1 == (Kernel { sched: k1.sched, hints: k1.hints, ..k0 })
        &&& (forall|t2: TaskRef| #[trigger] valid_ref(t2) ==> !task_matches(k0.sched.at(t2), reg.pid, false))
            ==> k1.sched == k0.sched && k1.hints == k0.hints
        &&& forall|t: TaskRef| #[trigger] first_with_pid(k0.sched, reg.pid, t) ==> {
            &&& k0.sched.same_except(&k1.sched, t)
            &&& k1.sched.at(t) == Some(Task { wake_pending: true, state: TaskState::Ready, ..k0.sched.at(t).unwrap() })
            &&& reg.core < MAX_CPUS ==> k1.hints.hints_view() == k0.hints.hints_view().update(reg.core as int, Some(t))
            &&& reg.core >= MAX_CPUS ==> k1.hints.hints_view() == k0.hints.hints_view()
        }
    }
}

/// `n` bytes hold a message of `len` bytes, as far as a message keeps them.
pub open spec fn holds_message(n: nat, len: i32) -> bool {
    len >= 0 ==> n >= (if len < MAX_IPC_MSG_LEN { len as int } else { MAX_IPC_MSG_LEN as int })
}

/// Sending `len` bytes of `msg` from the task at `cur` over its connection `ipcd`:
/// the connection is routed to the peer as `route_post` says, and the message is
/// delivered to the peer's end as `write_post` says; `v` is 1 when there is no
/// route, else what the delivery returned.
pub open spec fn send_post(k0: Kernel, k1: Kernel, cur: TaskRef, ipcd: i32, msg: Seq<u8>, len: i32, v: u64) -> bool {
    let me = k0.sched.at(cur).unwrap();
    &&& k1 == (Kernel { sched: k1.sched, pool: k1.pool, ..k0 })
    &&& exists|s: Schedulers, r: Option<(TaskRef, i32)>| #[trigger] route_post(k0.sched, s, cur, ipcd, r) && match r {
        None => v == 1 && k1 == k0,
        Some((t, i)) => k1.sched.at(t) is Some && exists|w: i32|
            #[trigger] write_post(k0.pool, k1.pool, s.at(t).unwrap(), k1.sched.at(t).unwrap(), i, me.pid, msg, len, w) && v == w as u64
                && s.same_except(&k1.sched, t),
    }
}

/// Waiting for the answer on connection `ipcd`: when a message waits, it is
/// delivered to `out`, and the connection no longer holds it and is open again;
/// otherwise the caller blocks and goes on waiting when it runs.
pub open spec fn await_post(k0: Kernel, k1: Kernel, cpu: int, cur: TaskRef, ipcd: i32, out: u64, o: Outcome) -> bool {
    let c = conn_of(k0.sched.at(cur).unwrap(), ipcd).unwrap();
    &&& k1 == (Kernel { sched: k1.sched, ..k0 })
    &&& if c.has_msg {
        &&& o == (Outcome::Deliver { out, msg: k0.pool.messages_view()[c.ipc_pool_idx as int], value: 0 })
        &&& conn_set(k0.sched, k1.sched, cur, ipcd as int, Some(IPCConnection { has_msg: false, state: IPCState::Open, ..c }))
    } else {
        o matches Outcome::Leave { to, then } && then == (Then::AwaitReply { ipcd, out }) && Schedulers::blocked(
            k0.sched,
            k1.sched,
            cpu,
            cur,
            to,
        )
    }
}

/// A call over connection `ipcd`: 1 when it is no connection. Otherwise the
/// connection awaits a reply, the message is sent (`send_post`); when that fails
/// the connection is open again and the call returns 1, else the caller waits for
/// the answer (`await_post`).
pub open spec fn call_post(
    k0: Kernel,
    k1: Kernel,
    cpu: int,
    cur: TaskRef,
    ipcd: i32,
    msg: Seq<u8>,
    len: i32,
    out: u64,
    o: Outcome,
) -> bool {
    match conn_of(k0.sched.at(cur).unwrap(), ipcd) {
        None => o == Outcome::Return(1) && k1 == k0,
        Some(c) => exists|ka: Kernel, kb: Kernel, v: u64| {
            &&& ka == (Kernel { sched: ka.sched, ..k0 })
            &&& conn_set(k0.sched, ka.sched, cur, ipcd as int, Some(IPCConnection { state: IPCState::AwaitingReply, ..c }))
            &&& #[trigger] send_post(ka, kb, cur, ipcd, msg, len, v)
            &&& v != 0 ==> o == Outcome::Return(1) && k1 == (Kernel { sched: k1.sched, ..kb }) && conn_set(
                kb.sched,
                k1.sched,
                cur,
                ipcd as int,
                Some(IPCConnection { state: IPCState::Open, ..conn_of(kb.sched.at(cur).unwrap(), ipcd).unwrap() }),
            )
            &&& v == 0 ==> await_post(kb, k1, cpu, cur, ipcd, out, o)
        },
    }
}

/// The switch a wake hint of `cpu` asks for when `cur` runs there: `None` when
/// there is no hint or the hinted task is not ready.
pub open spec fn hinted(k: Kernel, cpu: int, cur: TaskRef) -> Option<Switch> {
    match k.hints.hint(cpu) {
        None => None,
        Some(h) => if !valid_ref(h) || !ready(k.sched.at(h)) {
            None
        } else if h == cur {
            Some(Switch::Stay)
        } else {
            Some(Switch::To(h))
        },
    }
}

/// A local timer tick on `cpu` running `cur` (none before the first task runs):
/// nothing happens without a task; otherwise the CPU's wake hint is taken (leaving
/// none), and a hint naming a ready task decides the switch; without one the
/// running task yields.
pub open spec fn tick_post(k0: Kernel, k1: Kernel, cpu: int, cur: Option<TaskRef>, r: Switch) -> bool {
    match cur {
        None => r == Switch::Stay && k1 == k0,
        Some(c) => {
            &&& k1 == (Kernel { sched: k1.sched, hints: k1.hints, ..k0 })
            &&& k1.hints.hints_view() == k0.hints.hints_view().update(cpu, None)
            &&& match hinted(k0, cpu, c) {
                Some(sw) => r == sw && k1.sched == k0.sched,
                None => r == Schedulers::switch_for(k0.sched, cpu, c) && Schedulers::picked(
                    k0.sched,
                    k1.sched,
                    cpu,
                    k0.sched.next_pick(cpu, PRIORITY_LEVELS - 1),
                ),
            }
        },
    }
}

/// An interrupt on line `irq` (bringing `scancode` on the keyboard line): the line's
/// service gets its request as `dispatched` says and is woken as a `Notify` call
/// for it would (`notify_post`); `ipi` is the CPU the wake-up interrupt goes to.
pub open spec fn irq_post(k0: Kernel, k1: Kernel, irq: int, scancode: u8, ipi: Option<u32>) -> bool {
    exists|a: Arena, w: Option<u32>| #[trigger] IrqRoutes::dispatched(k0.irqs@, k0.arena, a, irq, scancode, w) && match w {
        None => ipi is None && k1 == (Kernel { arena: a, ..k0 }),
        Some(svc) => notify_post(
            Kernel { arena: a, ..k0 },
            k1,
            svc,
            match ipi {
                Some(core) => Outcome::Wake { core },
                None => Outcome::Return(0),
            },
        ),
    }
}

/// Which calls the kernel can carry out: those that do not index past its tables.
pub open spec fn admitted(k: Kernel, call: Syscall, payload_len: nat) -> bool {
    match call {
        Syscall::AllocPages { order } => order < MAX_ORDER,
        Syscall::FreePages { addr, order } => order < MAX_ORDER && aligned(addr, order)
            && k.pmm.spec_free_memory() + bsz((MAX_ORDER - 1) as u64) <= u64::MAX,
        Syscall::Spawn { cpu, .. } => cpu < MAX_CPUS && k.pmm.spec_free_memory() <= FREE_TABLE_LIMIT && k.sched.pids_bounded(),
        Syscall::IpcWrite { len, .. } => holds_message(payload_len, len),
        Syscall::IpcReply { len, .. } => holds_message(payload_len, len),
        Syscall::IpcCall { len, .. } => holds_message(payload_len, len),
        _ => true,
    }
}

/// `k1` is `k0` with only its allocator changed, as the allocator's contracts
/// relate its lists and its free counter.
pub open spec fn only_pmm(k0: Kernel, k1: Kernel) -> bool {
    &&& k1 == (Kernel { pmm: k1.pmm, ..k0 })
    &&& k1.pmm.spec_free_memory() == k0.pmm.spec_free_memory() + free_bytes(k1.pmm@) - free_bytes(k0.pmm@)
    &&& k1.pmm.spec_total_memory() == k0.pmm.spec_total_memory()
}

/// What a system call `call` made by the task at `cur` on `cpu` does to the kernel
/// and what it asks of the machine.
pub open spec fn syscall_post(k0: Kernel, k1: Kernel, cpu: int, cur: TaskRef, call: Syscall, payload: Seq<u8>, o: Outcome) -> bool {
    let me = k0.sched.at(cur).unwrap();
    match call {
        Syscall::Exit => o is Exit && k1 == k0,
        Syscall::AllocPages { order } => o matches Outcome::Return(v) && (v, k1.pmm@) == alloc_spec(k0.pmm@, order as nat)
            && only_pmm(k0, k1),
        Syscall::FreePages { addr, order } => o == Outcome::Return(0) && k1 == (Kernel { pmm: k1.pmm, ..k0 })
            && k1.pmm@ == free_spec(k0.pmm@, order as nat, addr).0
            && k1.pmm.spec_free_memory() == k0.pmm.spec_free_memory() + bsz(free_spec(k0.pmm@, order as nat, addr).1 as u64)
            && k1.pmm.spec_total_memory() == k0.pmm.spec_total_memory(),
        Syscall::MapPage { virt, phys, flags } => o == Outcome::Return(0) && k1 == (Kernel { tables: k1.tables, pmm: k1.pmm, ..k0 })
            && (k1.tables@, k1.pmm@) == ({
                let r = map_spec(k0.tables@, k0.pmm@, me.cr3, virt, phys, flags);
                (r.1, r.2)
            }) && k1.pmm.spec_free_memory() == k0.pmm.spec_free_memory() + free_bytes(k1.pmm@) - free_bytes(k0.pmm@)
            && k1.pmm.spec_total_memory() == k0.pmm.spec_total_memory(),
        Syscall::UnmapPage { virt } => o == Outcome::Return(0) && k1 == (Kernel { tables: k1.tables, ..k0 })
            && k1.tables@ == unmap_spec(k0.tables@, me.cr3, virt),
        Syscall::Print { .. } => o is Print && k1 == k0,
        Syscall::Yield => o == (Outcome::Leave { to: Schedulers::switch_for(k0.sched, cpu, cur), then: Then::Return(0) })
            && k1 == (Kernel { sched: k1.sched, ..k0 })
            && Schedulers::picked(k0.sched, k1.sched, cpu, k0.sched.next_pick(cpu, PRIORITY_LEVELS - 1)),
        Syscall::RegisterIrq { irq, service } => o == Outcome::Return(0) && k1 == (Kernel { irqs: k1.irqs, arena: k1.arena, ..k0 })
            && ((irq as usize) < MAX_IRQ ==> k1.irqs@ == k0.irqs@.update(irq as usize as int, service as i32)
                && Arena::inbox_added(k0.arena, k1.arena, service, (MAX_USER_MAILBOXES + irq as usize) as u32))
            && ((irq as usize) >= MAX_IRQ ==> k1.irqs@ == k0.irqs@ && k1.arena == k0.arena),
        Syscall::Spawn { cpu: c, .. } => spawn_post(k0, k1, c as int, payload, USER_STACK_PAGES, o),
        Syscall::IpcConnect { peer } => connect_post(k0, k1, cur, peer, o),
        Syscall::IpcWrite { ipcd, len, .. } => o matches Outcome::Return(v) && send_post(k0, k1, cur, ipcd, payload, len, v),
        Syscall::IpcReply { len, ipcd, .. } => o matches Outcome::Return(v) && send_post(k0, k1, cur, ipcd, payload, len, v),
        Syscall::IpcCall { ipcd, len, out, .. } => call_post(k0, k1, cpu, cur, ipcd, payload, len, out, o),
        Syscall::IpcRead { out, ipcd } => read_post(k0, k1, cpu, cur, out, ipcd, o),
        Syscall::RecvAny { out } => recv_any_post(k0, k1, cpu, cur, out, o),
        Syscall::Block { service } => block_post(k0, k1, cpu, cur, service, o),
        Syscall::Notify { service } => notify_post(k0, k1, service, o),
        Syscall::GetPid => o == Outcome::Return(me.pid as u64) && k1 == k0,
        Syscall::SetDirectWake { on } => o == Outcome::Return(0) && k1 == (Kernel { direct_wake: on, ..k0 }),
        Syscall::Unknown => o == Outcome::Return(UNKNOWN_SYSCALL) && k1 == k0,
    }
}

/// Blocking changes no task's connections.
proof fn lemma_blocked_ok(s0: Schedulers, s1: Schedulers, cpu: int, cur: TaskRef, to: Switch)
    requires
        tasks_ok(s0),
        valid_ref(cur),
        s0.at(cur) is Some,
        Schedulers::blocked(s0, s1, cpu, cur, to),
    ensures
        tasks_ok(s1),
{
    assert forall|r: TaskRef| #[trigger] valid_ref(r) && s1.at(r) is Some implies task_ok(s1.at(r).unwrap()) by {
        if r != cur {
            assert(s1.at(r) == s0.at(r));
        } else {
            assert(s1.at(r).unwrap().ipc_con == s0.at(r).unwrap().ipc_con);
        }
    }
}

/// Setting one connection to a valid one keeps every task `task_ok`.
proof fn lemma_conn_set_ok(s0: Schedulers, s1: Schedulers, cur: TaskRef, i: int, c: Option<IPCConnection>)
    requires
        tasks_ok(s0),
        valid_ref(cur),
        s0.at(cur) is Some,
        0 <= i < MAX_IPC_CONNECTIONS_PER_TASK,
        c matches Some(cc) ==> cc.ipc_pool_idx < IPC_POOL_SIZE && (cc.has_msg ==> cc.ipc_pool_idx >= 0),
        conn_set(s0, s1, cur, i, c),
    ensures
        tasks_ok(s1),
{
    assert forall|r: TaskRef| #[trigger] valid_ref(r) && s1.at(r) is Some implies task_ok(s1.at(r).unwrap()) by {
        if r != cur {
            assert(s1.at(r) == s0.at(r));
        } else {
            assert(task_ok(s0.at(cur).unwrap()));
            let t1 = s1.at(r).unwrap();
            assert forall|j: int| 0 <= j < MAX_IPC_CONNECTIONS_PER_TASK implies (#[trigger] t1.ipc_con@[j] matches Some(cc) ==> (
            cc.ipc_pool_idx < IPC_POOL_SIZE && (cc.has_msg ==> cc.ipc_pool_idx >= 0))) by {
                if j != i {
                    assert(t1.ipc_con@[j] == s0.at(cur).unwrap().ipc_con@[j]);
                }
            }
        }
    }
}

/// A task changed only in its wake flag and state keeps every task `task_ok`.
proof fn lemma_woken_ok(s0: Schedulers, s1: Schedulers, t: TaskRef)
    requires
        tasks_ok(s0),
        valid_ref(t),
        s0.at(t) is Some,
        s0.same_except(&s1, t),
        s1.at(t) == Some(Task { wake_pending: true, state: TaskState::Ready, ..s0.at(t).unwrap() }),
    ensures
        tasks_ok(s1),
{
    assert forall|r: TaskRef| #[trigger] valid_ref(r) && s1.at(r) is Some implies task_ok(s1.at(r).unwrap()) by {
        if r != t {
            assert(s1.at(r) == s0.at(r));
        } else {
            assert(s1.at(r).unwrap().ipc_con == s0.at(r).unwrap().ipc_con);
        }
    }
}

/// Replacing one task by a `task_ok` one keeps every task `task_ok`.
proof fn lemma_set_ok(s0: Schedulers, s1: Schedulers, t: TaskRef, task: Task)
    requires
        tasks_ok(s0),
        s0.same_except(&s1, t),
        s1.at(t) == Some(task),
        task_ok(task),
    ensures
        tasks_ok(s1),
{
    assert forall|r: TaskRef| #[trigger] valid_ref(r) && s1.at(r) is Some implies task_ok(s1.at(r).unwrap()) by {
        if r != t {
            assert(s1.at(r) == s0.at(r));
        }
    }
}

/// A delivery keeps the task `task_ok`.
proof fn lemma_write_ok(pool0: MessagePool, pool1: MessagePool, t0: Task, t1: Task, ipcd: i32, sender: i32, msg: Seq<u8>, len: i32, w: i32)
    requires
        task_ok(t0),
        0 <= ipcd < MAX_IPC_CONNECTIONS_PER_TASK,
        t0.ipc_con@[ipcd as int] is Some,
        write_post(pool0, pool1, t0, t1, ipcd, sender, msg, len, w),
    ensures
        task_ok(t1),
        forall|j: int| 0 <= j < MAX_IPC_CONNECTIONS_PER_TASK && #[trigger] t0.ipc_con@[j] is Some ==> t1.ipc_con@[j] is Some,
        t1 == (Task { ipc_con: t1.ipc_con, state: t1.state, wake_pending: t1.wake_pending, ..t0 }),
{
    assert forall|j: int| 0 <= j < MAX_IPC_CONNECTIONS_PER_TASK implies (#[trigger] t1.ipc_con@[j] matches Some(cc) ==> (cc.ipc_pool_idx
        < IPC_POOL_SIZE && (cc.has_msg ==> cc.ipc_pool_idx >= 0))) by {
        let c = t0.ipc_con@[ipcd as int].unwrap();
        assert(t0.ipc_con@[ipcd as int] matches Some(cc) ==> (cc.has_msg ==> cc.ipc_pool_idx >= 0));
        if j != ipcd {
            assert(t1.ipc_con@[j] == t0.ipc_con@[j]);
        } else if t1 == t0 {
        } else if w == 1 {
            assert(t1.ipc_con@[j] == Some(IPCConnection { ipc_pool_idx: -1i32, ..c }));
        } else {
            let idx = t1.ipc_con@[ipcd as int].unwrap().ipc_pool_idx as int;
            assert(t1.ipc_con@[j] == Some(IPCConnection { ipc_pool_idx: idx as i32, has_msg: true, ..c }));
        }
    }
}

/// What routing keeps and gives.
proof fn lemma_route(s0: Schedulers, s1: Schedulers, me: TaskRef, ipcd: i32, r: Option<(TaskRef, i32)>)
    requires
        tasks_ok(s0),
        valid_ref(me),
        s0.at(me) is Some,
        route_post(s0, s1, me, ipcd, r),
    ensures
        tasks_ok(s1),
        r is None ==> s1 == s0,
        r matches Some((t, i)) ==> {
            &&& valid_ref(t)
            &&& s0.at(t) is Some
            &&& 0 <= i < MAX_IPC_CONNECTIONS_PER_TASK
            &&& s0.same_except(&s1, t)
            &&& s1.at(t) == Some(Task { ipc_con: s1.at(t).unwrap().ipc_con, ..s0.at(t).unwrap() })
            &&& s1.at(t).unwrap().ipc_con@[i as int] is Some
            &&& forall|j: int| 0 <= j < MAX_IPC_CONNECTIONS_PER_TASK && #[trigger] s0.at(t).unwrap().ipc_con@[j] is Some
                ==> s1.at(t).unwrap().ipc_con@[j] == s0.at(t).unwrap().ipc_con@[j]
        },
{
    let me_task = s0.at(me).unwrap();
    match conn_of(me_task, ipcd) {
        None => {},
        Some(c) => {
            if !(forall|t: TaskRef| #[trigger] valid_ref(t) ==> !task_matches(s0.at(t), c.peer_pid, false)) {
                let t = choose|t: TaskRef| #[trigger] first_with_pid(s0, c.peer_pid, t) && peer_end(s0, s1, t, me_task.pid, r);
                let tt = s0.at(t).unwrap();
                if exists|i: int| 0 <= i < MAX_IPC_CONNECTIONS_PER_TASK && #[trigger] conn_to(tt.ipc_con@[i], me_task.pid) {
                } else if exists|f: int| 0 <= f < MAX_IPC_CONNECTIONS_PER_TASK && #[trigger] tt.ipc_con@[f] is None {
                    let f = choose|f: int|
                        0 <= f < MAX_IPC_CONNECTIONS_PER_TASK && #[trigger] tt.ipc_con@[f] is None && (forall|j: int| 0 <= j < f
                            ==> #[trigger] tt.ipc_con@[j] is Some) && r == Some((t, f as i32)) && conn_set(
                            s0,
                            s1,
                            t,
                            f,
                            Some(IPCConnection { peer_pid: me_task.pid, state: IPCState::Open, ipc_pool_idx: -1i32, has_msg: false }),
                        );
                    lemma_conn_set_ok(
                        s0,
                        s1,
                        t,
                        f,
                        Some(IPCConnection { peer_pid: me_task.pid, state: IPCState::Open, ipc_pool_idx: -1i32, has_msg: false }),
                    );
                }
            }
        },
    }
}

/// A fresh task added where there was none keeps every task `task_ok`.
proof fn lemma_spawned_ok(s0: Schedulers, s1: Schedulers, cpu: int, priority: u8, stack: u64, ksp: u64, top: u64, cr3: u64, pid: i32)
    requires
        tasks_ok(s0),
        Schedulers::spawned(s0, s1, cpu, priority, stack, ksp, top, cr3, pid),
    ensures
        tasks_ok(s1),
{
    assert forall|r: TaskRef| #[trigger] valid_ref(r) && s1.at(r) is Some implies task_ok(s1.at(r).unwrap()) by {
        if s1.at(r) != s0.at(r) {
            assert(is_fresh(s1.at(r).unwrap(), priority, stack, ksp, top, cr3, pid));
        }
    }
}

/// Two valid locations at the same place in the walk order are the same.
proof fn lemma_walk_index_injective(a: TaskRef, b: TaskRef)
    requires
        valid_ref(a),
        valid_ref(b),
        walk_index(a) == walk_index(b),
    ensures
        a == b,
{
}

impl Kernel {
    fn sys_connect(&mut self, cur: TaskRef, peer: i32) -> (o: Outcome)
        requires
            old(self).wf(),
            valid_ref(cur),
            old(self).sched.at(cur) is Some,
        ensures
            final(self).wf(),
            connect_post(*old(self), *final(self), cur, peer, o),
    {
        let me = self.sched.task(cur).unwrap();
        match find_conn_to(&me, peer) {
            Some(i) => {
                assert(conn_to(me.ipc_con@[i as int], peer));
                Outcome::Return(i as u64)
            },
            None => {
                let mut t = me;
                let r = alloc_con(&mut t, peer);
                if r < 0 {
                    return Outcome::Return(u64::MAX);
                }
                self.sched.set_task(cur, t);
                proof {
                    lemma_conn_set_ok(old(self).sched, self.sched, cur, r as int, t.ipc_con@[r as int]);
                    assert(me.ipc_con@[r as int] is None);
                }
                Outcome::Return(r as u64)
            },
        }
    }

    fn sys_read(&mut self, cpu: usize, cur: TaskRef, out: u64, ipcd: i32) -> (o: Outcome)
        requires
            old(self).wf(),
            cpu < MAX_CPUS,
            valid_ref(cur),
            old(self).sched.at(cur) is Some,
        ensures
            final(self).wf(),
            read_post(*old(self), *final(self), cpu as int, cur, out, ipcd, o),
    {
        let me = self.sched.task(cur).unwrap();
        match conn(&me, ipcd) {
            None => Outcome::Return(1),
            Some(_) => {
                proof {
                    assert(task_ok(me));
                }
                let mut t = me;
                match read_ipc(&self.pool, &mut t, ipcd) {
                    Some(m) => {
                        self.sched.set_task(cur, t);
                        proof {
                            lemma_conn_set_ok(old(self).sched, self.sched, cur, ipcd as int, t.ipc_con@[ipcd as int]);
                        }
                        Outcome::Deliver { out, msg: m, value: 0 }
                    },
                    None => {
                        let to = self.sched.block_current(cpu, cur);
                        proof {
                            lemma_blocked_ok(old(self).sched, self.sched, cpu as int, cur, to);
                        }
                        Outcome::Leave { to, then: Then::Retry }
                    },
                }
            },
        }
    }

    fn sys_recv_any(&mut self, cpu: usize, cur: TaskRef, out: u64) -> (o: Outcome)
        requires
            old(self).wf(),
            cpu < MAX_CPUS,
            valid_ref(cur),
            old(self).sched.at(cur) is Some,
        ensures
            final(self).wf(),
            recv_any_post(*old(self), *final(self), cpu as int, cur, out, o),
    {
        let me = self.sched.task(cur).unwrap();
        proof {
            assert(task_ok(me));
        }
        let mut t = me;
        match recv_any(&self.pool, &mut t) {
            Some((i, m)) => {
                self.sched.set_task(cur, t);
                proof {
                    lemma_conn_set_ok(old(self).sched, self.sched, cur, i as int, t.ipc_con@[i as int]);
                    assert(holds_msg(me.ipc_con@[i as int]));
                }
                Outcome::Deliver { out, msg: m, value: i as u64 }
            },
            None => {
                let to = self.sched.block_current(cpu, cur);
                proof {
                    lemma_blocked_ok(old(self).sched, self.sched, cpu as int, cur, to);
                }
                Outcome::Leave { to, then: Then::Retry }
            },
        }
    }

    fn sys_block(&mut self, cpu: usize, cur: TaskRef, service: u32) -> (o: Outcome)
        requires
            old(self).wf(),
            cpu < MAX_CPUS,
            valid_ref(cur),
            old(self).sched.at(cur) is Some,
        ensures
            final(self).wf(),
            block_post(*old(self), *final(self), cpu as int, cur, service, o),
    {
        let me = self.sched.task(cur).unwrap();
        self.servers.register_server(service, me.pid, cpu as u32);
        if self.arena.inbox_has_req(service) {
            return Outcome::Return(0);
        }
        let to = self.sched.block_current(cpu, cur);
        proof {
            lemma_blocked_ok(old(self).sched, self.sched, cpu as int, cur, to);
        }
        Outcome::Leave { to, then: Then::Return(0) }
    }

    fn sys_notify(&mut self, service: u32) -> (o: Outcome)
        requires
            old(self).wf(),
        ensures
            final(self).wf(),
            notify_post(*old(self), *final(self), service, o),
    {
        match self.servers.wake_server(service) {
            None => Outcome::Return(0),
            Some((pid, core)) => {
                match self.sched.find_task_by_pid(pid) {
                    Some(t) => {
                        self.sched.wake(Some(t));
                        self.hints.set_wake_hint(core as usize, Some(t));
                        proof {
                            lemma_woken_ok(old(self).sched, self.sched, t);
                            assert forall|t2: TaskRef| #[trigger] first_with_pid(old(self).sched, pid, t2) implies t2 == t by {
                                if walk_index(t2) < walk_index(t) {
                                } else if walk_index(t) < walk_index(t2) {
                                } else {
                                    lemma_walk_index_injective(t, t2);
                                }
                            }
                        }
                    },
                    None => {},
                }
                Outcome::Wake { core }
            },
        }
    }

    fn send(&mut self, cur: TaskRef, ipcd: i32, msg: &[u8], len: i32) -> (v: u64)
        requires
            old(self).wf(),
            valid_ref(cur),
            old(self).sched.at(cur) is Some,
            holds_message(msg@.len(), len),
        ensures
            final(self).wf(),
            send_post(*old(self), *final(self), cur, ipcd, msg@, len, v),
            final(self).sched.at(cur) is Some,
            forall|j: int| 0 <= j < MAX_IPC_CONNECTIONS_PER_TASK && #[trigger] old(self).sched.at(cur).unwrap().ipc_con@[j] is Some
                ==> final(self).sched.at(cur).unwrap().ipc_con@[j] is Some,
    {
        let me = self.sched.task(cur).unwrap();
        let ghost s0 = self.sched;
        match route_ipc_peer(&mut self.sched, cur, ipcd) {
            None => {
                proof {
                    lemma_route(s0, self.sched, cur, ipcd, None);
                    assert(route_post(s0, self.sched, cur, ipcd, None));
                }
                1
            },
            Some((t, i)) => {
                proof {
                    lemma_route(s0, self.sched, cur, ipcd, Some((t, i)));
                }
                let ghost s = self.sched;
                let mut tt = self.sched.task(t).unwrap();
                proof {
                    assert(task_ok(tt));
                }
                let w = write_ipc(&mut self.pool, &mut tt, i, me.pid, msg, len);
                self.sched.set_task(t, tt);
                proof {
                    lemma_write_ok(old(self).pool, self.pool, s.at(t).unwrap(), tt, i, me.pid, msg@, len, w);
                    lemma_set_ok(s, self.sched, t, tt);
                    assert(route_post(s0, s, cur, ipcd, Some((t, i))));
                    assert(write_post(old(self).pool, self.pool, s.at(t).unwrap(), self.sched.at(t).unwrap(), i, me.pid, msg@, len, w));
                }
                w as u64
            },
        }
    }

    fn sys_call(&mut self, cpu: usize, cur: TaskRef, ipcd: i32, msg: &[u8], len: i32, out: u64) -> (o: Outcome)
        requires
            old(self).wf(),
            cpu < MAX_CPUS,
            valid_ref(cur),
            old(self).sched.at(cur) is Some,
            holds_message(msg@.len(), len),
        ensures
            final(self).wf(),
            call_post(*old(self), *final(self), cpu as int, cur, ipcd, msg@, len, out, o),
    {
        let me = self.sched.task(cur).unwrap();
        let c = match conn(&me, ipcd) {
            None => return Outcome::Return(1),
            Some(c) => c,
        };
        proof {
            assert(task_ok(me));
        }
        let mut t = me;
        t.ipc_con[ipcd as usize] = Some(IPCConnection { state: IPCState::AwaitingReply, ..c });
        self.sched.set_task(cur, t);
        proof {
            lemma_conn_set_ok(old(self).sched, self.sched, cur, ipcd as int, Some(IPCConnection { state: IPCState::AwaitingReply, ..c }));
        }
        let ghost ka = *self;
        let v = self.send(cur, ipcd, msg, len);
        let ghost kb = *self;
        if v != 0 {
            let tb = self.sched.task(cur).unwrap();
            assert(ka.sched.at(cur).unwrap().ipc_con@[ipcd as int] is Some);
            let cb = tb.ipc_con[ipcd as usize].unwrap();
            let mut t2 = tb;
            t2.ipc_con[ipcd as usize] = Some(IPCConnection { state: IPCState::Open, ..cb });
            self.sched.set_task(cur, t2);
            proof {
                assert(task_ok(tb));
                lemma_conn_set_ok(kb.sched, self.sched, cur, ipcd as int, Some(IPCConnection { state: IPCState::Open, ..cb }));
                assert(send_post(ka, kb, cur, ipcd, msg@, len, v));
            }
            return Outcome::Return(1);
        }
        assert(ka.sched.at(cur).unwrap().ipc_con@[ipcd as int] is Some);
        let o = self.await_reply(cpu, cur, ipcd, out);
        proof {
            assert(send_post(ka, kb, cur, ipcd, msg@, len, v));
        }
        o
    }

    /// Goes on waiting for the answer on connection `ipcd` of the task at `cur`
    /// after a call, as `await_post` says.
    pub fn await_reply(&mut self, cpu: usize, cur: TaskRef, ipcd: i32, out: u64) -> (o: Outcome)
        requires
            old(self).wf(),
            cpu < MAX_CPUS,
            valid_ref(cur),
            old(self).sched.at(cur) is Some,
            conn_of(old(self).sched.at(cur).unwrap(), ipcd) is Some,
        ensures
            final(self).wf(),
            await_post(*old(self), *final(self), cpu as int, cur, ipcd, out, o),
    {
        let me = self.sched.task(cur).unwrap();
        let c = me.ipc_con[ipcd as usize].unwrap();
        proof {
            assert(task_ok(me));
        }
        if c.has_msg {
            let msg = self.pool.message(c.ipc_pool_idx as usize);
            let mut t = me;
            t.ipc_con[ipcd as usize] = Some(IPCConnection { has_msg: false, state: IPCState::Open, ..c });
            self.sched.set_task(cur, t);
            proof {
                let c2 = Some(IPCConnection { has_msg: false, state: IPCState::Open, ..c });
                lemma_conn_set_ok(old(self).sched, self.sched, cur, ipcd as int, c2);
            }
            Outcome::Deliver { out, msg, value: 0 }
        } else {
            let to = self.sched.block_current(cpu, cur);
            proof {
                lemma_blocked_ok(old(self).sched, self.sched, cpu as int, cur, to);
            }
            Outcome::Leave { to, then: Then::AwaitReply { ipcd, out } }
        }
    }

    fn spawn_with(&mut self, cpu: u8, image: &[u8], stack_pages: u64) -> (o: Outcome)
        requires
            old(self).wf(),
            cpu < MAX_CPUS,
            old(self).pmm.spec_free_memory() <= FREE_TABLE_LIMIT,
            old(self).sched.pids_bounded(),
            stack_pages <= 0x1000_0000,
        ensures
            final(self).wf(),
            spawn_post(*old(self), *final(self), cpu as int, image@, stack_pages, o),
    {
        match spawn_image(&mut self.tables, &mut self.pmm, image, self.boot_entry, stack_pages) {
            None => Outcome::Return(u64::MAX),
            Some((pml4, entry, pages, top)) => {
                let _stack = self.pmm.alloc_pages(KSTACK_ORDER);
                let kphys = self.pmm.alloc_pages(KSTACK_ORDER);
                let ktop = self.direct_map.wrapping_add(kphys).wrapping_add(8192);
                let ksp = ktop.wrapping_sub(56);
                let frame = user_initial_frame(self.user_entry, top, entry);
                let pid = self.sched.spawn_task(cpu as usize, 1, 0, ksp, ktop, pml4);
                proof {
                    lemma_spawned_ok(old(self).sched, self.sched, cpu as int, 1, 0, ksp, ktop, pml4, pid);
                    assert(ktop == wrap(old(self).direct_map + kphys + 8192));
                    assert(ksp == wrap(ktop - 56));
                }
                Outcome::Spawned { pid, pages, frame, ksp }
            },
        }
    }

    /// Starts the first task, the executable `image`, on CPU 0: as a spawn does
    /// (`spawn_post`), with `INIT_STACK_PAGES` pages of user stack. `Return(u64::MAX)`
    /// when the image does not load.
    pub fn spawn_first(&mut self, image: &[u8]) -> (o: Outcome)
        requires
            old(self).wf(),
            old(self).pmm.spec_free_memory() <= FREE_TABLE_LIMIT,
            old(self).sched.pids_bounded(),
        ensures
            final(self).wf(),
            spawn_post(*old(self), *final(self), 0, image@, INIT_STACK_PAGES, o),
    {
        self.spawn_with(0, image, INIT_STACK_PAGES)
    }

    /// An interrupt on line `irq`, as `irq_post` says.
    pub fn on_irq(&mut self, irq: usize, scancode: u8) -> (ipi: Option<u32>)
        requires
            old(self).wf(),
        ensures
            final(self).wf(),
            irq_post(*old(self), *final(self), irq as int, scancode, ipi),
    {
        let w = self.irqs.dispatch(&mut self.arena, irq, scancode);
        let ghost a = self.arena;
        match w {
            None => None,
            Some(svc) => {
                let ghost mid = *self;
                let o = self.sys_notify(svc);
                let ipi = match o {
                    Outcome::Wake { core } => Some(core),
                    _ => None,
                };
                assert(IrqRoutes::dispatched(old(self).irqs@, old(self).arena, a, irq as int, scancode, w));
                assert(mid == (Kernel { arena: a, ..*old(self) }));
                ipi
            },
        }
    }

    /// Decides the switch at a local timer tick on `cpu` running `cur`, as
    /// `tick_post` says.
    pub fn timer_tick(&mut self, cpu: usize, cur: Option<TaskRef>) -> (r: Switch)
        requires
            old(self).wf(),
            cpu < MAX_CPUS,
        ensures
            final(self).wf(),
            tick_post(*old(self), *final(self), cpu as int, cur, r),
    {
        let c = match cur {
            None => return Switch::Stay,
            Some(c) => c,
        };
        match self.hints.try_direct_wake(&self.sched, cpu, c) {
            Some(sw) => sw,
            None => self.sched.yield_now(cpu, c),
        }
    }

    /// Carries out the system call `call` of the task at `cur`, running on `cpu`.
    /// `payload` holds the bytes the call names in the caller's memory.
    pub fn syscall(&mut self, cpu: usize, cur: TaskRef, call: Syscall, payload: &[u8]) -> (o: Outcome)
        requires
            old(self).wf(),
            cpu < MAX_CPUS,
            valid_ref(cur),
            old(self).sched.at(cur) is Some,
            admitted(*old(self), call, payload@.len()),
        ensures
            final(self).wf(),
            syscall_post(*old(self), *final(self), cpu as int, cur, call, payload@, o),
    {
        let me = self.sched.task(cur).unwrap();
        match call {
            Syscall::Exit => Outcome::Exit,
            Syscall::AllocPages { order } => {
                let b = self.pmm.alloc_pages(order as usize);
                Outcome::Return(b)
            },
            Syscall::FreePages { addr, order } => {
                self.pmm.free_pages(order as usize, addr);
                Outcome::Return(0)
            },
            Syscall::MapPage { virt, phys, flags } => {
                self.tables.map_page(&mut self.pmm, me.cr3, virt, phys, flags);
                Outcome::Return(0)
            },
            Syscall::UnmapPage { virt } => {
                self.tables.unmap_page(me.cr3, virt);
                Outcome::Return(0)
            },
            Syscall::Print { .. } => Outcome::Print,
            Syscall::Yield => {
                let to = self.sched.yield_now(cpu, cur);
                Outcome::Leave { to, then: Then::Return(0) }
            },
            Syscall::RegisterIrq { irq, service } => {
                self.irqs.register(&mut self.arena, irq as usize, service);
                Outcome::Return(0)
            },
            Syscall::Spawn { cpu: c, .. } => self.spawn_with(c, payload, USER_STACK_PAGES),
            Syscall::IpcConnect { peer } => self.sys_connect(cur, peer),
            Syscall::IpcWrite { ipcd, len, .. } => Outcome::Return(self.send(cur, ipcd, payload, len)),
            Syscall::IpcReply { len, ipcd, .. } => Outcome::Return(self.send(cur, ipcd, payload, len)),
            Syscall::IpcCall { ipcd, len, out, .. } => self.sys_call(cpu, cur, ipcd, payload, len, out),
            Syscall::IpcRead { out, ipcd } => self.sys_read(cpu, cur, out, ipcd),
            Syscall::RecvAny { out } => self.sys_recv_any(cpu, cur, out),
            Syscall::Block { service } => self.sys_block(cpu, cur, service),
            Syscall::Notify { service } => self.sys_notify(service),
            Syscall::GetPid => Outcome::Return(me.pid as u64),
            Syscall::SetDirectWake { on } => {
                self.direct_wake = on;
                Outcome::Return(0)
            },
            Syscall::Unknown => Outcome::Return(UNKNOWN_SYSCALL),
        }
    }
}


/// The end a connection is routed to does not depend on anything but the tasks.
proof fn lemma_route_unique(
    s0: Schedulers,
    s1: Schedulers,
    s2: Schedulers,
    me: TaskRef,
    ipcd: i32,
    r1: Option<(TaskRef, i32)>,
    r2: Option<(TaskRef, i32)>,
)
    requires
        route_post(s0, s1, me, ipcd, r1),
        route_post(s0, s2, me, ipcd, r2),
    ensures
        r1 == r2,
        forall|t: TaskRef| #[trigger] valid_ref(t) ==> s1.at(t) == s2.at(t),
{
    let me_task = s0.at(me).unwrap();
    match conn_of(me_task, ipcd) {
        None => {},
        Some(c) => {
            if !(forall|t: TaskRef| #[trigger] valid_ref(t) ==> !task_matches(s0.at(t), c.peer_pid, false)) {
                let t1 = choose|t: TaskRef| #[trigger] first_with_pid(s0, c.peer_pid, t) && peer_end(s0, s1, t, me_task.pid, r1);
                let t2 = choose|t: TaskRef| #[trigger] first_with_pid(s0, c.peer_pid, t) && peer_end(s0, s2, t, me_task.pid, r2);
                if walk_index(t1) < walk_index(t2) {
                    assert(!task_matches(s0.at(t1), c.peer_pid, false));
                } else if walk_index(t2) < walk_index(t1) {
                    assert(!task_matches(s0.at(t2), c.peer_pid, false));
                }
                lemma_walk_index_injective(t1, t2);
                let tt = s0.at(t1).unwrap();
                if exists|i: int| 0 <= i < MAX_IPC_CONNECTIONS_PER_TASK && #[trigger] conn_to(tt.ipc_con@[i], me_task.pid) {
                    let i1 = choose|i: int|
                        0 <= i < MAX_IPC_CONNECTIONS_PER_TASK && #[trigger] conn_to(tt.ipc_con@[i], me_task.pid) && (forall|j: int|
                            0 <= j < i ==> !conn_to(#[trigger] tt.ipc_con@[j], me_task.pid)) && r1 == Some((t1, i as i32)) && s1 == s0;
                    let i2 = choose|i: int|
                        0 <= i < MAX_IPC_CONNECTIONS_PER_TASK && #[trigger] conn_to(tt.ipc_con@[i], me_task.pid) && (forall|j: int|
                            0 <= j < i ==> !conn_to(#[trigger] tt.ipc_con@[j], me_task.pid)) && r2 == Some((t1, i as i32)) && s2 == s0;
                    if i1 < i2 {
                        assert(!conn_to(tt.ipc_con@[i1], me_task.pid));
                    } else if i2 < i1 {
                        assert(!conn_to(tt.ipc_con@[i2], me_task.pid));
                    }
                } else if exists|f: int| 0 <= f < MAX_IPC_CONNECTIONS_PER_TASK && #[trigger] tt.ipc_con@[f] is None {
                    let nc = Some(IPCConnection { peer_pid: me_task.pid, state: IPCState::Open, ipc_pool_idx: -1i32, has_msg: false });
                    let f1 = choose|f: int|
                        0 <= f < MAX_IPC_CONNECTIONS_PER_TASK && #[trigger] tt.ipc_con@[f] is None && (forall|j: int| 0 <= j < f
                            ==> #[trigger] tt.ipc_con@[j] is Some) && r1 == Some((t1, f as i32)) && conn_set(s0, s1, t1, f, nc);
                    let f2 = choose|f: int|
                        0 <= f < MAX_IPC_CONNECTIONS_PER_TASK && #[trigger] tt.ipc_con@[f] is None && (forall|j: int| 0 <= j < f
                            ==> #[trigger] tt.ipc_con@[j] is Some) && r2 == Some((t1, f as i32)) && conn_set(s0, s2, t1, f, nc);
                    if f1 < f2 {
                        assert(tt.ipc_con@[f1] is Some);
                    } else if f2 < f1 {
                        assert(tt.ipc_con@[f2] is Some);
                    }
                    assert(s1.at(t1).unwrap().ipc_con@ =~= s2.at(t1).unwrap().ipc_con@);
                    assert(s1.at(t1).unwrap().ipc_con == s2.at(t1).unwrap().ipc_con);
                    assert forall|t: TaskRef| #[trigger] valid_ref(t) implies s1.at(t) == s2.at(t) by {
                        if t != t1 {
                            assert(s1.at(t) == s0.at(t));
                            assert(s2.at(t) == s0.at(t));
                        }
                    }
                }
            }
        },
    }
}

/// After a send that returned 0, the end the connection routes to holds the
/// message: its first `min(len, MAX_IPC_MSG_LEN)` bytes, with that length.
proof fn lemma_sent_holds(
    k0: Kernel,
    k1: Kernel,
    a: TaskRef,
    ipcd: i32,
    payload: Seq<u8>,
    len: i32,
    s: Schedulers,
    b: TaskRef,
    i: i32,
)
    requires
        k0.wf(),
        valid_ref(a),
        k0.sched.at(a) is Some,
        route_post(k0.sched, s, a, ipcd, Some((b, i))),
        send_post(k0, k1, a, ipcd, payload, len, 0),
    ensures
        k1.sched.at(b) is Some,
        ({
            let n = if len < MAX_IPC_MSG_LEN { len as int } else { MAX_IPC_MSG_LEN as int };
            conn_of(k1.sched.at(b).unwrap(), i) matches Some(c) && c.has_msg && 0 <= c.ipc_pool_idx < IPC_POOL_SIZE
                && k1.pool.messages_view()[c.ipc_pool_idx as int].len == n
                && k1.pool.messages_view()[c.ipc_pool_idx as int].data@.subrange(0, n) == payload.subrange(0, n)
        }),
{
    let me = k0.sched.at(a).unwrap();
    let (s1, r1) = choose|s1: Schedulers, r1: Option<(TaskRef, i32)>| #[trigger] route_post(k0.sched, s1, a, ipcd, r1) && match r1 {
        None => 0u64 == 1 && k1 == k0,
        Some((t, j)) => k1.sched.at(t) is Some && exists|w: i32|
            #[trigger] write_post(k0.pool, k1.pool, s1.at(t).unwrap(), k1.sched.at(t).unwrap(), j, me.pid, payload, len, w) && 0u64
                == w as u64 && s1.same_except(&k1.sched, t),
    };
    lemma_route_unique(k0.sched, s, s1, a, ipcd, Some((b, i)), r1);
    lemma_route(k0.sched, s1, a, ipcd, r1);
    let w = choose|w: i32| #[trigger] write_post(k0.pool, k1.pool, s1.at(b).unwrap(), k1.sched.at(b).unwrap(), i, me.pid, payload, len, w)
        && 0u64 == w as u64 && s1.same_except(&k1.sched, b);
    assert(w == 0);
}

/// A message sent over a connection is what the peer's end then reads: when a write
/// by the task at `a` over its connection `ipcd`, which routes to the end `i` of
/// the task at `b`, returned 0, a read by `b` on `i` delivers the message, as its
/// first `min(len, MAX_IPC_MSG_LEN)` bytes with that length.
pub proof fn law_send_then_read(
    k0: Kernel,
    k1: Kernel,
    k2: Kernel,
    cpu: int,
    a: TaskRef,
    ipcd: i32,
    addr: u64,
    payload: Seq<u8>,
    len: i32,
    s: Schedulers,
    b: TaskRef,
    i: i32,
    cpu2: int,
    out: u64,
    o: Outcome,
)
    requires
        k0.wf(),
        valid_ref(a),
        k0.sched.at(a) is Some,
        route_post(k0.sched, s, a, ipcd, Some((b, i))),
        syscall_post(k0, k1, cpu, a, Syscall::IpcWrite { ipcd, msg: addr, len }, payload, Outcome::Return(0)),
        syscall_post(k1, k2, cpu2, b, Syscall::IpcRead { out, ipcd: i }, Seq::empty(), o),
    ensures
        ({
            let n = if len < MAX_IPC_MSG_LEN { len as int } else { MAX_IPC_MSG_LEN as int };
            o matches Outcome::Deliver { msg, value, out: o2 } && value == 0 && o2 == out && msg.len == n && msg.data@.subrange(0, n)
                == payload.subrange(0, n)
        }),
{
    lemma_sent_holds(k0, k1, a, ipcd, payload, len, s, b, i);
}

/// A reply reaches the caller waiting for it: when a reply by the task at `b` over
/// its connection `ipcd`, which routes to the end `i` of the caller at `a`,
/// returned 0, the caller's wait on `i` delivers the reply, as its first
/// `min(len, MAX_IPC_MSG_LEN)` bytes with that length, and the connection is open
/// again.
pub proof fn law_reply_then_await(
    k0: Kernel,
    k1: Kernel,
    k2: Kernel,
    cpu: int,
    b: TaskRef,
    ipcd: i32,
    addr: u64,
    payload: Seq<u8>,
    len: i32,
    s: Schedulers,
    a: TaskRef,
    i: i32,
    cpu2: int,
    out: u64,
    o: Outcome,
)
    requires
        k0.wf(),
        valid_ref(b),
        k0.sched.at(b) is Some,
        route_post(k0.sched, s, b, ipcd, Some((a, i))),
        syscall_post(k0, k1, cpu, b, Syscall::IpcReply { msg: addr, len, ipcd }, payload, Outcome::Return(0)),
        await_post(k1, k2, cpu2, a, i, out, o),
    ensures
        ({
            let n = if len < MAX_IPC_MSG_LEN { len as int } else { MAX_IPC_MSG_LEN as int };
            &&& o matches Outcome::Deliver { msg, value, out: o2 } && value == 0 && o2 == out && msg.len == n
                && msg.data@.subrange(0, n) == payload.subrange(0, n)
            &&& conn_of(k2.sched.at(a).unwrap(), i) matches Some(c) && c.state == IPCState::Open && !c.has_msg
        }),
{
    lemma_sent_holds(k0, k1, b, ipcd, payload, len, s, a, i);
}

/// Connecting again to the same peer gives the same descriptor and changes
/// nothing: after the task at `cur` opened (or found) a connection to `peer`, the
/// same call returns the same value and leaves the kernel as it was.
pub proof fn law_connect_again(k0: Kernel, k1: Kernel, k2: Kernel, cpu: int, cpu2: int, cur: TaskRef, peer: i32, v: u64, o: Outcome)
    requires
        k0.wf(),
        valid_ref(cur),
        k0.sched.at(cur) is Some,
        syscall_post(k0, k1, cpu, cur, Syscall::IpcConnect { peer }, Seq::empty(), Outcome::Return(v)),
        v != u64::MAX,
        syscall_post(k1, k2, cpu2, cur, Syscall::IpcConnect { peer }, Seq::empty(), o),
    ensures
        o == Outcome::Return(v),
        k2 == k1,
{
    let me0 = k0.sched.at(cur).unwrap();
    let me1 = k1.sched.at(cur).unwrap();
    // In `k1` the first connection of `cur` to `peer` is at `v`.
    let i: int = if exists|i: int| 0 <= i < MAX_IPC_CONNECTIONS_PER_TASK && #[trigger] conn_to(me0.ipc_con@[i], peer)
        && (forall|j: int| 0 <= j < i ==> !conn_to(#[trigger] me0.ipc_con@[j], peer)) && Outcome::Return(v) == Outcome::Return(i as u64)
        && k1 == k0 {
        choose|i: int| 0 <= i < MAX_IPC_CONNECTIONS_PER_TASK && #[trigger] conn_to(me0.ipc_con@[i], peer) && (forall|j: int| 0 <= j < i
            ==> !conn_to(#[trigger] me0.ipc_con@[j], peer)) && Outcome::Return(v) == Outcome::Return(i as u64) && k1 == k0
    } else {
        let f = choose|f: int|
            0 <= f < MAX_IPC_CONNECTIONS_PER_TASK && #[trigger] me0.ipc_con@[f] is None && (forall|j: int| 0 <= j < f
                ==> #[trigger] me0.ipc_con@[j] is Some) && Outcome::Return(v) == Outcome::Return(f as u64) && k1 == (Kernel {
                sched: k1.sched,
                ..k0
            }) && conn_set(
                k0.sched,
                k1.sched,
                cur,
                f,
                Some(IPCConnection { peer_pid: peer, state: IPCState::Open, ipc_pool_idx: -1i32, has_msg: false }),
            );
        assert(conn_to(me1.ipc_con@[f], peer));
        assert forall|j: int| 0 <= j < f implies !conn_to(#[trigger] me1.ipc_con@[j], peer) by {
            assert(me1.ipc_con@[j] == me0.ipc_con@[j]);
            assert(!conn_to(me0.ipc_con@[j], peer));
        }
        f
    };
    assert(conn_to(me1.ipc_con@[i], peer));
    assert(forall|j: int| 0 <= j < i ==> !conn_to(#[trigger] me1.ipc_con@[j], peer));
    // The second call finds that connection.
    let i2 = choose|i: int| 0 <= i < MAX_IPC_CONNECTIONS_PER_TASK && #[trigger] conn_to(me1.ipc_con@[i], peer) && (forall|j: int| 0 <= j < i
        ==> !conn_to(#[trigger] me1.ipc_con@[j], peer)) && o == Outcome::Return(i as u64) && k2 == k1;
    if i2 < i {
        assert(!conn_to(me1.ipc_con@[i2], peer));
    } else if i < i2 {
        assert(!conn_to(me1.ipc_con@[i], peer));
    }
}

} // verus!
