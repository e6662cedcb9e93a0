use vstd::prelude::*;
use vstd::string::StringSliceAdditionalSpecFns;
use crate::serial::{append_bytes, hex_spec, write_hex};
use crate::ipc::{alloc_con, conn, conn_of, conn_set, conn_to, find_conn_to, IPCConnection, IPCState, MAX_IPC_CONNECTIONS_PER_TASK};
use crate::scheduler::{first_with_pid, task_matches, valid_ref, Schedulers, Task, TaskRef};
use crate::pmm::{alloc_spec, free_bytes, lemma_alloc_spec, BuddyAllocator};
use crate::vmm::{map_spec, release_all, table_frees, zero_table, PageTables, FREE_TABLE_LIMIT, TABLE_FLAGS};
use crate::elf::{lemma_load_grows, load, load_spec, LoadedPage};

verus! {

/// What a system call asks for, by its number and arguments.
#[derive(Debug, Clone, Copy, PartialEq, Eq, Structural)]
pub enum Syscall {
    /// 0: end the calling task.
    Exit,
    /// 1: allocate a block of pages of `order`.
    AllocPages { order: u64 },
    /// 2: free the block of `order` at `addr`.
    FreePages { addr: u64, order: u64 },
    /// 3: map `virt` to `phys` with `flags` in the caller's address space.
    MapPage { virt: u64, phys: u64, flags: u64 },
    /// 4: unmap `virt`.
    UnmapPage { virt: u64 },
    /// 5: start the executable image at `image` of `len` bytes on `cpu`.
    Spawn { image: u64, image_len: u64, cpu: u8 },
    /// 6: send `len` bytes at `msg` over connection `ipcd`.
    IpcWrite { ipcd: i32, msg: u64, len: i32 },
    /// 7: receive on connection `ipcd` into `out`.
    IpcRead { out: u64, ipcd: i32 },
    /// 8: print `len` bytes at `buf` on the serial line.
    Print { buf: u64, buf_len: u64 },
    /// 9: give up the CPU.
    Yield,
    /// 10: route interrupt `irq` to `service`.
    RegisterIrq { irq: u64, service: u32 },
    /// 11: send over `ipcd` and wait for the answer into `out`.
    IpcCall { ipcd: i32, msg: u64, len: i32, out: u64 },
    /// 12: answer over `ipcd`.
    IpcReply { msg: u64, len: i32, ipcd: i32 },
    /// 13: open (or find) a connection to `peer`.
    IpcConnect { peer: i32 },
    /// 14: receive on any connection into `out`.
    RecvAny { out: u64 },
    /// 15: the caller's process id.
    GetPid,
    /// 16: the server of `service` has no work and blocks.
    Block { service: u32 },
    /// 17: wake the server of `service`.
    Notify { service: u32 },
    /// 18: turn direct wake-ups on or off.
    SetDirectWake { on: bool },
    /// Any other number: the call returns `UNKNOWN_SYSCALL`.
    Unknown,
}

/// What an unknown system call returns.
pub const UNKNOWN_SYSCALL: u64 = 0xffff_ffff_ffff_ffff;

/// Decodes a system call from its number and four arguments.
pub fn decode(nr: u64, arg1: u64, arg2: u64, arg3: u64, arg4: u64) -> (s: Syscall)
    ensures
        s == match nr {
            0 => Syscall::Exit,
            1 => Syscall::AllocPages { order: arg1 },
            2 => Syscall::FreePages { addr: arg1, order: arg2 },
            3 => Syscall::MapPage { virt: arg1, phys: arg2, flags: arg3 },
            4 => Syscall::UnmapPage { virt: arg1 },
            5 => Syscall::Spawn { image: arg1, image_len: arg2, cpu: arg3 as u8 },
            6 => Syscall::IpcWrite { ipcd: arg1 as i32, msg: arg2, len: arg3 as i32 },
            7 => Syscall::IpcRead { out: arg1, ipcd: arg2 as i32 },
            8 => Syscall::Print { buf: arg1, buf_len: arg2 },
            9 => Syscall::Yield,
            10 => Syscall::RegisterIrq { irq: arg1, service: arg2 as u32 },
            11 => Syscall::IpcCall { ipcd: arg1 as i32, msg: arg2, len: arg3 as i32, out: arg4 },
            12 => Syscall::IpcReply { msg: arg1, len: arg2 as i32, ipcd: arg3 as i32 },
            13 => Syscall::IpcConnect { peer: arg1 as i32 },
            14 => Syscall::RecvAny { out: arg1 },
            15 => Syscall::GetPid,
            16 => Syscall::Block { service: arg1 as u32 },
            17 => Syscall::Notify { service: arg1 as u32 },
            18 => Syscall::SetDirectWake { on: arg1 != 0 },
            _ => Syscall::Unknown,
        },
{
    match nr {
        0 => Syscall::Exit,
        1 => Syscall::AllocPages { order: arg1 },
        2 => Syscall::FreePages { addr: arg1, order: arg2 },
        3 => Syscall::MapPage { virt: arg1, phys: arg2, flags: arg3 },
        4 => Syscall::UnmapPage { virt: arg1 },
        5 => Syscall::Spawn { image: arg1, image_len: arg2, cpu: arg3 as u8 },
        6 => Syscall::IpcWrite { ipcd: arg1 as i32, msg: arg2, len: arg3 as i32 },
        7 => Syscall::IpcRead { out: arg1, ipcd: arg2 as i32 },
        8 => Syscall::Print { buf: arg1, buf_len: arg2 },
        9 => Syscall::Yield,
        10 => Syscall::RegisterIrq { irq: arg1, service: arg2 as u32 },
        11 => Syscall::IpcCall { ipcd: arg1 as i32, msg: arg2, len: arg3 as i32, out: arg4 },
        12 => Syscall::IpcReply { msg: arg1, len: arg2 as i32, ipcd: arg3 as i32 },
        13 => Syscall::IpcConnect { peer: arg1 as i32 },
        14 => Syscall::RecvAny { out: arg1 },
        15 => Syscall::GetPid,
        16 => Syscall::Block { service: arg1 as u32 },
        17 => Syscall::Notify { service: arg1 as u32 },
        18 => Syscall::SetDirectWake { on: arg1 != 0 },
        _ => Syscall::Unknown,
    }
}

/// Where a new task's user stack lives, and its size in pages.
pub const USER_STACK: u64 = 0x1000_0000;
pub const USER_STACK_PAGES: u64 = 64;
/// Pages of the first task's user stack.
pub const INIT_STACK_PAGES: u64 = 512;

/// The tables and free lists after the first `n` pages of a new task's user stack
/// are mapped: each takes a page from the allocator and maps it at the next page
/// from `USER_STACK` on.
pub open spec fn stack_spec(mem: Map<u64, Seq<u64>>, lists: Seq<Seq<u64>>, pml4: u64, n: nat) -> (
    Map<u64, Seq<u64>>,
    Seq<Seq<u64>>,
)
    decreases n,
{
    if n == 0 {
        (mem, lists)
    } else {
        let (m, l) = stack_spec(mem, lists, pml4, (n - 1) as nat);
        let (b, l2) = alloc_spec(l, 0);
        let r = map_spec(m, l2, pml4, (USER_STACK + (n - 1) * 0x1000) as u64, b, TABLE_FLAGS);
        (r.1, r.2)
    }
}

/// Maps the user stack of a new task in the address space of `pml4`: `pages`
/// pages from `pmm` (`USER_STACK_PAGES` for a spawned task, `INIT_STACK_PAGES`
/// for the first one), from `USER_STACK` on. Returns the stack top.
pub fn map_user_stack(tables: &mut PageTables, pmm: &mut BuddyAllocator, pml4: u64, pages: u64) -> (top: u64)
    requires
        old(tables).wf(),
        old(pmm).wf(),
        pages <= 0x1000_0000,
    ensures
        final(tables).wf(),
        final(pmm).wf(),
        (final(tables)@, final(pmm)@) == stack_spec(old(tables)@, old(pmm)@, pml4, pages as nat),
        top == USER_STACK + pages * 0x1000,
        final(pmm).spec_free_memory() == old(pmm).spec_free_memory() + free_bytes(final(pmm)@) - free_bytes(
            old(pmm)@,
        ),
        final(pmm).spec_total_memory() == old(pmm).spec_total_memory(),
{
    let mut i: u64 = 0;
    while i < pages
        invariant
            i <= pages,
            pages <= 0x1000_0000,
            tables.wf(),
            pmm.wf(),
            (tables@, pmm@) == stack_spec(old(tables)@, old(pmm)@, pml4, i as nat),
            pmm.spec_free_memory() == old(pmm).spec_free_memory() + free_bytes(pmm@) - free_bytes(old(pmm)@),
            pmm.spec_total_memory() == old(pmm).spec_total_memory(),
        decreases pages - i,
    {
        let sp = pmm.alloc_pages(0);
        tables.map_page(pmm, pml4, USER_STACK + i * 0x1000, sp, TABLE_FLAGS);
        i = i + 1;
    }
    USER_STACK + pages * 0x1000
}

/// The tables and free lists after the executable `image` was spawned into a new
/// address space whose first entry is `boot_entry`, and what the spawn gives: the
/// address space, the entry point, the loaded pages and the user stack top. The
/// image is loaded (`load_spec`) and `stack_pages` pages of user stack mapped
/// (`stack_spec`); when it does not load, the address space and all it holds are
/// given back (`release_all` of `table_frees`) and the result is `None`.
pub open spec fn spawn_spec(mem: Map<u64, Seq<u64>>, lists: Seq<Seq<u64>>, image: Seq<u8>, boot_entry: u64, stack_pages: u64) -> (
    Option<(u64, u64, Seq<LoadedPage>, u64)>,
    Map<u64, Seq<u64>>,
    Seq<Seq<u64>>,
) {
    let (pml4, l1) = alloc_spec(lists, 0);
    let m1 = mem.insert(pml4, zero_table().update(0, boot_entry));
    let (want, m2, l2) = load_spec(m1, l1, image, pml4);
    match want {
        None => (None, m2, release_all(l2, table_frees(m2, pml4, 4)).0),
        Some((entry, pages)) => {
            let (m3, l3) = stack_spec(m2, l2, pml4, stack_pages as nat);
            (Some((pml4, entry, pages, (USER_STACK + stack_pages * 0x1000) as u64)), m3, l3)
        },
    }
}

/// Spawning the executable `image` with `stack_pages` pages of user stack
/// (`USER_STACK_PAGES` for system call 5, `INIT_STACK_PAGES` for the first task),
/// as `spawn_spec` says. The allocator's free counter must be at most
/// `FREE_TABLE_LIMIT`.
pub fn spawn_image(tables: &mut PageTables, pmm: &mut BuddyAllocator, image: &[u8], boot_entry: u64, stack_pages: u64) -> (r:
    Option<(u64, u64, Vec<LoadedPage>, u64)>)
    requires
        old(tables).wf(),
        old(pmm).wf(),
        old(pmm).spec_free_memory() <= FREE_TABLE_LIMIT,
        stack_pages <= 0x1000_0000,
    ensures
        final(tables).wf(),
        final(pmm).wf(),
        ({
            let (want, m, l) = spawn_spec(old(tables)@, old(pmm)@, image@, boot_entry, stack_pages);
            &&& final(tables)@ == m
            &&& final(pmm)@ == l
            &&& match want {
                None => r is None,
                Some((p, e, pages, top)) => r matches Some((p2, e2, pg, top2)) && p2 == p && e2 == e && pg@ == pages && top2 == top,
            }
        }),
        final(pmm).spec_total_memory() == old(pmm).spec_total_memory(),
{
    proof {
        pmm.lemma_lists_aligned();
        lemma_alloc_spec(pmm@, 0);
    }
    let pml4 = tables.create_address_space(pmm, boot_entry);
    let ghost m1 = tables@;
    let ghost l1 = pmm@;
    proof {
        lemma_load_grows(m1, l1, image@, pml4);
    }
    match load(tables, pmm, image, pml4) {
        None => {
            tables.free_table(pmm, pml4, 4);
            None
        },
        Some((entry, pages)) => {
            let top = map_user_stack(tables, pmm, pml4, stack_pages);
            Some((pml4, entry, pages, top))
        },
    }
}

/// What to do on an interrupt or exception.
#[derive(Debug, Clone, Copy, PartialEq, Eq, Structural)]
pub enum Exception {
    /// Vector 32: the PIT tick; acknowledge it at the PIC.
    PitTick,
    /// Vector 33: the keyboard; acknowledge it and dispatch IRQ 1.
    Keyboard,
    /// Vector 64: the local APIC timer; end the interrupt, run the sleep tick and
    /// schedule.
    LapicTimer,
    /// Vector 65: the message-signalled interrupt.
    Msi,
    /// A fault in user mode: report it and end the task (with a crash record when
    /// it is a page fault).
    UserFault { page_fault: bool },
    /// A page fault in the kernel.
    KernelPageFault,
    /// Any other exception in the kernel: report it and halt.
    Fatal,
}

/// Classifies an interrupt by its vector and the privilege level of the
/// interrupted code segment `cs`.
pub fn classify(vector: u64, cs: u64) -> (e: Exception)
    ensures
        e == if vector == 32 {
            Exception::PitTick
        } else if vector == 33 {
            Exception::Keyboard
        } else if vector == 64 {
            Exception::LapicTimer
        } else if vector == 65 {
            Exception::Msi
        } else if cs & 3 == 3 {
            Exception::UserFault { page_fault: vector == 14 }
        } else if vector == 14 {
            Exception::KernelPageFault
        } else {
            Exception::Fatal
        },
{
    if vector == 32 {
        Exception::PitTick
    } else if vector == 33 {
        Exception::Keyboard
    } else if vector == 64 {
        Exception::LapicTimer
    } else if vector == 65 {
        Exception::Msi
    } else if cs & 3 == 3 {
        Exception::UserFault { page_fault: vector == 14 }
    } else if vector == 14 {
        Exception::KernelPageFault
    } else {
        Exception::Fatal
    }
}

/// Whether a word on a crashed task's stack may be a return address into its
/// code: it lies in `[0x400000, 0x700000)`.
pub open spec fn is_code_candidate(w: u64) -> bool {
    0x400000 <= w < 0x700000
}

/// The words of a crashed task's stack that may be code addresses, in order.
pub fn code_candidates(words: &[u64]) -> (r: Vec<u64>)
    ensures
        r@ == words@.filter(|w: u64| is_code_candidate(w)),
{
    let mut r: Vec<u64> = Vec::new();
    let mut i: usize = 0;
    while i < words.len()
        invariant
            i <= words.len(),
            r@ == words@.subrange(0, i as int).filter(|w: u64| is_code_candidate(w)),
        decreases words.len() - i,
    {
        let w = words[i];
        proof {
            assert(words@.subrange(0, i + 1).drop_last() =~= words@.subrange(0, i as int));
            reveal(Seq::filter);
        }
        if 0x400000 <= w && w < 0x700000 {
            r.push(w);
        }
        i = i + 1;
    }
    assert(words@.subrange(0, words.len() as int) =~= words@);
    r
}

/// The end at the task at `t` of a connection from the task `pid`, with `r` the
/// result: its first connection to `pid` when it has one (nothing changes), else a
/// new open one in its first free slot; `None`, changing nothing, when it has
/// neither.
pub open spec fn peer_end(s0: Schedulers, s1: Schedulers, t: TaskRef, pid: i32, r: Option<(TaskRef, i32)>) -> bool {
    let tt = s0.at(t).unwrap();
    if exists|i: int| 0 <= i < MAX_IPC_CONNECTIONS_PER_TASK && #[trigger] conn_to(tt.ipc_con@[i], pid) {
        exists|i: int|
            0 <= i < MAX_IPC_CONNECTIONS_PER_TASK && #[trigger] conn_to(tt.ipc_con@[i], pid) && (forall|j: int| 0 <= j < i
                ==> !conn_to(#[trigger] tt.ipc_con@[j], pid)) && r == Some((t, i as i32)) && s1 == s0
    } else if exists|f: int| 0 <= f < MAX_IPC_CONNECTIONS_PER_TASK && #[trigger] tt.ipc_con@[f] is None {
        exists|f: int|
            0 <= f < MAX_IPC_CONNECTIONS_PER_TASK && #[trigger] tt.ipc_con@[f] is None && (forall|j: int| 0 <= j < f
                ==> #[trigger] tt.ipc_con@[j] is Some) && r == Some((t, f as i32)) && conn_set(
                s0,
                s1,
                t,
                f,
                Some(IPCConnection { peer_pid: pid, state: IPCState::Open, ipc_pool_idx: -1i32, has_msg: false }),
            )
    } else {
        r is None && s1 == s0
    }
}

/// `s1` is `s0` after `me`'s connection `my_ipcd` was routed to its peer, with `r`
/// the result: the peer is the first task with the connection's peer pid, and the
/// end there is as `peer_end` says. `None`, changing nothing, when `my_ipcd` is no
/// connection or no task has the peer's pid.
pub open spec fn route_post(s0: Schedulers, s1: Schedulers, me: TaskRef, my_ipcd: i32, r: Option<(TaskRef, i32)>) -> bool {
    let me_task = s0.at(me).unwrap();
    match conn_of(me_task, my_ipcd) {
        None => r is None && s1 == s0,
        Some(c) => if forall|t: TaskRef| #[trigger] valid_ref(t) ==> !task_matches(s0.at(t), c.peer_pid, false) {
            r is None && s1 == s0
        } else {
            exists|t: TaskRef| #[trigger] first_with_pid(s0, c.peer_pid, t) && peer_end(s0, s1, t, me_task.pid, r)
        },
    }
}

/// Routes `me`'s connection `my_ipcd` to its peer, as `route_post` says.
pub fn route_ipc_peer(sched: &mut Schedulers, me: TaskRef, my_ipcd: i32) -> (r: Option<(TaskRef, i32)>)
    requires
        old(sched).wf(),
        valid_ref(me),
        old(sched).at(me) is Some,
    ensures
        final(sched).wf(),
        route_post(*old(sched), *final(sched), me, my_ipcd, r),
{
    let me_task = sched.task(me).unwrap();
    let c = match conn(&me_task, my_ipcd) {
        None => return None,
        Some(c) => c,
    };
    let target = match sched.find_task_by_pid(c.peer_pid) {
        None => return None,
        Some(t) => t,
    };
    assert(first_with_pid(*old(sched), c.peer_pid, target));
    let mut tt: Task = sched.task(target).unwrap();
    match find_conn_to(&tt, me_task.pid) {
        Some(i) => {
            assert(conn_to(tt.ipc_con@[i as int], me_task.pid));
            Some((target, i))
        },
        None => {
            let i = alloc_con(&mut tt, me_task.pid);
            if i < 0 {
                proof {
                    if exists|f: int| 0 <= f < MAX_IPC_CONNECTIONS_PER_TASK && #[trigger] old(sched).at(target).unwrap().ipc_con@[f] is None {
                        let f = choose|f: int| 0 <= f < MAX_IPC_CONNECTIONS_PER_TASK && #[trigger] old(sched).at(target).unwrap().ipc_con@[f] is None;
                        assert(old(sched).at(target).unwrap().ipc_con@[f] is Some);
                    }
                }
                return None;
            }
            sched.set_task(target, tt);
            assert(old(sched).at(target).unwrap().ipc_con@[i as int] is None);
            Some((target, i))
        },
    }
}

/// The text of a list of code candidates: each as a space and its hex form.
pub open spec fn candidates_text(cs: Seq<u64>) -> Seq<u8>
    decreases cs.len(),
{
    if cs.len() == 0 {
        Seq::empty()
    } else {
        candidates_text(cs.drop_last()) + " ".spec_bytes() + hex_spec(cs.last())
    }
}

fn push_hex(r: &mut Vec<u8>, v: u64)
    ensures
        final(r)@ == old(r)@ + hex_spec(v),
{
    let h = write_hex(v);
    append_bytes(r, h.as_slice());
}

/// What the kernel prints when a user task faults: the task, vector and error
/// code, where it was, the word on top of its stack, the words of its stack that
/// may be return addresses into its code, the faulting address for a page fault
/// (`cr2`), and the address space in use beside the task's own.
pub fn user_fault_report(
    pid: i32,
    vector: u64,
    error_code: u64,
    rip: u64,
    rsp: u64,
    stack: &[u64],
    cr2: Option<u64>,
    cr3: u64,
    task_cr3: u64,
) -> (r: Vec<u8>)
    requires
        stack.len() >= 1,
    ensures
        r@ == "\nRING3 CRASH\npid=".spec_bytes() + hex_spec(pid as u64) + " vector=".spec_bytes() + hex_spec(vector)
            + " error_code=".spec_bytes() + hex_spec(error_code) + "\n".spec_bytes() + "rip=".spec_bytes() + hex_spec(rip)
            + " rsp=".spec_bytes() + hex_spec(rsp) + "\n".spec_bytes() + "ra=".spec_bytes() + hex_spec(stack@[0])
            + "\n".spec_bytes() + "stack code candidates:".spec_bytes() + candidates_text(
            stack@.filter(|w: u64| is_code_candidate(w)),
        ) + "\n".spec_bytes() + (match cr2 {
            Some(c) => "cr2=".spec_bytes() + hex_spec(c) + "\n".spec_bytes(),
            None => Seq::empty(),
        }) + "cr3=".spec_bytes() + hex_spec(cr3) + " task_cr3=".spec_bytes() + hex_spec(task_cr3) + "\n".spec_bytes(),
{
    let mut r: Vec<u8> = Vec::new();
    append_bytes(&mut r, "\nRING3 CRASH\npid=".as_bytes());
    push_hex(&mut r, pid as u64);
    append_bytes(&mut r, " vector=".as_bytes());
    push_hex(&mut r, vector);
    append_bytes(&mut r, " error_code=".as_bytes());
    push_hex(&mut r, error_code);
    append_bytes(&mut r, "\n".as_bytes());
    append_bytes(&mut r, "rip=".as_bytes());
    push_hex(&mut r, rip);
    append_bytes(&mut r, " rsp=".as_bytes());
    push_hex(&mut r, rsp);
    append_bytes(&mut r, "\n".as_bytes());
    append_bytes(&mut r, "ra=".as_bytes());
    push_hex(&mut r, stack[0]);
    append_bytes(&mut r, "\n".as_bytes());
    append_bytes(&mut r, "stack code candidates:".as_bytes());
    let cands = code_candidates(stack);
    let ghost head = r@;
    let mut i: usize = 0;
    while i < cands.len()
        invariant
            i <= cands@.len(),
            r@ == head + candidates_text(cands@.subrange(0, i as int)),
        decreases cands@.len() - i,
    {
        append_bytes(&mut r, " ".as_bytes());
        push_hex(&mut r, cands[i]);
        proof {
            assert(cands@.subrange(0, i + 1).drop_last() =~= cands@.subrange(0, i as int));
        }
        i = i + 1;
    }
    assert(cands@.subrange(0, cands@.len() as int) =~= cands@);
    append_bytes(&mut r, "\n".as_bytes());
    let ghost mid = r@;
    match cr2 {
        Some(c) => {
            append_bytes(&mut r, "cr2=".as_bytes());
            push_hex(&mut r, c);
            append_bytes(&mut r, "\n".as_bytes());
            assert(r@ =~= mid + ("cr2=".spec_bytes() + hex_spec(c) + "\n".spec_bytes()));
        },
        None => {
            assert(r@ =~= mid + Seq::<u8>::empty());
        },
    }
    append_bytes(&mut r, "cr3=".as_bytes());
    push_hex(&mut r, cr3);
    append_bytes(&mut r, " task_cr3=".as_bytes());
    push_hex(&mut r, task_cr3);
    append_bytes(&mut r, "\n".as_bytes());
    r
}

/// What the kernel prints on a page fault of its own: a first line that says
/// whether another crash report is already under way, then the error code, the
/// faulting address, where it happened and on which CPU.
pub fn kernel_fault_report(first: bool, error_code: u64, cr2: u64, rip: u64, rsp: u64, cpu: u64) -> (r: Vec<u8>)
    ensures
        r@ == (if first { "KERNEL PAGE FAULT\n".spec_bytes() } else { "\nNESTED PAGE FAULT\n".spec_bytes() })
            + "error=".spec_bytes() + hex_spec(error_code) + "\ncr2=".spec_bytes() + hex_spec(cr2) + "\nrip=".spec_bytes()
            + hex_spec(rip) + "\nrsp=".spec_bytes() + hex_spec(rsp) + "\ncpu=".spec_bytes() + hex_spec(cpu)
            + "\n".spec_bytes(),
{
    let mut r: Vec<u8> = Vec::new();
    if first {
        append_bytes(&mut r, "KERNEL PAGE FAULT\n".as_bytes());
    } else {
        append_bytes(&mut r, "\nNESTED PAGE FAULT\n".as_bytes());
    }
    append_bytes(&mut r, "error=".as_bytes());
    push_hex(&mut r, error_code);
    append_bytes(&mut r, "\ncr2=".as_bytes());
    push_hex(&mut r, cr2);
    append_bytes(&mut r, "\nrip=".as_bytes());
    push_hex(&mut r, rip);
    append_bytes(&mut r, "\nrsp=".as_bytes());
    push_hex(&mut r, rsp);
    append_bytes(&mut r, "\ncpu=".as_bytes());
    push_hex(&mut r, cpu);
    append_bytes(&mut r, "\n".as_bytes());
    r
}

/// What the kernel prints on any other exception before it halts.
pub fn fatal_report(vector: u64, error_code: u64, rip: u64, cpu: u64) -> (r: Vec<u8>)
    ensures
        r@ == "EXCEPTION: ".spec_bytes() + hex_spec(vector) + " error_code=".spec_bytes() + hex_spec(error_code)
            + " rip=".spec_bytes() + hex_spec(rip) + " cpu=".spec_bytes() + hex_spec(cpu) + "\n".spec_bytes(),
{
    let mut r: Vec<u8> = Vec::new();
    append_bytes(&mut r, "EXCEPTION: ".as_bytes());
    push_hex(&mut r, vector);
    append_bytes(&mut r, " error_code=".as_bytes());
    push_hex(&mut r, error_code);
    append_bytes(&mut r, " rip=".as_bytes());
    push_hex(&mut r, rip);
    append_bytes(&mut r, " cpu=".as_bytes());
    push_hex(&mut r, cpu);
    append_bytes(&mut r, "\n".as_bytes());
    r
}

} // verus!
