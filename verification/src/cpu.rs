use vstd::prelude::*;
use crate::scheduler::{TaskRef, MAX_CPUS};

verus! {

/// The MSRs that hold the address of the CPU-local block (GS base and kernel GS base).
pub const KERNEL_GS_BASE: u32 = 0xC000_0102;
pub const GS_BASE: u32 = 0xC000_0101;

/// What each CPU keeps for itself: the top of its kernel stack, the user stack
/// pointer saved on a system call, the kernel page table, the task it runs and
/// its number.
#[derive(Clone, Copy)]
pub struct CPULocal {
    pub kernel_stack_top: u64,
    pub user_rsp: u64,
    pub kernel_cr3: u64,
    pub current_task: Option<TaskRef>,
    pub cpu_id: u32,
}

impl CPULocal {
    /// Everything zero, no task.
    pub fn default() -> (r: Self)
        ensures
            r.kernel_stack_top == 0,
            r.user_rsp == 0,
            r.kernel_cr3 == 0,
            r.current_task is None,
            r.cpu_id == 0,
    {
        CPULocal { kernel_stack_top: 0, user_rsp: 0, kernel_cr3: 0, current_task: None, cpu_id: 0 }
    }
}

/// The CPU-local blocks of all CPUs, and the APIC ID of each CPU by its number.
pub struct CpuTable {
    locals: Vec<CPULocal>,
    apic_ids: Vec<u8>,
}

/// The first CPU number whose APIC ID is `apic_id`, or 0 when none is.
pub open spec fn index_of_spec(ids: Seq<u8>, apic_id: u8) -> u32 {
    match ids.index_of_first(apic_id) {
        Some(i) => i as u32,
        None => 0,
    }
}

impl CpuTable {
    pub closed spec fn wf(&self) -> bool {
        &&& self.locals@.len() == MAX_CPUS
        &&& self.apic_ids@.len() == MAX_CPUS
    }

    pub closed spec fn locals_view(&self) -> Seq<CPULocal> {
        self.locals@
    }

    pub closed spec fn apic_ids_view(&self) -> Seq<u8> {
        self.apic_ids@
    }

    /// Default blocks and APIC IDs 0 for every CPU.
    pub fn new() -> (r: Self)
        ensures
            r.wf(),
            forall|i: int| 0 <= i < MAX_CPUS ==> #[trigger] r.locals_view()[i] == (CPULocal {
                kernel_stack_top: 0,
                user_rsp: 0,
                kernel_cr3: 0,
                current_task: None,
                cpu_id: 0,
            }),
            forall|i: int| 0 <= i < MAX_CPUS ==> #[trigger] r.apic_ids_view()[i] == 0,
    {
        let mut locals: Vec<CPULocal> = Vec::new();
        let mut apic_ids: Vec<u8> = Vec::new();
        let mut i: usize = 0;
        while i < MAX_CPUS
            invariant
                i <= MAX_CPUS,
                locals@.len() == i,
                apic_ids@.len() == i,
                forall|k: int| 0 <= k < i ==> #[trigger] locals@[k] == (CPULocal {
                    kernel_stack_top: 0,
                    user_rsp: 0,
                    kernel_cr3: 0,
                    current_task: None,
                    cpu_id: 0,
                }),
                forall|k: int| 0 <= k < i ==> #[trigger] apic_ids@[k] == 0,
            decreases MAX_CPUS - i,
        {
            locals.push(CPULocal::default());
            apic_ids.push(0);
            i = i + 1;
        }
        CpuTable { locals, apic_ids }
    }

    /// Records that CPU number `seq` has APIC ID `apic_id`.
    pub fn register_cpu(&mut self, seq: u32, apic_id: u8)
        requires
            old(self).wf(),
            seq < MAX_CPUS,
        ensures
            final(self).wf(),
            final(self).apic_ids_view() == old(self).apic_ids_view().update(seq as int, apic_id),
            final(self).locals_view() == old(self).locals_view(),
    {
        self.apic_ids.set(seq as usize, apic_id);
    }

    /// The APIC ID of CPU number `seq`.
    pub fn apic_id_of(&self, seq: u32) -> (r: u8)
        requires
            self.wf(),
            seq < MAX_CPUS,
        ensures
            r == self.apic_ids_view()[seq as int],
    {
        self.apic_ids[seq as usize]
    }

    /// The number of the CPU with APIC ID `apic_id`: the first that has it, or 0.
    pub fn index_of(&self, apic_id: u8) -> (r: u32)
        requires
            self.wf(),
        ensures
            r == index_of_spec(self.apic_ids_view(), apic_id),
    {
        let mut i: usize = 0;
        while i < MAX_CPUS
            invariant
                self.wf(),
                i <= MAX_CPUS,
                forall|k: int| 0 <= k < i ==> #[trigger] self.apic_ids@[k] != apic_id,
            decreases MAX_CPUS - i,
        {
            if self.apic_ids[i] == apic_id {
                proof {
                    self.apic_ids@.index_of_first_ensures(apic_id);
                }
                return i as u32;
            }
            i = i + 1;
        }
        proof {
            self.apic_ids@.index_of_first_ensures(apic_id);
        }
        0
    }

    /// Sets up the block of CPU `cpu_id`: its kernel page table and stack top, no
    /// task, and its number; the rest stays.
    pub fn init(&mut self, cpu_id: u32, kernel_stack_top: u64, kernel_cr3: u64)
        requires
            old(self).wf(),
            cpu_id < MAX_CPUS,
        ensures
            final(self).wf(),
            final(self).apic_ids_view() == old(self).apic_ids_view(),
            final(self).locals_view() == old(self).locals_view().update(
                cpu_id as int,
                CPULocal {
                    kernel_stack_top,
                    kernel_cr3,
                    current_task: None,
                    cpu_id,
                    ..old(self).locals_view()[cpu_id as int]
                },
            ),
    {
        let c = cpu_id as usize;
        let mut l = self.locals[c];
        l.kernel_cr3 = kernel_cr3;
        l.kernel_stack_top = kernel_stack_top;
        l.current_task = None;
        l.cpu_id = cpu_id;
        self.locals.set(c, l);
    }

    /// The block of CPU `cpu`.
    pub fn local(&self, cpu: u32) -> (r: CPULocal)
        requires
            self.wf(),
            cpu < MAX_CPUS,
        ensures
            r == self.locals_view()[cpu as int],
    {
        self.locals[cpu as usize]
    }

    /// Sets the task CPU `cpu` runs.
    pub fn set_current_task(&mut self, cpu: u32, task: Option<TaskRef>)
        requires
            old(self).wf(),
            cpu < MAX_CPUS,
        ensures
            final(self).wf(),
            final(self).apic_ids_view() == old(self).apic_ids_view(),
            final(self).locals_view() == old(self).locals_view().update(
                cpu as int,
                CPULocal { current_task: task, ..old(self).locals_view()[cpu as int] },
            ),
    {
        let mut l = self.locals[cpu as usize];
        l.current_task = task;
        self.locals.set(cpu as usize, l);
    }

    /// Sets the kernel stack top of CPU `cpu`.
    pub fn set_stack_top(&mut self, cpu: u32, top: u64)
        requires
            old(self).wf(),
            cpu < MAX_CPUS,
        ensures
            final(self).wf(),
            final(self).apic_ids_view() == old(self).apic_ids_view(),
            final(self).locals_view() == old(self).locals_view().update(
                cpu as int,
                CPULocal { kernel_stack_top: top, ..old(self).locals_view()[cpu as int] },
            ),
    {
        let mut l = self.locals[cpu as usize];
        l.kernel_stack_top = top;
        self.locals.set(cpu as usize, l);
    }
}

/// The APs of one parity: the IDs of `ids` other than the bootstrap CPU's whose
/// low bit is `parity`, in order.
pub open spec fn ap_pass(ids: Seq<u8>, bsp: u8, parity: u8) -> Seq<u8> {
    ids.filter(|id: u8| id != bsp && id % 2 == parity)
}

/// The APs the bootstrap CPU starts, in order, each taking the next CPU number
/// from 1: the APIC IDs the MADT lists other than its own, even ones first, at
/// most seven; when the MADT lists none, IDs 1 to 7.
pub open spec fn ap_start_spec(ids: Seq<u8>, bsp: u8) -> Seq<u8> {
    let c = if ids.len() == 0 {
        seq![1u8, 2u8, 3u8, 4u8, 5u8, 6u8, 7u8]
    } else {
        ap_pass(ids, bsp, 0) + ap_pass(ids, bsp, 1)
    };
    if c.len() <= 7 {
        c
    } else {
        c.take(7)
    }
}

fn ap_pass_of(ids: &[u8], bsp: u8, parity: u8) -> (r: Vec<u8>)
    ensures
        r@ == ap_pass(ids@, bsp, parity),
{
    let mut r: Vec<u8> = Vec::new();
    let mut k: usize = 0;
    while k < ids.len()
        invariant
            k <= ids.len(),
            r@ == ap_pass(ids@.subrange(0, k as int), bsp, parity),
        decreases ids.len() - k,
    {
        let id = ids[k];
        proof {
            assert(ids@.subrange(0, k + 1).drop_last() =~= ids@.subrange(0, k as int));
            reveal(Seq::filter);
        }
        if id != bsp && id % 2 == parity {
            r.push(id);
        }
        k = k + 1;
    }
    assert(ids@.subrange(0, ids.len() as int) =~= ids@);
    r
}

/// The APs to start, as `ap_start_spec` says; `ids` are the APIC IDs of the
/// enabled processors the MADT lists.
pub fn ap_start_order(ids: &[u8], bsp: u8) -> (r: Vec<u8>)
    ensures
        r@ == ap_start_spec(ids@, bsp),
{
    let mut c: Vec<u8> = Vec::new();
    if ids.len() == 0 {
        let mut a: u8 = 1;
        while a < 8
            invariant
                1 <= a <= 8,
                c@ == Seq::new((a - 1) as nat, |i: int| (i + 1) as u8),
            decreases 8 - a,
        {
            c.push(a);
            a = a + 1;
            assert(c@ =~= Seq::new((a - 1) as nat, |i: int| (i + 1) as u8));
        }
        assert(c@ =~= seq![1u8, 2u8, 3u8, 4u8, 5u8, 6u8, 7u8]);
    } else {
        let mut even = ap_pass_of(ids, bsp, 0);
        let odd = ap_pass_of(ids, bsp, 1);
        let mut k: usize = 0;
        let ghost e = even@;
        while k < odd.len()
            invariant
                k <= odd@.len(),
                even@ == e + odd@.subrange(0, k as int),
            decreases odd@.len() - k,
        {
            even.push(odd[k]);
            k = k + 1;
            assert(even@ =~= e + odd@.subrange(0, k as int));
        }
        assert(odd@.subrange(0, odd@.len() as int) =~= odd@);
        c = even;
    }
    if c.len() > 7 {
        let mut t: Vec<u8> = Vec::new();
        let mut k: usize = 0;
        while k < 7
            invariant
                k <= 7,
                c@.len() > 7,
                t@ == c@.take(k as int),
            decreases 7 - k,
        {
            t.push(c[k]);
            k = k + 1;
            assert(t@ =~= c@.take(k as int));
        }
        t
    } else {
        c
    }
}

} // verus!
