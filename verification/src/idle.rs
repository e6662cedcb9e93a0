use vstd::prelude::*;
use crate::scheduler::{initial_frame, is_fresh, valid_ref, Schedulers, TaskRef, MAX_CPUS};

verus! {

/// Bytes of the initial kernel frame below a stack top.
pub const FRAME_BYTES: u64 = 56;

/// Sets up the idle task of `cpu` on a kernel stack with top `kstack_top`: an idle
/// task (as `spawn_idle`) whose saved stack pointer is the frame `FRAME_BYTES`
/// below the top. Returns where it was placed and the frame to write there, which
/// returns into `idle_entry`.
pub fn setup_idle(sched: &mut Schedulers, cpu: usize, stack: u64, kstack_top: u64, cr3: u64, idle_entry: u64) -> (r: (
    Option<TaskRef>,
    [u64; 7],
))
    requires
        old(sched).wf(),
        cpu < MAX_CPUS,
        old(sched).spec_idle_pid() > i32::MIN,
        kstack_top >= FRAME_BYTES,
    ensures
        final(sched).wf(),
        final(sched).spec_idle_pid() == old(sched).spec_idle_pid() - 1,
        r.1@ == seq![0u64, 0, 0, 0, 0, 0, idle_entry],
        match r.0 {
            Some(t) => t.cpu == cpu && t.priority == 0 && valid_ref(t) && old(sched).at(t) is None && final(sched).at(t) is Some
                && is_fresh(final(sched).at(t).unwrap(), 0, stack, (kstack_top - FRAME_BYTES) as u64, kstack_top, cr3, old(sched).spec_idle_pid())
                && forall|t2: TaskRef| #[trigger] valid_ref(t2) && t2 != t ==> final(sched).at(t2) == old(sched).at(t2),
            None => forall|t2: TaskRef| #[trigger] valid_ref(t2) ==> final(sched).at(t2) == old(sched).at(t2),
        },
{
    let frame = initial_frame(idle_entry);
    let placed = sched.spawn_idle(cpu, stack, kstack_top - FRAME_BYTES, kstack_top, cr3);
    (placed, frame)
}

} // verus!
