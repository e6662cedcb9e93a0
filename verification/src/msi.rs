use vstd::prelude::*;
use crate::sleepq::{SleepQueues, after_wakeup, waiting_on_all, MAX_SLEEP_CPUS};

verus! {

/// The message-signalled interrupt line: how many interrupts came since the last
/// `take`, and the sleep ident to wake on each (0 for none).
pub struct Msi {
    count: u64,
    waker: u64,
}

impl Msi {
    pub closed spec fn spec_count(&self) -> u64 {
        self.count
    }

    pub closed spec fn spec_waker(&self) -> u64 {
        self.waker
    }

    /// No interrupt counted, nobody to wake.
    pub fn new() -> (r: Self)
        ensures
            r.spec_count() == 0,
            r.spec_waker() == 0,
    {
        Msi { count: 0, waker: 0 }
    }

    /// Sets the ident that each interrupt wakes.
    pub fn set_waker(&mut self, ident: u64)
        ensures
            final(self).spec_waker() == ident,
            final(self).spec_count() == old(self).spec_count(),
    {
        self.waker = ident;
    }

    /// Returns the interrupts counted since the last call and restarts the count.
    pub fn take(&mut self) -> (r: u64)
        ensures
            r == old(self).spec_count(),
            final(self).spec_count() == 0,
            final(self).spec_waker() == old(self).spec_waker(),
    {
        let c = self.count;
        self.count = 0;
        c
    }

    /// An interrupt: counts it (the count wraps) and, when a waker is set, wakes
    /// every sleep on it. Returns the tasks woken.
    pub fn interrupt(&mut self, sleepers: &mut SleepQueues) -> (tasks: Vec<u64>)
        requires
            old(sleepers).wf(),
        ensures
            final(sleepers).wf(),
            final(self).spec_count() == (old(self).spec_count() + 1) % 0x1_0000_0000_0000_0000,
            final(self).spec_waker() == old(self).spec_waker(),
            old(self).spec_waker() == 0 ==> tasks@ == Seq::<u64>::empty() && final(sleepers).view() == old(sleepers).view(),
            old(self).spec_waker() != 0 ==> tasks@ == waiting_on_all(old(sleepers).view(), old(self).spec_waker(), MAX_SLEEP_CPUS as int)
                && final(sleepers).view() == after_wakeup(old(sleepers).view(), old(self).spec_waker()),
    {
        self.count = self.count.wrapping_add(1);
        let ident = self.waker;
        if ident != 0 {
            sleepers.wakeup(ident)
        } else {
            Vec::new()
        }
    }
}

/// `take` returns how many interrupts came since the last `take`: when the counts
/// `counts` are those seen after a `take` (0) and after each of `k` interrupts in
/// turn, each one more than the last as `interrupt` says (wrapping), the last is
/// `k` (modulo 2^64), which the next `take` returns; the `take` after it returns 0.
pub proof fn law_take_counts_interrupts(counts: Seq<u64>)
    requires
        counts.len() >= 1,
        counts[0] == 0,
        forall|i: int| 0 <= i < counts.len() - 1 ==> #[trigger] counts[i + 1] == (counts[i] + 1) % 0x1_0000_0000_0000_0000,
    ensures
        counts.last() == (counts.len() - 1) % 0x1_0000_0000_0000_0000,
    decreases counts.len(),
{
    if counts.len() > 1 {
        let p = counts.drop_last();
        assert forall|i: int| 0 <= i < p.len() - 1 implies #[trigger] p[i + 1] == (p[i] + 1) % 0x1_0000_0000_0000_0000 by {
            assert(p[i + 1] == counts[i + 1]);
            assert(p[i] == counts[i]);
        }
        law_take_counts_interrupts(p);
        let n = counts.len() - 1;
        let m = n - 1;
        assert(counts[m + 1] == (counts[m] + 1) % 0x1_0000_0000_0000_0000);
        assert(counts[n - 1] == p.last());
        assert(((n - 1) % 0x1_0000_0000_0000_0000 + 1) % 0x1_0000_0000_0000_0000 == n % 0x1_0000_0000_0000_0000) by (nonlinear_arith)
            requires
                n >= 1,
        ;
    }
}

} // verus!
