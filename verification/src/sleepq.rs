use vstd::prelude::*;
use crate::scheduler::{named_by, task_at_handle, valid_ref, Schedulers, Switch, TaskRef, TaskState};

verus! {

/// Sleepers a CPU's table holds.
pub const MAX_SLEEPERS: usize = 64;
/// CPUs with a sleep table.
pub const MAX_SLEEP_CPUS: usize = 8;
/// Outcome of a sleep ended by `wakeup`.
pub const WOKEN: u64 = 0;
/// Outcome of a sleep ended by its deadline, or that could not start.
pub const TIMED_OUT: u64 = 1;
/// The handle `prepare` returns when the table is full.
pub const NO_HANDLE: u64 = 0xffff_ffff_ffff_ffff;

/// A sleeping task: what it waits for, its deadline (0 for none), and how its
/// sleep ended.
#[derive(Clone, Copy)]
pub struct SleepEntry {
    pub ident: u64,
    pub task: u64,
    pub deadline_ns: u64,
    pub outcome: u64,
    pub active: bool,
}

/// Number of active entries.
pub open spec fn count_active(s: Seq<SleepEntry>) -> nat
    decreases s.len(),
{
    if s.len() == 0 {
        0
    } else {
        count_active(s.drop_last()) + if s.last().active { 1nat } else { 0nat }
    }
}

pub proof fn lemma_count_active_update(s: Seq<SleepEntry>, i: int, e: SleepEntry)
    requires
        0 <= i < s.len(),
    ensures
        count_active(s.update(i, e)) == count_active(s) - (if s[i].active { 1int } else { 0int }) + (if e.active {
            1int
        } else {
            0int
        }),
        count_active(s) <= s.len(),
    decreases s.len(),
{
    let t = s.update(i, e);
    if i == s.len() - 1 {
        assert(t.drop_last() =~= s.drop_last());
    } else {
        assert(t.drop_last() =~= s.drop_last().update(i, e));
        lemma_count_active_update(s.drop_last(), i, e);
    }
    lemma_count_active_bound(s);
}

pub proof fn lemma_count_active_bound(s: Seq<SleepEntry>)
    ensures
        count_active(s) <= s.len(),
    decreases s.len(),
{
    if s.len() > 0 {
        lemma_count_active_bound(s.drop_last());
    }
}

pub proof fn lemma_count_active_none(s: Seq<SleepEntry>)
    requires
        forall|i: int| 0 <= i < s.len() ==> !(#[trigger] s[i]).active,
    ensures
        count_active(s) == 0,
    decreases s.len(),
{
    if s.len() > 0 {
        lemma_count_active_none(s.drop_last());
    }
}

/// The handle of entry `idx` of the table of CPU `q`: `q` in the upper 32 bits.
pub open spec fn handle_of(q: u64, idx: u64) -> u64 {
    ((q << 32u64) | idx) as u64
}

pub proof fn lemma_handle(q: u64, idx: u64)
    requires
        q < MAX_SLEEP_CPUS,
        idx < MAX_SLEEPERS,
    ensures
        handle_of(q, idx) >> 32u64 == q,
        handle_of(q, idx) & 0xffff_ffffu64 == idx,
        handle_of(q, idx) != NO_HANDLE,
{
    assert(q < 8 && idx < 64 ==> (((q << 32u64) | idx) >> 32u64) == q && (((q << 32u64) | idx) & 0xffff_ffffu64) == idx
        && ((q << 32u64) | idx) != 0xffff_ffff_ffff_ffffu64) by (bit_vector);
}

/// A handle names entry `idx` of the table of CPU `q`, and names it again once decoded.
pub proof fn law_handle_round_trip(q: u64, idx: u64)
    requires
        q < MAX_SLEEP_CPUS,
        idx < MAX_SLEEPERS,
    ensures
        decode_handle(handle_of(q, idx)) == Some((q as usize, idx as usize)),
{
    lemma_handle(q, idx);
}

/// The entry a handle names; `None` for the full-table handle or one out of range.
pub open spec fn decode_handle(handle: u64) -> Option<(usize, usize)> {
    if handle == NO_HANDLE {
        None
    } else if (handle >> 32u64) >= MAX_SLEEP_CPUS || (handle & 0xffff_ffffu64) >= MAX_SLEEPERS {
        None
    } else {
        Some(((handle >> 32u64) as usize, (handle & 0xffff_ffffu64) as usize))
    }
}

/// The tasks of the active entries of `s` waiting for `ident`, in table order.
pub open spec fn waiting_for(s: Seq<SleepEntry>, ident: u64) -> Seq<u64>
    decreases s.len(),
{
    if s.len() == 0 {
        Seq::empty()
    } else {
        let e = s.last();
        waiting_for(s.drop_last(), ident).add(if e.active && e.ident == ident { seq![e.task] } else { Seq::empty() })
    }
}

/// The tasks of the active entries of `s` whose deadline has passed at `now`.
pub open spec fn expired(s: Seq<SleepEntry>, now: u64) -> Seq<u64>
    decreases s.len(),
{
    if s.len() == 0 {
        Seq::empty()
    } else {
        let e = s.last();
        expired(s.drop_last(), now).add(if timed_out(e, now) { seq![e.task] } else { Seq::empty() })
    }
}

/// An entry after a tick at `now` on its CPU: a sleep whose deadline has passed
/// gets outcome `TIMED_OUT` and its deadline cleared.
pub open spec fn ticked(e: SleepEntry, now: u64) -> SleepEntry {
    if timed_out(e, now) {
        SleepEntry { outcome: TIMED_OUT, deadline_ns: 0, ..e }
    } else {
        e
    }
}

/// The entry's deadline has passed at `now`.
pub open spec fn timed_out(e: SleepEntry, now: u64) -> bool {
    e.active && e.deadline_ns != 0 && now >= e.deadline_ns
}

/// The tasks `wakeup(ident)` wakes on the tables of CPUs `0..n`, CPU by CPU.
pub open spec fn waiting_on_all(tables: Seq<Seq<SleepEntry>>, ident: u64, n: int) -> Seq<u64>
    decreases n,
{
    if n <= 0 {
        Seq::empty()
    } else {
        waiting_on_all(tables, ident, n - 1).add(waiting_for(tables[n - 1], ident))
    }
}

/// An entry after `wakeup(ident)`: a sleep on `ident` gets outcome `WOKEN`.
pub open spec fn woken(e: SleepEntry, ident: u64) -> SleepEntry {
    if e.active && e.ident == ident {
        SleepEntry { outcome: WOKEN, ..e }
    } else {
        e
    }
}

/// All tables after `wakeup(ident)`.
pub open spec fn after_wakeup(tables: Seq<Seq<SleepEntry>>, ident: u64) -> Seq<Seq<SleepEntry>> {
    tables.map_values(|t: Seq<SleepEntry>| t.map_values(|e: SleepEntry| woken(e, ident)))
}

/// Tables of this shape: one per CPU, each of `MAX_SLEEPERS` entries.
pub open spec fn shaped(v: Seq<Seq<SleepEntry>>) -> bool {
    &&& v.len() == MAX_SLEEP_CPUS
    &&& forall|q: int| 0 <= q < MAX_SLEEP_CPUS ==> (#[trigger] v[q]).len() == MAX_SLEEPERS
}

/// The sleep tables of every CPU and their counts of active entries.
pub struct SleepQueues {
    tables: Vec<Vec<SleepEntry>>,
    active: Vec<u32>,
}

impl SleepQueues {
    pub closed spec fn wf(&self) -> bool {
        &&& self.tables.len() == MAX_SLEEP_CPUS
        &&& self.active.len() == MAX_SLEEP_CPUS
        &&& forall|q: int| 0 <= q < MAX_SLEEP_CPUS ==> (#[trigger] self.tables@[q])@.len() == MAX_SLEEPERS
        &&& forall|q: int| 0 <= q < MAX_SLEEP_CPUS ==> #[trigger] self.active@[q] == count_active(self.tables@[q]@)
    }

    /// The entries of every table.
    pub closed spec fn view(&self) -> Seq<Seq<SleepEntry>> {
        self.tables@.map_values(|t: Vec<SleepEntry>| t@)
    }

    /// Well-formed tables have one table per CPU, each of `MAX_SLEEPERS` entries.
    pub proof fn lemma_shape(&self)
        requires
            self.wf(),
        ensures
            shaped(self.view()),
    {
    }

    /// Tables with no active entry.
    pub fn new() -> (r: Self)
        ensures
            r.wf(),
            shaped(r.view()),
            forall|q: int, i: int| 0 <= q < MAX_SLEEP_CPUS && 0 <= i < MAX_SLEEPERS ==> !(#[trigger] r.view()[q][i]).active,
    {
        let mut tables: Vec<Vec<SleepEntry>> = Vec::new();
        let mut active: Vec<u32> = Vec::new();
        let mut q: usize = 0;
        while q < MAX_SLEEP_CPUS
            invariant
                q <= MAX_SLEEP_CPUS,
                tables.len() == q,
                active.len() == q,
                forall|k: int| 0 <= k < q ==> (#[trigger] tables@[k])@.len() == MAX_SLEEPERS,
                forall|k: int, i: int| 0 <= k < q && 0 <= i < MAX_SLEEPERS ==> !(#[trigger] tables@[k]@[i]).active,
                forall|k: int| 0 <= k < q ==> #[trigger] active@[k] == 0,
            decreases MAX_SLEEP_CPUS - q,
        {
            let mut t: Vec<SleepEntry> = Vec::new();
            let mut i: usize = 0;
            while i < MAX_SLEEPERS
                invariant
                    i <= MAX_SLEEPERS,
                    t.len() == i,
                    forall|k: int| 0 <= k < i ==> !(#[trigger] t@[k]).active,
                decreases MAX_SLEEPERS - i,
            {
                t.push(SleepEntry { ident: 0, task: 0, deadline_ns: 0, outcome: 0, active: false });
                i = i + 1;
            }
            tables.push(t);
            active.push(0);
            q = q + 1;
        }
        let r = SleepQueues { tables, active };
        assert forall|k: int| 0 <= k < MAX_SLEEP_CPUS implies #[trigger] r.active@[k] == count_active(r.tables@[k]@) by {
            lemma_count_active_none(r.tables@[k]@);
        }
        r
    }

    /// Number of active entries of the table of CPU `q`.
    pub fn active_count(&self, q: usize) -> (r: u32)
        requires
            self.wf(),
            q < MAX_SLEEP_CPUS,
        ensures
            r == count_active(self.view()[q as int]),
    {
        self.active[q]
    }

    /// Entry `idx` of the table of CPU `q`.
    pub fn entry(&self, q: usize, idx: usize) -> (r: SleepEntry)
        requires
            self.wf(),
            q < MAX_SLEEP_CPUS,
            idx < MAX_SLEEPERS,
        ensures
            r == self.view()[q as int][idx as int],
    {
        self.tables[q][idx]
    }

    fn put(&mut self, q: usize, idx: usize, e: SleepEntry)
        requires
            old(self).wf(),
            q < MAX_SLEEP_CPUS,
            idx < MAX_SLEEPERS,
        ensures
            final(self).wf(),
            final(self).view() == old(self).view().update(q as int, old(self).view()[q as int].update(idx as int, e)),
    {
        let ghost before = self.tables@[q as int]@;
        proof {
            lemma_count_active_update(before, idx as int, e);
            lemma_count_active_update(before, idx as int, SleepEntry { active: false, ..e });
            lemma_count_active_bound(before.update(idx as int, e));
        }
        let mut t = self.tables[q].clone();
        t.set(idx, e);
        let n = self.active[q];
        let n2: u32 = if self.tables[q][idx].active { n - 1 } else { n };
        let n3: u32 = if e.active { n2 + 1 } else { n2 };
        self.tables.set(q, t);
        self.active.set(q, n3);
        assert(self.view() =~~= old(self).view().update(q as int, old(self).view()[q as int].update(idx as int, e)));
    }

    /// Starts a sleep on `ident` for `task` on CPU `q`: takes the first inactive
    /// entry, with deadline `now_ns + timeout_ns` (none for a timeout of 0) and
    /// outcome `WOKEN`, and returns its handle; `NO_HANDLE`, changing nothing, when
    /// the table is full.
    pub fn prepare(&mut self, q: usize, ident: u64, timeout_ns: u64, now_ns: u64, task: u64) -> (h: u64)
        requires
            old(self).wf(),
            q < MAX_SLEEP_CPUS,
            timeout_ns == 0 || now_ns + timeout_ns <= u64::MAX,
        ensures
            final(self).wf(),
            shaped(old(self).view()),
            shaped(final(self).view()),
            h == NO_HANDLE <==> forall|i: int| 0 <= i < MAX_SLEEPERS ==> (#[trigger] old(self).view()[q as int][i]).active,
            h == NO_HANDLE ==> final(self).view() == old(self).view(),
            h != NO_HANDLE ==> exists|idx: int| {
                &&& 0 <= idx < MAX_SLEEPERS
                &&& h == handle_of(q as u64, idx as u64)
                &&& !old(self).view()[q as int][idx].active
                &&& forall|j: int| 0 <= j < idx ==> (#[trigger] old(self).view()[q as int][j]).active
                &&& final(self).view() == old(self).view().update(
                    q as int,
                    old(self).view()[q as int].update(
                        idx,
                        SleepEntry {
                            ident,
                            task,
                            deadline_ns: if timeout_ns > 0 { (now_ns + timeout_ns) as u64 } else { 0 },
                            outcome: WOKEN,
                            active: true,
                        },
                    ),
                )
            },
    {
        let mut idx: usize = 0;
        while idx < MAX_SLEEPERS
            invariant
                self.wf(),
                *self == *old(self),
                q < MAX_SLEEP_CPUS,
                idx <= MAX_SLEEPERS,
                forall|j: int| 0 <= j < idx ==> (#[trigger] self.view()[q as int][j]).active,
            ensures
                idx <= MAX_SLEEPERS,
                forall|j: int| 0 <= j < idx ==> (#[trigger] self.view()[q as int][j]).active,
                idx < MAX_SLEEPERS ==> !self.view()[q as int][idx as int].active,
            decreases MAX_SLEEPERS - idx,
        {
            if !self.tables[q][idx].active {
                break;
            }
            idx = idx + 1;
        }
        if idx == MAX_SLEEPERS {
            return NO_HANDLE;
        }
        assert(!old(self).view()[q as int][idx as int].active);
        let deadline: u64 = if timeout_ns > 0 { now_ns + timeout_ns } else { 0 };
        let e = SleepEntry { ident, task, deadline_ns: deadline, outcome: WOKEN, active: true };
        self.put(q, idx, e);
        proof {
            lemma_handle(q as u64, idx as u64);
        }
        ((q as u64) << 32u64) | (idx as u64)
    }

    /// Starts a sleep as `prepare` does. `Some(handle)`: the task blocks, and once it
    /// runs again `commit(handle)` gives the outcome. `None`: the table was full and
    /// the sleep ends at once, timed out, without blocking.
    pub fn sleep(&mut self, q: usize, ident: u64, timeout_ns: u64, now_ns: u64, task: u64) -> (r: Option<u64>)
        requires
            old(self).wf(),
            q < MAX_SLEEP_CPUS,
            timeout_ns == 0 || now_ns + timeout_ns <= u64::MAX,
        ensures
            final(self).wf(),
            shaped(old(self).view()),
            shaped(final(self).view()),
            r is None <==> forall|i: int| 0 <= i < MAX_SLEEPERS ==> (#[trigger] old(self).view()[q as int][i]).active,
            r is None ==> final(self).view() == old(self).view(),
            r matches Some(h) ==> decode_handle(h) matches Some((hq, hi)) && hq == q && hi < MAX_SLEEPERS
                && final(self).view() == old(self).view().update(
                    q as int,
                    old(self).view()[q as int].update(
                        hi as int,
                        SleepEntry {
                            ident,
                            task,
                            deadline_ns: if timeout_ns > 0 { (now_ns + timeout_ns) as u64 } else { 0 },
                            outcome: WOKEN,
                            active: true,
                        },
                    ),
                ),
    {
        let h = self.prepare(q, ident, timeout_ns, now_ns, task);
        if h == NO_HANDLE {
            None
        } else {
            proof {
                let idx = choose|idx: int| {
                    &&& 0 <= idx < MAX_SLEEPERS
                    &&& h == handle_of(q as u64, idx as u64)
                    &&& !old(self).view()[q as int][idx].active
                    &&& forall|j: int| 0 <= j < idx ==> (#[trigger] old(self).view()[q as int][j]).active
                    &&& self.view() == old(self).view().update(
                        q as int,
                        old(self).view()[q as int].update(
                            idx,
                            SleepEntry {
                                ident,
                                task,
                                deadline_ns: if timeout_ns > 0 { (now_ns + timeout_ns) as u64 } else { 0 },
                                outcome: WOKEN,
                                active: true,
                            },
                        ),
                    )
                };
                law_handle_round_trip(q as u64, idx as u64);
            }
            Some(h)
        }
    }

    /// Ends the sleep of entry `idx` on CPU `q` once its task runs again: returns the
    /// outcome, and frees the entry if it is still active.
    pub fn finish(&mut self, q: usize, idx: usize) -> (outcome: u64)
        requires
            old(self).wf(),
            q < MAX_SLEEP_CPUS,
            idx < MAX_SLEEPERS,
        ensures
            final(self).wf(),
            shaped(old(self).view()),
            shaped(final(self).view()),
            outcome == old(self).view()[q as int][idx as int].outcome,
            final(self).view() == old(self).view().update(
                q as int,
                old(self).view()[q as int].update(idx as int, SleepEntry { active: false, ..old(self).view()[q as int][idx as int] }),
            ),
    {
        let e = self.tables[q][idx];
        let outcome = e.outcome;
        if e.active {
            self.put(q, idx, SleepEntry { active: false, ..e });
        } else {
            assert(old(self).view()[q as int].update(idx as int, SleepEntry { active: false, ..e }) =~= old(self).view()[q as int]);
            assert(old(self).view().update(q as int, old(self).view()[q as int]) =~= old(self).view());
        }
        outcome
    }

    /// The entry a handle names, as `decode_handle` says; `None` means the sleep
    /// ends at once, timed out.
    pub fn commit_target(&self, handle: u64) -> (r: Option<(usize, usize)>)
        ensures
            r == decode_handle(handle),
    {
        if handle == NO_HANDLE {
            return None;
        }
        let q = (handle >> 32u64) as usize;
        let idx = (handle & 0xffff_ffffu64) as usize;
        if handle >> 32u64 >= MAX_SLEEP_CPUS as u64 || handle & 0xffff_ffffu64 >= MAX_SLEEPERS as u64 {
            return None;
        }
        Some((q, idx))
    }

    /// Completes the sleep of `handle` after its task has blocked and run again:
    /// `TIMED_OUT` for a handle that names no entry, otherwise `finish`.
    pub fn commit(&mut self, handle: u64) -> (outcome: u64)
        requires
            old(self).wf(),
        ensures
            final(self).wf(),
            shaped(old(self).view()),
            shaped(final(self).view()),
            match decode_handle(handle) {
                None => outcome == TIMED_OUT && final(self).view() == old(self).view(),
                Some((q, idx)) => outcome == old(self).view()[q as int][idx as int].outcome && final(self).view()
                    == old(self).view().update(
                    q as int,
                    old(self).view()[q as int].update(idx as int, SleepEntry { active: false, ..old(self).view()[q as int][idx as int] }),
                ),
            },
    {
        match self.commit_target(handle) {
            None => TIMED_OUT,
            Some((q, idx)) => self.finish(q, idx),
        }
    }

    /// Ends every sleep on `ident`: each active entry waiting for it gets outcome
    /// `WOKEN`. Returns the tasks to wake, CPU by CPU in table order.
    pub fn wakeup(&mut self, ident: u64) -> (tasks: Vec<u64>)
        requires
            old(self).wf(),
        ensures
            final(self).wf(),
            shaped(old(self).view()),
            shaped(final(self).view()),
            tasks@ == waiting_on_all(old(self).view(), ident, MAX_SLEEP_CPUS as int),
            final(self).view() == after_wakeup(old(self).view(), ident),
            forall|q: int, i: int| 0 <= q < MAX_SLEEP_CPUS && 0 <= i < MAX_SLEEPERS ==> #[trigger] final(self).view()[q][i] == woken(
                old(self).view()[q][i],
                ident,
            ),
    {
        let mut tasks: Vec<u64> = Vec::new();
        let mut q: usize = 0;
        while q < MAX_SLEEP_CPUS
            invariant
                self.wf(),
                old(self).wf(),
                q <= MAX_SLEEP_CPUS,
                tasks@ == waiting_on_all(old(self).view(), ident, q as int),
                forall|k: int, i: int| 0 <= k < q && 0 <= i < MAX_SLEEPERS ==> #[trigger] self.view()[k][i] == (if old(self).view()[k][i].active
                    && old(self).view()[k][i].ident == ident {
                    SleepEntry { outcome: WOKEN, ..old(self).view()[k][i] }
                } else {
                    old(self).view()[k][i]
                }),
                forall|k: int| q <= k < MAX_SLEEP_CPUS ==> #[trigger] self.view()[k] == old(self).view()[k],
            decreases MAX_SLEEP_CPUS - q,
        {
            if self.active[q] == 0 {
                proof {
                    let t = self.view()[q as int];
                    lemma_no_active_nothing_waits(t, ident);
                    assert(t == old(self).view()[q as int]);
                    assert forall|i: int| 0 <= i < MAX_SLEEPERS implies !(#[trigger] t[i]).active by {
                        lemma_count_zero(t, i);
                    }
                    assert(tasks@.add(waiting_for(t, ident)) =~= tasks@);
                }
                q = q + 1;
                continue;
            }
            let mut i: usize = 0;
            while i < MAX_SLEEPERS
                invariant
                    self.wf(),
                    old(self).wf(),
                    q < MAX_SLEEP_CPUS,
                    i <= MAX_SLEEPERS,
                    tasks@ == waiting_on_all(old(self).view(), ident, q as int).add(waiting_for(old(self).view()[q as int].subrange(0, i as int), ident)),
                    forall|k: int, j: int| 0 <= k < q && 0 <= j < MAX_SLEEPERS ==> #[trigger] self.view()[k][j] == (if old(self).view()[k][j].active
                        && old(self).view()[k][j].ident == ident {
                        SleepEntry { outcome: WOKEN, ..old(self).view()[k][j] }
                    } else {
                        old(self).view()[k][j]
                    }),
                    forall|j: int| 0 <= j < i ==> #[trigger] self.view()[q as int][j] == (if old(self).view()[q as int][j].active
                        && old(self).view()[q as int][j].ident == ident {
                        SleepEntry { outcome: WOKEN, ..old(self).view()[q as int][j] }
                    } else {
                        old(self).view()[q as int][j]
                    }),
                    forall|j: int| i <= j < MAX_SLEEPERS ==> #[trigger] self.view()[q as int][j] == old(self).view()[q as int][j],
                    forall|k: int| q < k < MAX_SLEEP_CPUS ==> #[trigger] self.view()[k] == old(self).view()[k],
                decreases MAX_SLEEPERS - i,
            {
                let e = self.tables[q][i];
                let ghost o = old(self).view()[q as int];
                proof {
                    assert(o.subrange(0, i + 1).drop_last() =~= o.subrange(0, i as int));
                    assert(self.view()[q as int] == self.tables@[q as int]@);
                    assert(self.view()[q as int][i as int] == old(self).view()[q as int][i as int]);
                    assert(self.view()[q as int] == self.tables@[q as int]@);
                assert(self.view()[q as int][i as int] == old(self).view()[q as int][i as int]);
                assert(e == o[i as int]);
                }
                if e.active && e.ident == ident {
                    self.put(q, i, SleepEntry { outcome: WOKEN, ..e });
                    tasks.push(e.task);
                    assert(tasks@ =~= waiting_on_all(old(self).view(), ident, q as int).add(waiting_for(o.subrange(0, i + 1), ident)));
                } else {
                    assert(waiting_for(o.subrange(0, i + 1), ident) =~= waiting_for(o.subrange(0, i as int), ident));
                }
                i = i + 1;
            }
            proof {
                assert(old(self).view()[q as int].subrange(0, MAX_SLEEPERS as int) =~= old(self).view()[q as int]);
            }
            q = q + 1;
        }
        proof {
            assert forall|k: int| 0 <= k < MAX_SLEEP_CPUS implies #[trigger] self.view()[k] =~= after_wakeup(old(self).view(), ident)[k] by {
                assert forall|i: int| 0 <= i < MAX_SLEEPERS implies #[trigger] self.view()[k][i] == after_wakeup(old(self).view(), ident)[k][i] by {
                    assert(self.view()[k][i] == (if old(self).view()[k][i].active && old(self).view()[k][i].ident == ident {
                        SleepEntry { outcome: WOKEN, ..old(self).view()[k][i] }
                    } else {
                        old(self).view()[k][i]
                    }));
                }
            }
            assert(self.view() =~= after_wakeup(old(self).view(), ident));
        }
        tasks
    }

    /// A timer tick at `now_ns` on CPU `q`: every active entry whose deadline has
    /// passed gets outcome `TIMED_OUT` and its deadline cleared. Returns the tasks
    /// to wake, in table order.
    pub fn tick(&mut self, q: usize, now_ns: u64) -> (tasks: Vec<u64>)
        requires
            old(self).wf(),
            q < MAX_SLEEP_CPUS,
        ensures
            final(self).wf(),
            shaped(old(self).view()),
            shaped(final(self).view()),
            tasks@ == expired(old(self).view()[q as int], now_ns),
            forall|k: int| 0 <= k < MAX_SLEEP_CPUS && k != q ==> #[trigger] final(self).view()[k] == old(self).view()[k],
            forall|i: int| 0 <= i < MAX_SLEEPERS ==> #[trigger] final(self).view()[q as int][i] == ticked(old(self).view()[q as int][i], now_ns),
    {
        let mut tasks: Vec<u64> = Vec::new();
        if self.active[q] == 0 {
            proof {
                let t = self.view()[q as int];
                assert forall|i: int| 0 <= i < MAX_SLEEPERS implies !(#[trigger] t[i]).active by {
                    lemma_count_zero(t, i);
                }
                lemma_nothing_expires(t, now_ns);
            }
            return tasks;
        }
        let mut i: usize = 0;
        while i < MAX_SLEEPERS
            invariant
                self.wf(),
                old(self).wf(),
                q < MAX_SLEEP_CPUS,
                i <= MAX_SLEEPERS,
                tasks@ == expired(old(self).view()[q as int].subrange(0, i as int), now_ns),
                forall|k: int| 0 <= k < MAX_SLEEP_CPUS && k != q ==> #[trigger] self.view()[k] == old(self).view()[k],
                forall|j: int| 0 <= j < i ==> #[trigger] self.view()[q as int][j] == (if timed_out(old(self).view()[q as int][j], now_ns) {
                    SleepEntry { outcome: TIMED_OUT, deadline_ns: 0, ..old(self).view()[q as int][j] }
                } else {
                    old(self).view()[q as int][j]
                }),
                forall|j: int| i <= j < MAX_SLEEPERS ==> #[trigger] self.view()[q as int][j] == old(self).view()[q as int][j],
            decreases MAX_SLEEPERS - i,
        {
            let e = self.tables[q][i];
            let ghost o = old(self).view()[q as int];
            proof {
                assert(o.subrange(0, i + 1).drop_last() =~= o.subrange(0, i as int));
                assert(self.view()[q as int] == self.tables@[q as int]@);
                assert(self.view()[q as int][i as int] == old(self).view()[q as int][i as int]);
                assert(e == o[i as int]);
            }
            if e.active && e.deadline_ns != 0 && now_ns >= e.deadline_ns {
                self.put(q, i, SleepEntry { outcome: TIMED_OUT, deadline_ns: 0, ..e });
                tasks.push(e.task);
                assert(tasks@ =~= expired(o.subrange(0, i + 1), now_ns));
            } else {
                assert(expired(o.subrange(0, i + 1), now_ns) =~= expired(o.subrange(0, i as int), now_ns));
            }
            i = i + 1;
        }
        proof {
            assert(old(self).view()[q as int].subrange(0, MAX_SLEEPERS as int) =~= old(self).view()[q as int]);
        }
        tasks
    }
}

proof fn lemma_count_zero(s: Seq<SleepEntry>, i: int)
    requires
        count_active(s) == 0,
        0 <= i < s.len(),
    ensures
        !s[i].active,
    decreases s.len(),
{
    if i < s.len() - 1 {
        assert(s.drop_last()[i] == s[i]);
        lemma_count_zero(s.drop_last(), i);
    }
}

proof fn lemma_no_active_nothing_waits(s: Seq<SleepEntry>, ident: u64)
    requires
        count_active(s) == 0,
    ensures
        waiting_for(s, ident) == Seq::<u64>::empty(),
    decreases s.len(),
{
    if s.len() > 0 {
        lemma_no_active_nothing_waits(s.drop_last(), ident);
        assert(waiting_for(s, ident) =~= Seq::<u64>::empty());
    }
}

proof fn lemma_nothing_expires(s: Seq<SleepEntry>, now: u64)
    requires
        forall|i: int| 0 <= i < s.len() ==> !(#[trigger] s[i]).active,
    ensures
        expired(s, now) == Seq::<u64>::empty(),
    decreases s.len(),
{
    if s.len() > 0 {
        assert forall|i: int| 0 <= i < s.drop_last().len() implies !(#[trigger] s.drop_last()[i]).active by {
            assert(s.drop_last()[i] == s[i]);
        }
        lemma_nothing_expires(s.drop_last(), now);
        assert(expired(s, now) =~= Seq::<u64>::empty());
    }
}


/// A wakeup touches only the sleeps on its ident: any other entry stays as it was.
pub proof fn law_wakeup_isolated(tables: Seq<Seq<SleepEntry>>, ident: u64, q: int, i: int)
    requires
        0 <= q < tables.len(),
        0 <= i < tables[q].len(),
        !(tables[q][i].active && tables[q][i].ident == ident),
    ensures
        after_wakeup(tables, ident)[q][i] == tables[q][i],
{
}

proof fn lemma_waiting_for_contains(s: Seq<SleepEntry>, ident: u64, i: int)
    requires
        0 <= i < s.len(),
        s[i].active,
        s[i].ident == ident,
    ensures
        waiting_for(s, ident).contains(s[i].task),
    decreases s.len(),
{
    let w = waiting_for(s, ident);
    if i == s.len() - 1 {
        let prev = waiting_for(s.drop_last(), ident);
        assert(w == prev.add(seq![s[i].task]));
        assert(w[prev.len() as int] == s[i].task);
    } else {
        lemma_waiting_for_contains(s.drop_last(), ident, i);
        assert(s.drop_last()[i] == s[i]);
        let prev = waiting_for(s.drop_last(), ident);
        let k = choose|k: int| 0 <= k < prev.len() && prev[k] == s[i].task;
        let e = s.last();
        assert(w == prev.add(if e.active && e.ident == ident { seq![e.task] } else { Seq::empty() }));
        assert(w[k] == prev[k]);
    }
}

proof fn lemma_waiting_on_all_contains(tables: Seq<Seq<SleepEntry>>, ident: u64, n: int, q: int, i: int)
    requires
        0 <= q < n <= tables.len(),
        0 <= i < tables[q].len(),
        tables[q][i].active,
        tables[q][i].ident == ident,
    ensures
        waiting_on_all(tables, ident, n).contains(tables[q][i].task),
    decreases n,
{
    let w = waiting_on_all(tables, ident, n);
    let prev = waiting_on_all(tables, ident, n - 1);
    assert(w == prev.add(waiting_for(tables[n - 1], ident)));
    if q == n - 1 {
        lemma_waiting_for_contains(tables[q], ident, i);
        let wf = waiting_for(tables[q], ident);
        let k = choose|k: int| 0 <= k < wf.len() && wf[k] == tables[q][i].task;
        assert(w[prev.len() + k] == wf[k]);
    } else {
        lemma_waiting_on_all_contains(tables, ident, n - 1, q, i);
        let k = choose|k: int| 0 <= k < prev.len() && prev[k] == tables[q][i].task;
        assert(w[k] == prev[k]);
    }
}

/// A wakeup reaches every sleep on its ident: each such entry, on any CPU, gets
/// the outcome `WOKEN` and its task is among the tasks returned to wake.
pub proof fn law_wakeup_broadcast(tables: Seq<Seq<SleepEntry>>, ident: u64, q: int, i: int)
    requires
        tables.len() == MAX_SLEEP_CPUS,
        0 <= q < MAX_SLEEP_CPUS,
        0 <= i < tables[q].len(),
        tables[q][i].active,
        tables[q][i].ident == ident,
    ensures
        after_wakeup(tables, ident)[q][i].outcome == WOKEN,
        waiting_on_all(tables, ident, MAX_SLEEP_CPUS as int).contains(tables[q][i].task),
{
    lemma_waiting_on_all_contains(tables, ident, MAX_SLEEP_CPUS as int, q, i);
}

proof fn lemma_nobody_waits(tables: Seq<Seq<SleepEntry>>, ident: u64, n: int)
    requires
        0 <= n <= tables.len(),
        forall|q: int, i: int| 0 <= q < tables.len() && 0 <= i < tables[q].len() ==> !((#[trigger] tables[q][i]).active
            && tables[q][i].ident == ident),
    ensures
        waiting_on_all(tables, ident, n) == Seq::<u64>::empty(),
    decreases n,
{
    if n > 0 {
        lemma_nobody_waits(tables, ident, n - 1);
        lemma_nobody_waits_in(tables[n - 1], ident);
        assert(waiting_on_all(tables, ident, n) =~= Seq::<u64>::empty());
    }
}

proof fn lemma_nobody_waits_in(s: Seq<SleepEntry>, ident: u64)
    requires
        forall|i: int| 0 <= i < s.len() ==> !((#[trigger] s[i]).active && s[i].ident == ident),
    ensures
        waiting_for(s, ident) == Seq::<u64>::empty(),
    decreases s.len(),
{
    if s.len() > 0 {
        assert forall|i: int| 0 <= i < s.drop_last().len() implies !((#[trigger] s.drop_last()[i]).active && s.drop_last()[i].ident
            == ident) by {
            assert(s.drop_last()[i] == s[i]);
        }
        lemma_nobody_waits_in(s.drop_last(), ident);
        assert(waiting_for(s, ident) =~= Seq::<u64>::empty());
    }
}

/// A wakeup is not remembered: with no sleep on its ident it changes no entry and
/// wakes no one, so a sleep that starts later is not ended by it.
pub proof fn law_wakeup_without_sleepers(tables: Seq<Seq<SleepEntry>>, ident: u64)
    requires
        forall|q: int, i: int| 0 <= q < tables.len() && 0 <= i < tables[q].len() ==> !((#[trigger] tables[q][i]).active
            && tables[q][i].ident == ident),
    ensures
        after_wakeup(tables, ident) == tables,
        waiting_on_all(tables, ident, tables.len() as int) == Seq::<u64>::empty(),
{
    assert forall|q: int| 0 <= q < tables.len() implies #[trigger] after_wakeup(tables, ident)[q] =~= tables[q] by {
        assert forall|i: int| 0 <= i < tables[q].len() implies #[trigger] after_wakeup(tables, ident)[q][i] == tables[q][i] by {
            assert(!(tables[q][i].active && tables[q][i].ident == ident));
        }
    }
    assert(after_wakeup(tables, ident) =~= tables);
    lemma_nobody_waits(tables, ident, tables.len() as int);
}

/// A sleep with a timeout ends: the entry `prepare` makes for a timeout greater
/// than 0 has timed out at every time from its deadline on, so the tick then
/// ends it with `TIMED_OUT`.
pub proof fn law_timeout_progress(ident: u64, task: u64, now_ns: u64, timeout_ns: u64, later: u64)
    requires
        timeout_ns > 0,
        now_ns + timeout_ns <= u64::MAX,
        later >= now_ns + timeout_ns,
    ensures
        timed_out(SleepEntry { ident, task, deadline_ns: (now_ns + timeout_ns) as u64, outcome: WOKEN, active: true }, later),
{
}


/// What happens to a sleep while its task waits: a timer tick at `now_ns` on its
/// CPU, or a wakeup of `ident`.
#[derive(Debug, Clone, Copy, PartialEq, Eq, Structural)]
pub enum SleepEvent {
    Tick { now_ns: u64 },
    Wakeup { ident: u64 },
}

/// An entry after the events `evs`, in order (`tick` and `wakeup` act on an entry
/// as `ticked` and `woken` say).
pub open spec fn after_events(e: SleepEntry, evs: Seq<SleepEvent>) -> SleepEntry
    decreases evs.len(),
{
    if evs.len() == 0 {
        e
    } else {
        let e1 = after_events(e, evs.drop_last());
        match evs.last() {
            SleepEvent::Tick { now_ns } => ticked(e1, now_ns),
            SleepEvent::Wakeup { ident } => woken(e1, ident),
        }
    }
}

/// The event is a tick at or past time `t`.
pub open spec fn tick_at_or_past(ev: SleepEvent, t: int) -> bool {
    match ev {
        SleepEvent::Tick { now_ns } => now_ns >= t,
        SleepEvent::Wakeup { .. } => false,
    }
}

/// The entry `prepare` makes.
pub open spec fn prepared(ident: u64, task: u64, timeout_ns: u64, now_ns: u64) -> SleepEntry {
    SleepEntry {
        ident,
        task,
        deadline_ns: if timeout_ns > 0 { (now_ns + timeout_ns) as u64 } else { 0 },
        outcome: WOKEN,
        active: true,
    }
}

proof fn lemma_untimed(e: SleepEntry, evs: Seq<SleepEvent>)
    requires
        e.active,
        e.deadline_ns == 0,
        e.outcome == WOKEN,
    ensures
        after_events(e, evs) == e,
    decreases evs.len(),
{
    if evs.len() > 0 {
        lemma_untimed(e, evs.drop_last());
    }
}

proof fn lemma_timed(e: SleepEntry, evs: Seq<SleepEvent>)
    requires
        e.active,
        e.deadline_ns != 0,
        forall|i: int| 0 <= i < evs.len() ==> #[trigger] evs[i] != (SleepEvent::Wakeup { ident: e.ident }),
    ensures
        (exists|i: int| 0 <= i < evs.len() && #[trigger] tick_at_or_past(evs[i], e.deadline_ns as int))
            ==> after_events(e, evs) == (SleepEntry { outcome: TIMED_OUT, deadline_ns: 0, ..e }),
        !(exists|i: int| 0 <= i < evs.len() && #[trigger] tick_at_or_past(evs[i], e.deadline_ns as int))
            ==> after_events(e, evs) == e,
    decreases evs.len(),
{
    if evs.len() > 0 {
        let p = evs.drop_last();
        assert forall|i: int| 0 <= i < p.len() implies #[trigger] p[i] != (SleepEvent::Wakeup { ident: e.ident }) by {
            assert(p[i] == evs[i]);
        }
        lemma_timed(e, p);
        let n = evs.len() - 1;
        assert(evs[n] == evs.last());
        assert(evs[n] != (SleepEvent::Wakeup { ident: e.ident }));
        if !(exists|i: int| 0 <= i < evs.len() && #[trigger] tick_at_or_past(evs[i], e.deadline_ns as int)) {
            assert(!tick_at_or_past(evs[n], e.deadline_ns as int));
        }
        if exists|i: int| 0 <= i < p.len() && #[trigger] tick_at_or_past(p[i], e.deadline_ns as int) {
            let i = choose|i: int| 0 <= i < p.len() && #[trigger] tick_at_or_past(p[i], e.deadline_ns as int);
            assert(evs[i] == p[i]);
        } else {
            assert forall|i: int| 0 <= i < n implies !#[trigger] tick_at_or_past(evs[i], e.deadline_ns as int) by {
                assert(evs[i] == p[i]);
            }
        }
    }
}

/// A sleep without a timeout ends only by a wakeup: whatever ticks and wakeups
/// come while it waits, its outcome is `WOKEN` and it stays active until `commit`.
pub proof fn law_untimed_sleep_is_woken(ident: u64, task: u64, now_ns: u64, evs: Seq<SleepEvent>)
    ensures
        after_events(prepared(ident, task, 0, now_ns), evs) == prepared(ident, task, 0, now_ns),
        after_events(prepared(ident, task, 0, now_ns), evs).outcome == WOKEN,
{
    lemma_untimed(prepared(ident, task, 0, now_ns), evs);
}

/// A timed sleep that nothing wakes times out: when no wakeup of its ident comes
/// and a tick at or past its deadline does, its outcome is `TIMED_OUT` (so
/// `commit` returns `TIMED_OUT`); before such a tick it is still `WOKEN`, the
/// outcome it started with.
pub proof fn law_timed_sleep_times_out(ident: u64, task: u64, now_ns: u64, timeout_ns: u64, evs: Seq<SleepEvent>)
    requires
        timeout_ns > 0,
        now_ns + timeout_ns <= u64::MAX,
        forall|i: int| 0 <= i < evs.len() ==> #[trigger] evs[i] != (SleepEvent::Wakeup { ident }),
    ensures
        (exists|i: int| 0 <= i < evs.len() && #[trigger] tick_at_or_past(evs[i], now_ns + timeout_ns))
            ==> after_events(prepared(ident, task, timeout_ns, now_ns), evs).outcome == TIMED_OUT,
        !(exists|i: int| 0 <= i < evs.len() && #[trigger] tick_at_or_past(evs[i], now_ns + timeout_ns))
            ==> after_events(prepared(ident, task, timeout_ns, now_ns), evs).outcome == WOKEN,
{
    lemma_timed(prepared(ident, task, timeout_ns, now_ns), evs);
}

/// A wakeup of its ident before the deadline ends a timed sleep `WOKEN`: when a
/// wakeup of `ident` comes and no tick at or past the deadline comes, the outcome
/// is `WOKEN`.
pub proof fn law_woken_before_deadline(ident: u64, task: u64, now_ns: u64, timeout_ns: u64, evs: Seq<SleepEvent>)
    requires
        timeout_ns > 0,
        now_ns + timeout_ns <= u64::MAX,
        forall|i: int| 0 <= i < evs.len() ==> !(#[trigger] tick_at_or_past(evs[i], now_ns + timeout_ns)),
    ensures
        after_events(prepared(ident, task, timeout_ns, now_ns), evs).outcome == WOKEN,
        after_events(prepared(ident, task, timeout_ns, now_ns), evs).active,
{
    lemma_woken_no_deadline(prepared(ident, task, timeout_ns, now_ns), evs);
}

proof fn lemma_woken_no_deadline(e: SleepEntry, evs: Seq<SleepEvent>)
    requires
        e.active,
        e.deadline_ns != 0,
        e.outcome == WOKEN,
        forall|i: int| 0 <= i < evs.len() ==> !#[trigger] tick_at_or_past(evs[i], e.deadline_ns as int),
    ensures
        after_events(e, evs) == e,
    decreases evs.len(),
{
    if evs.len() > 0 {
        let p = evs.drop_last();
        assert forall|i: int| 0 <= i < p.len() implies !#[trigger] tick_at_or_past(p[i], e.deadline_ns as int) by {
            assert(p[i] == evs[i]);
        }
        lemma_woken_no_deadline(e, p);
        assert(evs[evs.len() - 1] == evs.last());
        assert(!tick_at_or_past(evs[evs.len() - 1], e.deadline_ns as int));
    }
}

/// The event hands the entry's task back to the scheduler to run: a tick at which
/// its deadline has passed (`tick` returns the tasks of such entries), or a wakeup of
/// its ident while it is active (`wakeup` returns the tasks of such entries).
pub open spec fn releases(e: SleepEntry, ev: SleepEvent) -> bool {
    match ev {
        SleepEvent::Tick { now_ns } => timed_out(e, now_ns),
        SleepEvent::Wakeup { ident } => e.active && e.ident == ident,
    }
}

/// Some event of `evs` releases the entry, as it stands when that event comes.
pub open spec fn released(e: SleepEntry, evs: Seq<SleepEvent>) -> bool
    decreases evs.len(),
{
    if evs.len() == 0 {
        false
    } else {
        released(e, evs.drop_last()) || releases(after_events(e, evs.drop_last()), evs.last())
    }
}

/// A wakeup of `ident` is among the events.
pub open spec fn contains_wakeup(evs: Seq<SleepEvent>, ident: u64) -> bool {
    exists|i: int| 0 <= i < evs.len() && #[trigger] evs[i] == (SleepEvent::Wakeup { ident })
}

/// A tick at or past time `t` is among the events.
pub open spec fn reaches_deadline(evs: Seq<SleepEvent>, t: int) -> bool {
    exists|i: int| 0 <= i < evs.len() && #[trigger] tick_at_or_past(evs[i], t)
}

proof fn lemma_release_steps(ident: u64, task: u64, d: u64, evs: Seq<SleepEvent>)
    ensures
        ({
            let e0 = SleepEntry { ident, task, deadline_ns: d, outcome: WOKEN, active: true };
            let a = after_events(e0, evs);
            let w = contains_wakeup(evs, ident);
            let t = d != 0 && reaches_deadline(evs, d as int);
            &&& a.active && a.ident == ident && a.task == task
            &&& a.deadline_ns == (if t { 0 } else { d })
            &&& a.outcome == WOKEN || a.outcome == TIMED_OUT
            &&& a.outcome == TIMED_OUT ==> t
            &&& t && !w ==> a.outcome == TIMED_OUT
            &&& released(e0, evs) <==> (w || t)
            &&& !released(e0, evs) ==> a == e0
        }),
    decreases evs.len(),
{
    let e0 = SleepEntry { ident, task, deadline_ns: d, outcome: WOKEN, active: true };
    if evs.len() > 0 {
        let p = evs.drop_last();
        let ev = evs.last();
        let n = evs.len() - 1;
        lemma_release_steps(ident, task, d, p);
        assert(evs[n] == ev);
        assert(forall|i: int| 0 <= i < p.len() ==> #[trigger] p[i] == evs[i]);
        let w0 = contains_wakeup(p, ident);
        let t0 = d != 0 && reaches_deadline(p, d as int);
        let w = contains_wakeup(evs, ident);
        let t = d != 0 && reaches_deadline(evs, d as int);
        if w0 {
            let i = choose|i: int| 0 <= i < p.len() && #[trigger] p[i] == (SleepEvent::Wakeup { ident });
            assert(evs[i] == p[i]);
        }
        if reaches_deadline(p, d as int) {
            let i = choose|i: int| 0 <= i < p.len() && #[trigger] tick_at_or_past(p[i], d as int);
            assert(evs[i] == p[i]);
        }
        assert(w == (w0 || ev == (SleepEvent::Wakeup { ident }))) by {
            if w && !w0 {
                let i = choose|i: int| 0 <= i < evs.len() && #[trigger] evs[i] == (SleepEvent::Wakeup { ident });
                if i < n {
                    assert(p[i] == evs[i]);
                }
            }
        }
        assert(reaches_deadline(evs, d as int) == (reaches_deadline(p, d as int) || tick_at_or_past(ev, d as int))) by {
            if reaches_deadline(evs, d as int) && !reaches_deadline(p, d as int) {
                let i = choose|i: int| 0 <= i < evs.len() && #[trigger] tick_at_or_past(evs[i], d as int);
                if i < n {
                    assert(p[i] == evs[i]);
                }
            }
        }
    } else {
        assert(!contains_wakeup(evs, ident));
        assert(!reaches_deadline(evs, d as int));
    }
}

/// When a sleep ends, and how: after `prepare`, its task is handed back to the
/// scheduler (by `tick` or `wakeup`) exactly when a wakeup of its ident comes or,
/// for a timed sleep, a tick at or past its deadline; until then the entry stays
/// as `prepare` made it. The outcome that `commit` then reads is `WOKEN` or
/// `TIMED_OUT`; `TIMED_OUT` only after a tick at or past the deadline of a timed
/// sleep, and `WOKEN` for a released sleep only after a wakeup of its ident.
pub proof fn law_sleep_ends_when_released(
    ident: u64,
    task: u64,
    now_ns: u64,
    timeout_ns: u64,
    evs: Seq<SleepEvent>,
)
    requires
        timeout_ns == 0 || now_ns + timeout_ns <= u64::MAX,
    ensures
        released(prepared(ident, task, timeout_ns, now_ns), evs) <==> (contains_wakeup(evs, ident) || (timeout_ns
            > 0 && reaches_deadline(evs, now_ns + timeout_ns))),
        !released(prepared(ident, task, timeout_ns, now_ns), evs) ==> after_events(
            prepared(ident, task, timeout_ns, now_ns),
            evs,
        ) == prepared(ident, task, timeout_ns, now_ns),
        after_events(prepared(ident, task, timeout_ns, now_ns), evs).active,
        after_events(prepared(ident, task, timeout_ns, now_ns), evs).outcome == WOKEN || after_events(
            prepared(ident, task, timeout_ns, now_ns),
            evs,
        ).outcome == TIMED_OUT,
        after_events(prepared(ident, task, timeout_ns, now_ns), evs).outcome == TIMED_OUT ==> timeout_ns > 0
            && reaches_deadline(evs, now_ns + timeout_ns),
        released(prepared(ident, task, timeout_ns, now_ns), evs) && after_events(
            prepared(ident, task, timeout_ns, now_ns),
            evs,
        ).outcome == WOKEN ==> contains_wakeup(evs, ident),
{
    let d: u64 = if timeout_ns > 0 { (now_ns + timeout_ns) as u64 } else { 0 };
    lemma_release_steps(ident, task, d, evs);
}

/// The entry `e` is released by the event `ev` and belongs to task `t`.
pub open spec fn releases_task(e: SleepEntry, ev: SleepEvent, t: u64) -> bool {
    releases(e, ev) && e.task == t
}

proof fn lemma_expired_has(s: Seq<SleepEntry>, now: u64, t: u64)
    ensures
        expired(s, now).contains(t) <==> exists|i: int|
            0 <= i < s.len() && #[trigger] releases_task(s[i], SleepEvent::Tick { now_ns: now }, t),
    decreases s.len(),
{
    let ev = SleepEvent::Tick { now_ns: now };
    if s.len() > 0 {
        let p = s.drop_last();
        let n = s.len() - 1;
        lemma_expired_has(p, now, t);
        let x = expired(s, now);
        let xp = expired(p, now);
        let e = s.last();
        let tail: Seq<u64> = if timed_out(e, now) { seq![e.task] } else { Seq::empty() };
        assert(x == xp.add(tail));
        assert(s[n] == e);
        if x.contains(t) {
            let k = choose|k: int| 0 <= k < x.len() && x[k] == t;
            if k < xp.len() {
                assert(xp[k] == x[k]);
                let i = choose|i: int| 0 <= i < p.len() && #[trigger] releases_task(p[i], ev, t);
                assert(s[i] == p[i]);
            } else {
                assert(x[k] == tail[k - xp.len()]);
                assert(releases_task(s[n], ev, t));
            }
        }
        if exists|i: int| 0 <= i < s.len() && #[trigger] releases_task(s[i], ev, t) {
            let i = choose|i: int| 0 <= i < s.len() && #[trigger] releases_task(s[i], ev, t);
            if i < n {
                assert(p[i] == s[i]);
                let k = choose|k: int| 0 <= k < xp.len() && xp[k] == t;
                assert(x[k] == xp[k]);
            } else {
                assert(x[xp.len() as int] == t);
            }
        }
    }
}

proof fn lemma_waiting_for_has(s: Seq<SleepEntry>, ident: u64, t: u64)
    ensures
        waiting_for(s, ident).contains(t) ==> exists|i: int|
            0 <= i < s.len() && #[trigger] releases_task(s[i], SleepEvent::Wakeup { ident }, t),
    decreases s.len(),
{
    let ev = SleepEvent::Wakeup { ident };
    if s.len() > 0 {
        let p = s.drop_last();
        let n = s.len() - 1;
        lemma_waiting_for_has(p, ident, t);
        let x = waiting_for(s, ident);
        let xp = waiting_for(p, ident);
        let e = s.last();
        let tail: Seq<u64> = if e.active && e.ident == ident { seq![e.task] } else { Seq::empty() };
        assert(x == xp.add(tail));
        assert(s[n] == e);
        if x.contains(t) {
            let k = choose|k: int| 0 <= k < x.len() && x[k] == t;
            if k < xp.len() {
                assert(xp[k] == x[k]);
                let i = choose|i: int| 0 <= i < p.len() && #[trigger] releases_task(p[i], ev, t);
                assert(s[i] == p[i]);
            } else {
                assert(x[k] == tail[k - xp.len()]);
                assert(releases_task(s[n], ev, t));
            }
        }
    }
}

proof fn lemma_waiting_on_all_has(tables: Seq<Seq<SleepEntry>>, ident: u64, n: int, t: u64)
    requires
        0 <= n <= tables.len(),
    ensures
        waiting_on_all(tables, ident, n).contains(t) ==> exists|q: int, i: int|
            0 <= q < n && 0 <= i < tables[q].len() && #[trigger] releases_task(
                tables[q][i],
                SleepEvent::Wakeup { ident },
                t,
            ),
    decreases n,
{
    let ev = SleepEvent::Wakeup { ident };
    if n > 0 {
        lemma_waiting_on_all_has(tables, ident, n - 1, t);
        let x = waiting_on_all(tables, ident, n);
        let xp = waiting_on_all(tables, ident, n - 1);
        let last = waiting_for(tables[n - 1], ident);
        assert(x == xp.add(last));
        if x.contains(t) {
            let k = choose|k: int| 0 <= k < x.len() && x[k] == t;
            if k < xp.len() {
                assert(xp[k] == x[k]);
            } else {
                assert(x[k] == last[k - xp.len()]);
                lemma_waiting_for_has(tables[n - 1], ident, t);
                let i = choose|i: int| 0 <= i < tables[n - 1].len() && #[trigger] releases_task(tables[n - 1][i], ev, t);
                assert(releases_task(tables[n - 1][i], ev, t));
            }
        }
    }
}

/// A tick on a CPU hands a task back to the scheduler exactly when an entry of that
/// task in the CPU's table is released by the tick: `tick(q, now_ns)` returns
/// `expired(tables[q], now_ns)`.
pub proof fn law_tick_hands_back_released(s: Seq<SleepEntry>, now_ns: u64, t: u64)
    ensures
        expired(s, now_ns).contains(t) <==> exists|i: int|
            0 <= i < s.len() && #[trigger] releases_task(s[i], SleepEvent::Tick { now_ns }, t),
{
    lemma_expired_has(s, now_ns, t);
}

/// A wakeup hands a task back to the scheduler exactly when an entry of that task,
/// on any CPU, is released by the wakeup: `wakeup(ident)` returns
/// `waiting_on_all(tables, ident, MAX_SLEEP_CPUS)`.
pub proof fn law_wakeup_hands_back_released(tables: Seq<Seq<SleepEntry>>, ident: u64, t: u64)
    requires
        tables.len() == MAX_SLEEP_CPUS,
    ensures
        waiting_on_all(tables, ident, MAX_SLEEP_CPUS as int).contains(t) <==> exists|q: int, i: int|
            0 <= q < MAX_SLEEP_CPUS && 0 <= i < tables[q].len() && #[trigger] releases_task(
                tables[q][i],
                SleepEvent::Wakeup { ident },
                t,
            ),
{
    lemma_waiting_on_all_has(tables, ident, MAX_SLEEP_CPUS as int, t);
    if exists|q: int, i: int|
        0 <= q < MAX_SLEEP_CPUS && 0 <= i < tables[q].len() && #[trigger] releases_task(
            tables[q][i],
            SleepEvent::Wakeup { ident },
            t,
        ) {
        let (q, i) = choose|q: int, i: int|
            0 <= q < MAX_SLEEP_CPUS && 0 <= i < tables[q].len() && #[trigger] releases_task(
                tables[q][i],
                SleepEvent::Wakeup { ident },
                t,
            );
        lemma_waiting_on_all_contains(tables, ident, MAX_SLEEP_CPUS as int, q, i);
    }
}

/// A sleeping task runs again only when a tick releases its sleep: once it has
/// blocked with no wake pending, and the tasks that `tick` hands back on a table
/// are woken with `wake_all`, it is ready exactly when an entry of that table whose
/// task names it was released by the tick; otherwise it is still blocked.
pub proof fn law_tick_resumes_only_released(
    s0: Schedulers,
    s1: Schedulers,
    s2: Schedulers,
    cpu: int,
    cur: TaskRef,
    to: Switch,
    table: Seq<SleepEntry>,
    now_ns: u64,
)
    requires
        valid_ref(cur),
        s0.at(cur) is Some,
        !s0.at(cur).unwrap().wake_pending,
        Schedulers::blocked(s0, s1, cpu, cur, to),
        Schedulers::woke_all(s1, s2, expired(table, now_ns)),
    ensures
        s2.at(cur) is Some,
        s2.at(cur).unwrap().state == TaskState::Ready <==> exists|i: int|
            0 <= i < table.len() && releases(#[trigger] table[i], SleepEvent::Tick { now_ns })
                && task_at_handle(table[i].task) == cur,
        s2.at(cur).unwrap().state != TaskState::Ready ==> s2.at(cur) == s1.at(cur),
{
    let x = expired(table, now_ns);
    let ev = SleepEvent::Tick { now_ns };
    if named_by(x, cur) {
        let k = choose|k: int| 0 <= k < x.len() && task_at_handle(#[trigger] x[k]) == cur;
        lemma_expired_has(table, now_ns, x[k]);
        assert(x.contains(x[k]));
        let i = choose|i: int| 0 <= i < table.len() && #[trigger] releases_task(table[i], ev, x[k]);
        assert(releases(table[i], ev) && task_at_handle(table[i].task) == cur);
    }
    if exists|i: int| 0 <= i < table.len() && releases(#[trigger] table[i], ev) && task_at_handle(table[i].task) == cur {
        let i = choose|i: int| 0 <= i < table.len() && releases(#[trigger] table[i], ev) && task_at_handle(table[i].task) == cur;
        lemma_expired_has(table, now_ns, table[i].task);
        assert(releases_task(table[i], ev, table[i].task));
        let k = choose|k: int| 0 <= k < x.len() && x[k] == table[i].task;
        assert(task_at_handle(x[k]) == cur);
        assert(named_by(x, cur));
    }
}

/// A sleeping task runs again only when a wakeup releases its sleep: once it has
/// blocked with no wake pending, and the tasks that `wakeup(ident)` hands back are
/// woken with `wake_all`, it is ready exactly when an entry, on any CPU, whose task
/// names it was released by the wakeup; otherwise it is still blocked.
pub proof fn law_wakeup_resumes_only_released(
    s0: Schedulers,
    s1: Schedulers,
    s2: Schedulers,
    cpu: int,
    cur: TaskRef,
    to: Switch,
    tables: Seq<Seq<SleepEntry>>,
    ident: u64,
)
    requires
        valid_ref(cur),
        s0.at(cur) is Some,
        !s0.at(cur).unwrap().wake_pending,
        tables.len() == MAX_SLEEP_CPUS,
        Schedulers::blocked(s0, s1, cpu, cur, to),
        Schedulers::woke_all(s1, s2, waiting_on_all(tables, ident, MAX_SLEEP_CPUS as int)),
    ensures
        s2.at(cur) is Some,
        s2.at(cur).unwrap().state == TaskState::Ready <==> exists|q: int, i: int|
            0 <= q < MAX_SLEEP_CPUS && 0 <= i < tables[q].len() && releases(
                #[trigger] tables[q][i],
                SleepEvent::Wakeup { ident },
            ) && task_at_handle(tables[q][i].task) == cur,
        s2.at(cur).unwrap().state != TaskState::Ready ==> s2.at(cur) == s1.at(cur),
{
    let x = waiting_on_all(tables, ident, MAX_SLEEP_CPUS as int);
    let ev = SleepEvent::Wakeup { ident };
    if named_by(x, cur) {
        let k = choose|k: int| 0 <= k < x.len() && task_at_handle(#[trigger] x[k]) == cur;
        law_wakeup_hands_back_released(tables, ident, x[k]);
        assert(x.contains(x[k]));
        let (q, i) = choose|q: int, i: int|
            0 <= q < MAX_SLEEP_CPUS && 0 <= i < tables[q].len() && #[trigger] releases_task(tables[q][i], ev, x[k]);
        assert(releases(tables[q][i], ev) && task_at_handle(tables[q][i].task) == cur);
    }
    if exists|q: int, i: int|
        0 <= q < MAX_SLEEP_CPUS && 0 <= i < tables[q].len() && releases(#[trigger] tables[q][i], ev)
            && task_at_handle(tables[q][i].task) == cur {
        let (q, i) = choose|q: int, i: int|
            0 <= q < MAX_SLEEP_CPUS && 0 <= i < tables[q].len() && releases(#[trigger] tables[q][i], ev)
                && task_at_handle(tables[q][i].task) == cur;
        law_wakeup_hands_back_released(tables, ident, tables[q][i].task);
        assert(releases_task(tables[q][i], ev, tables[q][i].task));
        let k = choose|k: int| 0 <= k < x.len() && x[k] == tables[q][i].task;
        assert(task_at_handle(x[k]) == cur);
        assert(named_by(x, cur));
    }
}

} // verus!
