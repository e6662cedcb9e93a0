use vstd::prelude::*;
use crate::ipc::{IPCConnection, MAX_IPC_CONNECTIONS_PER_TASK};

verus! {

/// Priority levels, 0 lowest.
pub const PRIORITY_LEVELS: usize = 8;
/// Slots for tasks at each priority level.
pub const MAX_TASKS_PER_PRIORITY: usize = 16;
/// CPUs the kernel schedules on.
pub const MAX_CPUS: usize = 8;
/// Order of the blocks that hold a kernel stack.
pub const KSTACK_ORDER: usize = 4;

/// Whether a task can run.
#[derive(Debug, Clone, Copy, PartialEq, Eq, Structural)]
pub enum TaskState {
    Ready,
    Blocked,
}

/// A task as the scheduler keeps it.
#[derive(Clone, Copy)]
pub struct Task {
    pub priority: u8,
    pub state: TaskState,
    pub wake_pending: bool,
    pub stack: u64,
    pub ksp: u64,
    pub kstack_top: u64,
    pub cr3: u64,
    pub pid: i32,
    pub ipc_con: [Option<IPCConnection>; 32],
}

/// Where a task sits: its CPU, priority level and slot.
#[derive(Debug, Clone, Copy, PartialEq, Eq, Structural)]
pub struct TaskRef {
    pub cpu: usize,
    pub priority: usize,
    pub slot: usize,
}

/// A location lies inside the tables.
pub open spec fn valid_ref(r: TaskRef) -> bool {
    r.cpu < MAX_CPUS && r.priority < PRIORITY_LEVELS && r.slot < MAX_TASKS_PER_PRIORITY
}

/// Position of a location in the order in which the kernel walks all tasks:
/// CPU, then priority, then slot, each ascending.
pub open spec fn walk_index(r: TaskRef) -> int {
    (r.cpu * PRIORITY_LEVELS + r.priority) * MAX_TASKS_PER_PRIORITY + r.slot
}

/// The kernel frame a new kernel task starts from: its entry as return address,
/// six zeroed callee-saved registers below it. Index 0 is the lowest word.
pub fn initial_frame(entry: u64) -> (r: [u64; 7])
    ensures
        r@ == seq![0u64, 0, 0, 0, 0, 0, entry],
{
    let r = [0u64, 0, 0, 0, 0, 0, entry];
    assert(r@ =~= seq![0u64, 0, 0, 0, 0, 0, entry]);
    r
}

/// The kernel frame a new user task starts from: it returns into the user-entry
/// trampoline, with the user entry and user stack top in the two lowest words.
pub fn user_initial_frame(trampoline: u64, user_stack_top: u64, entry: u64) -> (r: [u64; 7])
    ensures
        r@ == seq![entry, user_stack_top, 0u64, 0, 0, 0, trampoline],
{
    let r = [entry, user_stack_top, 0u64, 0, 0, 0, trampoline];
    assert(r@ =~= seq![entry, user_stack_top, 0u64, 0, 0, 0, trampoline]);
    r
}

/// `t` is a ready task with no connections and no pending wake, with the given fields.
pub open spec fn is_fresh(t: Task, priority: u8, stack: u64, ksp: u64, kstack_top: u64, cr3: u64, pid: i32) -> bool {
    &&& t.priority == priority
    &&& t.state == TaskState::Ready
    &&& !t.wake_pending
    &&& t.stack == stack
    &&& t.ksp == ksp
    &&& t.kstack_top == kstack_top
    &&& t.cr3 == cr3
    &&& t.pid == pid
    &&& forall|i: int| 0 <= i < MAX_IPC_CONNECTIONS_PER_TASK ==> t.ipc_con@[i] is None
}

impl Task {
    /// A ready task with no connections.
    pub fn new(priority: u8, stack: u64, ksp: u64, kstack_top: u64, cr3: u64, pid: i32) -> (r: Self)
        ensures
            r.priority == priority,
            r.state == TaskState::Ready,
            !r.wake_pending,
            r.stack == stack,
            r.ksp == ksp,
            r.kstack_top == kstack_top,
            r.cr3 == cr3,
            r.pid == pid,
            forall|i: int| 0 <= i < MAX_IPC_CONNECTIONS_PER_TASK ==> r.ipc_con@[i] is None,
    {
        Task {
            priority,
            state: TaskState::Ready,
            wake_pending: false,
            stack,
            ksp,
            kstack_top,
            cr3,
            pid,
            ipc_con: [None; 32],
        }
    }
}

/// The run queues of every CPU: for each CPU and priority, a row of slots, and the
/// slot that ran last at each priority.
pub struct Schedulers {
    queues: Vec<Vec<Vec<Option<Task>>>>,
    current_slot: Vec<Vec<usize>>,
    idle_pid: i32,
}

impl Schedulers {
    pub closed spec fn wf(&self) -> bool {
        &&& self.queues@.len() == MAX_CPUS
        &&& self.current_slot@.len() == MAX_CPUS
        &&& forall|c: int| 0 <= c < MAX_CPUS ==> (#[trigger] self.queues@[c])@.len() == PRIORITY_LEVELS
        &&& forall|c: int, p: int| 0 <= c < MAX_CPUS && 0 <= p < PRIORITY_LEVELS
            ==> (#[trigger] self.queues@[c]@[p])@.len() == MAX_TASKS_PER_PRIORITY
        &&& forall|c: int| 0 <= c < MAX_CPUS ==> (#[trigger] self.current_slot@[c])@.len() == PRIORITY_LEVELS
        &&& forall|c: int, p: int| 0 <= c < MAX_CPUS && 0 <= p < PRIORITY_LEVELS
            ==> #[trigger] self.current_slot@[c]@[p] < MAX_TASKS_PER_PRIORITY
    }

    /// The task at a location, if any.
    pub closed spec fn at(&self, r: TaskRef) -> Option<Task> {
        self.queues@[r.cpu as int]@[r.priority as int]@[r.slot as int]
    }

    /// The slot that ran last at a priority of a CPU.
    pub closed spec fn current(&self, cpu: int, priority: int) -> usize {
        self.current_slot@[cpu]@[priority]
    }

    /// The pid the next idle task gets.
    pub closed spec fn spec_idle_pid(&self) -> i32 {
        self.idle_pid
    }

    /// Empty run queues, every current slot 0, idle pids counting down from -1.
    pub fn new() -> (r: Self)
        ensures
            r.wf(),
            forall|t: TaskRef| valid_ref(t) ==> r.at(t) is None,
            forall|c: int, p: int| 0 <= c < MAX_CPUS && 0 <= p < PRIORITY_LEVELS ==> r.current(c, p) == 0,
            r.spec_idle_pid() == -1,
    {
        let mut queues: Vec<Vec<Vec<Option<Task>>>> = Vec::new();
        let mut current_slot: Vec<Vec<usize>> = Vec::new();
        let mut c: usize = 0;
        while c < MAX_CPUS
            invariant
                c <= MAX_CPUS,
                queues@.len() == c,
                current_slot@.len() == c,
                forall|i: int| 0 <= i < c ==> (#[trigger] queues@[i])@.len() == PRIORITY_LEVELS,
                forall|i: int, p: int| 0 <= i < c && 0 <= p < PRIORITY_LEVELS ==> (#[trigger] queues@[i]@[p])@.len()
                    == MAX_TASKS_PER_PRIORITY,
                forall|i: int, p: int, s: int|
                    0 <= i < c && 0 <= p < PRIORITY_LEVELS && 0 <= s < MAX_TASKS_PER_PRIORITY
                        ==> (#[trigger] queues@[i]@[p]@[s]) is None,
                forall|i: int| 0 <= i < c ==> (#[trigger] current_slot@[i])@.len() == PRIORITY_LEVELS,
                forall|i: int, p: int| 0 <= i < c && 0 <= p < PRIORITY_LEVELS ==> #[trigger] current_slot@[i]@[p] == 0,
            decreases MAX_CPUS - c,
        {
            let mut rows: Vec<Vec<Option<Task>>> = Vec::new();
            let mut cur: Vec<usize> = Vec::new();
            let mut p: usize = 0;
            while p < PRIORITY_LEVELS
                invariant
                    p <= PRIORITY_LEVELS,
                    rows@.len() == p,
                    cur@.len() == p,
                    forall|i: int| 0 <= i < p ==> (#[trigger] rows@[i])@.len() == MAX_TASKS_PER_PRIORITY,
                    forall|i: int, s: int| 0 <= i < p && 0 <= s < MAX_TASKS_PER_PRIORITY ==> (#[trigger] rows@[i]@[s]) is None,
                    forall|i: int| 0 <= i < p ==> #[trigger] cur@[i] == 0,
                decreases PRIORITY_LEVELS - p,
            {
                let mut row: Vec<Option<Task>> = Vec::new();
                let mut s: usize = 0;
                while s < MAX_TASKS_PER_PRIORITY
                    invariant
                        s <= MAX_TASKS_PER_PRIORITY,
                        row@.len() == s,
                        forall|i: int| 0 <= i < s ==> (#[trigger] row@[i]) is None,
                    decreases MAX_TASKS_PER_PRIORITY - s,
                {
                    row.push(None);
                    s = s + 1;
                }
                rows.push(row);
                cur.push(0);
                p = p + 1;
            }
            queues.push(rows);
            current_slot.push(cur);
            c = c + 1;
        }
        Schedulers { queues, current_slot, idle_pid: -1 }
    }

    /// The task at a location, if any.
    pub fn task(&self, r: TaskRef) -> (t: Option<Task>)
        requires
            self.wf(),
            valid_ref(r),
        ensures
            t == self.at(r),
    {
        self.queues[r.cpu][r.priority][r.slot]
    }

    /// Replaces the task at `r`; the rest stays.
    pub fn set_task(&mut self, r: TaskRef, t: Task)
        requires
            old(self).wf(),
            valid_ref(r),
        ensures
            final(self).wf(),
            final(self).at(r) == Some(t),
            old(self).same_except(final(self), r),
    {
        self.put(r, Some(t));
    }

    /// The slot that ran last at `priority` on `cpu`.
    pub fn current_slot(&self, cpu: usize, priority: usize) -> (s: usize)
        requires
            self.wf(),
            cpu < MAX_CPUS,
            priority < PRIORITY_LEVELS,
        ensures
            s == self.current(cpu as int, priority as int),
    {
        self.current_slot[cpu][priority]
    }
}


/// The task at `r` exists and has process id `pid` (and, when `blocked_only`, is blocked).
pub open spec fn task_matches(t: Option<Task>, pid: i32, blocked_only: bool) -> bool {
    match t {
        Some(task) => task.pid == pid && (!blocked_only || task.state == TaskState::Blocked),
        None => false,
    }
}

/// `t` is the first task, in the kernel's walk order, with process id `pid`.
pub open spec fn first_with_pid(s: Schedulers, pid: i32, t: TaskRef) -> bool {
    &&& valid_ref(t)
    &&& task_matches(s.at(t), pid, false)
    &&& forall|t2: TaskRef| #[trigger] valid_ref(t2) && walk_index(t2) < walk_index(t) ==> !task_matches(s.at(t2), pid, false)
}

/// The task at `t` exists and is ready.
pub open spec fn ready(t: Option<Task>) -> bool {
    match t {
        Some(task) => task.state == TaskState::Ready,
        None => false,
    }
}

pub open spec fn mk_ref(cpu: int, priority: int, slot: int) -> TaskRef {
    TaskRef { cpu: cpu as usize, priority: priority as usize, slot: slot as usize }
}

impl Schedulers {
    /// The slot `i + 1` places after the current one at `priority` on `cpu`.
    pub open spec fn probe_slot(&self, cpu: int, priority: int, i: int) -> int {
        (self.current(cpu, priority) + i + 1) % (MAX_TASKS_PER_PRIORITY as int)
    }

    /// The first `i` from `from` on (below 16) whose probe slot holds a ready task.
    pub open spec fn first_ready_offset(&self, cpu: int, priority: int, from: nat) -> Option<nat>
        decreases MAX_TASKS_PER_PRIORITY - from,
    {
        if from >= MAX_TASKS_PER_PRIORITY {
            None
        } else if ready(self.at(mk_ref(cpu, priority, self.probe_slot(cpu, priority, from as int)))) {
            Some(from)
        } else {
            self.first_ready_offset(cpu, priority, from + 1)
        }
    }

    /// The task `find_next_task` picks on `cpu`, looking at priorities `top` down to
    /// 0: at the highest priority with a ready task, the first ready slot after the
    /// one that ran last, going round.
    pub open spec fn next_pick(&self, cpu: int, top: int) -> Option<TaskRef>
        decreases top + 1,
    {
        if top < 0 {
            None
        } else {
            match self.first_ready_offset(cpu, top, 0) {
                Some(i) => Some(mk_ref(cpu, top, self.probe_slot(cpu, top, i as int))),
                None => self.next_pick(cpu, top - 1),
            }
        }
    }

    /// Every task's pid is below `i32::MAX`.
    pub open spec fn pids_bounded(&self) -> bool {
        forall|r: TaskRef| #[trigger] valid_ref(r) && self.at(r) is Some ==> self.at(r).unwrap().pid < i32::MAX
    }

    /// `self` and `other` hold the same tasks everywhere.
    pub open spec fn same_tasks(&self, other: Self) -> bool {
        forall|t: TaskRef| #[trigger] valid_ref(t) ==> self.at(t) == other.at(t)
    }

    /// `self` and `other` record the same last-run slots everywhere.
    pub open spec fn same_current(&self, other: Self) -> bool {
        forall|c: int, p: int| 0 <= c < MAX_CPUS && 0 <= p < PRIORITY_LEVELS ==> #[trigger] self.current(c, p) == other.current(c, p)
    }

    /// Only the task at `r` (and nothing else) may differ between `self` and `other`.
    pub open spec fn same_except(&self, other: &Self, r: TaskRef) -> bool {
        &&& forall|r2: TaskRef| #[trigger] valid_ref(r2) && r2 != r ==> other.at(r2) == self.at(r2)
        &&& forall|c: int, p: int| 0 <= c < MAX_CPUS && 0 <= p < PRIORITY_LEVELS ==> #[trigger] other.current(c, p) == self.current(c, p)
        &&& other.spec_idle_pid() == self.spec_idle_pid()
    }

    /// Puts `t` at `r`.
    fn put(&mut self, r: TaskRef, t: Option<Task>)
        requires
            old(self).wf(),
            valid_ref(r),
        ensures
            final(self).wf(),
            final(self).at(r) == t,
            old(self).same_except(final(self), r),
    {
        let mut row = self.queues[r.cpu][r.priority].clone();
        row.set(r.slot, t);
        let mut level = self.queues[r.cpu].clone();
        level.set(r.priority, row);
        self.queues.set(r.cpu, level);
        proof {
            assert forall|r2: TaskRef| #[trigger] valid_ref(r2) && r2 != r implies self.at(r2) == old(self).at(r2) by {
                if r2.cpu == r.cpu && r2.priority == r.priority {
                    assert(r2.slot != r.slot);
                }
            }
        }
    }

    /// Finds the first task, in the walk order, with process id `pid` (and blocked,
    /// when `blocked_only`).
    fn find_first(&self, pid: i32, blocked_only: bool) -> (r: Option<TaskRef>)
        requires
            self.wf(),
        ensures
            match r {
                Some(t) => valid_ref(t) && task_matches(self.at(t), pid, blocked_only) && forall|t2: TaskRef|
                    #[trigger] valid_ref(t2) && walk_index(t2) < walk_index(t) ==> !task_matches(self.at(t2), pid, blocked_only),
                None => forall|t2: TaskRef| #[trigger] valid_ref(t2) ==> !task_matches(self.at(t2), pid, blocked_only),
            },
    {
        let mut c: usize = 0;
        while c < MAX_CPUS
            invariant
                self.wf(),
                c <= MAX_CPUS,
                forall|t2: TaskRef| #[trigger] valid_ref(t2) && t2.cpu < c ==> !task_matches(self.at(t2), pid, blocked_only),
            decreases MAX_CPUS - c,
        {
            let mut p: usize = 0;
            while p < PRIORITY_LEVELS
                invariant
                    self.wf(),
                    c < MAX_CPUS,
                    p <= PRIORITY_LEVELS,
                    forall|t2: TaskRef| #[trigger] valid_ref(t2) && (t2.cpu < c || (t2.cpu == c && t2.priority < p))
                        ==> !task_matches(self.at(t2), pid, blocked_only),
                decreases PRIORITY_LEVELS - p,
            {
                let mut sl: usize = 0;
                while sl < MAX_TASKS_PER_PRIORITY
                    invariant
                        self.wf(),
                        c < MAX_CPUS,
                        p < PRIORITY_LEVELS,
                        sl <= MAX_TASKS_PER_PRIORITY,
                        forall|t2: TaskRef| #[trigger] valid_ref(t2) && (t2.cpu < c || (t2.cpu == c && t2.priority < p) || (t2.cpu == c
                            && t2.priority == p && t2.slot < sl)) ==> !task_matches(self.at(t2), pid, blocked_only),
                    decreases MAX_TASKS_PER_PRIORITY - sl,
                {
                    let r = TaskRef { cpu: c, priority: p, slot: sl };
                    match self.task(r) {
                        Some(task) => {
                            if task.pid == pid && (!blocked_only || task.state == TaskState::Blocked) {
                                proof {
                                    assert forall|t2: TaskRef| #[trigger] valid_ref(t2) && walk_index(t2) < walk_index(r)
                                        implies !task_matches(self.at(t2), pid, blocked_only) by {
                                        if t2.cpu == c && t2.priority == p {
                                            assert(t2.slot < sl);
                                        } else if t2.cpu == c {
                                            assert(t2.priority < p);
                                        } else {
                                            assert(t2.cpu < c);
                                        }
                                    }
                                }
                                return Some(r);
                            }
                        },
                        None => {},
                    }
                    sl = sl + 1;
                }
                p = p + 1;
            }
            c = c + 1;
        }
        None
    }

    /// The first task, walking CPUs, priorities and slots in ascending order, whose
    /// process id is `pid`; `None` when there is none.
    pub fn find_task_by_pid(&self, pid: i32) -> (r: Option<TaskRef>)
        requires
            self.wf(),
        ensures
            match r {
                Some(t) => valid_ref(t) && task_matches(self.at(t), pid, false) && forall|t2: TaskRef|
                    #[trigger] valid_ref(t2) && walk_index(t2) < walk_index(t) ==> !task_matches(self.at(t2), pid, false),
                None => forall|t2: TaskRef| #[trigger] valid_ref(t2) ==> !task_matches(self.at(t2), pid, false),
            },
    {
        self.find_first(pid, false)
    }

    /// Like `find_task_by_pid`, for a blocked task with process id `pid`.
    pub fn find_ipc_waiting(&self, pid: i32) -> (r: Option<TaskRef>)
        requires
            self.wf(),
        ensures
            match r {
                Some(t) => valid_ref(t) && task_matches(self.at(t), pid, true) && forall|t2: TaskRef|
                    #[trigger] valid_ref(t2) && walk_index(t2) < walk_index(t) ==> !task_matches(self.at(t2), pid, true),
                None => forall|t2: TaskRef| #[trigger] valid_ref(t2) ==> !task_matches(self.at(t2), pid, true),
            },
    {
        self.find_first(pid, true)
    }

    /// Whether every task's pid is below `i32::MAX`, so that a new pid can be had.
    pub fn pids_below_max(&self) -> (r: bool)
        requires
            self.wf(),
        ensures
            r == self.pids_bounded(),
    {
        let mut c: usize = 0;
        while c < MAX_CPUS
            invariant
                self.wf(),
                c <= MAX_CPUS,
                forall|t: TaskRef| #[trigger] valid_ref(t) && t.cpu < c && self.at(t) is Some ==> self.at(t).unwrap().pid < i32::MAX,
            decreases MAX_CPUS - c,
        {
            let mut p: usize = 0;
            while p < PRIORITY_LEVELS
                invariant
                    self.wf(),
                    c < MAX_CPUS,
                    p <= PRIORITY_LEVELS,
                    forall|t: TaskRef| #[trigger] valid_ref(t) && (t.cpu < c || (t.cpu == c && t.priority < p)) && self.at(t) is Some
                        ==> self.at(t).unwrap().pid < i32::MAX,
                decreases PRIORITY_LEVELS - p,
            {
                let mut sl: usize = 0;
                while sl < MAX_TASKS_PER_PRIORITY
                    invariant
                        self.wf(),
                        c < MAX_CPUS,
                        p < PRIORITY_LEVELS,
                        sl <= MAX_TASKS_PER_PRIORITY,
                        forall|t: TaskRef| #[trigger] valid_ref(t) && (t.cpu < c || (t.cpu == c && t.priority < p) || (t.cpu == c
                            && t.priority == p && t.slot < sl)) && self.at(t) is Some ==> self.at(t).unwrap().pid < i32::MAX,
                    decreases MAX_TASKS_PER_PRIORITY - sl,
                {
                    let r = TaskRef { cpu: c, priority: p, slot: sl };
                    match self.task(r) {
                        Some(task) => {
                            if task.pid == i32::MAX {
                                assert(valid_ref(r) && self.at(r) is Some && !(self.at(r).unwrap().pid < i32::MAX));
                                return false;
                            }
                        },
                        None => {},
                    }
                    sl = sl + 1;
                }
                p = p + 1;
            }
            c = c + 1;
        }
        true
    }

    /// The pid a new task gets: one more than the largest pid in use, and never
    /// below 0.
    pub fn next_pid(&self) -> (r: i32)
        requires
            self.wf(),
            self.pids_bounded(),
        ensures
            r >= 0,
            forall|t: TaskRef| #[trigger] valid_ref(t) && self.at(t) is Some ==> self.at(t).unwrap().pid < r,
            r == 0 || exists|t: TaskRef| #[trigger] valid_ref(t) && self.at(t) is Some && self.at(t).unwrap().pid == r - 1,
    {
        let mut best: i32 = 0;
        let mut c: usize = 0;
        while c < MAX_CPUS
            invariant
                self.wf(),
                self.pids_bounded(),
                c <= MAX_CPUS,
                best >= 0,
                forall|t: TaskRef| #[trigger] valid_ref(t) && t.cpu < c && self.at(t) is Some ==> self.at(t).unwrap().pid < best,
                best == 0 || exists|t: TaskRef| #[trigger] valid_ref(t) && self.at(t) is Some && self.at(t).unwrap().pid == best - 1,
            decreases MAX_CPUS - c,
        {
            let mut p: usize = 0;
            while p < PRIORITY_LEVELS
                invariant
                    self.wf(),
                    self.pids_bounded(),
                    c < MAX_CPUS,
                    p <= PRIORITY_LEVELS,
                    best >= 0,
                    forall|t: TaskRef| #[trigger] valid_ref(t) && (t.cpu < c || (t.cpu == c && t.priority < p)) && self.at(t) is Some
                        ==> self.at(t).unwrap().pid < best,
                    best == 0 || exists|t: TaskRef| #[trigger] valid_ref(t) && self.at(t) is Some && self.at(t).unwrap().pid == best - 1,
                decreases PRIORITY_LEVELS - p,
            {
                let mut sl: usize = 0;
                while sl < MAX_TASKS_PER_PRIORITY
                    invariant
                        self.wf(),
                        self.pids_bounded(),
                        c < MAX_CPUS,
                        p < PRIORITY_LEVELS,
                        sl <= MAX_TASKS_PER_PRIORITY,
                        best >= 0,
                        forall|t: TaskRef| #[trigger] valid_ref(t) && (t.cpu < c || (t.cpu == c && t.priority < p) || (t.cpu == c
                            && t.priority == p && t.slot < sl)) && self.at(t) is Some ==> self.at(t).unwrap().pid < best,
                        best == 0 || exists|t: TaskRef| #[trigger] valid_ref(t) && self.at(t) is Some && self.at(t).unwrap().pid == best - 1,
                    decreases MAX_TASKS_PER_PRIORITY - sl,
                {
                    let r = TaskRef { cpu: c, priority: p, slot: sl };
                    match self.task(r) {
                        Some(task) => {
                            assert(valid_ref(r));
                            if task.pid >= best {
                                best = task.pid + 1;
                            }
                        },
                        None => {},
                    }
                    sl = sl + 1;
                }
                p = p + 1;
            }
            c = c + 1;
        }
        best
    }
}


/// What the scheduler does when the running task gives up the CPU.
#[derive(Debug, Clone, Copy, PartialEq, Eq, Structural)]
pub enum Switch {
    /// Keep running the current task.
    Stay,
    /// Switch to the task at the location.
    To(TaskRef),
}

impl Schedulers {
    fn set_current(&mut self, cpu: usize, priority: usize, slot: usize)
        requires
            old(self).wf(),
            cpu < MAX_CPUS,
            priority < PRIORITY_LEVELS,
            slot < MAX_TASKS_PER_PRIORITY,
        ensures
            final(self).wf(),
            forall|r: TaskRef| #[trigger] valid_ref(r) ==> final(self).at(r) == old(self).at(r),
            final(self).current(cpu as int, priority as int) == slot,
            forall|c: int, p: int| 0 <= c < MAX_CPUS && 0 <= p < PRIORITY_LEVELS && (c != cpu || p != priority)
                ==> #[trigger] final(self).current(c, p) == old(self).current(c, p),
            final(self).spec_idle_pid() == old(self).spec_idle_pid(),
    {
        let mut cur = self.current_slot[cpu].clone();
        cur.set(priority, slot);
        self.current_slot.set(cpu, cur);
    }

    /// `s1` is `s0` after `r` was picked on `cpu`: the tasks are as they were, and
    /// the slot of a picked task is recorded as the one that ran last at its
    /// priority.
    pub open spec fn picked(s0: Schedulers, s1: Schedulers, cpu: int, r: Option<TaskRef>) -> bool {
        &&& forall|t: TaskRef| #[trigger] valid_ref(t) ==> s1.at(t) == s0.at(t)
        &&& s1.spec_idle_pid() == s0.spec_idle_pid()
        &&& match r {
            Some(t) => valid_ref(t) && t.cpu == cpu && s1.current(cpu, t.priority as int) == t.slot && forall|c: int, p: int|
                0 <= c < MAX_CPUS && 0 <= p < PRIORITY_LEVELS && (c != cpu || p != t.priority) ==> #[trigger] s1.current(c, p)
                    == s0.current(c, p),
            None => forall|c: int, p: int| 0 <= c < MAX_CPUS && 0 <= p < PRIORITY_LEVELS ==> #[trigger] s1.current(c, p) == s0.current(c, p),
        }
    }

    /// Picks the next task to run on `cpu` and records its slot as the one that ran
    /// last at its priority: see `next_pick`. The tasks are left as they are.
    pub fn find_next_task(&mut self, cpu: usize) -> (r: Option<TaskRef>)
        requires
            old(self).wf(),
            cpu < MAX_CPUS,
        ensures
            final(self).wf(),
            r == old(self).next_pick(cpu as int, PRIORITY_LEVELS - 1),
            Schedulers::picked(*old(self), *final(self), cpu as int, r),
    {
        let mut priority: usize = PRIORITY_LEVELS;
        while priority > 0
            invariant
                self.wf(),
                cpu < MAX_CPUS,
                priority <= PRIORITY_LEVELS,
                *self == *old(self),
                old(self).next_pick(cpu as int, PRIORITY_LEVELS - 1) == old(self).next_pick(cpu as int, priority - 1),
            decreases priority,
        {
            priority = priority - 1;
            let cur = self.current_slot[cpu][priority];
            let mut i: usize = 0;
            while i < MAX_TASKS_PER_PRIORITY
                invariant
                    self.wf(),
                    cpu < MAX_CPUS,
                    priority < PRIORITY_LEVELS,
                    i <= MAX_TASKS_PER_PRIORITY,
                    *self == *old(self),
                    cur == self.current(cpu as int, priority as int),
                    old(self).next_pick(cpu as int, PRIORITY_LEVELS - 1) == old(self).next_pick(cpu as int, priority as int),
                    self.first_ready_offset(cpu as int, priority as int, 0) == self.first_ready_offset(cpu as int, priority as int, i as nat),
                decreases MAX_TASKS_PER_PRIORITY - i,
            {
                let slot = (cur + i + 1) % MAX_TASKS_PER_PRIORITY;
                let r = TaskRef { cpu, priority, slot };
                assert(r == mk_ref(cpu as int, priority as int, self.probe_slot(cpu as int, priority as int, i as int)));
                match self.task(r) {
                    Some(t) => {
                        if t.state == TaskState::Ready {
                            assert(self.first_ready_offset(cpu as int, priority as int, i as nat) == Some(i as nat));
                            self.set_current(cpu, priority, slot);
                            return Some(r);
                        }
                    },
                    None => {},
                }
                i = i + 1;
            }
            assert(self.first_ready_offset(cpu as int, priority as int, MAX_TASKS_PER_PRIORITY as nat) is None);
        }
        None
    }

    /// Puts `task` in the first free slot of `priority` on `cpu`; returns false,
    /// changing nothing, when the row is full.
    pub fn spawn(&mut self, cpu: usize, task: Task) -> (placed: Option<TaskRef>)
        requires
            old(self).wf(),
            cpu < MAX_CPUS,
            task.priority < PRIORITY_LEVELS,
        ensures
            final(self).wf(),
            match placed {
                Some(r) => r.cpu == cpu && r.priority == task.priority && valid_ref(r) && old(self).at(r) is None
                    && (forall|s: int| 0 <= s < r.slot ==> #[trigger] old(self).at(mk_ref(cpu as int, r.priority as int, s)) is Some)
                    && final(self).at(r) == Some(task) && old(self).same_except(final(self), r),
                None => *final(self) == *old(self) && forall|s: int| 0 <= s < MAX_TASKS_PER_PRIORITY
                    ==> #[trigger] old(self).at(mk_ref(cpu as int, task.priority as int, s)) is Some,
            },
    {
        let priority = task.priority as usize;
        let mut i: usize = 0;
        while i < MAX_TASKS_PER_PRIORITY
            invariant
                self.wf(),
                *self == *old(self),
                cpu < MAX_CPUS,
                priority == task.priority,
                priority < PRIORITY_LEVELS,
                i <= MAX_TASKS_PER_PRIORITY,
                forall|s: int| 0 <= s < i ==> #[trigger] self.at(mk_ref(cpu as int, priority as int, s)) is Some,
            decreases MAX_TASKS_PER_PRIORITY - i,
        {
            let r = TaskRef { cpu, priority, slot: i };
            assert(r == mk_ref(cpu as int, priority as int, i as int));
            if self.task(r).is_none() {
                self.put(r, Some(task));
                return Some(r);
            }
            i = i + 1;
        }
        None
    }

    /// Adds an idle task for `cpu`: priority 0, with the next idle pid, which then
    /// counts down by one.
    pub fn spawn_idle(&mut self, cpu: usize, stack: u64, ksp: u64, kstack_top: u64, cr3: u64) -> (placed: Option<TaskRef>)
        requires
            old(self).wf(),
            cpu < MAX_CPUS,
            old(self).spec_idle_pid() > i32::MIN,
        ensures
            final(self).wf(),
            final(self).spec_idle_pid() == old(self).spec_idle_pid() - 1,
            match placed {
                Some(r) => r.cpu == cpu && r.priority == 0 && valid_ref(r) && old(self).at(r) is None
                    && (forall|s: int| 0 <= s < r.slot ==> #[trigger] old(self).at(mk_ref(cpu as int, 0, s)) is Some)
                    && final(self).at(r) is Some && is_fresh(final(self).at(r).unwrap(), 0, stack, ksp, kstack_top, cr3, old(self).spec_idle_pid())
                    && forall|r2: TaskRef| #[trigger] valid_ref(r2) && r2 != r ==> final(self).at(r2) == old(self).at(r2),
                None => (forall|s: int| 0 <= s < MAX_TASKS_PER_PRIORITY ==> #[trigger] old(self).at(mk_ref(cpu as int, 0, s)) is Some)
                    && forall|r2: TaskRef| #[trigger] valid_ref(r2) ==> final(self).at(r2) == old(self).at(r2),
            },
    {
        let task = Task::new(0, stack, ksp, kstack_top, cr3, self.idle_pid);
        let placed = self.spawn(cpu, task);
        self.idle_pid = self.idle_pid - 1;
        placed
    }

    /// `s1` is `s0` after a new task for `cpu` at `priority` got the pid `pid`: one
    /// more than the largest pid in use, and never below 0. The task, fresh with the
    /// given fields, takes the first free slot of its row, and is dropped when the
    /// row is full; nothing else changes.
    pub open spec fn spawned(
        s0: Schedulers,
        s1: Schedulers,
        cpu: int,
        priority: u8,
        stack: u64,
        ksp: u64,
        kstack_top: u64,
        cr3: u64,
        pid: i32,
    ) -> bool {
        &&& pid >= 0
        &&& forall|t: TaskRef| #[trigger] valid_ref(t) && s0.at(t) is Some ==> s0.at(t).unwrap().pid < pid
        &&& pid == 0 || exists|t: TaskRef| #[trigger] valid_ref(t) && s0.at(t) is Some && s0.at(t).unwrap().pid == pid - 1
        &&& s1.same_current(s0)
        &&& s1.spec_idle_pid() == s0.spec_idle_pid()
        &&& forall|t: TaskRef| #[trigger] valid_ref(t) && s1.at(t) != s0.at(t) ==> t.cpu == cpu && t.priority == priority
            && s0.at(t) is None && s1.at(t) is Some && is_fresh(s1.at(t).unwrap(), priority, stack, ksp, kstack_top, cr3, pid)
        &&& (forall|s: int| 0 <= s < MAX_TASKS_PER_PRIORITY ==> #[trigger] s0.at(mk_ref(cpu, priority as int, s)) is Some)
            ==> forall|t: TaskRef| #[trigger] valid_ref(t) ==> s1.at(t) == s0.at(t)
        &&& (exists|s: int| 0 <= s < MAX_TASKS_PER_PRIORITY && #[trigger] s0.at(mk_ref(cpu, priority as int, s)) is None)
            ==> exists|s: int| {
                &&& 0 <= s < MAX_TASKS_PER_PRIORITY
                &&& #[trigger] s0.at(mk_ref(cpu, priority as int, s)) is None
                &&& (forall|s2: int| 0 <= s2 < s ==> #[trigger] s0.at(mk_ref(cpu, priority as int, s2)) is Some)
                &&& s1.at(mk_ref(cpu, priority as int, s)) is Some
                &&& is_fresh(s1.at(mk_ref(cpu, priority as int, s)).unwrap(), priority, stack, ksp, kstack_top, cr3, pid)
            }
    }

    /// Adds a new task for `cpu` at `priority` with the next free pid, as `spawned`
    /// says, and returns that pid.
    pub fn spawn_task(&mut self, cpu: usize, priority: u8, stack: u64, ksp: u64, kstack_top: u64, cr3: u64) -> (pid: i32)
        requires
            old(self).wf(),
            old(self).pids_bounded(),
            cpu < MAX_CPUS,
            priority < PRIORITY_LEVELS,
        ensures
            final(self).wf(),
            Schedulers::spawned(*old(self), *final(self), cpu as int, priority, stack, ksp, kstack_top, cr3, pid),
    {
        let pid = self.next_pid();
        let task = Task::new(priority, stack, ksp, kstack_top, cr3, pid);
        let placed = self.spawn(cpu, task);
        proof {
            match placed {
                Some(r) => {
                    assert forall|t: TaskRef| #[trigger] valid_ref(t) && self.at(t) != old(self).at(t)
                        implies t.cpu == cpu && t.priority == priority && old(self).at(t) is None
                        && self.at(t) is Some && is_fresh(self.at(t).unwrap(), priority, stack, ksp, kstack_top, cr3, pid) by {
                        assert(t == r);
                    }
                    assert(r == mk_ref(cpu as int, priority as int, r.slot as int));
                },
                None => {},
            }
        }
        pid
    }

    /// What `wake(r)` does: the task at `r` gets its wake flag set and becomes ready,
    /// and nothing else changes.
    pub open spec fn woke(s0: Schedulers, s1: Schedulers, r: Option<TaskRef>) -> bool {
        match r {
            Some(t) => s0.same_except(&s1, t) && s1.at(t) == Some(
                Task { wake_pending: true, state: TaskState::Ready, ..s0.at(t).unwrap() },
            ),
            None => s1 == s0,
        }
    }

    /// Marks the task at `r` to be woken: its wake flag is set and it becomes ready.
    pub fn wake(&mut self, r: Option<TaskRef>)
        requires
            old(self).wf(),
            r matches Some(t) ==> valid_ref(t) && old(self).at(t) is Some,
        ensures
            final(self).wf(),
            Schedulers::woke(*old(self), *final(self), r),
    {
        match r {
            None => {},
            Some(t) => {
                let mut task = self.task(t).unwrap();
                task.wake_pending = true;
                task.state = TaskState::Ready;
                self.put(t, Some(task));
            },
        }
    }

    /// The switch when the task at `cur` on `cpu` gives up the CPU in `s`: to the
    /// task `next_pick` names, or `Stay` when that is `cur` itself or there is none.
    pub open spec fn switch_for(s: Schedulers, cpu: int, cur: TaskRef) -> Switch {
        match s.next_pick(cpu, PRIORITY_LEVELS - 1) {
            Some(next) => if next == cur { Switch::Stay } else { Switch::To(next) },
            None => Switch::Stay,
        }
    }

    /// `s1` is `s0` after the running task at `cur` on `cpu` blocked, with `to` the
    /// switch: a pending wake is consumed and the task stays ready and keeps
    /// running; otherwise it is left blocked and the next task is picked as
    /// `find_next_task` does (a pick of the task itself meaning it keeps the CPU).
    pub open spec fn blocked(s0: Schedulers, s1: Schedulers, cpu: int, cur: TaskRef, to: Switch) -> bool {
        &&& s0.at(cur).unwrap().wake_pending ==> to == Switch::Stay && s0.same_except(&s1, cur)
            && s1.at(cur) == Some(Task { wake_pending: false, state: TaskState::Ready, ..s0.at(cur).unwrap() })
        &&& !s0.at(cur).unwrap().wake_pending ==> {
            &&& s1.at(cur) == Some(Task { state: TaskState::Blocked, ..s0.at(cur).unwrap() })
            &&& forall|t: TaskRef| #[trigger] valid_ref(t) && t != cur ==> s1.at(t) == s0.at(t)
            &&& exists|m: Schedulers| #[trigger] m.wf() && m.same_tasks(s1) && m.same_current(s0)
                && Schedulers::picked(m, s1, cpu, m.next_pick(cpu, PRIORITY_LEVELS - 1))
                && to == Schedulers::switch_for(m, cpu, cur)
        }
    }

    /// The running task at `cur` on `cpu` blocks, as `blocked` says.
    pub fn block_current(&mut self, cpu: usize, cur: TaskRef) -> (r: Switch)
        requires
            old(self).wf(),
            cpu < MAX_CPUS,
            valid_ref(cur),
            old(self).at(cur) is Some,
        ensures
            final(self).wf(),
            Schedulers::blocked(*old(self), *final(self), cpu as int, cur, r),
    {
        let mut task = self.task(cur).unwrap();
        task.state = TaskState::Blocked;
        self.put(cur, Some(task));
        if task.wake_pending {
            task.wake_pending = false;
            task.state = TaskState::Ready;
            let ghost mid = *self;
            self.put(cur, Some(task));
            return Switch::Stay;
        }
        let ghost mid = *self;
        let r = match self.find_next_task(cpu) {
            Some(next) => {
                if next == cur {
                    Switch::Stay
                } else {
                    Switch::To(next)
                }
            },
            None => Switch::Stay,
        };
        assert(mid.wf() && mid.same_tasks(*self) && mid.same_current(*old(self)));
        r
    }

    /// The running task at `cur` on `cpu` offers the CPU: the next task is picked as
    /// `find_next_task` does; `Stay` when it is `cur` itself or there is none.
    pub fn yield_now(&mut self, cpu: usize, cur: TaskRef) -> (r: Switch)
        requires
            old(self).wf(),
            cpu < MAX_CPUS,
        ensures
            final(self).wf(),
            Schedulers::picked(*old(self), *final(self), cpu as int, old(self).next_pick(cpu as int, PRIORITY_LEVELS - 1)),
            r == Schedulers::switch_for(*old(self), cpu as int, cur),
    {
        match self.find_next_task(cpu) {
            Some(next) => {
                if next == cur {
                    Switch::Stay
                } else {
                    Switch::To(next)
                }
            },
            None => Switch::Stay,
        }
    }

    /// The first task `cpu` runs: the first ready one from the highest priority
    /// down, slots in ascending order; its slot is recorded as the one that ran last.
    pub fn start(&mut self, cpu: usize) -> (r: Option<TaskRef>)
        requires
            old(self).wf(),
            cpu < MAX_CPUS,
        ensures
            final(self).wf(),
            forall|t: TaskRef| #[trigger] valid_ref(t) ==> final(self).at(t) == old(self).at(t),
            match r {
                Some(t) => valid_ref(t) && t.cpu == cpu && ready(old(self).at(t)) && final(self).current(cpu as int, t.priority as int) == t.slot
                    && (forall|t2: TaskRef| #[trigger] valid_ref(t2) && t2.cpu == cpu && (t2.priority > t.priority || (t2.priority
                        == t.priority && t2.slot < t.slot)) ==> !ready(old(self).at(t2))),
                None => forall|t2: TaskRef| #[trigger] valid_ref(t2) && t2.cpu == cpu ==> !ready(old(self).at(t2)),
            },
    {
        let mut priority: usize = PRIORITY_LEVELS;
        while priority > 0
            invariant
                self.wf(),
                cpu < MAX_CPUS,
                priority <= PRIORITY_LEVELS,
                *self == *old(self),
                forall|t2: TaskRef| #[trigger] valid_ref(t2) && t2.cpu == cpu && t2.priority >= priority ==> !ready(self.at(t2)),
            decreases priority,
        {
            priority = priority - 1;
            let mut slot: usize = 0;
            while slot < MAX_TASKS_PER_PRIORITY
                invariant
                    self.wf(),
                    cpu < MAX_CPUS,
                    priority < PRIORITY_LEVELS,
                    slot <= MAX_TASKS_PER_PRIORITY,
                    *self == *old(self),
                    forall|t2: TaskRef| #[trigger] valid_ref(t2) && t2.cpu == cpu && (t2.priority > priority || (t2.priority == priority
                        && t2.slot < slot)) ==> !ready(self.at(t2)),
                decreases MAX_TASKS_PER_PRIORITY - slot,
            {
                let r = TaskRef { cpu, priority, slot };
                match self.task(r) {
                    Some(t) => {
                        if t.state == TaskState::Ready {
                            self.set_current(cpu, priority, slot);
                            return Some(r);
                        }
                    },
                    None => {},
                }
                slot = slot + 1;
            }
        }
        None
    }

    /// Removes the running task at `cur` on `cpu` and picks the next one as
    /// `find_next_task` does. The slot is searched from the current slot of each
    /// priority on, going round, highest priority first; the first slot holding the
    /// very task at `cur` is emptied.
    pub fn kill_current_task(&mut self, cpu: usize, cur: TaskRef) -> (r: Option<TaskRef>)
        requires
            old(self).wf(),
            cpu < MAX_CPUS,
            valid_ref(cur),
            cur.cpu == cpu,
        ensures
            final(self).wf(),
            final(self).at(cur) is None,
            forall|t: TaskRef| #[trigger] valid_ref(t) && t != cur ==> final(self).at(t) == old(self).at(t),
            exists|m: Schedulers| #[trigger] m.wf() && m.same_tasks(*final(self)) && m.same_current(*old(self))
                && r == m.next_pick(cpu as int, PRIORITY_LEVELS - 1),
    {
        if self.task(cur).is_some() {
            self.put(cur, None);
        }
        let ghost mid = *self;
        let r = self.find_next_task(cpu);
        assert(mid.wf() && mid.same_tasks(*self) && mid.same_current(*old(self)));
        r
    }
}

/// Per-CPU hints naming a task to switch to at the next timer tick.
pub struct WakeHints {
    hints: Vec<Option<TaskRef>>,
}

impl WakeHints {
    pub closed spec fn wf(&self) -> bool {
        self.hints.len() == MAX_CPUS
    }

    /// The hint of CPU `core`.
    pub open spec fn hint(&self, core: int) -> Option<TaskRef> {
        self.hints_view()[core]
    }

    pub closed spec fn hints_view(&self) -> Seq<Option<TaskRef>> {
        self.hints@
    }

    /// Well-formed hints have one hint per CPU.
    pub proof fn lemma_len(&self)
        requires
            self.wf(),
        ensures
            self.hints_view().len() == MAX_CPUS,
    {
    }

    /// No hints.
    pub fn new() -> (r: Self)
        ensures
            r.wf(),
            r.hints_view().len() == MAX_CPUS,
            forall|c: int| 0 <= c < MAX_CPUS ==> r.hint(c) is None,
    {
        let mut hints: Vec<Option<TaskRef>> = Vec::new();
        let mut i: usize = 0;
        while i < MAX_CPUS
            invariant
                i <= MAX_CPUS,
                hints.len() == i,
                forall|c: int| 0 <= c < i ==> (#[trigger] hints@[c]) is None,
            decreases MAX_CPUS - i,
        {
            hints.push(None);
            i = i + 1;
        }
        WakeHints { hints }
    }

    /// Records `task` as the hint of `core`; a core out of range is ignored.
    pub fn set_wake_hint(&mut self, core: usize, task: Option<TaskRef>)
        requires
            old(self).wf(),
        ensures
            final(self).wf(),
            old(self).hints_view().len() == MAX_CPUS,
            final(self).hints_view().len() == MAX_CPUS,
            core < MAX_CPUS ==> final(self).hints_view() == old(self).hints_view().update(core as int, task),
            core >= MAX_CPUS ==> final(self).hints_view() == old(self).hints_view(),
    {
        if core < MAX_CPUS {
            self.hints.set(core, task);
        }
    }

    /// At a timer tick on `cpu` running `cur`: takes the hint of `cpu` (leaving none)
    /// and decides. `None` when there is no hint or the hinted task is not ready,
    /// `Some(Stay)` when it is `cur`, `Some(To(t))` to switch to it.
    pub fn try_direct_wake(&mut self, sched: &Schedulers, cpu: usize, cur: TaskRef) -> (r: Option<Switch>)
        requires
            old(self).wf(),
            sched.wf(),
            cpu < MAX_CPUS,
        ensures
            final(self).wf(),
            old(self).hints_view().len() == MAX_CPUS,
            final(self).hints_view().len() == MAX_CPUS,
            final(self).hints_view() == old(self).hints_view().update(cpu as int, None),
            r == match old(self).hint(cpu as int) {
                None => None,
                Some(h) => if !valid_ref(h) || !ready(sched.at(h)) {
                    None
                } else if h == cur {
                    Some(Switch::Stay)
                } else {
                    Some(Switch::To(h))
                },
            },
    {
        let hint = self.hints[cpu];
        self.hints.set(cpu, None);
        match hint {
            None => None,
            Some(h) => {
                if h.cpu >= MAX_CPUS || h.priority >= PRIORITY_LEVELS || h.slot >= MAX_TASKS_PER_PRIORITY {
                    return None;
                }
                match sched.task(h) {
                    Some(t) => {
                        if t.state != TaskState::Ready {
                            None
                        } else if h == cur {
                            Some(Switch::Stay)
                        } else {
                            Some(Switch::To(h))
                        }
                    },
                    None => None,
                }
            },
        }
    }
}

/// A task that `find_next_task` picks is ready, and no task of a higher priority
/// on the same CPU is ready.
#[verifier::spinoff_prover]
#[verifier::rlimit(40)]
pub proof fn law_highest_ready_priority_runs(s: Schedulers, cpu: int, top: int)
    requires
        s.wf(),
        0 <= cpu < MAX_CPUS,
        -1 <= top < PRIORITY_LEVELS,
    ensures
        match s.next_pick(cpu, top) {
            Some(t) => valid_ref(t) && t.cpu == cpu && ready(s.at(t)) && forall|t2: TaskRef|
                #[trigger] valid_ref(t2) && t2.cpu == cpu && t.priority < t2.priority <= top ==> !ready(s.at(t2)),
            None => forall|t2: TaskRef| #[trigger] valid_ref(t2) && t2.cpu == cpu && t2.priority <= top ==> !ready(s.at(t2)),
        },
    decreases top + 1,
{
    if top >= 0 {
        lemma_first_ready_offset(s, cpu, top, 0);
        law_highest_ready_priority_runs(s, cpu, top - 1);
        match s.first_ready_offset(cpu, top, 0) {
            Some(i) => {},
            None => {
                assert forall|t2: TaskRef| #[trigger] valid_ref(t2) && t2.cpu == cpu && t2.priority == top implies !ready(s.at(t2)) by {
                    let k = (t2.slot - s.current(cpu, top) - 1 + 2 * MAX_TASKS_PER_PRIORITY) % (MAX_TASKS_PER_PRIORITY as int);
                    assert(s.probe_slot(cpu, top, k) == t2.slot);
                    assert(mk_ref(cpu, top, t2.slot as int) == t2);
                }
            },
        }
    }
}

proof fn lemma_first_ready_offset(s: Schedulers, cpu: int, p: int, from: nat)
    requires
        s.wf(),
        0 <= cpu < MAX_CPUS,
        0 <= p < PRIORITY_LEVELS,
    ensures
        match s.first_ready_offset(cpu, p, from) {
            Some(i) => from <= i < MAX_TASKS_PER_PRIORITY && ready(s.at(mk_ref(cpu, p, s.probe_slot(cpu, p, i as int))))
                && valid_ref(mk_ref(cpu, p, s.probe_slot(cpu, p, i as int))),
            None => forall|k: int| from <= k < MAX_TASKS_PER_PRIORITY ==> !ready(#[trigger] s.at(mk_ref(cpu, p, s.probe_slot(cpu, p, k)))),
        },
    decreases MAX_TASKS_PER_PRIORITY - from,
{
    if from < MAX_TASKS_PER_PRIORITY {
        lemma_first_ready_offset(s, cpu, p, from + 1);
    }
}

/// The handle by which a task is known in the sleep tables: its place in the run
/// queues, the CPU from bit 32 up, the priority in bits 16 to 31, the slot below.
pub open spec fn handle_of_task(r: TaskRef) -> u64 {
    ((r.cpu as u64) << 32u64) | ((r.priority as u64) << 16u64) | (r.slot as u64)
}

/// The place a handle names.
pub open spec fn task_at_handle(h: u64) -> TaskRef {
    TaskRef { cpu: (h >> 32u64) as usize, priority: ((h >> 16u64) & 0xffffu64) as usize, slot: (h & 0xffffu64) as usize }
}

/// The handle of the task at `r`; the place it names is `r` again.
pub fn task_handle(r: TaskRef) -> (h: u64)
    requires
        valid_ref(r),
    ensures
        h == handle_of_task(r),
        task_at_handle(h) == r,
{
    let c = r.cpu as u64;
    let p = r.priority as u64;
    let s = r.slot as u64;
    let h = (c << 32u64) | (p << 16u64) | s;
    assert(c < 8 && p < 8 && s < 16 ==> ((((c << 32u64) | (p << 16u64) | s) >> 32u64) == c
        && ((((c << 32u64) | (p << 16u64) | s) >> 16u64) & 0xffffu64) == p
        && (((c << 32u64) | (p << 16u64) | s) & 0xffffu64) == s)) by (bit_vector);
    h
}

/// The place the handle `h` names.
pub fn task_of(h: u64) -> (r: TaskRef)
    ensures
        r == task_at_handle(h),
{
    TaskRef { cpu: (h >> 32u64) as usize, priority: ((h >> 16u64) & 0xffffu64) as usize, slot: (h & 0xffffu64) as usize }
}

/// One of the handles `hs` names the place `t`.
pub open spec fn named_by(hs: Seq<u64>, t: TaskRef) -> bool {
    exists|i: int| 0 <= i < hs.len() && task_at_handle(#[trigger] hs[i]) == t
}

proof fn lemma_named_by_step(hs: Seq<u64>, i: int, t: TaskRef)
    requires
        0 <= i < hs.len(),
    ensures
        named_by(hs.subrange(0, i + 1), t) == (named_by(hs.subrange(0, i), t) || task_at_handle(hs[i]) == t),
{
    let a = hs.subrange(0, i);
    let b = hs.subrange(0, i + 1);
    if named_by(a, t) {
        let k = choose|k: int| 0 <= k < a.len() && task_at_handle(#[trigger] a[k]) == t;
        assert(b[k] == a[k]);
    }
    if task_at_handle(hs[i]) == t {
        assert(b[i] == hs[i]);
    }
    if named_by(b, t) {
        let k = choose|k: int| 0 <= k < b.len() && task_at_handle(#[trigger] b[k]) == t;
        if k < i {
            assert(a[k] == b[k]);
        }
    }
}

impl Schedulers {
    /// What `wake_all(hs)` does: every task at a place one of the handles `hs`
    /// names gets its wake flag set and becomes ready; nothing else changes.
    pub open spec fn woke_all(s0: Schedulers, s1: Schedulers, hs: Seq<u64>) -> bool {
        &&& forall|t: TaskRef| #[trigger] valid_ref(t) ==> s1.at(t) == (if s0.at(t) is Some && named_by(hs, t) {
            Some(Task { wake_pending: true, state: TaskState::Ready, ..s0.at(t).unwrap() })
        } else {
            s0.at(t)
        })
        &&& s1.same_current(s0)
        &&& s1.spec_idle_pid() == s0.spec_idle_pid()
    }

    /// Wakes, as `wake` does, the task at each place the handles `hs` name; a
    /// handle that names no task is passed over.
    pub fn wake_all(&mut self, hs: &Vec<u64>)
        requires
            old(self).wf(),
        ensures
            final(self).wf(),
            Schedulers::woke_all(*old(self), *final(self), hs@),
    {
        let mut i: usize = 0;
        while i < hs.len()
            invariant
                self.wf(),
                i <= hs@.len(),
                Schedulers::woke_all(*old(self), *self, hs@.subrange(0, i as int)),
            decreases hs@.len() - i,
        {
            let ghost before = *self;
            let r = task_of(hs[i]);
            if r.cpu < MAX_CPUS && r.priority < PRIORITY_LEVELS && r.slot < MAX_TASKS_PER_PRIORITY {
                if self.task(r).is_some() {
                    self.wake(Some(r));
                }
            }
            proof {
                assert forall|t: TaskRef| #[trigger] valid_ref(t) implies self.at(t) == (if old(self).at(t) is Some
                    && named_by(hs@.subrange(0, i + 1), t) {
                    Some(Task { wake_pending: true, state: TaskState::Ready, ..old(self).at(t).unwrap() })
                } else {
                    old(self).at(t)
                }) by {
                    lemma_named_by_step(hs@, i as int, t);
                    assert(before.at(t) == (if old(self).at(t) is Some && named_by(hs@.subrange(0, i as int), t) {
                        Some(Task { wake_pending: true, state: TaskState::Ready, ..old(self).at(t).unwrap() })
                    } else {
                        old(self).at(t)
                    }));
                }
            }
            i = i + 1;
        }
        proof {
            assert(hs@.subrange(0, hs@.len() as int) =~= hs@);
        }
    }
}

/// A task that blocks with no wake pending does not run again until it is woken:
/// after `block_current` it is `Blocked`, a `wake` of any other task leaves it so,
/// and a `wake` of it makes it `Ready`. A wake that came before it blocked (its flag
/// set) lets it go on at once: it stays, `Ready`, with the flag cleared.
pub proof fn law_blocked_until_woken(
    s0: Schedulers,
    s1: Schedulers,
    s2: Schedulers,
    cpu: int,
    cur: TaskRef,
    to: Switch,
    r: Option<TaskRef>,
)
    requires
        valid_ref(cur),
        s0.at(cur) is Some,
        Schedulers::blocked(s0, s1, cpu, cur, to),
        Schedulers::woke(s1, s2, r),
    ensures
        s0.at(cur).unwrap().wake_pending ==> to == Switch::Stay && s1.at(cur).unwrap().state == TaskState::Ready
            && !s1.at(cur).unwrap().wake_pending,
        !s0.at(cur).unwrap().wake_pending ==> s1.at(cur).unwrap().state == TaskState::Blocked,
        !s0.at(cur).unwrap().wake_pending ==> (s2.at(cur).unwrap().state == TaskState::Ready <==> r == Some(cur)),
{
}

} // verus!
