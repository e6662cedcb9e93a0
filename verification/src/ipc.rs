use vstd::prelude::*;
use crate::scheduler::{Schedulers, Task, TaskRef, TaskState};

verus! {

/// Bytes a message holds at most.
pub const MAX_IPC_MSG_LEN: usize = 4096;
/// Connections a task can hold.
pub const MAX_IPC_CONNECTIONS_PER_TASK: usize = 32;
/// Messages in the kernel's message pool.
pub const IPC_POOL_SIZE: usize = 128;

/// A message buffer of the kernel's pool.
#[derive(Clone, Copy)]
pub struct IPCMessage {
    pub data: [u8; 4096],
    pub len: usize,
}

impl IPCMessage {
    /// A zeroed message whose length is the full buffer.
    pub fn default() -> (r: Self)
        ensures
            r.len == MAX_IPC_MSG_LEN,
            forall|i: int| 0 <= i < MAX_IPC_MSG_LEN ==> r.data@[i] == 0,
    {
        IPCMessage { data: [0u8; 4096], len: MAX_IPC_MSG_LEN }
    }

    /// A zeroed message of length 0: a slot of the pool before first use.
    pub fn empty() -> (r: Self)
        ensures
            r.len == 0,
            forall|i: int| 0 <= i < MAX_IPC_MSG_LEN ==> r.data@[i] == 0,
    {
        IPCMessage { data: [0u8; 4096], len: 0 }
    }
}

/// The state of one end of a connection.
#[derive(Debug, Clone, Copy, PartialEq, Eq, Structural)]
pub enum IPCState {
    Open,
    AwaitingReply,
    PeerDead,
}

/// One end of a connection between two tasks.
#[derive(Clone, Copy)]
pub struct IPCConnection {
    pub peer_pid: i32,
    pub state: IPCState,
    pub ipc_pool_idx: i32,
    pub has_msg: bool,
}

impl IPCConnection {
    /// A connection to no one: peer -1, peer dead, no message slot, no message.
    pub fn default() -> (r: Self)
        ensures
            r.peer_pid == -1,
            r.state == IPCState::PeerDead,
            r.ipc_pool_idx == -1,
            !r.has_msg,
    {
        IPCConnection { peer_pid: -1, state: IPCState::PeerDead, ipc_pool_idx: -1, has_msg: false }
    }
}

/// The pool of message buffers and which of them are in use.
pub struct MessagePool {
    messages: Vec<IPCMessage>,
    used: Vec<bool>,
}

impl MessagePool {
    pub closed spec fn wf(&self) -> bool {
        self.messages.len() == IPC_POOL_SIZE && self.used.len() == IPC_POOL_SIZE
    }

    /// Every slot is in use.
    pub open spec fn full(&self) -> bool {
        forall|i: int| 0 <= i < IPC_POOL_SIZE ==> #[trigger] self.used_view()[i]
    }

    /// Which slots are in use.
    pub closed spec fn used_view(&self) -> Seq<bool> {
        self.used@
    }

    /// The message in each slot.
    pub closed spec fn messages_view(&self) -> Seq<IPCMessage> {
        self.messages@
    }

    /// A pool of `IPC_POOL_SIZE` empty, unused slots.
    pub fn new() -> (r: Self)
        ensures
            r.wf(),
            r.used_view() == Seq::new(IPC_POOL_SIZE as nat, |i: int| false),
            forall|i: int| 0 <= i < IPC_POOL_SIZE ==> (#[trigger] r.messages_view()[i]).len == 0,
    {
        let mut messages: Vec<IPCMessage> = Vec::new();
        let mut used: Vec<bool> = Vec::new();
        let mut i: usize = 0;
        while i < IPC_POOL_SIZE
            invariant
                i <= IPC_POOL_SIZE,
                messages.len() == i,
                used.len() == i,
                forall|j: int| 0 <= j < i ==> !(#[trigger] used@[j]),
                forall|j: int| 0 <= j < i ==> (#[trigger] messages@[j]).len == 0,
            decreases IPC_POOL_SIZE - i,
        {
            messages.push(IPCMessage::empty());
            used.push(false);
            i = i + 1;
        }
        let r = MessagePool { messages, used };
        assert(r.used_view() =~= Seq::new(IPC_POOL_SIZE as nat, |i: int| false));
        r
    }

    /// Takes the first slot not in use and returns its index; -1 when all are in use.
    pub fn alloc_msg(&mut self) -> (r: i32)
        requires
            old(self).wf(),
        ensures
            final(self).wf(),
            final(self).messages_view() == old(self).messages_view(),
            r == -1 <==> old(self).full(),
            r != -1 ==> 0 <= r < IPC_POOL_SIZE && !old(self).used_view()[r as int]
                && (forall|i: int| 0 <= i < r ==> old(self).used_view()[i])
                && final(self).used_view() == old(self).used_view().update(r as int, true),
            r == -1 ==> final(self).used_view() == old(self).used_view(),
    {
        let mut i: usize = 0;
        while i < IPC_POOL_SIZE
            invariant
                self.wf(),
                self.used_view() == old(self).used_view(),
                self.messages_view() == old(self).messages_view(),
                i <= IPC_POOL_SIZE,
                forall|j: int| 0 <= j < i ==> old(self).used_view()[j],
            decreases IPC_POOL_SIZE - i,
        {
            if !self.used[i] {
                self.used.set(i, true);
                return i as i32;
            }
            i = i + 1;
        }
        -1
    }

    /// Marks slot `idx` as free; a negative index is ignored.
    pub fn free_msg(&mut self, idx: i32)
        requires
            old(self).wf(),
            idx < IPC_POOL_SIZE,
        ensures
            final(self).wf(),
            final(self).messages_view() == old(self).messages_view(),
            idx >= 0 ==> final(self).used_view() == old(self).used_view().update(idx as int, false),
            idx < 0 ==> final(self).used_view() == old(self).used_view(),
    {
        if idx >= 0 {
            self.used.set(idx as usize, false);
        }
    }

    /// The message in slot `idx`.
    pub fn message(&self, idx: usize) -> (r: IPCMessage)
        requires
            self.wf(),
            idx < IPC_POOL_SIZE,
        ensures
            r == self.messages_view()[idx as int],
    {
        self.messages[idx]
    }

    /// Fills slot `idx` with the first `n` bytes of `msg`, its length set to `n`;
    /// the bytes beyond `n` keep what they held.
    pub fn store(&mut self, idx: usize, msg: &[u8], n: usize)
        requires
            old(self).wf(),
            idx < IPC_POOL_SIZE,
            n <= MAX_IPC_MSG_LEN,
            n <= msg@.len(),
        ensures
            final(self).wf(),
            final(self).used_view() == old(self).used_view(),
            forall|j: int| 0 <= j < IPC_POOL_SIZE && j != idx ==> final(self).messages_view()[j] == old(self).messages_view()[j],
            final(self).messages_view()[idx as int].len == n,
            final(self).messages_view()[idx as int].data@ == msg@.subrange(0, n as int).add(
                old(self).messages_view()[idx as int].data@.subrange(n as int, MAX_IPC_MSG_LEN as int),
            ),
    {
        let mut m = self.messages[idx];
        let ghost orig = m.data@;
        let mut i: usize = 0;
        while i < n
            invariant
                i <= n,
                n <= MAX_IPC_MSG_LEN,
                n <= msg@.len(),
                m.data@.len() == MAX_IPC_MSG_LEN,
                forall|j: int| 0 <= j < i ==> m.data@[j] == msg@[j],
                forall|j: int| i <= j < MAX_IPC_MSG_LEN ==> m.data@[j] == orig[j],
            decreases n - i,
        {
            m.data[i] = msg[i];
            i = i + 1;
        }
        m.len = n;
        assert(m.data@ =~= msg@.subrange(0, n as int).add(orig.subrange(n as int, MAX_IPC_MSG_LEN as int)));
        self.messages.set(idx, m);
    }
}


/// The slot holds a connection to `peer_pid`.
pub open spec fn conn_to(o: Option<IPCConnection>, peer_pid: i32) -> bool {
    match o {
        Some(c) => c.peer_pid == peer_pid,
        None => false,
    }
}

/// The slot holds a connection with a message waiting.
pub open spec fn holds_msg(o: Option<IPCConnection>) -> bool {
    match o {
        Some(c) => c.has_msg,
        None => false,
    }
}

/// The first free connection slot of `task`; -1 when all are taken.
pub fn find_free_ipcd(task: &Task) -> (r: i32)
    ensures
        -1 <= r < MAX_IPC_CONNECTIONS_PER_TASK,
        r == -1 <==> forall|i: int| 0 <= i < MAX_IPC_CONNECTIONS_PER_TASK ==> task.ipc_con@[i] is Some,
        r >= 0 ==> task.ipc_con@[r as int] is None && forall|j: int| 0 <= j < r ==> task.ipc_con@[j] is Some,
{
    let mut i: usize = 0;
    while i < MAX_IPC_CONNECTIONS_PER_TASK
        invariant
            i <= MAX_IPC_CONNECTIONS_PER_TASK,
            forall|j: int| 0 <= j < i ==> task.ipc_con@[j] is Some,
        decreases MAX_IPC_CONNECTIONS_PER_TASK - i,
    {
        if task.ipc_con[i].is_some() {
            i = i + 1;
            continue;
        }
        return i as i32;
    }
    -1
}

/// Opens a connection of `task` to `peer_pid` in its first free slot, in state
/// `Open` with no message; returns the slot, or -1 (changing nothing) when all are taken.
pub fn alloc_con(task: &mut Task, peer_pid: i32) -> (r: i32)
    ensures
        -1 <= r < MAX_IPC_CONNECTIONS_PER_TASK,
        r == -1 <==> forall|i: int| 0 <= i < MAX_IPC_CONNECTIONS_PER_TASK ==> old(task).ipc_con@[i] is Some,
        r == -1 ==> *final(task) == *old(task),
        r >= 0 ==> old(task).ipc_con@[r as int] is None && (forall|j: int| 0 <= j < r ==> old(task).ipc_con@[j] is Some)
            && *final(task) == (Task {
                ipc_con: final(task).ipc_con,
                ..*old(task)
            }) && final(task).ipc_con@ == old(task).ipc_con@.update(
                r as int,
                Some(IPCConnection { peer_pid, state: IPCState::Open, ipc_pool_idx: -1i32, has_msg: false }),
            ),
{
    let ipcd = find_free_ipcd(task);
    if ipcd < 0 {
        return -1;
    }
    let mut con = IPCConnection::default();
    con.peer_pid = peer_pid;
    con.state = IPCState::Open;
    task.ipc_con[ipcd as usize] = Some(con);
    ipcd
}

/// The first connection slot of `task` that is open to `peer_pid`.
pub fn find_conn_to(task: &Task, peer_pid: i32) -> (r: Option<i32>)
    ensures
        match r {
            Some(i) => 0 <= i < MAX_IPC_CONNECTIONS_PER_TASK && conn_to(task.ipc_con@[i as int], peer_pid)
                && forall|j: int| 0 <= j < i ==> !conn_to(#[trigger] task.ipc_con@[j], peer_pid),
            None => forall|j: int| 0 <= j < MAX_IPC_CONNECTIONS_PER_TASK ==> !conn_to(#[trigger] task.ipc_con@[j], peer_pid),
        },
{
    let mut i: usize = 0;
    while i < MAX_IPC_CONNECTIONS_PER_TASK
        invariant
            i <= MAX_IPC_CONNECTIONS_PER_TASK,
            forall|j: int| 0 <= j < i ==> !conn_to(#[trigger] task.ipc_con@[j], peer_pid),
        decreases MAX_IPC_CONNECTIONS_PER_TASK - i,
    {
        match task.ipc_con[i] {
            None => {},
            Some(c) => {
                if c.peer_pid == peer_pid {
                    return Some(i as i32);
                }
            },
        }
        i = i + 1;
    }
    None
}

/// The connection `ipcd` names in `t`: `None` for a slot out of range or empty.
pub open spec fn conn_of(t: Task, ipcd: i32) -> Option<IPCConnection> {
    if ipcd < 0 || ipcd >= MAX_IPC_CONNECTIONS_PER_TASK {
        None
    } else {
        t.ipc_con@[ipcd as int]
    }
}

/// `s1` is `s0` with connection slot `i` of the task at `r` set to `c`; all else
/// stays.
pub open spec fn conn_set(s0: Schedulers, s1: Schedulers, r: TaskRef, i: int, c: Option<IPCConnection>) -> bool {
    let t = s0.at(r).unwrap();
    &&& s0.same_except(&s1, r)
    &&& s1.at(r) == Some(Task { ipc_con: s1.at(r).unwrap().ipc_con, ..t })
    &&& s1.at(r).unwrap().ipc_con@ == t.ipc_con@.update(i, c)
}

/// The connection in slot `ipcd` of `task`; `None` for a slot out of range or empty.
pub fn conn(task: &Task, ipcd: i32) -> (r: Option<IPCConnection>)
    ensures
        r == conn_of(*task, ipcd),
{
    if ipcd < 0 || ipcd as usize >= MAX_IPC_CONNECTIONS_PER_TASK {
        return None;
    }
    task.ipc_con[ipcd as usize]
}

/// Every connection of `task` names a message slot inside the pool, or none.
pub open spec fn pool_indices_valid(task: Task) -> bool {
    forall|i: int| 0 <= i < MAX_IPC_CONNECTIONS_PER_TASK ==> (#[trigger] task.ipc_con@[i] matches Some(c) ==> c.ipc_pool_idx < IPC_POOL_SIZE)
}

/// `pool1` and `t1` are `pool0` and `t0` after a message of `msg_len` bytes of
/// `msg` from the task `sender_pid` was delivered to connection `ipcd` of the task,
/// with `r` the result. 1 without delivering when the length is negative, when the
/// task is blocked awaiting a reply on that connection from another peer, or when
/// no message slot can be had; otherwise the first `min(msg_len, MAX_IPC_MSG_LEN)`
/// bytes go to the connection's message slot (taken from the pool if it has none),
/// the connection is marked as holding a message, a blocked task is woken (wake
/// pending, ready), and 0 is returned.
pub open spec fn write_post(
    pool0: MessagePool,
    pool1: MessagePool,
    t0: Task,
    t1: Task,
    ipcd: i32,
    sender_pid: i32,
    msg: Seq<u8>,
    msg_len: i32,
    r: i32,
) -> bool {
    let c = t0.ipc_con@[ipcd as int].unwrap();
    let refused = msg_len < 0 || (t0.state == TaskState::Blocked && c.state == IPCState::AwaitingReply && sender_pid
        != c.peer_pid);
    &&& r == 0 || r == 1
    &&& refused ==> r == 1 && t1 == t0 && pool1 == pool0
    &&& !refused && c.ipc_pool_idx < 0 && pool0.full() ==> r == 1 && pool1.used_view() == pool0.used_view()
        && pool1.messages_view() == pool0.messages_view() && t1 == (Task { ipc_con: t1.ipc_con, ..t0 })
        && t1.ipc_con@ == t0.ipc_con@.update(ipcd as int, Some(IPCConnection { ipc_pool_idx: -1i32, ..c }))
    &&& !refused && (c.ipc_pool_idx >= 0 || !pool0.full()) ==> r == 0
    &&& r == 0 ==> {
        let n = if msg_len < MAX_IPC_MSG_LEN { msg_len as int } else { MAX_IPC_MSG_LEN as int };
        let idx = t1.ipc_con@[ipcd as int].unwrap().ipc_pool_idx as int;
        &&& !refused
        &&& 0 <= idx < IPC_POOL_SIZE
        &&& (c.ipc_pool_idx >= 0 ==> idx == c.ipc_pool_idx && pool1.used_view() == pool0.used_view())
        &&& (c.ipc_pool_idx < 0 ==> !pool0.used_view()[idx] && (forall|j: int| 0 <= j < idx ==> pool0.used_view()[j])
            && pool1.used_view() == pool0.used_view().update(idx, true))
        &&& pool1.messages_view()[idx].len == n
        &&& pool1.messages_view()[idx].data@.subrange(0, n) == msg.subrange(0, n)
        &&& forall|j: int| 0 <= j < IPC_POOL_SIZE && j != idx ==> pool1.messages_view()[j] == pool0.messages_view()[j]
        &&& t1.ipc_con@ == t0.ipc_con@.update(ipcd as int, Some(IPCConnection { ipc_pool_idx: idx as i32, has_msg: true, ..c }))
        &&& t1 == (Task {
            ipc_con: t1.ipc_con,
            state: TaskState::Ready,
            wake_pending: t0.wake_pending || t0.state == TaskState::Blocked,
            ..t0
        })
    }
}

/// Delivers a message of `msg_len` bytes of `msg` from the task `sender_pid` to
/// connection `ipcd` of `task`, as `write_post` says.
pub fn write_ipc(pool: &mut MessagePool, task: &mut Task, ipcd: i32, sender_pid: i32, msg: &[u8], msg_len: i32) -> (r: i32)
    requires
        old(pool).wf(),
        0 <= ipcd < MAX_IPC_CONNECTIONS_PER_TASK,
        old(task).ipc_con@[ipcd as int] is Some,
        pool_indices_valid(*old(task)),
        msg_len >= 0 ==> msg@.len() >= (if msg_len < MAX_IPC_MSG_LEN { msg_len as int } else { MAX_IPC_MSG_LEN as int }),
    ensures
        final(pool).wf(),
        pool_indices_valid(*final(task)),
        write_post(*old(pool), *final(pool), *old(task), *final(task), ipcd, sender_pid, msg@, msg_len, r),
{
    if msg_len < 0 {
        return 1;
    }
    let mut con = task.ipc_con[ipcd as usize].unwrap();
    if task.state == TaskState::Blocked {
        match con.state {
            IPCState::AwaitingReply => {
                if sender_pid != con.peer_pid {
                    return 1;
                }
            },
            _ => {},
        }
    }
    if con.ipc_pool_idx < 0 {
        con.ipc_pool_idx = pool.alloc_msg();
        if con.ipc_pool_idx < 0 {
            task.ipc_con[ipcd as usize] = Some(con);
            return 1;
        }
    }
    let idx = con.ipc_pool_idx as usize;
    let n: usize = if (msg_len as usize) < MAX_IPC_MSG_LEN { msg_len as usize } else { MAX_IPC_MSG_LEN };
    pool.store(idx, msg, n);
    con.has_msg = true;
    task.ipc_con[ipcd as usize] = Some(con);
    if task.state == TaskState::Blocked {
        task.wake_pending = true;
        task.state = TaskState::Ready;
    }
    proof {
        let d = pool.messages_view()[idx as int].data@;
        assert(d.subrange(0, n as int) =~= msg@.subrange(0, n as int));
    }
    0
}

/// Takes the message waiting on connection `ipcd` of `task`: clears the
/// connection's message flag and returns the message; `None` when no message is
/// waiting (the caller then blocks and tries again).
pub fn read_ipc(pool: &MessagePool, task: &mut Task, ipcd: i32) -> (r: Option<IPCMessage>)
    requires
        pool.wf(),
        0 <= ipcd < MAX_IPC_CONNECTIONS_PER_TASK,
        old(task).ipc_con@[ipcd as int] is Some,
        pool_indices_valid(*old(task)),
        old(task).ipc_con@[ipcd as int].unwrap().has_msg ==> old(task).ipc_con@[ipcd as int].unwrap().ipc_pool_idx >= 0,
    ensures
        pool_indices_valid(*final(task)),
        ({
            let c = old(task).ipc_con@[ipcd as int].unwrap();
            &&& !c.has_msg ==> r is None && *final(task) == *old(task)
            &&& c.has_msg ==> r == Some(pool.messages_view()[c.ipc_pool_idx as int]) && final(task).ipc_con@
                == old(task).ipc_con@.update(ipcd as int, Some(IPCConnection { has_msg: false, ..c })) && *final(task) == (Task {
                ipc_con: final(task).ipc_con,
                ..*old(task)
            })
        }),
{
    let mut con = task.ipc_con[ipcd as usize].unwrap();
    if !con.has_msg {
        return None;
    }
    let msg = pool.message(con.ipc_pool_idx as usize);
    con.has_msg = false;
    task.ipc_con[ipcd as usize] = Some(con);
    Some(msg)
}

/// Takes the message waiting on the first connection of `task` that holds one:
/// returns its slot and the message; `None` when no connection holds one.
pub fn recv_any(pool: &MessagePool, task: &mut Task) -> (r: Option<(i32, IPCMessage)>)
    requires
        pool.wf(),
        pool_indices_valid(*old(task)),
        forall|i: int| 0 <= i < MAX_IPC_CONNECTIONS_PER_TASK ==> (#[trigger] old(task).ipc_con@[i] matches Some(c) ==> (c.has_msg ==> c.ipc_pool_idx >= 0)),
    ensures
        pool_indices_valid(*final(task)),
        match r {
            Some((i, m)) => 0 <= i < MAX_IPC_CONNECTIONS_PER_TASK && holds_msg(old(task).ipc_con@[i as int])
                && (forall|j: int| 0 <= j < i ==> !holds_msg(#[trigger] old(task).ipc_con@[j]))
                && m == pool.messages_view()[old(task).ipc_con@[i as int].unwrap().ipc_pool_idx as int]
                && final(task).ipc_con@ == old(task).ipc_con@.update(i as int, Some(IPCConnection { has_msg: false, ..old(task).ipc_con@[i as int].unwrap() }))
                && *final(task) == (Task { ipc_con: final(task).ipc_con, ..*old(task) }),
            None => *final(task) == *old(task) && forall|j: int| 0 <= j < MAX_IPC_CONNECTIONS_PER_TASK ==> !holds_msg(#[trigger] old(task).ipc_con@[j]),
        },
{
    let mut i: usize = 0;
    while i < MAX_IPC_CONNECTIONS_PER_TASK
        invariant
            pool.wf(),
            pool_indices_valid(*old(task)),
            forall|i: int| 0 <= i < MAX_IPC_CONNECTIONS_PER_TASK ==> (#[trigger] old(task).ipc_con@[i] matches Some(c) ==> (c.has_msg ==> c.ipc_pool_idx >= 0)),
            i <= MAX_IPC_CONNECTIONS_PER_TASK,
            *task == *old(task),
            forall|j: int| 0 <= j < i ==> !holds_msg(#[trigger] old(task).ipc_con@[j]),
        decreases MAX_IPC_CONNECTIONS_PER_TASK - i,
    {
        match task.ipc_con[i] {
            Some(c) => {
                if c.has_msg {
                    let idx = c.ipc_pool_idx;
                    assert(old(task).ipc_con@[i as int] matches Some(c) ==> (c.has_msg ==> c.ipc_pool_idx >= 0));
                    assert(old(task).ipc_con@[i as int] matches Some(c) ==> c.ipc_pool_idx < IPC_POOL_SIZE);
                    let m = pool.message(idx as usize);
                    let mut c2 = c;
                    c2.has_msg = false;
                    task.ipc_con[i] = Some(c2);
                    return Some((i as i32, m));
                }
            },
            None => {},
        }
        i = i + 1;
    }
    None
}

/// Services the kernel tracks.
pub const MAX_SERVICES: usize = 16;

/// The task serving a service, and its CPU.
#[derive(Clone, Copy)]
pub struct ServerReg {
    pub pid: i32,
    pub core: u32,
    pub used: bool,
}

/// The registry of service servers.
pub struct Servers {
    regs: Vec<ServerReg>,
}

impl Servers {
    pub closed spec fn wf(&self) -> bool {
        self.regs.len() == MAX_SERVICES
    }

    pub closed spec fn view(&self) -> Seq<ServerReg> {
        self.regs@
    }

    /// No service registered.
    pub fn new() -> (r: Self)
        ensures
            r.wf(),
            forall|i: int| 0 <= i < MAX_SERVICES ==> r.view()[i] == (ServerReg { pid: -1i32, core: 0u32, used: false }),
    {
        let mut regs: Vec<ServerReg> = Vec::new();
        let mut i: usize = 0;
        while i < MAX_SERVICES
            invariant
                i <= MAX_SERVICES,
                regs.len() == i,
                forall|j: int| 0 <= j < i ==> regs@[j] == (ServerReg { pid: -1i32, core: 0u32, used: false }),
            decreases MAX_SERVICES - i,
        {
            regs.push(ServerReg { pid: -1i32, core: 0u32, used: false });
            i = i + 1;
        }
        Servers { regs }
    }

    /// Records the task `pid` on CPU `core` as the server of `service_id`; an id out
    /// of range is ignored.
    pub fn register_server(&mut self, service_id: u32, pid: i32, core: u32)
        requires
            old(self).wf(),
        ensures
            final(self).wf(),
            service_id < MAX_SERVICES ==> final(self).view() == old(self).view().update(
                service_id as int,
                ServerReg { pid, core, used: true },
            ),
            service_id >= MAX_SERVICES ==> final(self).view() == old(self).view(),
    {
        if (service_id as usize) < MAX_SERVICES {
            self.regs.set(service_id as usize, ServerReg { pid, core, used: true });
        }
    }

    /// The server to wake for `service_id`: its pid and CPU, when one is registered.
    pub fn wake_server(&self, service_id: u32) -> (r: Option<(i32, u32)>)
        requires
            self.wf(),
        ensures
            r == (if service_id >= MAX_SERVICES || !self.view()[service_id as int].used {
                None
            } else {
                Some((self.view()[service_id as int].pid, self.view()[service_id as int].core))
            }),
    {
        if service_id as usize >= MAX_SERVICES {
            return None;
        }
        let s = self.regs[service_id as usize];
        if !s.used {
            return None;
        }
        Some((s.pid, s.core))
    }

    /// Unregisters every service that the task `pid` serves.
    pub fn release_server_by_pid(&mut self, pid: i32)
        requires
            old(self).wf(),
        ensures
            final(self).wf(),
            forall|i: int| 0 <= i < MAX_SERVICES ==> #[trigger] final(self).view()[i] == (if old(self).view()[i].used
                && old(self).view()[i].pid == pid {
                ServerReg { pid: -1i32, core: 0u32, used: false }
            } else {
                old(self).view()[i]
            }),
    {
        let mut i: usize = 0;
        while i < MAX_SERVICES
            invariant
                self.wf(),
                i <= MAX_SERVICES,
                forall|j: int| 0 <= j < i ==> #[trigger] self.view()[j] == (if old(self).view()[j].used && old(self).view()[j].pid == pid {
                    ServerReg { pid: -1i32, core: 0u32, used: false }
                } else {
                    old(self).view()[j]
                }),
                forall|j: int| i <= j < MAX_SERVICES ==> #[trigger] self.view()[j] == old(self).view()[j],
            decreases MAX_SERVICES - i,
        {
            let ghost before = self.regs@;
            assert(self.view()[i as int] == old(self).view()[i as int]);
            assert(before[i as int] == old(self).view()[i as int]);
            if self.regs[i].used && self.regs[i].pid == pid {
                self.regs.set(i, ServerReg { pid: -1i32, core: 0u32, used: false });
            }
            assert(forall|j: int| 0 <= j < MAX_SERVICES && j != i ==> self.regs@[j] == before[j]);
            i = i + 1;
        }
    }
}

} // verus!

