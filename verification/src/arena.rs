use vstd::prelude::*;

verus! {

/// Mailboxes in the shared arena.
pub const MAX_MAILBOXES: usize = 64;
/// Mailboxes that user programs connect through; the rest belong to interrupts.
pub const MAX_USER_MAILBOXES: usize = 48;
/// Services with an inbox.
pub const MAX_SERVICES: usize = 16;
/// Mailbox indices an inbox holds.
pub const INBOX_CAP: usize = 48;
/// Bytes of an interrupt byte ring.
pub const IRQRING_CAP: usize = 256;
/// Interrupt lines with a byte ring.
pub const MAX_IRQ: usize = 16;
/// Offset of the first message buffer in the arena.
pub const BUFPOOL_OFF: usize = 0x10000;
/// Bytes of one message buffer.
pub const BUF_SIZE: usize = 4096;

/// Mailbox status: free.
pub const MBOX_EMPTY: u32 = 0;
/// Mailbox status: a request waits for the server.
pub const MBOX_REQ: u32 = 1;
/// Mailbox status: a reply waits for the client.
pub const MBOX_REPLY: u32 = 2;

/// Server state: spinning on its inbox.
pub const SRV_SPINNING: u32 = 0;
/// Server state: blocked in the kernel until notified.
pub const SRV_BLOCKED: u32 = 1;

/// A client-to-server channel in the shared arena.
#[derive(Clone, Copy)]
pub struct Mailbox {
    pub client_id: u32,
    pub service_id: u32,
    pub msg_offset: u32,
    pub status: u32,
    pub len: u32,
}

/// The mailboxes a service serves, in the order they connected.
#[derive(Clone, Copy)]
pub struct ServiceInbox {
    pub count: u32,
    pub _pad: u32,
    pub idx: [u32; 48],
}

/// A ring of bytes that an interrupt handler fills and a driver drains.
#[derive(Clone, Copy)]
pub struct IrqRing {
    pub head: u32,
    pub tail: u32,
    pub data: [u8; 256],
}

impl IrqRing {
    /// An empty, zeroed ring: head and tail at slot 0, every byte 0.
    pub fn new() -> (r: Self)
        ensures
            r.wf(),
            r.contents() == Seq::<u8>::empty(),
            r.head == 0,
            r.tail == 0,
            forall|i: int| 0 <= i < IRQRING_CAP ==> r.data@[i] == 0,
    {
        let r = IrqRing { head: 0, tail: 0, data: [0u8; 256] };
        assert(r.contents() =~= Seq::<u8>::empty());
        r
    }

    /// Head and tail index the ring.
    pub open spec fn wf(&self) -> bool {
        self.head < IRQRING_CAP && self.tail < IRQRING_CAP
    }

    /// Number of bytes waiting.
    pub open spec fn count(&self) -> int {
        (self.head as int - self.tail as int + IRQRING_CAP as int) % (IRQRING_CAP as int)
    }

    /// The bytes waiting, oldest first.
    pub open spec fn contents(&self) -> Seq<u8> {
        Seq::new(self.count() as nat, |i: int| self.data@[(self.tail as int + i) % (IRQRING_CAP as int)])
    }

    /// Adds `byte` at the head; when the ring holds `IRQRING_CAP - 1` bytes it is
    /// full and the byte is dropped.
    pub fn irq_ring_push(&mut self, byte: u8)
        requires
            old(self).wf(),
        ensures
            final(self).wf(),
            old(self).count() == IRQRING_CAP - 1 ==> *final(self) == *old(self),
            old(self).count() < IRQRING_CAP - 1 ==> final(self).contents() == old(self).contents().push(byte),
            final(self).contents() == pushed(old(self).contents(), seq![byte]),
    {
        proof {
            let c = old(self).contents();
            assert(seq![byte].drop_last() =~= Seq::<u8>::empty());
            assert(seq![byte].last() == byte);
            assert(pushed(c, Seq::<u8>::empty()) == c);
            assert(c.len() == old(self).count());
            assert(pushed(c, seq![byte]) == if c.len() < IRQRING_CAP - 1 { c.push(byte) } else { c });
        }
        let head = self.head;
        let next = (head + 1) % 256u32;
        assert(next == if head == 255 { 0 } else { head + 1 });
        if next == self.tail {
            assert(self.count() == IRQRING_CAP - 1) by {
                if head == 255 {
                    assert((255int - 0 + 256) % 256 == 255);
                } else {
                    assert((head as int - (head as int + 1) + 256) % 256 == 255);
                }
            }
            return;
        }
        let ghost old_contents = self.contents();
        self.data[head as usize] = byte;
        self.head = next;
        assert(self.contents() =~= old_contents.push(byte));
    }

    /// Takes the oldest byte; `None` when the ring is empty.
    pub fn irq_pop(&mut self) -> (r: Option<u8>)
        requires
            old(self).wf(),
        ensures
            final(self).wf(),
            old(self).count() == 0 ==> r is None && *final(self) == *old(self),
            old(self).count() > 0 ==> r == Some(old(self).contents()[0]) && final(self).contents()
                == old(self).contents().drop_first(),
    {
        let tail = self.tail;
        let head = self.head;
        if tail == head {
            return None;
        }
        let ghost old_contents = self.contents();
        let b = self.data[tail as usize];
        self.tail = (tail + 1) % 256;
        proof {
            let t = tail as int;
            let h = head as int;
            assert(self.count() == old_contents.len() - 1) by {
                if t == 255 {
                    assert(self.tail == 0);
                } else {
                    assert(self.tail == t + 1);
                }
            }
            assert forall|i: int| 0 <= i < self.count() implies #[trigger] self.contents()[i] == old_contents.drop_first()[i] by {
                if t == 255 {
                    assert(self.tail == 0);
                    assert((0 + i) % 256 == (t + (i + 1)) % 256);
                } else {
                    assert(self.tail == t + 1);
                    assert((t + 1 + i) % 256 == (t + (i + 1)) % 256);
                }
            }
        }
        assert(self.contents() =~= old_contents.drop_first());
        Some(b)
    }
}

/// The shared arena: mailboxes, service inboxes, interrupt rings, the mailbox
/// allocation counter and the servers' spinning/blocked states.
pub struct Arena {
    mailboxes: Vec<Mailbox>,
    inboxes: Vec<ServiceInbox>,
    rings: Vec<IrqRing>,
    alloc_next: u32,
    srv_state: Vec<u32>,
    bufs: Vec<Vec<u8>>,
}

impl Arena {
    pub closed spec fn wf(&self) -> bool {
        &&& self.mailboxes.len() == MAX_MAILBOXES
        &&& self.inboxes.len() == MAX_SERVICES
        &&& self.rings.len() == MAX_IRQ
        &&& self.srv_state.len() == MAX_SERVICES
        &&& forall|i: int| 0 <= i < MAX_IRQ ==> (#[trigger] self.rings@[i]).wf()
        &&& self.bufs.len() == MAX_MAILBOXES
        &&& forall|i: int| 0 <= i < MAX_MAILBOXES ==> (#[trigger] self.bufs@[i])@.len() == BUF_SIZE
        &&& forall|i: int| 0 <= i < MAX_MAILBOXES ==> (#[trigger] self.mailboxes@[i]).len <= BUF_SIZE
    }

    /// Mailbox `idx` of `b` is that of `a` with `data` posted as a request; the
    /// other messages, the inboxes, rings, allocation point and server states are
    /// those of `a`.
    pub open spec fn sent(a: Arena, b: Arena, idx: int, data: Seq<u8>) -> bool {
        &&& b.message(idx) == data
        &&& b.mailboxes_view() == a.mailboxes_view().update(
            idx,
            Mailbox { len: data.len() as u32, status: MBOX_REQ, ..a.mailboxes_view()[idx] },
        )
        &&& forall|j: int| 0 <= j < MAX_MAILBOXES && j != idx ==> #[trigger] b.message(j) == a.message(j)
        &&& b.inboxes_view() == a.inboxes_view()
        &&& b.rings_view() == a.rings_view()
        &&& b.spec_alloc_next() == a.spec_alloc_next()
        &&& b.srv_state_view() == a.srv_state_view()
    }

    /// Mailbox `idx` of `b` is that of `a` with `reply` posted as the answer; the
    /// rest is as in `a`.
    pub open spec fn answered(a: Arena, b: Arena, idx: int, reply: Seq<u8>) -> bool {
        &&& b.message(idx) == reply
        &&& b.mailboxes_view() == a.mailboxes_view().update(
            idx,
            Mailbox { len: reply.len() as u32, status: MBOX_REPLY, ..a.mailboxes_view()[idx] },
        )
        &&& forall|j: int| 0 <= j < MAX_MAILBOXES && j != idx ==> #[trigger] b.message(j) == a.message(j)
        &&& b.inboxes_view() == a.inboxes_view()
        &&& b.rings_view() == a.rings_view()
        &&& b.srv_state_view() == a.srv_state_view()
    }

    /// Collecting the reply of mailbox `idx` from `a` gave `r` and left `b`: nothing
    /// while no reply is there, else the reply, the mailbox then empty.
    pub open spec fn received(a: Arena, b: Arena, idx: int, r: Option<Seq<u8>>) -> bool {
        if a.mailboxes_view()[idx].status != MBOX_REPLY {
            r is None && b == a
        } else {
            &&& r == Some(a.message(idx))
            &&& b.mailboxes_view() == a.mailboxes_view().update(idx, Mailbox { status: MBOX_EMPTY, ..a.mailboxes_view()[idx] })
            &&& b.inboxes_view() == a.inboxes_view()
            &&& b.rings_view() == a.rings_view()
            &&& b.srv_state_view() == a.srv_state_view()
        }
    }

    /// The sizes a well-formed arena has.
    pub proof fn lemma_sizes(&self)
        requires
            self.wf(),
        ensures
            self.mailboxes_view().len() == MAX_MAILBOXES,
            self.inboxes_view().len() == MAX_SERVICES,
            self.rings_view().len() == MAX_IRQ,
            self.srv_state_view().len() == MAX_SERVICES,
            forall|i: int| 0 <= i < MAX_IRQ ==> (#[trigger] self.rings_view()[i]).wf(),
    {
    }

    /// The message in the buffer of mailbox `i`: its first `len` bytes.
    pub closed spec fn message(&self, i: int) -> Seq<u8> {
        self.bufs@[i]@.subrange(0, self.mailboxes@[i].len as int)
    }

    pub closed spec fn mailboxes_view(&self) -> Seq<Mailbox> {
        self.mailboxes@
    }

    pub closed spec fn inboxes_view(&self) -> Seq<ServiceInbox> {
        self.inboxes@
    }

    pub closed spec fn rings_view(&self) -> Seq<IrqRing> {
        self.rings@
    }

    pub closed spec fn spec_alloc_next(&self) -> u32 {
        self.alloc_next
    }

    pub closed spec fn srv_state_view(&self) -> Seq<u32> {
        self.srv_state@
    }

    /// A zeroed arena.
    pub fn new() -> (r: Self)
        ensures
            r.wf(),
            r.spec_alloc_next() == 0,
            forall|i: int| 0 <= i < MAX_MAILBOXES ==> (#[trigger] r.mailboxes_view()[i]).status == MBOX_EMPTY,
            forall|i: int| 0 <= i < MAX_SERVICES ==> (#[trigger] r.inboxes_view()[i]).count == 0,
            forall|i: int| 0 <= i < MAX_IRQ ==> (#[trigger] r.rings_view()[i]).contents() == Seq::<u8>::empty(),
            forall|i: int| 0 <= i < MAX_SERVICES ==> (#[trigger] r.srv_state_view()[i]) == SRV_SPINNING,
    {
        let mut mailboxes: Vec<Mailbox> = Vec::new();
        let mut i: usize = 0;
        while i < MAX_MAILBOXES
            invariant
                i <= MAX_MAILBOXES,
                mailboxes.len() == i,
                forall|j: int| 0 <= j < i ==> (#[trigger] mailboxes@[j]).status == MBOX_EMPTY,
                forall|j: int| 0 <= j < i ==> (#[trigger] mailboxes@[j]).len == 0,
            decreases MAX_MAILBOXES - i,
        {
            mailboxes.push(Mailbox { client_id: 0, service_id: 0, msg_offset: 0, status: MBOX_EMPTY, len: 0 });
            i = i + 1;
        }
        let mut inboxes: Vec<ServiceInbox> = Vec::new();
        let mut srv_state: Vec<u32> = Vec::new();
        let mut k: usize = 0;
        while k < MAX_SERVICES
            invariant
                k <= MAX_SERVICES,
                inboxes.len() == k,
                srv_state.len() == k,
                forall|j: int| 0 <= j < k ==> (#[trigger] inboxes@[j]).count == 0,
                forall|j: int| 0 <= j < k ==> (#[trigger] srv_state@[j]) == SRV_SPINNING,
            decreases MAX_SERVICES - k,
        {
            inboxes.push(ServiceInbox { count: 0, _pad: 0, idx: [0u32; 48] });
            srv_state.push(SRV_SPINNING);
            k = k + 1;
        }
        let mut rings: Vec<IrqRing> = Vec::new();
        let mut q: usize = 0;
        while q < MAX_IRQ
            invariant
                q <= MAX_IRQ,
                rings.len() == q,
                forall|j: int| 0 <= j < q ==> (#[trigger] rings@[j]).wf() && rings@[j].contents() == Seq::<u8>::empty(),
            decreases MAX_IRQ - q,
        {
            rings.push(IrqRing::new());
            q = q + 1;
        }
        let mut bufs: Vec<Vec<u8>> = Vec::new();
        let mut b: usize = 0;
        while b < MAX_MAILBOXES
            invariant
                b <= MAX_MAILBOXES,
                bufs.len() == b,
                forall|j: int| 0 <= j < b ==> (#[trigger] bufs@[j])@.len() == BUF_SIZE,
            decreases MAX_MAILBOXES - b,
        {
            bufs.push(vec![0u8; BUF_SIZE]);
            b = b + 1;
        }
        Arena { mailboxes, inboxes, rings, alloc_next: 0, srv_state, bufs }
    }

    /// Mailbox `i`.
    pub fn mailbox(&self, i: usize) -> (r: Mailbox)
        requires
            self.wf(),
            i < MAX_MAILBOXES,
        ensures
            r == self.mailboxes_view()[i as int],
    {
        self.mailboxes[i]
    }

    /// Sets the status of mailbox `i`.
    pub fn set_status(&mut self, i: usize, status: u32)
        requires
            old(self).wf(),
            i < MAX_MAILBOXES,
        ensures
            final(self).wf(),
            final(self).mailboxes_view() == old(self).mailboxes_view().update(i as int, Mailbox { status, ..old(self).mailboxes_view()[i as int] }),
            final(self).inboxes_view() == old(self).inboxes_view(),
            final(self).rings_view() == old(self).rings_view(),
            final(self).spec_alloc_next() == old(self).spec_alloc_next(),
            final(self).srv_state_view() == old(self).srv_state_view(),
    {
        let mut m = self.mailboxes[i];
        m.status = status;
        self.mailboxes.set(i, m);
    }

    /// Records whether the server of `svc` spins or blocks.
    pub fn set_srv_state(&mut self, svc: usize, state: u32)
        requires
            old(self).wf(),
            svc < MAX_SERVICES,
        ensures
            final(self).wf(),
            final(self).srv_state_view() == old(self).srv_state_view().update(svc as int, state),
            final(self).mailboxes_view() == old(self).mailboxes_view(),
            final(self).inboxes_view() == old(self).inboxes_view(),
            final(self).rings_view() == old(self).rings_view(),
            final(self).spec_alloc_next() == old(self).spec_alloc_next(),
    {
        self.srv_state.set(svc, state);
    }

    /// `b` is `a` after mailbox `mbox_idx` was added to the inbox of `service_id`:
    /// the inbox counter goes up by one (wrapping), and the index is stored when the
    /// slot it names is inside the inbox; a service out of range changes nothing.
    /// All else stays.
    pub open spec fn inbox_added(a: Arena, b: Arena, service_id: u32, mbox_idx: u32) -> bool {
        &&& b.mailboxes_view() == a.mailboxes_view()
        &&& b.rings_view() == a.rings_view()
        &&& b.spec_alloc_next() == a.spec_alloc_next()
        &&& b.srv_state_view() == a.srv_state_view()
        &&& service_id >= MAX_SERVICES ==> b.inboxes_view() == a.inboxes_view()
        &&& service_id < MAX_SERVICES ==> {
            let ib = a.inboxes_view()[service_id as int];
            b.inboxes_view() == a.inboxes_view().update(
                service_id as int,
                ServiceInbox {
                    count: (if ib.count == u32::MAX { 0 } else { ib.count + 1 }) as u32,
                    idx: if ib.count < INBOX_CAP {
                        b.inboxes_view()[service_id as int].idx
                    } else {
                        ib.idx
                    },
                    ..ib
                },
            ) && (ib.count < INBOX_CAP ==> b.inboxes_view()[service_id as int].idx@ == ib.idx@.update(
                ib.count as int,
                mbox_idx,
            ))
        }
    }

    /// Adds mailbox `mbox_idx` to the inbox of `service_id`, as `inbox_added` says.
    pub fn inbox_add(&mut self, service_id: u32, mbox_idx: u32)
        requires
            old(self).wf(),
        ensures
            final(self).wf(),
            Arena::inbox_added(*old(self), *final(self), service_id, mbox_idx),
    {
        if service_id as usize >= MAX_SERVICES {
            return;
        }
        let mut ib = self.inboxes[service_id as usize];
        let slot = ib.count;
        ib.count = ib.count.wrapping_add(1);
        if (slot as usize) < INBOX_CAP {
            ib.idx[slot as usize] = mbox_idx;
        }
        self.inboxes.set(service_id as usize, ib);
    }

    /// Entry `k` of the inbox of `service_id` is in use and names a mailbox
    /// holding a request.
    pub open spec fn inbox_entry_waits(&self, service_id: int, k: int) -> bool {
        let ib = self.inboxes_view()[service_id];
        &&& 0 <= k < ib.count
        &&& k < INBOX_CAP
        &&& ib.idx@[k] < MAX_MAILBOXES
        &&& self.mailboxes_view()[ib.idx@[k] as int].status == MBOX_REQ
    }

    /// Whether a request waits in a mailbox of the inbox of `service_id`.
    pub fn inbox_has_req(&self, service_id: u32) -> (r: bool)
        requires
            self.wf(),
        ensures
            r == (service_id < MAX_SERVICES && exists|k: int| #[trigger] self.inbox_entry_waits(service_id as int, k)),
    {
        if service_id as usize >= MAX_SERVICES {
            return false;
        }
        let ib = self.inboxes[service_id as usize];
        let n: usize = if (ib.count as usize) < INBOX_CAP { ib.count as usize } else { INBOX_CAP };
        let mut k: usize = 0;
        while k < n
            invariant
                self.wf(),
                service_id < MAX_SERVICES,
                ib == self.inboxes_view()[service_id as int],
                n <= INBOX_CAP,
                n <= ib.count,
                n == INBOX_CAP || n == ib.count,
                k <= n,
                forall|j: int| 0 <= j < k ==> !(ib.idx@[j] < MAX_MAILBOXES && self.mailboxes_view()[ib.idx@[j] as int].status == MBOX_REQ),
            decreases n - k,
        {
            let mi = ib.idx[k] as usize;
            if mi < MAX_MAILBOXES {
                if self.mailboxes[mi].status == MBOX_REQ {
                    assert(self.inbox_entry_waits(service_id as int, k as int));
                    return true;
                }
            }
            k = k + 1;
        }
        assert forall|j: int| !#[trigger] self.inbox_entry_waits(service_id as int, j) by {}
        false
    }

    /// Pushes `byte` into the ring of interrupt `irq`, as `IrqRing::irq_ring_push` does.
    pub fn irq_ring_push(&mut self, irq: usize, byte: u8)
        requires
            old(self).wf(),
            irq < MAX_IRQ,
        ensures
            final(self).wf(),
            final(self).rings_view()[irq as int].wf(),
            old(self).rings_view()[irq as int].count() == IRQRING_CAP - 1 ==> final(self).rings_view() == old(self).rings_view(),
            old(self).rings_view()[irq as int].count() < IRQRING_CAP - 1 ==> final(self).rings_view()[irq as int].contents()
                == old(self).rings_view()[irq as int].contents().push(byte),
            forall|j: int| 0 <= j < MAX_IRQ && j != irq ==> #[trigger] final(self).rings_view()[j] == old(self).rings_view()[j],
            final(self).mailboxes_view() == old(self).mailboxes_view(),
            final(self).inboxes_view() == old(self).inboxes_view(),
    {
        let mut r = self.rings[irq];
        r.irq_ring_push(byte);
        self.rings.set(irq, r);
        assert(old(self).rings_view()[irq as int].count() == IRQRING_CAP - 1 ==> self.rings@ =~= old(self).rings@);
    }

    /// Pops the oldest byte of the ring of interrupt `irq`, as `IrqRing::irq_pop` does.
    pub fn irq_pop(&mut self, irq: usize) -> (b: Option<u8>)
        requires
            old(self).wf(),
            irq < MAX_IRQ,
        ensures
            final(self).wf(),
            old(self).rings_view()[irq as int].count() == 0 ==> b is None && final(self).rings_view() == old(self).rings_view(),
            old(self).rings_view()[irq as int].count() > 0 ==> b == Some(old(self).rings_view()[irq as int].contents()[0])
                && final(self).rings_view()[irq as int].contents() == old(self).rings_view()[irq as int].contents().drop_first(),
            forall|j: int| 0 <= j < MAX_IRQ && j != irq ==> #[trigger] final(self).rings_view()[j] == old(self).rings_view()[j],
            final(self).mailboxes_view() == old(self).mailboxes_view(),
            final(self).inboxes_view() == old(self).inboxes_view(),
    {
        let mut r = self.rings[irq];
        let b = r.irq_pop();
        self.rings.set(irq, r);
        assert(old(self).rings_view()[irq as int].count() == 0 ==> self.rings@ =~= old(self).rings@);
        b
    }

    /// Connects the calling task `self_pid` to `service_id`: takes the next user
    /// mailbox (the last one once they run out), sets it up empty with its message
    /// buffer, and lists it in the service's inbox as `inbox_add` does. Returns the
    /// mailbox index.
    pub fn mbox_connect(&mut self, service_id: u32, self_pid: i32) -> (idx: usize)
        requires
            old(self).wf(),
        ensures
            final(self).wf(),
            idx == (if old(self).spec_alloc_next() >= MAX_USER_MAILBOXES { MAX_USER_MAILBOXES - 1 } else { old(self).spec_alloc_next() as int }),
            final(self).spec_alloc_next() == (if old(self).spec_alloc_next() == u32::MAX { 0 } else { old(self).spec_alloc_next() + 1 }),
            final(self).mailboxes_view() == old(self).mailboxes_view().update(
                idx as int,
                Mailbox {
                    client_id: self_pid as u32,
                    service_id,
                    msg_offset: (BUFPOOL_OFF + idx * BUF_SIZE) as u32,
                    status: MBOX_EMPTY,
                    len: old(self).mailboxes_view()[idx as int].len,
                },
            ),
            service_id >= MAX_SERVICES ==> final(self).inboxes_view() == old(self).inboxes_view(),
            service_id < MAX_SERVICES ==> {
                let ib = old(self).inboxes_view()[service_id as int];
                &&& final(self).inboxes_view()[service_id as int].count == (if ib.count == u32::MAX { 0 } else { ib.count + 1 }) as u32
                &&& ib.count < INBOX_CAP ==> final(self).inboxes_view()[service_id as int].idx@ == ib.idx@.update(ib.count as int, idx as u32)
                &&& ib.count >= INBOX_CAP ==> final(self).inboxes_view()[service_id as int].idx == ib.idx
                &&& forall|j: int| 0 <= j < MAX_SERVICES && j != service_id ==> #[trigger] final(self).inboxes_view()[j] == old(self).inboxes_view()[j]
            },
            final(self).rings_view() == old(self).rings_view(),
    {
        let raw = self.alloc_next as usize;
        self.alloc_next = self.alloc_next.wrapping_add(1);
        let idx = if raw >= MAX_USER_MAILBOXES { MAX_USER_MAILBOXES - 1 } else { raw };
        let mut mb = self.mailboxes[idx];
        mb.client_id = self_pid as u32;
        mb.service_id = service_id;
        mb.msg_offset = (BUFPOOL_OFF + idx * BUF_SIZE) as u32;
        mb.status = MBOX_EMPTY;
        self.mailboxes.set(idx, mb);
        self.inbox_add(service_id, idx as u32);
        idx
    }

    /// Whether a client must notify the server of `svc`: it does when the server
    /// has said it blocks.
    pub fn notify_if_blocked(&self, svc: u32) -> (r: bool)
        requires
            self.wf(),
        ensures
            r == (svc < MAX_SERVICES && self.srv_state_view()[svc as int] == SRV_BLOCKED),
    {
        if (svc as usize) >= MAX_SERVICES {
            return false;
        }
        self.srv_state[svc as usize] == SRV_BLOCKED
    }

    fn fill_buf(&mut self, idx: usize, data: &[u8])
        requires
            old(self).wf(),
            idx < MAX_MAILBOXES,
            data.len() <= BUF_SIZE,
        ensures
            final(self).wf(),
            final(self).bufs@[idx as int]@.subrange(0, data.len() as int) == data@,
            final(self).mailboxes_view() == old(self).mailboxes_view(),
            final(self).inboxes_view() == old(self).inboxes_view(),
            final(self).rings_view() == old(self).rings_view(),
            final(self).spec_alloc_next() == old(self).spec_alloc_next(),
            final(self).srv_state_view() == old(self).srv_state_view(),
            forall|j: int| 0 <= j < MAX_MAILBOXES && j != idx ==> #[trigger] final(self).message(j) == old(self).message(j),
    {
        let mut b = self.bufs[idx].clone();
        let mut i: usize = 0;
        while i < data.len()
            invariant
                i <= data.len(),
                data.len() <= BUF_SIZE,
                b@.len() == BUF_SIZE,
                b@.subrange(0, i as int) == data@.subrange(0, i as int),
            decreases data.len() - i,
        {
            b.set(i, data[i]);
            i = i + 1;
            assert(b@.subrange(0, i as int) =~= data@.subrange(0, i as int));
        }
        self.bufs.set(idx, b);
        proof {
            assert(data@.subrange(0, data.len() as int) =~= data@);
            assert forall|j: int| 0 <= j < MAX_MAILBOXES && j != idx implies #[trigger] self.message(j) == old(self).message(j) by {
                assert(self.bufs@[j] == old(self).bufs@[j]);
            }
        }
    }

    /// Points mailbox `idx` at a client and a service, with the buffer at
    /// `msg_offset`; its status and length stay.
    pub fn set_route(&mut self, idx: usize, client_id: u32, service_id: u32, msg_offset: u32)
        requires
            old(self).wf(),
            idx < MAX_MAILBOXES,
        ensures
            final(self).wf(),
            final(self).mailboxes_view() == old(self).mailboxes_view().update(
                idx as int,
                Mailbox { client_id, service_id, msg_offset, ..old(self).mailboxes_view()[idx as int] },
            ),
            forall|j: int| 0 <= j < MAX_MAILBOXES ==> #[trigger] final(self).message(j) == old(self).message(j),
            final(self).inboxes_view() == old(self).inboxes_view(),
            final(self).rings_view() == old(self).rings_view(),
            final(self).spec_alloc_next() == old(self).spec_alloc_next(),
            final(self).srv_state_view() == old(self).srv_state_view(),
    {
        let mut m = self.mailboxes[idx];
        m.client_id = client_id;
        m.service_id = service_id;
        m.msg_offset = msg_offset;
        self.mailboxes.set(idx, m);
        proof {
            assert forall|j: int| 0 <= j < MAX_MAILBOXES implies #[trigger] self.message(j) == old(self).message(j) by {
                assert(self.mailboxes@[j].len == old(self).mailboxes@[j].len);
                assert(self.bufs@[j] == old(self).bufs@[j]);
            }
        }
    }

    /// A client posts `data` as the request of mailbox `idx`: the buffer gets the
    /// bytes, the length is set and the status becomes `MBOX_REQ`. Returns whether
    /// the server must be notified (`notify_if_blocked`).
    pub fn mbox_send(&mut self, idx: usize, data: &[u8]) -> (notify: bool)
        requires
            old(self).wf(),
            idx < MAX_MAILBOXES,
            data.len() <= BUF_SIZE,
        ensures
            final(self).wf(),
            Arena::sent(*old(self), *final(self), idx as int, data@),
            notify == (old(self).mailboxes_view()[idx as int].service_id < MAX_SERVICES
                && old(self).srv_state_view()[old(self).mailboxes_view()[idx as int].service_id as int] == SRV_BLOCKED),
    {
        self.fill_buf(idx, data);
        let ghost s1 = *self;
        let mut m = self.mailboxes[idx];
        m.len = data.len() as u32;
        m.status = MBOX_REQ;
        self.mailboxes.set(idx, m);
        proof {
            assert forall|j: int| 0 <= j < MAX_MAILBOXES && j != idx implies #[trigger] self.message(j) == old(self).message(j) by {
                assert(self.mailboxes@[j] == s1.mailboxes@[j]);
                assert(self.bufs == s1.bufs);
                assert(s1.message(j) == old(self).message(j));
            }
        }
        self.notify_if_blocked(m.service_id)
    }

    /// A client collects the reply of mailbox `idx`: `None` while the status is not
    /// `MBOX_REPLY` (the client yields and asks again); else the reply's bytes, and
    /// the mailbox becomes empty.
    pub fn mbox_receive(&mut self, idx: usize) -> (r: Option<Vec<u8>>)
        requires
            old(self).wf(),
            idx < MAX_MAILBOXES,
        ensures
            final(self).wf(),
            Arena::received(
                *old(self),
                *final(self),
                idx as int,
                (match r {
                    Some(v) => Some(v@),
                    None => None,
                }),
            ),
    {
        if self.mailboxes[idx].status != MBOX_REPLY {
            return None;
        }
        let out = self.message_bytes(idx);
        self.set_status(idx, MBOX_EMPTY);
        Some(out)
    }

    /// The message in the buffer of mailbox `idx`.
    pub fn message_bytes(&self, idx: usize) -> (r: Vec<u8>)
        requires
            self.wf(),
            idx < MAX_MAILBOXES,
        ensures
            r@ == self.message(idx as int),
    {
        let n = self.mailboxes[idx].len as usize;
        let mut out: Vec<u8> = Vec::new();
        let mut i: usize = 0;
        while i < n
            invariant
                self.wf(),
                idx < MAX_MAILBOXES,
                n == self.mailboxes@[idx as int].len,
                i <= n,
                out@ == self.message(idx as int).subrange(0, i as int),
            decreases n - i,
        {
            out.push(self.bufs[idx][i]);
            i = i + 1;
            assert(out@ =~= self.message(idx as int).subrange(0, i as int));
        }
        assert(out@ =~= self.message(idx as int));
        out
    }

    /// The server answers mailbox `idx` with `reply`: the buffer gets the bytes, the
    /// length is set and the status becomes `MBOX_REPLY`.
    pub fn mbox_answer(&mut self, idx: usize, reply: &[u8])
        requires
            old(self).wf(),
            idx < MAX_MAILBOXES,
            reply.len() <= BUF_SIZE,
        ensures
            final(self).wf(),
            Arena::answered(*old(self), *final(self), idx as int, reply@),
    {
        self.fill_buf(idx, reply);
        let ghost s1 = *self;
        let mut m = self.mailboxes[idx];
        m.len = reply.len() as u32;
        m.status = MBOX_REPLY;
        self.mailboxes.set(idx, m);
        proof {
            assert forall|j: int| 0 <= j < MAX_MAILBOXES && j != idx implies #[trigger] self.message(j) == old(self).message(j) by {
                assert(self.mailboxes@[j] == s1.mailboxes@[j]);
                assert(self.bufs == s1.bufs);
                assert(s1.message(j) == old(self).message(j));
            }
        }
    }

    /// Entry `k` of the inbox of `svc` names a mailbox holding a request for `svc`.
    pub open spec fn request_at(&self, svc: int, k: int) -> bool {
        let ib = self.inboxes_view()[svc];
        &&& ib.idx@[k] < MAX_MAILBOXES
        &&& self.mailboxes_view()[ib.idx@[k] as int].status == MBOX_REQ
        &&& self.mailboxes_view()[ib.idx@[k] as int].service_id == svc
    }

    /// The entries of the inbox of `svc` that a scan looks at: its count, at most
    /// the inbox's size.
    pub open spec fn scan_len(&self, svc: int) -> int {
        let c = self.inboxes_view()[svc].count;
        if c < INBOX_CAP { c as int } else { INBOX_CAP as int }
    }

    /// The next request a server's scan of its inbox meets from entry `from` on:
    /// the first entry `k` at or after `from`, among those the scan looks at, that
    /// names a mailbox holding a request for `my_service`, with that mailbox; `None`
    /// when there is none. A server answers it (`mbox_answer`) and goes on from
    /// `k + 1`; a mailbox listed twice is then no longer a request.
    pub fn next_request(&self, my_service: u32, from: usize) -> (r: Option<(usize, usize)>)
        requires
            self.wf(),
            my_service < MAX_SERVICES,
        ensures
            match r {
                Some((k, mi)) => from <= k < self.scan_len(my_service as int) && self.request_at(my_service as int, k as int)
                    && mi == self.inboxes_view()[my_service as int].idx@[k as int] && forall|j: int|
                    from <= j < k ==> !#[trigger] self.request_at(my_service as int, j),
                None => forall|j: int| from <= j < self.scan_len(my_service as int) ==> !#[trigger] self.request_at(my_service as int, j),
            },
    {
        proof {
            self.lemma_sizes();
        }
        let ib = self.inboxes[my_service as usize];
        let n: usize = if (ib.count as usize) < INBOX_CAP { ib.count as usize } else { INBOX_CAP };
        let mut k: usize = from;
        while k < n
            invariant
                self.wf(),
                my_service < MAX_SERVICES,
                ib == self.inboxes_view()[my_service as int],
                n == self.scan_len(my_service as int),
                n <= INBOX_CAP,
                from <= k || n <= k,
                forall|j: int| from <= j < k && j < n ==> !#[trigger] self.request_at(my_service as int, j),
            decreases n - k,
        {
            let mi = ib.idx[k] as usize;
            if mi < MAX_MAILBOXES {
                let mb = self.mailboxes[mi];
                if mb.status == MBOX_REQ && mb.service_id == my_service {
                    return Some((k, mi));
                }
            }
            k = k + 1;
        }
        None
    }

    /// The mailboxes a scan of the inbox of `my_service` answers, in inbox order:
    /// those listed among the first `min(count, INBOX_CAP)` entries that name a
    /// mailbox holding a request for `my_service`.
    pub fn pending_requests(&self, my_service: u32) -> (r: Vec<usize>)
        requires
            self.wf(),
            my_service < MAX_SERVICES,
        ensures
            forall|i: int| 0 <= i < r@.len() ==> #[trigger] r@[i] < MAX_MAILBOXES && self.mailboxes_view()[r@[i] as int].status == MBOX_REQ
                && self.mailboxes_view()[r@[i] as int].service_id == my_service,
            r@ == pending_of(self.inboxes_view()[my_service as int], self.mailboxes_view(), my_service, (if self.inboxes_view()[my_service as int].count < INBOX_CAP {
                self.inboxes_view()[my_service as int].count as int
            } else {
                INBOX_CAP as int
            })),
    {
        let ib = self.inboxes[my_service as usize];
        let n: usize = if (ib.count as usize) < INBOX_CAP { ib.count as usize } else { INBOX_CAP };
        let mut out: Vec<usize> = Vec::new();
        let mut k: usize = 0;
        while k < n
            invariant
                self.wf(),
                ib == self.inboxes_view()[my_service as int],
                n <= INBOX_CAP,
                k <= n,
                out@ == pending_of(ib, self.mailboxes_view(), my_service, k as int),
                forall|i: int| 0 <= i < out@.len() ==> #[trigger] out@[i] < MAX_MAILBOXES && self.mailboxes_view()[out@[i] as int].status == MBOX_REQ
                    && self.mailboxes_view()[out@[i] as int].service_id == my_service,
            decreases n - k,
        {
            let mi = ib.idx[k] as usize;
            if mi < MAX_MAILBOXES {
                let mb = self.mailboxes[mi];
                if mb.status == MBOX_REQ && mb.service_id == my_service {
                    out.push(mi);
                }
            }
            k = k + 1;
        }
        out
    }
}

/// The mailboxes among the first `k` entries of `ib` holding a request for `svc`.
pub open spec fn pending_of(ib: ServiceInbox, mbs: Seq<Mailbox>, svc: u32, k: int) -> Seq<usize>
    decreases k,
{
    if k <= 0 {
        Seq::empty()
    } else {
        let mi = ib.idx@[k - 1];
        let rest = pending_of(ib, mbs, svc, k - 1);
        if mi < MAX_MAILBOXES && mbs[mi as int].status == MBOX_REQ && mbs[mi as int].service_id == svc {
            rest.push(mi as usize)
        } else {
            rest
        }
    }
}

/// A byte pushed into a ring that is not full comes out after every byte already
/// waiting, and a pop takes the oldest byte: pushing `b` and popping from a ring
/// with contents `c` yields `c[0]` (or `b` when `c` is empty).
pub proof fn law_irq_ring_fifo(c: Seq<u8>, b: u8)
    requires
        c.len() < IRQRING_CAP - 1,
    ensures
        c.push(b)[0] == if c.len() == 0 { b } else { c[0] },
        c.push(b).drop_first() == if c.len() == 0 { Seq::<u8>::empty() } else { c.drop_first().push(b) },
{
    if c.len() == 0 {
        assert(c.push(b).drop_first() =~= Seq::<u8>::empty());
    } else {
        assert(c.push(b).drop_first() =~= c.drop_first().push(b));
    }
}

/// The contents of a ring after the bytes `bs` are pushed in order onto contents
/// `c`, as `irq_ring_push` does: a byte pushed while the ring holds
/// `IRQRING_CAP - 1` bytes is dropped.
pub open spec fn pushed(c: Seq<u8>, bs: Seq<u8>) -> Seq<u8>
    decreases bs.len(),
{
    if bs.len() == 0 {
        c
    } else {
        let c1 = pushed(c, bs.drop_last());
        if c1.len() < IRQRING_CAP - 1 {
            c1.push(bs.last())
        } else {
            c1
        }
    }
}

/// Bytes pushed into an empty ring come out in the order they went in: after
/// pushing `bs` into an empty ring, it holds the first `min(bs.len(), IRQRING_CAP - 1)`
/// of them, oldest first, so that many pops return them in order (a pop takes
/// `contents()[0]`) and the next pop returns `None`; the later pushes were dropped.
pub proof fn law_irq_ring_keeps_order(bs: Seq<u8>)
    ensures
        pushed(Seq::<u8>::empty(), bs) == bs.subrange(
            0,
            if bs.len() < IRQRING_CAP - 1 { bs.len() as int } else { IRQRING_CAP - 1 },
        ),
    decreases bs.len(),
{
    if bs.len() > 0 {
        let p = bs.drop_last();
        law_irq_ring_keeps_order(p);
        if p.len() < IRQRING_CAP - 1 {
            assert(p.subrange(0, p.len() as int).push(bs.last()) =~= bs.subrange(0, bs.len() as int));
        } else {
            assert(p.subrange(0, IRQRING_CAP - 1) =~= bs.subrange(0, IRQRING_CAP - 1));
        }
    }
}

/// What `k` calls of `irq_pop` return, in order, on a ring holding `c`: a pop of a
/// ring holding bytes returns its oldest and removes it; a pop of an empty ring
/// returns `None` and changes nothing.
pub open spec fn pop_results(c: Seq<u8>, k: nat) -> Seq<Option<u8>>
    decreases k,
{
    if k == 0 {
        Seq::empty()
    } else if c.len() == 0 {
        seq![None].add(pop_results(c, (k - 1) as nat))
    } else {
        seq![Some(c[0])].add(pop_results(c.drop_first(), (k - 1) as nat))
    }
}

proof fn lemma_pop_results(c: Seq<u8>, k: nat)
    ensures
        pop_results(c, k) == Seq::new(k, |i: int| if i < c.len() { Some(c[i]) } else { None::<u8> }),
    decreases k,
{
    if k > 0 {
        if c.len() == 0 {
            lemma_pop_results(c, (k - 1) as nat);
        } else {
            lemma_pop_results(c.drop_first(), (k - 1) as nat);
        }
        assert(pop_results(c, k) =~= Seq::new(k, |i: int| if i < c.len() { Some(c[i]) } else { None::<u8> }));
    }
}

/// The IRQ ring is first in, first out: after the bytes `bs` are pushed into an
/// empty ring with no pop between, the next `k` pops return the first
/// `min(bs.len(), IRQRING_CAP - 1)` of them in the order they were pushed and then
/// `None`; the bytes pushed while the ring was full are gone.
pub proof fn law_irq_pushes_then_pops(bs: Seq<u8>, k: nat)
    ensures
        pop_results(pushed(Seq::<u8>::empty(), bs), k) == Seq::new(
            k,
            |i: int|
                if i < bs.len() && i < IRQRING_CAP - 1 {
                    Some(bs[i])
                } else {
                    None::<u8>
                },
        ),
{
    law_irq_ring_keeps_order(bs);
    let c = pushed(Seq::<u8>::empty(), bs);
    lemma_pop_results(c, k);
    assert(pop_results(c, k) =~= Seq::new(
        k,
        |i: int|
            if i < bs.len() && i < IRQRING_CAP - 1 {
                Some(bs[i])
            } else {
                None::<u8>
            },
    ));
}

/// An answered request is not met again: after mailbox `idx` is answered, no
/// inbox entry that names it holds a request, so a scan that goes on answers each
/// request once, even a mailbox listed twice.
pub proof fn law_answered_not_pending(a: Arena, b: Arena, idx: int, reply: Seq<u8>, svc: int, k: int)
    requires
        a.wf(),
        0 <= idx < MAX_MAILBOXES,
        0 <= svc < MAX_SERVICES,
        Arena::answered(a, b, idx, reply),
        b.inboxes_view()[svc].idx@[k] == idx,
    ensures
        !b.request_at(svc, k),
{
    a.lemma_sizes();
}

/// A call goes through a mailbox: the request a client sends is what the
/// service finds there, the answer the service posts is what the client then
/// collects, and the mailbox is empty again.
pub proof fn law_call_round_trip(
    a0: Arena,
    a1: Arena,
    a2: Arena,
    a3: Arena,
    idx: int,
    req: Seq<u8>,
    reply: Seq<u8>,
    got: Option<Seq<u8>>,
)
    requires
        a0.wf(),
        0 <= idx < MAX_MAILBOXES,
        Arena::sent(a0, a1, idx, req),
        Arena::answered(a1, a2, idx, reply),
        Arena::received(a2, a3, idx, got),
    ensures
        a1.message(idx) == req,
        got == Some(reply),
        a3.mailboxes_view()[idx].status == MBOX_EMPTY,
{
    a0.lemma_sizes();
    assert(a2.mailboxes_view()[idx].status == MBOX_REPLY);
}

} // verus!
