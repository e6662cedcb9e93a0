use vstd::prelude::*;
use crate::arena::{Arena, Mailbox, BUFPOOL_OFF, BUF_SIZE, MAX_IRQ, MAX_USER_MAILBOXES, MBOX_REQ};
use crate::libsys::OP_IRQ;

verus! {

/// The mailbox through which interrupt `irq` reaches its service.
pub open spec fn irq_mailbox(irq: int) -> int {
    MAX_USER_MAILBOXES + irq
}

/// Which service each interrupt line is routed to (-1 for none).
pub struct IrqRoutes {
    handlers: [i32; 16],
}

impl IrqRoutes {
    pub closed spec fn view(&self) -> Seq<i32> {
        self.handlers@
    }

    /// No line routed.
    pub fn new() -> (r: Self)
        ensures
            r@.len() == MAX_IRQ,
            forall|i: int| 0 <= i < MAX_IRQ ==> #[trigger] r@[i] == -1,
    {
        IrqRoutes { handlers: [-1i32; 16] }
    }

    /// The service line `irq` is routed to; -1 for none or a line out of range.
    pub fn route(&self, irq: usize) -> (r: i32)
        ensures
            r == (if irq < MAX_IRQ { self@[irq as int] } else { -1i32 }),
    {
        if irq < 16 {
            self.handlers[irq]
        } else {
            -1
        }
    }

    /// Routes line `irq` to `service_id` and lists its mailbox in the service's
    /// inbox (as `inbox_add`); a line out of range is ignored.
    pub fn register(&mut self, arena: &mut Arena, irq: usize, service_id: u32)
        requires
            old(arena).wf(),
        ensures
            final(arena).wf(),
            irq >= MAX_IRQ ==> final(self)@ == old(self)@ && *final(arena) == *old(arena),
            irq < MAX_IRQ ==> final(self)@ == old(self)@.update(irq as int, service_id as i32)
                && Arena::inbox_added(*old(arena), *final(arena), service_id, (MAX_USER_MAILBOXES + irq) as u32),
    {
        if irq < 16 {
            self.handlers[irq] = service_id as i32;
            arena.inbox_add(service_id, (MAX_USER_MAILBOXES + irq) as u32);
        }
    }

    /// `a1` is `a0` after an interrupt on line `irq` with the routes `routes`, and
    /// `woken` the service to wake: when the line is routed, the byte the keyboard
    /// line brings (`scancode`, for line 1) goes to its ring, and the line's mailbox
    /// is set up as an `OP_IRQ` request of one byte from client 0 to the service.
    /// `None`, changing nothing, for a line out of range or not routed.
    pub open spec fn dispatched(routes: Seq<i32>, a0: Arena, a1: Arena, irq: int, scancode: u8, woken: Option<u32>) -> bool {
        &&& (irq >= MAX_IRQ || routes[irq] < 0) ==> woken is None && a1 == a0
        &&& irq < MAX_IRQ && routes[irq] >= 0 ==> {
            let svc = routes[irq] as u32;
            let mi = irq_mailbox(irq);
            &&& woken == Some(svc)
            &&& a1.message(mi) == seq![OP_IRQ]
            &&& a1.mailboxes_view()[mi] == (Mailbox {
                client_id: 0,
                service_id: svc,
                msg_offset: (BUFPOOL_OFF + mi * BUF_SIZE) as u32,
                status: MBOX_REQ,
                len: 1,
            })
            &&& irq == 1 ==> a1.rings_view()[1].contents() == if a0.rings_view()[1].count() < 255 {
                a0.rings_view()[1].contents().push(scancode)
            } else {
                a0.rings_view()[1].contents()
            }
        }
    }

    /// An interrupt on line `irq`, as `dispatched` says.
    pub fn dispatch(&self, arena: &mut Arena, irq: usize, scancode: u8) -> (woken: Option<u32>)
        requires
            old(arena).wf(),
        ensures
            final(arena).wf(),
            IrqRoutes::dispatched(self@, *old(arena), *final(arena), irq as int, scancode, woken),
    {
        proof {
            old(arena).lemma_sizes();
        }
        if irq >= 16 {
            return None;
        }
        let sid = self.handlers[irq];
        if sid < 0 {
            return None;
        }
        if irq == 1 {
            arena.irq_ring_push(irq, scancode);
        }
        let idx = MAX_USER_MAILBOXES + irq;
        proof {
            arena.lemma_sizes();
        }
        arena.set_route(idx, 0, sid as u32, (BUFPOOL_OFF + idx * BUF_SIZE) as u32);
        let req = [OP_IRQ];
        arena.mbox_send(idx, &req);
        proof {
            assert(req@ =~= seq![OP_IRQ]);
            arena.lemma_sizes();
        }
        Some(sid as u32)
    }
}

} // verus!
