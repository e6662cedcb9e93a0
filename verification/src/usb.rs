use vstd::prelude::*;

verus! {

/// TRBs in a transfer or command ring, the last one being the link back.
pub const RING_SIZE: u32 = 256;
/// TRB types.
pub const TRB_NORMAL: u32 = 1;
pub const TRB_SETUP: u32 = 2;
pub const TRB_DATA: u32 = 3;
pub const TRB_STATUS: u32 = 4;
pub const TRB_LINK: u32 = 6;
pub const TRB_ENABLE_SLOT: u32 = 9;
pub const TRB_ADDRESS_DEVICE: u32 = 11;
pub const TRB_CONFIGURE_ENDPOINT: u32 = 12;
pub const TRB_EVALUATE_CONTEXT: u32 = 13;
pub const TRB_NOOP_CMD: u32 = 23;
/// Event TRB types.
pub const EV_TRANSFER: u32 = 32;
pub const EV_CMD_COMPLETION: u32 = 33;

/// A transfer request block: parameter, status and control words.
#[derive(Debug, Clone, Copy, PartialEq, Eq, Structural)]
pub struct Trb {
    pub param: u64,
    pub status: u32,
    pub control: u32,
}

/// The control word of the link TRB that closes a ring: link type, toggle cycle,
/// and the producer's cycle bit.
pub open spec fn link_control(cycle: u32) -> u32 {
    ((TRB_LINK << 10u32) | 2u32 | cycle) as u32
}

/// A producer ring: its physical base, the slot written next and the producer's
/// cycle bit.
pub struct TrbRing {
    phys: u64,
    enqueue: u32,
    cycle: u32,
}

impl TrbRing {
    pub closed spec fn spec_phys(&self) -> u64 {
        self.phys
    }

    pub closed spec fn spec_enqueue(&self) -> u32 {
        self.enqueue
    }

    pub closed spec fn spec_cycle(&self) -> u32 {
        self.cycle
    }

    pub open spec fn wf(&self) -> bool {
        &&& self.spec_enqueue() < RING_SIZE - 1
        &&& self.spec_cycle() <= 1
        &&& self.spec_phys() + RING_SIZE * 16 <= u64::MAX
    }

    /// A fresh ring at `phys`: slot 0, cycle 1.
    pub fn new(phys: u64) -> (r: Self)
        requires
            phys + RING_SIZE * 16 <= u64::MAX,
        ensures
            r.wf(),
            r.spec_phys() == phys,
            r.spec_enqueue() == 0,
            r.spec_cycle() == 1,
    {
        TrbRing { phys, enqueue: 0, cycle: 1 }
    }

    /// Queues a TRB: it goes to the enqueue slot with the producer's cycle bit
    /// set in its control word. When that fills the slot before the link, the link
    /// TRB (pointing back to the base) is written with the same cycle bit, the
    /// ring wraps to slot 0 and the cycle bit flips. Returns the physical address
    /// of the queued TRB and the writes, as `(slot, TRB)`, in order.
    pub fn push(&mut self, param: u64, status: u32, control: u32) -> (r: (u64, Vec<(u32, Trb)>))
        requires
            old(self).wf(),
        ensures
            final(self).wf(),
            final(self).spec_phys() == old(self).spec_phys(),
            r.0 == old(self).spec_phys() + old(self).spec_enqueue() * 16,
            r.1@[0] == (old(self).spec_enqueue(), Trb { param, status, control: control | old(self).spec_cycle() }),
            old(self).spec_enqueue() + 1 < RING_SIZE - 1 ==> r.1@.len() == 1 && final(self).spec_enqueue() == old(self).spec_enqueue()
                + 1 && final(self).spec_cycle() == old(self).spec_cycle(),
            old(self).spec_enqueue() + 1 == RING_SIZE - 1 ==> r.1@.len() == 2 && r.1@[1] == (
                (RING_SIZE - 1) as u32,
                Trb { param: old(self).spec_phys(), status: 0, control: link_control(old(self).spec_cycle()) },
            ) && final(self).spec_enqueue() == 0 && final(self).spec_cycle() == 1 - old(self).spec_cycle(),
    {
        let idx = self.enqueue;
        let phys = self.phys + (idx as u64) * 16;
        let mut w: Vec<(u32, Trb)> = Vec::new();
        w.push((idx, Trb { param, status, control: control | self.cycle }));
        self.enqueue = self.enqueue + 1;
        if self.enqueue == RING_SIZE - 1 {
            let link = (TRB_LINK << 10u32) | (1u32 << 1u32) | self.cycle;
            assert(1u32 << 1u32 == 2u32) by (bit_vector);
            w.push((RING_SIZE - 1, Trb { param: self.phys, status: 0, control: link }));
            self.enqueue = 0;
            let c = self.cycle;
            assert(c ^ 1 == 1 - c) by (bit_vector)
                requires
                    c <= 1,
            ;
            self.cycle = c ^ 1;
        }
        (phys, w)
    }
}

/// The consumer side of the event ring: the slot read next and the consumer's
/// cycle bit.
pub struct EventRing {
    phys: u64,
    dequeue: u32,
    cycle: u32,
}

/// An event as the driver reads it: TRB type, completion code, parameter and
/// control word.
#[derive(Clone, Copy)]
pub struct Event {
    pub ttype: u32,
    pub code: u32,
    pub param: u64,
    pub control: u32,
}

impl EventRing {
    pub closed spec fn spec_phys(&self) -> u64 {
        self.phys
    }

    pub closed spec fn spec_dequeue(&self) -> u32 {
        self.dequeue
    }

    pub closed spec fn spec_cycle(&self) -> u32 {
        self.cycle
    }

    pub open spec fn wf(&self) -> bool {
        &&& self.spec_dequeue() < RING_SIZE
        &&& self.spec_cycle() <= 1
        &&& self.spec_phys() + RING_SIZE * 16 <= u64::MAX
    }

    /// A fresh event ring at `phys`: slot 0, cycle 1.
    pub fn new(phys: u64) -> (r: Self)
        requires
            phys + RING_SIZE * 16 <= u64::MAX,
        ensures
            r.wf(),
            r.spec_phys() == phys,
            r.spec_dequeue() == 0,
            r.spec_cycle() == 1,
    {
        EventRing { phys, dequeue: 0, cycle: 1 }
    }

    /// The slot the driver reads next.
    pub fn dequeue(&self) -> (r: u32)
        ensures
            r == self.spec_dequeue(),
    {
        self.dequeue
    }

    /// Looks at the TRB in the dequeue slot: when its cycle bit is the consumer's,
    /// it is a new event, which is returned; the ring advances, wrapping to slot 0
    /// with the cycle bit flipped after the last slot. Otherwise nothing is there
    /// yet and nothing changes.
    pub fn consume(&mut self, trb: Trb) -> (r: Option<Event>)
        requires
            old(self).wf(),
        ensures
            final(self).wf(),
            final(self).spec_phys() == old(self).spec_phys(),
            (trb.control & 1u32) != old(self).spec_cycle() ==> r is None && final(self).spec_dequeue() == old(self).spec_dequeue()
                && final(self).spec_cycle() == old(self).spec_cycle(),
            (trb.control & 1u32) == old(self).spec_cycle() ==> r == Some(
                Event {
                    ttype: (trb.control >> 10u32) & 0x3Fu32,
                    code: (trb.status >> 24u32) & 0xFFu32,
                    param: trb.param,
                    control: trb.control,
                },
            ) && if old(self).spec_dequeue() + 1 == RING_SIZE {
                final(self).spec_dequeue() == 0 && final(self).spec_cycle() == 1 - old(self).spec_cycle()
            } else {
                final(self).spec_dequeue() == old(self).spec_dequeue() + 1 && final(self).spec_cycle() == old(self).spec_cycle()
            },
    {
        if trb.control & 1 != self.cycle {
            return None;
        }
        let ev = Event {
            ttype: (trb.control >> 10u32) & 0x3F,
            code: (trb.status >> 24u32) & 0xFF,
            param: trb.param,
            control: trb.control,
        };
        self.dequeue = self.dequeue + 1;
        if self.dequeue == RING_SIZE {
            self.dequeue = 0;
            let c = self.cycle;
            assert(c ^ 1 == 1 - c) by (bit_vector)
                requires
                    c <= 1,
            ;
            self.cycle = c ^ 1;
        }
        Some(ev)
    }

    /// The value written to the dequeue pointer register: the address of the
    /// dequeue slot with the event-handler-busy bit.
    pub fn erdp(&self) -> (r: u64)
        requires
            self.wf(),
        ensures
            r == (self.spec_phys() + self.spec_dequeue() * 16) as u64 | 8u64,
    {
        assert(1u64 << 3u64 == 8u64) by (bit_vector);
        (self.phys + (self.dequeue as u64) * 16) | (1u64 << 3u64)
    }
}

/// The host controller's layout, from its capability registers.
#[derive(Clone, Copy)]
pub struct Caps {
    pub cap_len: u64,
    pub max_slots: u32,
    pub max_ports: u32,
    pub csz: u32,
    pub dboff: u32,
    pub rtsoff: u32,
    pub xecp: u32,
}

/// Decodes the capability registers: the length of the capability block (low
/// byte of the first register), the slot and port counts of HCSPARAMS1, the
/// context size of HCCPARAMS1 (64 bytes when bit 2 is set, else 32), its extended
/// capability pointer, and the doorbell and runtime offsets with their reserved
/// low bits cleared.
pub fn decode_caps(caplength: u32, hcsparams1: u32, hccparams1: u32, dboff: u32, rtsoff: u32) -> (c: Caps)
    ensures
        c.cap_len == caplength & 0xFF,
        c.max_slots == hcsparams1 & 0xFF,
        c.max_ports == (hcsparams1 >> 24u32) & 0xFF,
        c.csz == if hccparams1 & 4 != 0 { 64u32 } else { 32u32 },
        c.xecp == (hccparams1 >> 16u32) & 0xFFFF,
        c.dboff == dboff & !3u32,
        c.rtsoff == rtsoff & !0x1Fu32,
{
    let cl = caplength & 0xFF;
    assert(1u32 << 2u32 == 4u32) by (bit_vector);
    Caps {
        cap_len: cl as u64,
        max_slots: hcsparams1 & 0xFF,
        max_ports: (hcsparams1 >> 24u32) & 0xFF,
        csz: if hccparams1 & (1u32 << 2u32) != 0 { 64 } else { 32 },
        dboff: dboff & !0x3u32,
        rtsoff: rtsoff & !0x1Fu32,
        xecp: (hccparams1 >> 16u32) & 0xFFFF,
    }
}

/// The number of scratchpad buffers the controller asks for, from HCSPARAMS2: the
/// high five bits (21..25) above the low five (27..31).
pub fn scratchpad_count(hcsparams2: u32) -> (r: u32)
    ensures
        r == (((hcsparams2 >> 21u32) & 0x1F) << 5u32) | ((hcsparams2 >> 27u32) & 0x1F),
{
    (((hcsparams2 >> 21u32) & 0x1F) << 5u32) | ((hcsparams2 >> 27u32) & 0x1F)
}

/// A step of the walk of the extended capabilities: the capability with the
/// wanted id is at this offset, the walk goes on at the next offset, or the list
/// ends.
#[derive(Debug, Clone, Copy, PartialEq, Eq, Structural)]
pub enum ExtCapStep {
    Found(u64),
    Next(u64),
    End,
}

/// One step of the extended-capability walk at offset `off`, whose first dword
/// is `cap`: found when its id (low byte) is `id`; else on to the offset its
/// next pointer (bits 8..15, in dwords) gives, or the end when that is zero.
pub fn ext_cap_step(off: u64, cap: u32, id: u32) -> (r: ExtCapStep)
    requires
        off + 0xFF * 4 <= u64::MAX,
    ensures
        r == (if cap & 0xFF == id {
            ExtCapStep::Found(off)
        } else if (cap >> 8u32) as u8 == 0 {
            ExtCapStep::End
        } else {
            ExtCapStep::Next((off + ((cap >> 8u32) as u8) * 4) as u64)
        }),
{
    if cap & 0xFF == id {
        return ExtCapStep::Found(off);
    }
    let next = (cap >> 8u32) as u8;
    if next == 0 {
        ExtCapStep::End
    } else {
        ExtCapStep::Next(off + (next as u64) * 4)
    }
}

/// The eight dwords of a debug-capability endpoint context: three error retries,
/// type `ep_type`, packets of 1024 bytes; the ring at `ring_phys` with the cycle
/// bit; average TRB length 1024.
pub fn dbc_ep_context(ep_type: u32, ring_phys: u64) -> (r: [u32; 8])
    ensures
        r@ == seq![
            0u32,
            (3u32 << 1u32) | (ep_type << 3u32) | (1024u32 << 16u32),
            (ring_phys as u32) | 1u32,
            (ring_phys >> 32u64) as u32,
            1024u32,
            0u32,
            0u32,
            0u32,
        ],
{
    let r = [
        0u32,
        (3u32 << 1u32) | (ep_type << 3u32) | (1024u32 << 16u32),
        (ring_phys as u32) | 1u32,
        (ring_phys >> 32u64) as u32,
        1024u32,
        0u32,
        0u32,
        0u32,
    ];
    assert(r@ =~= seq![
        0u32,
        (3u32 << 1u32) | (ep_type << 3u32) | (1024u32 << 16u32),
        (ring_phys as u32) | 1u32,
        (ring_phys >> 32u64) as u32,
        1024u32,
        0u32,
        0u32,
        0u32,
    ]);
    r
}

/// The nine dwords of the debug capability's info context: the addresses of the
/// language, manufacturer, product and serial string descriptors, low dword
/// first, then their lengths, one byte each.
pub fn dbc_info_context(s0: u64, sm: u64, sp: u64, ss: u64, l0: u8, lm: u8, lp: u8, ls: u8) -> (r: [u32; 9])
    ensures
        r@ == seq![
            s0 as u32,
            (s0 >> 32u64) as u32,
            sm as u32,
            (sm >> 32u64) as u32,
            sp as u32,
            (sp >> 32u64) as u32,
            ss as u32,
            (ss >> 32u64) as u32,
            (l0 as u32) | ((lm as u32) << 8u32) | ((lp as u32) << 16u32) | ((ls as u32) << 24u32),
        ],
{
    let r = [
        s0 as u32,
        (s0 >> 32u64) as u32,
        sm as u32,
        (sm >> 32u64) as u32,
        sp as u32,
        (sp >> 32u64) as u32,
        ss as u32,
        (ss >> 32u64) as u32,
        (l0 as u32) | ((lm as u32) << 8u32) | ((lp as u32) << 16u32) | ((ls as u32) << 24u32),
    ];
    assert(r@ =~= seq![
        s0 as u32,
        (s0 >> 32u64) as u32,
        sm as u32,
        (sm >> 32u64) as u32,
        sp as u32,
        (sp >> 32u64) as u32,
        ss as u32,
        (ss >> 32u64) as u32,
        (l0 as u32) | ((lm as u32) << 8u32) | ((lp as u32) << 16u32) | ((ls as u32) << 24u32),
    ]);
    r
}

/// A port's status register: whether a device is connected, whether the port is
/// enabled, and the speed.
pub open spec fn connected(portsc: u32) -> bool {
    portsc & 1 != 0
}

pub open spec fn port_score(portsc: u32) -> u32 {
    (((portsc >> 1u32) & 1) * 100 + ((portsc >> 10u32) & 0xF)) as u32
}

pub open spec fn port_speed(portsc: u32) -> u32 {
    (portsc >> 10u32) & 0xF
}

/// The best port among the first `n` (`(index, score)`, 0-based; score 0 for
/// none): a connected port whose score (100 when enabled, plus its speed) beats
/// the best so far.
pub open spec fn best_port(ports: Seq<u32>, n: int) -> (int, u32)
    decreases n,
{
    if n <= 0 {
        (-1, 0)
    } else {
        let prev = best_port(ports, n - 1);
        let v = ports[n - 1];
        if connected(v) && port_score(v) > prev.1 {
            (n - 1, port_score(v))
        } else {
            prev
        }
    }
}

/// The port to enumerate, from the status registers of ports 1, 2, ...: the
/// connected port with the highest score, the first on a tie, as its number and
/// speed; `None` when no connected port scores above 0.
pub fn find_port(portsc: &[u32]) -> (r: Option<(u32, u32)>)
    requires
        portsc.len() <= 255,
    ensures
        best_port(portsc@, portsc@.len() as int).0 < 0 ==> r is None,
        best_port(portsc@, portsc@.len() as int).0 >= 0 ==> r == Some(
            (
                (best_port(portsc@, portsc@.len() as int).0 + 1) as u32,
                port_speed(portsc@[best_port(portsc@, portsc@.len() as int).0]),
            ),
        ),
{
    let mut best: usize = 0;
    let mut best_score: u32 = 0;
    let mut n: usize = 0;
    while n < portsc.len()
        invariant
            n <= portsc.len(),
            portsc.len() <= 255,
            best <= n,
            best_port(portsc@, n as int).1 == best_score,
            best_port(portsc@, n as int).0 < 0 <==> best == 0,
            best > 0 ==> best_port(portsc@, n as int).0 == best - 1,
            best_port(portsc@, n as int).0 < n,
        decreases portsc.len() - n,
    {
        let v = portsc[n];
        if v & 1 != 0 {
            assert((v >> 1u32) & 1u32 <= 1 && (v >> 10u32) & 0xFu32 <= 15) by (bit_vector);
            let score = ((v >> 1u32) & 1) * 100 + ((v >> 10u32) & 0xF);
            if score > best_score {
                best_score = score;
                best = n + 1;
            }
        }
        n = n + 1;
        proof {
            lemma_best_port_nonneg(portsc@, n as int);
        }
    }
    if best == 0 {
        return None;
    }
    Some((best as u32, (portsc[best - 1] >> 10u32) & 0xF))
}

proof fn lemma_best_port_nonneg(ports: Seq<u32>, n: int)
    ensures
        best_port(ports, n).0 >= 0 ==> best_port(ports, n).1 > 0,
        best_port(ports, n).0 < 0 ==> best_port(ports, n).1 == 0 && best_port(ports, n).0 == -1,
    decreases n,
{
    if n > 0 {
        lemma_best_port_nonneg(ports, n - 1);
    }
}

/// The value written to a port's status register to reset it: the enable,
/// reset and power bits cleared from `portsc`, then reset and power set.
pub fn port_reset_value(portsc: u32) -> (r: u32)
    ensures
        r == (portsc & !0x212u32) | 0x210u32,
{
    let clear: u32 = 0x212;
    let set: u32 = 0x210;
    (portsc & !clear) | set
}

/// The eight-byte setup packet of a control transfer.
pub open spec fn setup_spec(bm: u8, brq: u8, wval: u16, widx: u16, wlen: u16) -> u64 {
    ((bm as u64) | ((brq as u64) << 8u64) | ((wval as u64) << 16u64) | ((widx as u64) << 32u64) | ((wlen as u64) << 48u64)) as u64
}

/// The TRBs of a control transfer, before their cycle bits: the setup stage
/// (immediate data, with the transfer type: none, IN or OUT), a data stage when
/// `wlen` is not 0, and the status stage (interrupt on completion, direction
/// opposite to the data, IN when there is none).
pub open spec fn control_trbs_spec(bm: u8, brq: u8, wval: u16, widx: u16, wlen: u16, data_phys: u64, dir_in: bool) -> Seq<Trb> {
    let trt: u32 = if wlen == 0 { 0 } else if dir_in { 3 } else { 2 };
    let setup = Trb { param: setup_spec(bm, brq, wval, widx, wlen), status: 8, control: ((TRB_SETUP << 10u32) | 0x40u32 | (trt << 16u32)) as u32 };
    let status_dir: u32 = if wlen == 0 || !dir_in { 0x10000 } else { 0 };
    let st = Trb { param: 0, status: 0, control: ((TRB_STATUS << 10u32) | status_dir | 0x20u32) as u32 };
    if wlen > 0 {
        let data = Trb {
            param: data_phys,
            status: wlen as u32,
            control: ((TRB_DATA << 10u32) | (if dir_in { 0x10000u32 } else { 0u32 })) as u32,
        };
        seq![setup, data, st]
    } else {
        seq![setup, st]
    }
}

/// The TRBs of a control transfer, as `control_trbs_spec` says.
pub fn control_trbs(bm: u8, brq: u8, wval: u16, widx: u16, wlen: u16, data_phys: u64, dir_in: bool) -> (r: Vec<Trb>)
    ensures
        r@ == control_trbs_spec(bm, brq, wval, widx, wlen, data_phys, dir_in),
{
    let setup = (bm as u64) | ((brq as u64) << 8u64) | ((wval as u64) << 16u64) | ((widx as u64) << 32u64) | ((wlen as u64)
        << 48u64);
    let trt: u32 = if wlen == 0 {
        0
    } else if dir_in {
        3
    } else {
        2
    };
    let mut r: Vec<Trb> = Vec::new();
    assert(1u32 << 6u32 == 0x40u32 && 1u32 << 16u32 == 0x10000u32 && 1u32 << 5u32 == 0x20u32) by (bit_vector);
    r.push(Trb { param: setup, status: 8, control: (TRB_SETUP << 10u32) | (1u32 << 6u32) | (trt << 16u32) });
    if wlen > 0 {
        let dir: u32 = if dir_in { 1u32 << 16u32 } else { 0 };
        r.push(Trb { param: data_phys, status: wlen as u32, control: (TRB_DATA << 10u32) | dir });
    }
    let sdir: u32 = if wlen == 0 || !dir_in { 1u32 << 16u32 } else { 0 };
    r.push(Trb { param: 0, status: 0, control: (TRB_STATUS << 10u32) | sdir | (1u32 << 5u32) });
    assert(r@ =~= control_trbs_spec(bm, brq, wval, widx, wlen, data_phys, dir_in));
    r
}

/// The TRB of a bulk transfer: a normal TRB with interrupt on completion.
pub fn bulk_trb(buf_phys: u64, len: u32) -> (r: Trb)
    ensures
        r == (Trb { param: buf_phys, status: len, control: 0x420u32 }),
{
    assert(((1u32 << 10u32) | (1u32 << 5u32)) == 0x420u32) by (bit_vector);
    Trb { param: buf_phys, status: len, control: (1u32 << 10u32) | (1u32 << 5u32) }
}

/// The default control endpoint's packet size before the device says: 512 at
/// super speed (4 and 5), 64 at high speed (3), else 8.
pub fn mps0_for_speed(speed: u32) -> (r: u32)
    ensures
        r == if speed == 4 || speed == 5 { 512u32 } else if speed == 3 { 64u32 } else { 8u32 },
{
    if speed == 4 || speed == 5 {
        512
    } else if speed == 3 {
        64
    } else {
        8
    }
}

/// The default control endpoint's packet size the device descriptor gives by its
/// byte 7: a power of two exponent from super speed on, else the size itself.
pub fn device_mps0(speed: u32, b7: u8) -> (r: u32)
    requires
        speed >= 4 ==> b7 < 32,
    ensures
        speed >= 4 ==> r == 1u32 << b7 as u32,
        speed < 4 ==> r == b7,
{
    if speed >= 4 {
        1u32 << b7 as u32
    } else {
        b7 as u32
    }
}

/// What a configuration descriptor says of a mass-storage interface: its
/// configuration value and its bulk endpoints (address and packet size).
#[derive(Debug, Clone, Copy, PartialEq, Eq, Structural)]
pub struct BulkEndpoints {
    pub cfg_value: u16,
    pub in_addr: u8,
    pub in_mps: u16,
    pub out_addr: u8,
    pub out_mps: u16,
}

/// The walk's state: the endpoints found so far and whether the last interface
/// was a bulk-only SCSI mass-storage interface.
#[derive(Clone, Copy, PartialEq, Eq, Structural)]
pub struct CfgScan {
    pub in_addr: u8,
    pub in_mps: u16,
    pub out_addr: u8,
    pub out_mps: u16,
    pub is_msc: bool,
}

/// Byte `i` of `b`, 0 past its end.
pub open spec fn byte_at(b: Seq<u8>, i: int) -> u8 {
    if 0 <= i < b.len() { b[i] } else { 0 }
}

/// One descriptor at `off`: an interface descriptor (type 4) sets whether the
/// interface is mass storage (class 8, subclass 6, protocol 0x50); an endpoint
/// descriptor (type 5) of such an interface with bulk attributes records its
/// address and packet size as IN or OUT by bit 7 of the address.
pub open spec fn cfg_step(b: Seq<u8>, off: int, st: CfgScan) -> CfgScan {
    let ty = byte_at(b, off + 1);
    if ty == 4 {
        CfgScan { is_msc: byte_at(b, off + 5) == 8 && byte_at(b, off + 6) == 6 && byte_at(b, off + 7) == 0x50, ..st }
    } else if ty == 5 && st.is_msc {
        let addr = byte_at(b, off + 2);
        let attr = byte_at(b, off + 3);
        let mps = ((byte_at(b, off + 4) as u16) | ((byte_at(b, off + 5) as u16) << 8u16)) as u16;
        if attr & 3 == 2 {
            if addr & 0x80 != 0 {
                CfgScan { in_addr: addr, in_mps: mps, ..st }
            } else {
                CfgScan { out_addr: addr, out_mps: mps, ..st }
            }
        } else {
            st
        }
    } else {
        st
    }
}

/// The walk over the descriptors from `off` while a two-byte header fits in the
/// first `want` bytes; a descriptor of length 0 ends it.
pub open spec fn cfg_walk(b: Seq<u8>, off: int, want: int, st: CfgScan) -> CfgScan
    decreases (if off < want { want - off } else { 0 }),
{
    if off < 0 || off + 2 > want || byte_at(b, off) == 0 {
        st
    } else {
        cfg_walk(b, off + byte_at(b, off), want, cfg_step(b, off, st))
    }
}

/// The bulk endpoints of the first `want` bytes of a configuration descriptor;
/// `None` when it lacks an IN or an OUT one. The configuration value is byte 5.
pub open spec fn bulk_endpoints_spec(b: Seq<u8>, want: int) -> Option<BulkEndpoints> {
    let st = cfg_walk(b, 0, want, CfgScan { in_addr: 0, in_mps: 0, out_addr: 0, out_mps: 0, is_msc: false });
    if st.in_addr == 0 || st.out_addr == 0 {
        None
    } else {
        Some(BulkEndpoints { cfg_value: byte_at(b, 5) as u16, in_addr: st.in_addr, in_mps: st.in_mps, out_addr: st.out_addr, out_mps: st.out_mps })
    }
}

fn byte_of(b: &[u8], i: usize) -> (r: u8)
    ensures
        r == byte_at(b@, i as int),
{
    if i < b.len() {
        b[i]
    } else {
        0
    }
}

/// The bulk endpoints of a configuration descriptor whose first `want` bytes were
/// read into `b`, as `bulk_endpoints_spec` says.
pub fn bulk_endpoints(b: &[u8], want: usize) -> (r: Option<BulkEndpoints>)
    requires
        want <= 4096,
    ensures
        r == bulk_endpoints_spec(b@, want as int),
{
    let mut st = CfgScan { in_addr: 0, in_mps: 0, out_addr: 0, out_mps: 0, is_msc: false };
    let mut off: usize = 0;
    while off + 2 <= want
        invariant
            want <= 4096,
            off <= want + 255,
            cfg_walk(b@, 0, want as int, CfgScan { in_addr: 0, in_mps: 0, out_addr: 0, out_mps: 0, is_msc: false }) == cfg_walk(
                b@,
                off as int,
                want as int,
                st,
            ),
        ensures
            cfg_walk(b@, 0, want as int, CfgScan { in_addr: 0, in_mps: 0, out_addr: 0, out_mps: 0, is_msc: false }) == st,
        decreases want + 256 - off,
    {
        let blen = byte_of(b, off);
        if blen == 0 {
            break;
        }
        let ty = byte_of(b, off + 1);
        if ty == 4 {
            let class = byte_of(b, off + 5);
            let sub = byte_of(b, off + 6);
            let proto = byte_of(b, off + 7);
            st = CfgScan { is_msc: class == 0x08 && sub == 0x06 && proto == 0x50, ..st };
        } else if ty == 5 && st.is_msc {
            let addr = byte_of(b, off + 2);
            let attr = byte_of(b, off + 3);
            let mps = (byte_of(b, off + 4) as u16) | ((byte_of(b, off + 5) as u16) << 8u16);
            if attr & 0x3 == 2 {
                if addr & 0x80 != 0 {
                    st = CfgScan { in_addr: addr, in_mps: mps, ..st };
                } else {
                    st = CfgScan { out_addr: addr, out_mps: mps, ..st };
                }
            }
        }
        off = off + blen as usize;
    }
    if st.in_addr == 0 || st.out_addr == 0 {
        return None;
    }
    Some(BulkEndpoints {
        cfg_value: byte_of(b, 5) as u16,
        in_addr: st.in_addr,
        in_mps: st.in_mps,
        out_addr: st.out_addr,
        out_mps: st.out_mps,
    })
}

/// Device context indices of the bulk endpoints: twice the endpoint number, plus
/// one for IN.
pub fn bulk_dcis(in_addr: u8, out_addr: u8) -> (r: (u32, u32))
    ensures
        r.0 == 2 * (in_addr & 0x0F) + 1,
        r.1 == 2 * (out_addr & 0x0F),
        r.0 < 32 && r.1 < 32,
{
    assert(in_addr & 0x0Fu8 <= 15 && out_addr & 0x0Fu8 <= 15) by (bit_vector);
    (2 * ((in_addr & 0x0F) as u32) + 1, 2 * ((out_addr & 0x0F) as u32))
}

/// Dword 1 of an endpoint context: three error retries, the endpoint type and
/// the maximum packet size.
pub fn ep_ctx_dw1(ep_type: u32, mps: u32) -> (r: u32)
    requires
        ep_type < 8,
        mps <= 0xFFFF,
    ensures
        r == 6 + ep_type * 8 + mps * 0x10000,
{
    assert((3u32 << 1u32) | (ep_type << 3u32) | (mps << 16u32) == 6 + ep_type * 8 + mps * 0x10000) by (bit_vector)
        requires
            ep_type < 8,
            mps <= 0xFFFF,
    ;
    (3u32 << 1u32) | (ep_type << 3u32) | (mps << 16u32)
}

/// A write of `val` to dword `dw` of context `ctx` of the input context (context
/// 0 is the input control context, 1 the slot context, `1 + dci` an endpoint's).
#[derive(Debug, Clone, Copy, PartialEq, Eq, Structural)]
pub struct CtxWrite {
    pub ctx: u32,
    pub dw: u32,
    pub val: u32,
}

/// The low and high dword of a ring's dequeue pointer with the cycle bit set.
pub open spec fn ring_lo(ring: u64) -> u32 {
    (ring | 1u64) as u32
}

pub open spec fn ring_hi(ring: u64) -> u32 {
    ((ring | 1u64) >> 32u64) as u32
}

fn ring_dwords(ring: u64) -> (r: (u32, u32))
    ensures
        r == (ring_lo(ring), ring_hi(ring)),
{
    let p = ring | 1;
    (p as u32, (p >> 32u64) as u32)
}

/// The input context for Address Device: add the slot and endpoint 0; the slot
/// at `speed` on root port `port` with one context entry; endpoint 0 a control
/// endpoint with packets of `mps0` bytes, its ring at `ep0_ring`, average TRB
/// length 8.
pub fn address_device_writes(speed: u32, port: u32, mps0: u32, ep0_ring: u64) -> (r: Vec<CtxWrite>)
    ensures
        r@ == seq![
            CtxWrite { ctx: 0, dw: 1, val: 3 },
            CtxWrite { ctx: 1, dw: 0, val: (speed << 20u32) | (1u32 << 27u32) },
            CtxWrite { ctx: 1, dw: 1, val: port << 16u32 },
            CtxWrite { ctx: 2, dw: 1, val: (3u32 << 1u32) | (4u32 << 3u32) | (mps0 << 16u32) },
            CtxWrite { ctx: 2, dw: 2, val: ring_lo(ep0_ring) },
            CtxWrite { ctx: 2, dw: 3, val: ring_hi(ep0_ring) },
            CtxWrite { ctx: 2, dw: 4, val: 8 },
        ],
{
    let (lo, hi) = ring_dwords(ep0_ring);
    let mut r: Vec<CtxWrite> = Vec::new();
    r.push(CtxWrite { ctx: 0, dw: 1, val: 3 });
    r.push(CtxWrite { ctx: 1, dw: 0, val: (speed << 20u32) | (1u32 << 27u32) });
    r.push(CtxWrite { ctx: 1, dw: 1, val: port << 16u32 });
    r.push(CtxWrite { ctx: 2, dw: 1, val: (3u32 << 1u32) | (4u32 << 3u32) | (mps0 << 16u32) });
    r.push(CtxWrite { ctx: 2, dw: 2, val: lo });
    r.push(CtxWrite { ctx: 2, dw: 3, val: hi });
    r.push(CtxWrite { ctx: 2, dw: 4, val: 8 });
    assert(r@ =~= seq![
        CtxWrite { ctx: 0, dw: 1, val: 3 },
        CtxWrite { ctx: 1, dw: 0, val: (speed << 20u32) | (1u32 << 27u32) },
        CtxWrite { ctx: 1, dw: 1, val: port << 16u32 },
        CtxWrite { ctx: 2, dw: 1, val: (3u32 << 1u32) | (4u32 << 3u32) | (mps0 << 16u32) },
        CtxWrite { ctx: 2, dw: 2, val: ring_lo(ep0_ring) },
        CtxWrite { ctx: 2, dw: 3, val: ring_hi(ep0_ring) },
        CtxWrite { ctx: 2, dw: 4, val: 8 },
    ]);
    r
}

/// The input context for Evaluate Context when the device reports another
/// packet size for endpoint 0: drop nothing, update endpoint 0 with `mps0`.
pub fn evaluate_context_writes(mps0: u32) -> (r: Vec<CtxWrite>)
    ensures
        r@ == seq![
            CtxWrite { ctx: 0, dw: 0, val: 0 },
            CtxWrite { ctx: 0, dw: 1, val: 2 },
            CtxWrite { ctx: 2, dw: 1, val: (3u32 << 1u32) | (4u32 << 3u32) | (mps0 << 16u32) },
        ],
{
    let mut r: Vec<CtxWrite> = Vec::new();
    r.push(CtxWrite { ctx: 0, dw: 0, val: 0 });
    r.push(CtxWrite { ctx: 0, dw: 1, val: 2 });
    r.push(CtxWrite { ctx: 2, dw: 1, val: (3u32 << 1u32) | (4u32 << 3u32) | (mps0 << 16u32) });
    assert(r@ =~= seq![
        CtxWrite { ctx: 0, dw: 0, val: 0 },
        CtxWrite { ctx: 0, dw: 1, val: 2 },
        CtxWrite { ctx: 2, dw: 1, val: (3u32 << 1u32) | (4u32 << 3u32) | (mps0 << 16u32) },
    ]);
    r
}

/// The input context for Configure Endpoint: add the slot and both bulk
/// endpoints; the slot's context entries run to the higher of the two; the OUT
/// endpoint (type 2) and the IN endpoint (type 6) with their packet sizes, rings
/// and average TRB lengths.
pub fn configure_endpoint_writes(
    speed: u32,
    port: u32,
    in_dci: u32,
    out_dci: u32,
    in_mps: u16,
    out_mps: u16,
    in_ring: u64,
    out_ring: u64,
) -> (r: Vec<CtxWrite>)
    requires
        in_dci < 32,
        out_dci < 32,
    ensures
        ({
            let max_dci = if in_dci > out_dci { in_dci } else { out_dci };
            let o = (1 + out_dci) as u32;
            let i = (1 + in_dci) as u32;
            r@ == seq![
                CtxWrite { ctx: 0, dw: 0, val: 0 },
                CtxWrite { ctx: 0, dw: 1, val: 1u32 | (1u32 << in_dci) | (1u32 << out_dci) },
                CtxWrite { ctx: 1, dw: 0, val: (speed << 20u32) | (max_dci << 27u32) },
                CtxWrite { ctx: 1, dw: 1, val: port << 16u32 },
                CtxWrite { ctx: o, dw: 1, val: (3u32 << 1u32) | (2u32 << 3u32) | ((out_mps as u32) << 16u32) },
                CtxWrite { ctx: o, dw: 2, val: ring_lo(out_ring) },
                CtxWrite { ctx: o, dw: 3, val: ring_hi(out_ring) },
                CtxWrite { ctx: o, dw: 4, val: out_mps as u32 },
                CtxWrite { ctx: i, dw: 1, val: (3u32 << 1u32) | (6u32 << 3u32) | ((in_mps as u32) << 16u32) },
                CtxWrite { ctx: i, dw: 2, val: ring_lo(in_ring) },
                CtxWrite { ctx: i, dw: 3, val: ring_hi(in_ring) },
                CtxWrite { ctx: i, dw: 4, val: in_mps as u32 },
            ]
        }),
{
    let max_dci = if in_dci > out_dci { in_dci } else { out_dci };
    let o = 1 + out_dci;
    let i = 1 + in_dci;
    let (olo, ohi) = ring_dwords(out_ring);
    let (ilo, ihi) = ring_dwords(in_ring);
    let mut r: Vec<CtxWrite> = Vec::new();
    r.push(CtxWrite { ctx: 0, dw: 0, val: 0 });
    r.push(CtxWrite { ctx: 0, dw: 1, val: 1u32 | (1u32 << in_dci) | (1u32 << out_dci) });
    r.push(CtxWrite { ctx: 1, dw: 0, val: (speed << 20u32) | (max_dci << 27u32) });
    r.push(CtxWrite { ctx: 1, dw: 1, val: port << 16u32 });
    r.push(CtxWrite { ctx: o, dw: 1, val: (3u32 << 1u32) | (2u32 << 3u32) | ((out_mps as u32) << 16u32) });
    r.push(CtxWrite { ctx: o, dw: 2, val: olo });
    r.push(CtxWrite { ctx: o, dw: 3, val: ohi });
    r.push(CtxWrite { ctx: o, dw: 4, val: out_mps as u32 });
    r.push(CtxWrite { ctx: i, dw: 1, val: (3u32 << 1u32) | (6u32 << 3u32) | ((in_mps as u32) << 16u32) });
    r.push(CtxWrite { ctx: i, dw: 2, val: ilo });
    r.push(CtxWrite { ctx: i, dw: 3, val: ihi });
    r.push(CtxWrite { ctx: i, dw: 4, val: in_mps as u32 });
    assert(r@ =~= seq![
        CtxWrite { ctx: 0, dw: 0, val: 0 },
        CtxWrite { ctx: 0, dw: 1, val: 1u32 | (1u32 << in_dci) | (1u32 << out_dci) },
        CtxWrite { ctx: 1, dw: 0, val: (speed << 20u32) | (max_dci << 27u32) },
        CtxWrite { ctx: 1, dw: 1, val: port << 16u32 },
        CtxWrite { ctx: o, dw: 1, val: (3u32 << 1u32) | (2u32 << 3u32) | ((out_mps as u32) << 16u32) },
        CtxWrite { ctx: o, dw: 2, val: ring_lo(out_ring) },
        CtxWrite { ctx: o, dw: 3, val: ring_hi(out_ring) },
        CtxWrite { ctx: o, dw: 4, val: out_mps as u32 },
        CtxWrite { ctx: i, dw: 1, val: (3u32 << 1u32) | (6u32 << 3u32) | ((in_mps as u32) << 16u32) },
        CtxWrite { ctx: i, dw: 2, val: ring_lo(in_ring) },
        CtxWrite { ctx: i, dw: 3, val: ring_hi(in_ring) },
        CtxWrite { ctx: i, dw: 4, val: in_mps as u32 },
    ]);
    r
}

/// How much of the configuration descriptor to fetch, from its 9-byte header:
/// its total length, at most a page.
pub fn config_fetch_len(header: &[u8]) -> (r: u16)
    requires
        header.len() >= 4,
    ensures
        r == (if header@[2] as u16 | ((header@[3] as u16) << 8u16) > 4096 {
            4096
        } else {
            header@[2] as u16 | ((header@[3] as u16) << 8u16)
        }),
{
    let total = (header[2] as u16) | ((header[3] as u16) << 8u16);
    if total > 4096 {
        4096
    } else {
        total
    }
}

/// Signature of a command block wrapper and of a command status wrapper.
pub const CBW_SIGNATURE: u32 = 0x43425355;
pub const CSW_SIGNATURE: u32 = 0x53425355;

pub open spec fn le32_spec(v: u32) -> Seq<u8> {
    seq![(v & 0xFF) as u8, ((v >> 8u32) & 0xFF) as u8, ((v >> 16u32) & 0xFF) as u8, (v >> 24u32) as u8]
}

/// The 31-byte command block wrapper of a SCSI command: signature, tag, data
/// length, direction flag (0x80 for IN), LUN 0, the command's length and the
/// command, zero-padded.
pub open spec fn cbw_spec(tag: u32, dlen: u32, dir_in: bool, cb: Seq<u8>) -> Seq<u8> {
    le32_spec(CBW_SIGNATURE) + le32_spec(tag) + le32_spec(dlen) + seq![if dir_in { 0x80u8 } else { 0u8 }, 0u8, cb.len() as u8] + cb
        + Seq::new((16 - cb.len()) as nat, |i: int| 0u8)
}

fn push_le32(v: &mut Vec<u8>, x: u32)
    ensures
        final(v)@ == old(v)@ + le32_spec(x),
{
    v.push((x & 0xFF) as u8);
    v.push(((x >> 8u32) & 0xFF) as u8);
    v.push(((x >> 16u32) & 0xFF) as u8);
    v.push((x >> 24u32) as u8);
    assert(final(v)@ =~= old(v)@ + le32_spec(x));
}

/// The command block wrapper, as `cbw_spec` says.
pub fn cbw(tag: u32, dlen: u32, dir_in: bool, cb: &[u8]) -> (r: Vec<u8>)
    requires
        cb.len() <= 16,
    ensures
        r@ == cbw_spec(tag, dlen, dir_in, cb@),
        r@.len() == 31,
{
    let mut r: Vec<u8> = Vec::new();
    push_le32(&mut r, CBW_SIGNATURE);
    push_le32(&mut r, tag);
    push_le32(&mut r, dlen);
    r.push(if dir_in { 0x80 } else { 0 });
    r.push(0);
    r.push(cb.len() as u8);
    crate::serial::append_bytes(&mut r, cb);
    let ghost pre = r@;
    let mut k: usize = cb.len();
    while k < 16
        invariant
            cb.len() <= k <= 16,
            r@ == pre + Seq::new((k - cb.len()) as nat, |i: int| 0u8),
        decreases 16 - k,
    {
        r.push(0);
        k = k + 1;
        assert(r@ =~= pre + Seq::new((k - cb.len()) as nat, |i: int| 0u8));
    }
    assert(r@ =~= cbw_spec(tag, dlen, dir_in, cb@));
    r
}

/// Whether a command status wrapper reports success for `tag`: the signature,
/// the same tag, and status 0.
pub fn csw_ok(csw: &[u8], tag: u32) -> (r: bool)
    requires
        csw.len() >= 13,
    ensures
        r == (crate::multiboot::le_u32(csw@, 0) == CSW_SIGNATURE && crate::multiboot::le_u32(csw@, 4) == tag && csw@[12] == 0),
{
    crate::multiboot::read_u32(csw, 0) == CSW_SIGNATURE && crate::multiboot::read_u32(csw, 4) == tag && csw[12] == 0
}

/// Where a SCSI transfer over the bulk-only transport stands: the command block
/// wrapper is out, the data stage is under way, the status wrapper is being read.
#[derive(Debug, Clone, Copy, PartialEq, Eq, Structural)]
pub enum ScsiStage {
    Command,
    Data,
    Status,
    Done,
}

/// What the driver does next in a SCSI transfer: a bulk transfer on endpoint
/// `dci` of `len` bytes at `phys`, or the end with its outcome.
#[derive(Debug, Clone, Copy, PartialEq, Eq, Structural)]
pub enum ScsiStep {
    Bulk { dci: u32, phys: u64, len: u32 },
    Finish { ok: bool },
}

/// A SCSI transfer: its tag, data length and direction, the buffers, the bulk
/// endpoints, and its stage.
#[derive(Debug, Clone, Copy, PartialEq, Eq, Structural)]
pub struct ScsiTransfer {
    pub tag: u32,
    pub dlen: u32,
    pub dir_in: bool,
    pub data_phys: u64,
    pub scratch_phys: u64,
    pub in_dci: u32,
    pub out_dci: u32,
    pub stage: ScsiStage,
}

/// Where the status wrapper is read, past the command block wrapper in the
/// scratch page.
pub const CSW_OFFSET: u64 = 64;

/// The next tag: the last one plus one, wrapping.
pub open spec fn next_tag(last: u32) -> u32 {
    if last == u32::MAX {
        0
    } else {
        (last + 1) as u32
    }
}

impl ScsiTransfer {
    /// Starts a transfer of command `cb` with `dlen` bytes of data (in when
    /// `dir_in`) at `data_phys`: the tag after `last_tag`, the command block
    /// wrapper to put at `scratch_phys`, and the first step, sending those 31
    /// bytes on the OUT endpoint.
    pub fn start(
        last_tag: u32,
        cb: &[u8],
        dlen: u32,
        dir_in: bool,
        data_phys: u64,
        scratch_phys: u64,
        in_dci: u32,
        out_dci: u32,
    ) -> (r: (Self, Vec<u8>, ScsiStep))
        requires
            cb.len() <= 16,
            scratch_phys + CSW_OFFSET <= u64::MAX,
        ensures
            r.0 == (ScsiTransfer {
                tag: next_tag(last_tag),
                dlen,
                dir_in,
                data_phys,
                scratch_phys,
                in_dci,
                out_dci,
                stage: ScsiStage::Command,
            }),
            r.1@ == cbw_spec(next_tag(last_tag), dlen, dir_in, cb@),
            r.2 == (ScsiStep::Bulk { dci: out_dci, phys: scratch_phys, len: 31 }),
    {
        let tag = last_tag.wrapping_add(1);
        let t = ScsiTransfer { tag, dlen, dir_in, data_phys, scratch_phys, in_dci, out_dci, stage: ScsiStage::Command };
        (t, cbw(tag, dlen, dir_in, cb), ScsiStep::Bulk { dci: out_dci, phys: scratch_phys, len: 31 })
    }

    /// The step after the bulk transfer of the current stage completed with
    /// `code` (negative: it failed); `csw` is the status wrapper read back, looked
    /// at only when the status stage completes. A failed stage ends the transfer;
    /// a command with no data goes straight to the status stage; the status stage
    /// ends it with the wrapper's verdict.
    pub fn on_bulk(&mut self, code: i32, csw: &[u8]) -> (step: ScsiStep)
        requires
            old(self).stage != ScsiStage::Done,
            old(self).scratch_phys + CSW_OFFSET <= u64::MAX,
            csw.len() >= 13,
        ensures
            *final(self) == (ScsiTransfer { stage: final(self).stage, ..*old(self) }),
            code < 0 ==> step == (ScsiStep::Finish { ok: false }) && final(self).stage == ScsiStage::Done,
            code >= 0 ==> match old(self).stage {
                ScsiStage::Command => if old(self).dlen > 0 {
                    &&& step == (ScsiStep::Bulk {
                        dci: if old(self).dir_in { old(self).in_dci } else { old(self).out_dci },
                        phys: old(self).data_phys,
                        len: old(self).dlen,
                    })
                    &&& final(self).stage == ScsiStage::Data
                } else {
                    &&& step == (ScsiStep::Bulk {
                        dci: old(self).in_dci,
                        phys: (old(self).scratch_phys + CSW_OFFSET) as u64,
                        len: 13,
                    })
                    &&& final(self).stage == ScsiStage::Status
                },
                ScsiStage::Data => {
                    &&& step == (ScsiStep::Bulk {
                        dci: old(self).in_dci,
                        phys: (old(self).scratch_phys + CSW_OFFSET) as u64,
                        len: 13,
                    })
                    &&& final(self).stage == ScsiStage::Status
                },
                _ => {
                    &&& step == (ScsiStep::Finish {
                        ok: crate::multiboot::le_u32(csw@, 0) == CSW_SIGNATURE && crate::multiboot::le_u32(csw@, 4)
                            == old(self).tag && csw@[12] == 0,
                    })
                    &&& final(self).stage == ScsiStage::Done
                },
            },
    {
        if code < 0 {
            self.stage = ScsiStage::Done;
            return ScsiStep::Finish { ok: false };
        }
        let status = ScsiStep::Bulk { dci: self.in_dci, phys: self.scratch_phys + CSW_OFFSET, len: 13 };
        match self.stage {
            ScsiStage::Command => {
                if self.dlen > 0 {
                    self.stage = ScsiStage::Data;
                    ScsiStep::Bulk {
                        dci: if self.dir_in { self.in_dci } else { self.out_dci },
                        phys: self.data_phys,
                        len: self.dlen,
                    }
                } else {
                    self.stage = ScsiStage::Status;
                    status
                }
            },
            ScsiStage::Data => {
                self.stage = ScsiStage::Status;
                status
            },
            _ => {
                self.stage = ScsiStage::Done;
                ScsiStep::Finish { ok: csw_ok(csw, self.tag) }
            },
        }
    }
}

/// A ten-byte READ(10) or WRITE(10) command: the opcode, the block address big
/// endian, and the block count.
pub open spec fn rw10_spec(op: u8, lba: u32, count: u8) -> Seq<u8> {
    seq![op, 0u8, (lba >> 24u32) as u8, ((lba >> 16u32) & 0xFF) as u8, ((lba >> 8u32) & 0xFF) as u8, (lba & 0xFF) as u8, 0u8, 0u8, count, 0u8]
}

fn rw10(op: u8, lba: u32, count: u8) -> (r: [u8; 10])
    ensures
        r@ == rw10_spec(op, lba, count),
{
    let r = [op, 0, (lba >> 24u32) as u8, ((lba >> 16u32) & 0xFF) as u8, ((lba >> 8u32) & 0xFF) as u8, (lba & 0xFF) as u8, 0, 0, count, 0];
    assert(r@ =~= rw10_spec(op, lba, count));
    r
}

/// READ(10) of `count` blocks at `lba`.
pub fn read10(lba: u32, count: u8) -> (r: [u8; 10])
    ensures
        r@ == rw10_spec(0x28, lba, count),
{
    rw10(0x28, lba, count)
}

/// WRITE(10) of `count` blocks at `lba`.
pub fn write10(lba: u32, count: u8) -> (r: [u8; 10])
    ensures
        r@ == rw10_spec(0x2A, lba, count),
{
    rw10(0x2A, lba, count)
}

/// READ CAPACITY(10), SYNCHRONIZE CACHE(10) and TEST UNIT READY.
pub fn read_capacity10() -> (r: [u8; 10])
    ensures
        r@ == seq![0x25u8, 0, 0, 0, 0, 0, 0, 0, 0, 0],
{
    let r = [0x25u8, 0, 0, 0, 0, 0, 0, 0, 0, 0];
    assert(r@ =~= seq![0x25u8, 0, 0, 0, 0, 0, 0, 0, 0, 0]);
    r
}

pub fn sync_cache10() -> (r: [u8; 10])
    ensures
        r@ == seq![0x35u8, 0, 0, 0, 0, 0, 0, 0, 0, 0],
{
    let r = [0x35u8, 0, 0, 0, 0, 0, 0, 0, 0, 0];
    assert(r@ =~= seq![0x35u8, 0, 0, 0, 0, 0, 0, 0, 0, 0]);
    r
}

pub fn test_unit_ready() -> (r: [u8; 6])
    ensures
        r@ == seq![0u8, 0, 0, 0, 0, 0],
{
    let r = [0u8; 6];
    assert(r@ =~= seq![0u8, 0, 0, 0, 0, 0]);
    r
}

/// The big-endian `u32` at `off`.
pub open spec fn be_u32(b: Seq<u8>, off: int) -> u32 {
    (((b[off] as u32) << 24u32) | ((b[off + 1] as u32) << 16u32) | ((b[off + 2] as u32) << 8u32) | (b[off + 3] as u32)) as u32
}

/// The last block address and the block size a READ CAPACITY(10) returns.
pub fn parse_capacity(d: &[u8]) -> (r: (u32, u32))
    requires
        d.len() >= 8,
    ensures
        r == (be_u32(d@, 0), be_u32(d@, 4)),
{
    let last = ((d[0] as u32) << 24u32) | ((d[1] as u32) << 16u32) | ((d[2] as u32) << 8u32) | (d[3] as u32);
    let bs = ((d[4] as u32) << 24u32) | ((d[5] as u32) << 16u32) | ((d[6] as u32) << 8u32) | (d[7] as u32);
    (last, bs)
}

/// Blocks one block request moves at most.
pub const MAX_BLOCKS: u8 = 8;

/// A block request: the operation byte, the block address as four little-endian
/// bytes and a count, capped at `MAX_BLOCKS`. Returns `(lba, count, bytes)`.
pub fn block_request(req: &[u8]) -> (r: (u32, u8, usize))
    requires
        req.len() >= 6,
    ensures
        r.0 == crate::multiboot::le_u32(req@, 1),
        r.1 == if req@[5] > MAX_BLOCKS { MAX_BLOCKS } else { req@[5] },
        r.2 == r.1 * 512,
{
    let lba = crate::multiboot::read_u32(req, 1);
    let mut count = req[5];
    if count > MAX_BLOCKS {
        count = MAX_BLOCKS;
    }
    (lba, count, count as usize * 512)
}

/// A USB string descriptor of an ASCII string: its length, type 3, then each
/// character as UTF-16LE.
pub open spec fn string_descriptor_spec(s: Seq<u8>) -> Seq<u8> {
    seq![(2 + 2 * s.len()) as u8, 3u8] + Seq::new(2 * s.len(), |i: int| if i % 2 == 0 { s[i / 2] } else { 0u8 })
}

/// The string descriptor of `s`, as `string_descriptor_spec` says.
pub fn string_descriptor(s: &[u8]) -> (r: Vec<u8>)
    requires
        2 + 2 * s.len() <= 255,
    ensures
        r@ == string_descriptor_spec(s@),
{
    let mut r: Vec<u8> = Vec::new();
    r.push((2 + 2 * s.len()) as u8);
    r.push(3);
    let mut i: usize = 0;
    while i < s.len()
        invariant
            i <= s.len(),
            2 + 2 * s.len() <= 255,
            r@.len() == 2 + 2 * i,
            r@[0] == (2 + 2 * s.len()) as u8,
            r@[1] == 3u8,
            forall|k: int| 2 <= k < 2 + 2 * i ==> #[trigger] r@[k] == if (k - 2) % 2 == 0 { s@[(k - 2) / 2] } else { 0u8 },
        decreases s.len() - i,
    {
        r.push(s[i]);
        r.push(0);
        i = i + 1;
    }
    assert(r@ =~= string_descriptor_spec(s@));
    r
}

/// The string descriptor 0: one language, US English.
pub fn lang_descriptor() -> (r: [u8; 4])
    ensures
        r@ == seq![4u8, 3u8, 9u8, 4u8],
{
    let r = [4u8, 3, 9, 4];
    assert(r@ =~= seq![4u8, 3u8, 9u8, 4u8]);
    r
}

/// Whether a class dword names an xHCI controller: class 0x0C, subclass 0x03.
pub fn is_xhci(class_dword: u32) -> (r: bool)
    ensures
        r == ((class_dword >> 24u32) & 0xFF == 0x0C && (class_dword >> 16u32) & 0xFF == 0x03),
{
    (class_dword >> 24u32) & 0xFF == 0x0C && (class_dword >> 16u32) & 0xFF == 0x03
}

/// The register base of a controller from its two base address registers: the
/// 64-bit address with the flag bits of the low half cleared.
pub fn xhci_bar(bar0: u32, bar1: u32) -> (r: u64)
    ensures
        r == ((bar0 as u64) & 0xFFFF_FFF0u64) | ((bar1 as u64) << 32u64),
{
    ((bar0 as u64) & 0xFFFF_FFF0u64) | ((bar1 as u64) << 32u64)
}

/// The link TRB that closes a ring at `ring_phys`, with the toggle and cycle bits.
pub fn link_trb(ring_phys: u64) -> (r: [u32; 4])
    ensures
        r@ == seq![(ring_phys & 0xFFFF_FFFFu64) as u32, (ring_phys >> 32u64) as u32, 0u32, 0x1803u32],
{
    assert(((6u32 << 10u32) | (1u32 << 1u32) | 1u32) == 0x1803u32 && (ring_phys >> 32u64) <= 0xFFFF_FFFFu64) by (bit_vector);
    let r = [(ring_phys & 0xFFFF_FFFFu64) as u32, (ring_phys >> 32u64) as u32, 0, (6u32 << 10u32) | (1u32 << 1u32) | 1u32];
    assert(r@ =~= seq![(ring_phys & 0xFFFF_FFFFu64) as u32, (ring_phys >> 32u64) as u32, 0u32, 0x1803u32]);
    r
}

} // verus!
