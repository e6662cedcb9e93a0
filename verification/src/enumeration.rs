use vstd::prelude::*;
use crate::usb::{
    address_device_writes, best_port, bulk_dcis, bulk_endpoints, bulk_endpoints_spec, config_fetch_len, configure_endpoint_writes,
    device_mps0, evaluate_context_writes, find_port, mps0_for_speed, port_speed, ring_hi, ring_lo, BulkEndpoints, CtxWrite,
    TRB_ADDRESS_DEVICE, TRB_CONFIGURE_ENDPOINT, TRB_EVALUATE_CONTEXT,
};

verus! {

/// What an enumeration waits for.
#[derive(Debug, Clone, Copy, PartialEq, Eq, Structural)]
pub enum EnumStage {
    /// The port reset.
    Reset,
    /// Enable Slot.
    EnableSlot,
    /// The slot's device context and endpoint-0 ring.
    SlotMemory,
    /// Address Device.
    AddressDevice,
    /// The first 8 bytes of the device descriptor.
    DeviceDescriptor,
    /// Evaluate Context.
    Evaluate,
    /// The 9-byte header of the configuration descriptor.
    ConfigHeader,
    /// The configuration descriptor.
    Config,
    /// Set Configuration.
    SetConfiguration,
    /// The two bulk rings.
    BulkRings,
    /// Configure Endpoint.
    ConfigureEndpoint,
    /// Nothing: the device is ready.
    Done,
    /// Nothing: the enumeration failed.
    Failed,
}

/// What the driver does next.
#[derive(Debug)]
pub enum EnumStep {
    /// Reset root port `port`, then report to `on_reset`.
    ResetPort { port: u32 },
    /// Ring Enable Slot, then report to `on_command`.
    EnableSlot,
    /// Give slot `slot` a zeroed device context (its address into the context
    /// base array) and an endpoint-0 ring, then report the ring to `on_slot_memory`.
    SlotMemory { slot: u32 },
    /// Apply `writes` to the input context and ring the command whose control word
    /// is `control` on it, then report to `on_command`.
    Command { writes: Vec<CtxWrite>, control: u32 },
    /// Fetch `len` bytes of the standard descriptor of type `dtype` into the
    /// buffer, then report to `on_descriptor`.
    GetDescriptor { dtype: u8, len: u16 },
    /// Set configuration `value`, then report to `on_set_configuration`.
    SetConfiguration { value: u16 },
    /// Allocate the IN and OUT bulk rings, then report them to `on_bulk_rings`.
    BulkRings,
    /// The device is ready on `slot`, its bulk endpoints at these context indices.
    Done { slot: u32, in_dci: u32, out_dci: u32 },
    /// The enumeration failed.
    Failed,
}

/// An enumeration of the mass-storage device on one root port.
#[derive(Debug, Clone, Copy)]
pub struct Enumeration {
    pub stage: EnumStage,
    pub port: u32,
    pub speed: u32,
    pub slot: u32,
    pub mps0: u32,
    pub want: u16,
    pub eps: BulkEndpoints,
    pub in_dci: u32,
    pub out_dci: u32,
}

/// No endpoints yet.
pub open spec fn no_endpoints() -> BulkEndpoints {
    BulkEndpoints { cfg_value: 0, in_addr: 0, in_mps: 0, out_addr: 0, out_mps: 0 }
}

/// The control word of a command of TRB type `ty` for `slot`.
pub open spec fn command_control(ty: u32, slot: u32) -> u32 {
    (ty << 10u32) | (slot << 24u32)
}

fn control_word(ty: u32, slot: u32) -> (r: u32)
    ensures
        r == command_control(ty, slot),
{
    (ty << 10u32) | (slot << 24u32)
}

impl Enumeration {
    /// `self` in `stage`, all else kept.
    pub open spec fn at_stage(self, stage: EnumStage) -> Enumeration {
        Enumeration { stage, ..self }
    }

    /// Starts from the status registers of root ports 1, 2, ...: the port
    /// `find_port` picks is reset; the enumeration fails at once when none is
    /// connected.
    pub fn start(portsc: &[u32]) -> (r: (Enumeration, EnumStep))
        requires
            portsc.len() <= 255,
        ensures
            ({
                let b = best_port(portsc@, portsc@.len() as int).0;
                &&& b < 0 ==> r.0.stage == EnumStage::Failed && r.1 is Failed
                &&& b >= 0 ==> r.0 == (Enumeration {
                    stage: EnumStage::Reset,
                    port: (b + 1) as u32,
                    speed: port_speed(portsc@[b]),
                    slot: 0,
                    mps0: 0,
                    want: 0,
                    eps: no_endpoints(),
                    in_dci: 0,
                    out_dci: 0,
                }) && r.1 == (EnumStep::ResetPort { port: (b + 1) as u32 })
            }),
    {
        let none = BulkEndpoints { cfg_value: 0, in_addr: 0, in_mps: 0, out_addr: 0, out_mps: 0 };
        match find_port(portsc) {
            None => (
                Enumeration { stage: EnumStage::Failed, port: 0, speed: 0, slot: 0, mps0: 0, want: 0, eps: none, in_dci: 0, out_dci: 0 },
                EnumStep::Failed,
            ),
            Some((port, speed)) => (
                Enumeration { stage: EnumStage::Reset, port, speed, slot: 0, mps0: 0, want: 0, eps: none, in_dci: 0, out_dci: 0 },
                EnumStep::ResetPort { port },
            ),
        }
    }

    /// The port reset came back: `ok` when the port is enabled. Then the slot is
    /// enabled; otherwise the enumeration fails.
    pub fn on_reset(&mut self, ok: bool) -> (step: EnumStep)
        requires
            old(self).stage == EnumStage::Reset,
        ensures
            ok ==> *final(self) == old(self).at_stage(EnumStage::EnableSlot) && step is EnableSlot,
            !ok ==> *final(self) == old(self).at_stage(EnumStage::Failed) && step is Failed,
    {
        if ok {
            self.stage = EnumStage::EnableSlot;
            EnumStep::EnableSlot
        } else {
            self.stage = EnumStage::Failed;
            EnumStep::Failed
        }
    }

    /// A command completed with event `ev` (completion code and control word), or
    /// none came. Enable Slot, Address Device and Configure Endpoint must complete
    /// with code 1, else the enumeration fails; Enable Slot gives the slot (bits 24
    /// to 31 of the control word), which then needs its memory; Address Device is
    /// followed by the device descriptor's first 8 bytes; Evaluate Context, whatever
    /// its result, by the configuration descriptor's header; Configure Endpoint
    /// ends the enumeration.
    pub fn on_command(&mut self, ev: Option<(u32, u32)>) -> (step: EnumStep)
        requires
            old(self).stage == EnumStage::EnableSlot || old(self).stage == EnumStage::AddressDevice || old(self).stage
                == EnumStage::Evaluate || old(self).stage == EnumStage::ConfigureEndpoint,
        ensures
            ({
                let ok = ev matches Some((code, _)) && code == 1;
                let s = *old(self);
                match s.stage {
                    EnumStage::EnableSlot => if ok {
                        let slot = (ev.unwrap().1 >> 24u32) & 0xFF;
                        *final(self) == (Enumeration { stage: EnumStage::SlotMemory, slot, ..s }) && step == (EnumStep::SlotMemory { slot })
                    } else {
                        *final(self) == s.at_stage(EnumStage::Failed) && step is Failed
                    },
                    EnumStage::AddressDevice => if ok {
                        *final(self) == s.at_stage(EnumStage::DeviceDescriptor) && step == (EnumStep::GetDescriptor { dtype: 1, len: 8 })
                    } else {
                        *final(self) == s.at_stage(EnumStage::Failed) && step is Failed
                    },
                    EnumStage::Evaluate => *final(self) == s.at_stage(EnumStage::ConfigHeader) && step == (EnumStep::GetDescriptor {
                        dtype: 2,
                        len: 9,
                    }),
                    _ => if ok {
                        *final(self) == s.at_stage(EnumStage::Done) && step == (EnumStep::Done {
                            slot: s.slot,
                            in_dci: s.in_dci,
                            out_dci: s.out_dci,
                        })
                    } else {
                        *final(self) == s.at_stage(EnumStage::Failed) && step is Failed
                    },
                }
            }),
    {
        let ok = match ev {
            Some((code, _)) => code == 1,
            None => false,
        };
        match self.stage {
            EnumStage::Evaluate => {
                self.stage = EnumStage::ConfigHeader;
                return EnumStep::GetDescriptor { dtype: 2, len: 9 };
            },
            _ => {},
        }
        if !ok {
            self.stage = EnumStage::Failed;
            return EnumStep::Failed;
        }
        match self.stage {
            EnumStage::EnableSlot => {
                let slot = (ev.unwrap().1 >> 24u32) & 0xFF;
                self.slot = slot;
                self.stage = EnumStage::SlotMemory;
                EnumStep::SlotMemory { slot }
            },
            EnumStage::AddressDevice => {
                self.stage = EnumStage::DeviceDescriptor;
                EnumStep::GetDescriptor { dtype: 1, len: 8 }
            },
            _ => {
                self.stage = EnumStage::Done;
                EnumStep::Done { slot: self.slot, in_dci: self.in_dci, out_dci: self.out_dci }
            },
        }
    }

    /// The slot has its memory and endpoint 0 its ring at `ep0_ring`: the device is
    /// addressed, with endpoint 0's packet size guessed from the port speed.
    pub fn on_slot_memory(&mut self, ep0_ring: u64) -> (step: EnumStep)
        requires
            old(self).stage == EnumStage::SlotMemory,
            old(self).slot <= 0xFF,
        ensures
            ({
                let s = *old(self);
                let mps0 = if s.speed == 4 || s.speed == 5 { 512u32 } else if s.speed == 3 { 64u32 } else { 8u32 };
                &&& *final(self) == (Enumeration { stage: EnumStage::AddressDevice, mps0, ..s })
                &&& step matches EnumStep::Command { writes, control } && control == command_control(TRB_ADDRESS_DEVICE, s.slot)
                    && writes@ == seq![
                    CtxWrite { ctx: 0, dw: 1, val: 3 },
                    CtxWrite { ctx: 1, dw: 0, val: (s.speed << 20u32) | (1u32 << 27u32) },
                    CtxWrite { ctx: 1, dw: 1, val: s.port << 16u32 },
                    CtxWrite { ctx: 2, dw: 1, val: (3u32 << 1u32) | (4u32 << 3u32) | (mps0 << 16u32) },
                    CtxWrite { ctx: 2, dw: 2, val: ring_lo(ep0_ring) },
                    CtxWrite { ctx: 2, dw: 3, val: ring_hi(ep0_ring) },
                    CtxWrite { ctx: 2, dw: 4, val: 8 },
                ]
            }),
    {
        let mps0 = mps0_for_speed(self.speed);
        self.mps0 = mps0;
        self.stage = EnumStage::AddressDevice;
        let writes = address_device_writes(self.speed, self.port, mps0, ep0_ring);
        EnumStep::Command { writes, control: control_word(TRB_ADDRESS_DEVICE, self.slot) }
    }

    /// A descriptor fetch completed with transfer code `code` (none when no event
    /// came), its bytes in `buf`; every fetch must complete with code 1, else the
    /// enumeration fails. From the device descriptor: when the packet size of
    /// endpoint 0 it gives (byte 7) is neither the one guessed nor 0, endpoint 0 is
    /// updated by Evaluate Context; otherwise the configuration descriptor's header
    /// is fetched. From the header: the whole descriptor, at most a page. From the
    /// descriptor: its bulk endpoints, then Set Configuration; the enumeration fails
    /// when it lacks an IN or an OUT one.
    pub fn on_descriptor(&mut self, code: Option<u32>, buf: &[u8]) -> (step: EnumStep)
        requires
            old(self).stage == EnumStage::DeviceDescriptor || old(self).stage == EnumStage::ConfigHeader || old(self).stage
                == EnumStage::Config,
            old(self).slot <= 0xFF,
            old(self).want <= 4096,
            code == Some(1u32) && old(self).stage == EnumStage::DeviceDescriptor ==> buf.len() >= 8 && (old(self).speed >= 4
                ==> buf@[7] < 32),
            code == Some(1u32) && old(self).stage == EnumStage::ConfigHeader ==> buf.len() >= 4,
        ensures
            final(self).want <= 4096,
            ({
                let s = *old(self);
                if code != Some(1u32) {
                    *final(self) == s.at_stage(EnumStage::Failed) && step is Failed
                } else {
                    match s.stage {
                        EnumStage::DeviceDescriptor => {
                            let given = if s.speed >= 4 { 1u32 << buf@[7] as u32 } else { buf@[7] as u32 };
                            if given != s.mps0 && given != 0 {
                                &&& *final(self) == s.at_stage(EnumStage::Evaluate)
                                &&& step matches EnumStep::Command { writes, control } && control == command_control(
                                    TRB_EVALUATE_CONTEXT,
                                    s.slot,
                                ) && writes@ == seq![
                                    CtxWrite { ctx: 0, dw: 0, val: 0 },
                                    CtxWrite { ctx: 0, dw: 1, val: 2 },
                                    CtxWrite { ctx: 2, dw: 1, val: (3u32 << 1u32) | (4u32 << 3u32) | (given << 16u32) },
                                ]
                            } else {
                                *final(self) == s.at_stage(EnumStage::ConfigHeader) && step == (EnumStep::GetDescriptor { dtype: 2, len: 9 })
                            }
                        },
                        EnumStage::ConfigHeader => {
                            let total = buf@[2] as u16 | ((buf@[3] as u16) << 8u16);
                            let want = if total > 4096 { 4096 } else { total };
                            *final(self) == (Enumeration { stage: EnumStage::Config, want, ..s }) && step == (EnumStep::GetDescriptor {
                                dtype: 2,
                                len: want,
                            })
                        },
                        _ => match bulk_endpoints_spec(buf@, s.want as int) {
                            None => *final(self) == s.at_stage(EnumStage::Failed) && step is Failed,
                            Some(eps) => *final(self) == (Enumeration { stage: EnumStage::SetConfiguration, eps, ..s }) && step
                                == (EnumStep::SetConfiguration { value: eps.cfg_value }),
                        },
                    }
                }
            }),
    {
        if code != Some(1u32) {
            self.stage = EnumStage::Failed;
            return EnumStep::Failed;
        }
        match self.stage {
            EnumStage::DeviceDescriptor => {
                let given = device_mps0(self.speed, buf[7]);
                if given != self.mps0 && given != 0 {
                    self.stage = EnumStage::Evaluate;
                    let writes = evaluate_context_writes(given);
                    EnumStep::Command { writes, control: control_word(TRB_EVALUATE_CONTEXT, self.slot) }
                } else {
                    self.stage = EnumStage::ConfigHeader;
                    EnumStep::GetDescriptor { dtype: 2, len: 9 }
                }
            },
            EnumStage::ConfigHeader => {
                let want = config_fetch_len(buf);
                self.want = want;
                self.stage = EnumStage::Config;
                EnumStep::GetDescriptor { dtype: 2, len: want }
            },
            _ => match bulk_endpoints(buf, self.want as usize) {
                None => {
                    self.stage = EnumStage::Failed;
                    EnumStep::Failed
                },
                Some(eps) => {
                    self.eps = eps;
                    self.stage = EnumStage::SetConfiguration;
                    EnumStep::SetConfiguration { value: eps.cfg_value }
                },
            },
        }
    }

    /// Set Configuration completed with transfer code `code`: with code 1 the bulk
    /// rings are allocated next; otherwise the enumeration fails.
    pub fn on_set_configuration(&mut self, code: Option<u32>) -> (step: EnumStep)
        requires
            old(self).stage == EnumStage::SetConfiguration,
        ensures
            code == Some(1u32) ==> *final(self) == old(self).at_stage(EnumStage::BulkRings) && step is BulkRings,
            code != Some(1u32) ==> *final(self) == old(self).at_stage(EnumStage::Failed) && step is Failed,
    {
        if code != Some(1u32) {
            self.stage = EnumStage::Failed;
            return EnumStep::Failed;
        }
        self.stage = EnumStage::BulkRings;
        EnumStep::BulkRings
    }

    /// The bulk rings are at `in_ring` and `out_ring`: the endpoints' context
    /// indices follow from their addresses, and Configure Endpoint sets them up.
    pub fn on_bulk_rings(&mut self, in_ring: u64, out_ring: u64) -> (step: EnumStep)
        requires
            old(self).stage == EnumStage::BulkRings,
            old(self).slot <= 0xFF,
        ensures
            ({
                let s = *old(self);
                let in_dci = (2 * (s.eps.in_addr & 0x0F) + 1) as u32;
                let out_dci = (2 * (s.eps.out_addr & 0x0F)) as u32;
                let max_dci = if in_dci > out_dci { in_dci } else { out_dci };
                let o = (1 + out_dci) as u32;
                let i = (1 + in_dci) as u32;
                &&& *final(self) == (Enumeration { stage: EnumStage::ConfigureEndpoint, in_dci, out_dci, ..s })
                &&& step matches EnumStep::Command { writes, control } && control == command_control(TRB_CONFIGURE_ENDPOINT, s.slot)
                    && writes@ == seq![
                    CtxWrite { ctx: 0, dw: 0, val: 0 },
                    CtxWrite { ctx: 0, dw: 1, val: 1u32 | (1u32 << in_dci) | (1u32 << out_dci) },
                    CtxWrite { ctx: 1, dw: 0, val: (s.speed << 20u32) | (max_dci << 27u32) },
                    CtxWrite { ctx: 1, dw: 1, val: s.port << 16u32 },
                    CtxWrite { ctx: o, dw: 1, val: (3u32 << 1u32) | (2u32 << 3u32) | ((s.eps.out_mps as u32) << 16u32) },
                    CtxWrite { ctx: o, dw: 2, val: ring_lo(out_ring) },
                    CtxWrite { ctx: o, dw: 3, val: ring_hi(out_ring) },
                    CtxWrite { ctx: o, dw: 4, val: s.eps.out_mps as u32 },
                    CtxWrite { ctx: i, dw: 1, val: (3u32 << 1u32) | (6u32 << 3u32) | ((s.eps.in_mps as u32) << 16u32) },
                    CtxWrite { ctx: i, dw: 2, val: ring_lo(in_ring) },
                    CtxWrite { ctx: i, dw: 3, val: ring_hi(in_ring) },
                    CtxWrite { ctx: i, dw: 4, val: s.eps.in_mps as u32 },
                ]
            }),
    {
        let (in_dci, out_dci) = bulk_dcis(self.eps.in_addr, self.eps.out_addr);
        self.in_dci = in_dci;
        self.out_dci = out_dci;
        self.stage = EnumStage::ConfigureEndpoint;
        let writes = configure_endpoint_writes(
            self.speed,
            self.port,
            in_dci,
            out_dci,
            self.eps.in_mps,
            self.eps.out_mps,
            in_ring,
            out_ring,
        );
        EnumStep::Command { writes, control: control_word(TRB_CONFIGURE_ENDPOINT, self.slot) }
    }
}

} // verus!
