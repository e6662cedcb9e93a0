use vstd::prelude::*;

verus! {

/// Spurious-interrupt vector register.
pub const LAPIC_SVR: usize = 0x0F0;
/// End-of-interrupt register.
pub const LAPIC_EOI: usize = 0x0B0;
/// Local APIC ID register.
pub const LAPIC_ID: usize = 0x020;
/// Interrupt command register, low and high halves.
pub const LAPIC_ICR_LOW: usize = 0x300;
pub const LAPIC_ICR_HIGH: usize = 0x310;
/// Timer registers: divide configuration, LVT entry, initial count.
pub const LAPIC_TIMER_DIV: usize = 0x3E0;
pub const LAPIC_LVT_TIMER: usize = 0x320;
pub const LAPIC_TIMER_INIT: usize = 0x380;
/// The MSR that holds the local APIC's base address.
pub const IA32_APIC_BASE: u32 = 0x1B;

/// The physical base of the local APIC's registers, from the `IA32_APIC_BASE` MSR:
/// the MSR with its low twelve flag bits cleared.
pub fn base(apic_base_msr: u64) -> (r: u64)
    ensures
        r == apic_base_msr & !0xFFFu64,
{
    apic_base_msr & !0xFFFu64
}

/// The register write that enables the local APIC: the spurious-interrupt vector
/// register, read as `svr`, with the enable bit and vector 0xFF set.
pub fn init(svr: u32) -> (r: (usize, u32))
    ensures
        r == (LAPIC_SVR, svr | 0x1FFu32),
{
    (LAPIC_SVR, svr | 0x1FF)
}

/// The register writes that start the periodic timer: divide by 16, vector 0x40
/// in periodic mode, initial count 100000.
pub fn init_timer() -> (r: Vec<(usize, u32)>)
    ensures
        r@ == seq![(LAPIC_TIMER_DIV, 3u32), (LAPIC_LVT_TIMER, 0x20040u32), (LAPIC_TIMER_INIT, 100000u32)],
{
    let mut r: Vec<(usize, u32)> = Vec::new();
    r.push((LAPIC_TIMER_DIV, 0x3));
    r.push((LAPIC_LVT_TIMER, 0x40 | (1u32 << 17u32)));
    r.push((LAPIC_TIMER_INIT, 100_000));
    assert(0x40u32 | (1u32 << 17u32) == 0x20040u32) by (bit_vector);
    assert(r@ =~= seq![(LAPIC_TIMER_DIV, 3u32), (LAPIC_LVT_TIMER, 0x20040u32), (LAPIC_TIMER_INIT, 100000u32)]);
    r
}

/// The register write that signals the end of an interrupt.
pub fn eoi() -> (r: (usize, u32))
    ensures
        r == (LAPIC_EOI, 0u32),
{
    (LAPIC_EOI, 0)
}

/// The two writes of an inter-processor interrupt: the destination in the high
/// half of the command register, then the command, written last because it sends.
pub open spec fn ipi_writes(apic_id: u8, command: u32) -> Seq<(usize, u32)> {
    seq![(LAPIC_ICR_HIGH, ((apic_id as u32) << 24u32) as u32), (LAPIC_ICR_LOW, command)]
}

fn ipi(apic_id: u8, command: u32) -> (r: Vec<(usize, u32)>)
    ensures
        r@ == ipi_writes(apic_id, command),
{
    let mut r: Vec<(usize, u32)> = Vec::new();
    r.push((LAPIC_ICR_HIGH, (apic_id as u32) << 24u32));
    r.push((LAPIC_ICR_LOW, command));
    assert(r@ =~= ipi_writes(apic_id, command));
    r
}

/// A fixed interrupt with `vector`, asserted, to the CPU with `apic_id`.
pub fn send_ipi(apic_id: u8, vector: u8) -> (r: Vec<(usize, u32)>)
    ensures
        r@ == ipi_writes(apic_id, (0x4000u32 | vector as u32) as u32),
{
    ipi(apic_id, 0x0000_4000u32 | vector as u32)
}

/// The INIT signal, asserted, to the CPU with `apic_id`.
pub fn send_init(apic_id: u8) -> (r: Vec<(usize, u32)>)
    ensures
        r@ == ipi_writes(apic_id, 0x4500u32),
{
    ipi(apic_id, 0x0000_4500)
}

/// The start-up signal with the page number `vector` of the start-up code.
pub fn send_sipi(apic_id: u8, vector: u8) -> (r: Vec<(usize, u32)>)
    ensures
        r@ == ipi_writes(apic_id, (0x4600u32 | vector as u32) as u32),
{
    ipi(apic_id, 0x0000_4600u32 | vector as u32)
}

/// This CPU's APIC ID, from the ID register read as `id_reg`: its top byte.
pub fn id(id_reg: u32) -> (r: u8)
    ensures
        r == id_reg >> 24u32,
{
    assert(id_reg >> 24u32 < 256) by (bit_vector);
    (id_reg >> 24u32) as u8
}

} // verus!
