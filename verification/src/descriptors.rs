use vstd::prelude::*;

verus! {

/// An interrupt gate of the IDT.
#[derive(Debug, Clone, Copy, PartialEq, Eq, Structural)]
pub struct IDTEntry {
    pub offset_low: u16,
    pub selector: u16,
    pub ist: u8,
    pub attr: u8,
    pub offset_mid: u16,
    pub offset_high: u32,
    pub reserved: u32,
}

/// The IDT entry for an interrupt routine at `handler`: selector 0x08, IST 0,
/// attributes 0x8E, and the address in its low, middle and high parts.
pub fn make_entry(handler: u64) -> (e: IDTEntry)
    ensures
        e.offset_low == handler & 0xFFFF,
        e.offset_mid == (handler >> 16u64) & 0xFFFF,
        e.offset_high == handler >> 32u64,
        e.selector == 0x08,
        e.ist == 0,
        e.attr == 0x8E,
        e.reserved == 0,
{
    assert((handler >> 32u64) <= 0xFFFF_FFFFu64 && (handler & 0xFFFFu64) <= 0xFFFFu64 && ((handler >> 16u64) & 0xFFFFu64) <= 0xFFFFu64)
        by (bit_vector);
    IDTEntry {
        offset_low: (handler & 0xFFFF) as u16,
        selector: 0x08,
        ist: 0,
        attr: 0x8E,
        offset_mid: ((handler >> 16u64) & 0xFFFF) as u16,
        offset_high: (handler >> 32u64) as u32,
        reserved: 0,
    }
}

/// The vectors the kernel installs handlers for.
pub open spec fn installed_vectors() -> Seq<u8> {
    seq![0u8, 6, 8, 13, 14, 32, 33, 64, 65]
}

/// The vectors the kernel installs handlers for, in order.
pub fn handled_vectors() -> (r: [u8; 9])
    ensures
        r@ == installed_vectors(),
{
    let r = [0u8, 6, 8, 13, 14, 32, 33, 64, 65];
    assert(r@ =~= installed_vectors());
    r
}

/// The limit of the IDT register: 256 gates of 16 bytes, minus one.
pub const IDT_LIMIT: u16 = 4095;
/// The limit of each CPU's GDT register: seven 8-byte entries, minus one.
pub const GDT_LIMIT: u16 = 55;
/// Size of the task-state segment, and the selector of its descriptor.
pub const TSS_SIZE: u16 = 104;
pub const TSS_SELECTOR: u16 = 0x28;

/// The fixed entries of each CPU's GDT: null, kernel code and data, user data
/// and code.
pub open spec fn gdt_base_entries() -> Seq<u64> {
    seq![0x0000000000000000u64, 0x00AF9A000000FFFF, 0x00AF92000000FFFF, 0x00AFF2000000FFFF, 0x00AFFA000000FFFF]
}

/// The two GDT entries of the 64-bit TSS descriptor for a TSS at `tss_addr`: the
/// limit, the base split across the first entry, type 0x89 (present, available
/// 64-bit TSS), and the top half of the base in the second entry.
pub open spec fn tss_descriptor_spec(tss_addr: u64) -> (u64, u64) {
    let limit = (TSS_SIZE - 1) as u64;
    (((limit & 0xFFFF) | ((tss_addr & 0xFFFF) << 16u64) | (((tss_addr >> 16u64) & 0xFF) << 32u64) | (0x89u64 << 40u64) | (((tss_addr >> 24u64)
        & 0xFF) << 56u64)) as u64, tss_addr >> 32u64)
}

/// The TSS descriptor, as `tss_descriptor_spec` says.
pub fn tss_descriptor(tss_addr: u64) -> (r: (u64, u64))
    ensures
        r == tss_descriptor_spec(tss_addr),
{
    let limit: u64 = (TSS_SIZE - 1) as u64;
    let lo = (limit & 0xFFFF) | ((tss_addr & 0xFFFF) << 16u64) | (((tss_addr >> 16u64) & 0xFF) << 32u64) | (0x89u64 << 40u64) | (((tss_addr
        >> 24u64) & 0xFF) << 56u64);
    (lo, tss_addr >> 32u64)
}

/// The GDT of a CPU whose TSS is at `tss_addr`: the fixed entries, then the TSS
/// descriptor.
pub fn cpu_gdt(tss_addr: u64) -> (r: [u64; 7])
    ensures
        r@ == gdt_base_entries() + seq![tss_descriptor_spec(tss_addr).0, tss_descriptor_spec(tss_addr).1],
{
    let (lo, hi) = tss_descriptor(tss_addr);
    let r = [0x0000000000000000u64, 0x00AF9A000000FFFF, 0x00AF92000000FFFF, 0x00AFF2000000FFFF, 0x00AFFA000000FFFF, lo, hi];
    assert(r@ =~= gdt_base_entries() + seq![tss_descriptor_spec(tss_addr).0, tss_descriptor_spec(tss_addr).1]);
    r
}

/// Model-specific registers the system call path sets up.
pub const MSR_EFER: u32 = 0xC000_0080;
pub const MSR_STAR: u32 = 0xC000_0081;
pub const MSR_LSTAR: u32 = 0xC000_0082;
pub const MSR_SFMASK: u32 = 0xC000_0084;

/// The MSR writes that enable `syscall`: EFER with system-call extensions on, the
/// kernel and user segment bases in STAR, the entry point in LSTAR, and the
/// interrupt flag masked on entry.
pub fn syscall_msrs(efer: u64, entry: u64) -> (r: Vec<(u32, u64)>)
    ensures
        r@ == seq![(MSR_EFER, efer | 1u64), (MSR_STAR, 0x0013_0008_0000_0000u64), (MSR_LSTAR, entry), (MSR_SFMASK, 0x200u64)],
{
    let mut r: Vec<(u32, u64)> = Vec::new();
    r.push((MSR_EFER, efer | 1));
    assert(((0x0008u64 << 32u64) | (0x0013u64 << 48u64)) == 0x0013_0008_0000_0000u64 && 1u64 << 9u64 == 0x200u64) by (bit_vector);
    r.push((MSR_STAR, (0x0008u64 << 32u64) | (0x0013u64 << 48u64)));
    r.push((MSR_LSTAR, entry));
    r.push((MSR_SFMASK, 1u64 << 9u64));
    assert(r@ =~= seq![(MSR_EFER, efer | 1u64), (MSR_STAR, 0x0013_0008_0000_0000u64), (MSR_LSTAR, entry), (MSR_SFMASK, 0x200u64)]);
    r
}

/// Splits an MSR value into the `eax`/`edx` halves `wrmsr` takes.
pub fn msr_halves(value: u64) -> (r: (u32, u32))
    ensures
        r.0 == value & 0xFFFF_FFFF,
        r.1 == value >> 32u64,
{
    assert(value >> 32u64 <= 0xFFFF_FFFFu64 && value & 0xFFFF_FFFFu64 <= 0xFFFF_FFFFu64) by (bit_vector);
    ((value & 0xFFFF_FFFF) as u32, (value >> 32u64) as u32)
}

/// Joins the halves `rdmsr` returns.
pub fn msr_join(lo: u32, hi: u32) -> (r: u64)
    ensures
        r == (lo as u64) | ((hi as u64) << 32u64),
{
    (lo as u64) | ((hi as u64) << 32u64)
}

} // verus!
