use vstd::prelude::*;
use crate::pmm::SpinLock;
use vstd::string::StringSliceAdditionalSpecFns;

verus! {

/// I/O port of the first serial line (COM1).
pub const COM1: u16 = 0x3F8;
/// Line-status bit: the transmit holding register is empty.
pub const LSR_THR_EMPTY: u8 = 0x20;

/// The register writes that set COM1 up: interrupts off, 115200 baud, 8N1,
/// FIFO on, IRQ line enabled.
pub open spec fn init_writes() -> Seq<(u16, u8)> {
    seq![
        (0x3F9u16, 0x00u8),
        (0x3FBu16, 0x80u8),
        (0x3F8u16, 0x01u8),
        (0x3F9u16, 0x00u8),
        (0x3FBu16, 0x03u8),
        (0x3FAu16, 0xC7u8),
        (0x3FCu16, 0x0Bu8),
    ]
}

/// The port writes, in order, that initialise the serial line.
pub fn init() -> (r: Vec<(u16, u8)>)
    ensures
        r@ == init_writes(),
{
    let mut r: Vec<(u16, u8)> = Vec::new();
    r.push((COM1 + 1, 0x00));
    r.push((COM1 + 3, 0x80));
    r.push((COM1 + 0, 0x01));
    r.push((COM1 + 1, 0x00));
    r.push((COM1 + 3, 0x03));
    r.push((COM1 + 2, 0xC7));
    r.push((COM1 + 4, 0x0B));
    assert(r@ =~= init_writes());
    r
}

/// Whether a byte may be sent, given the line-status register.
pub fn tx_ready(lsr: u8) -> (r: bool)
    ensures
        r == (lsr & LSR_THR_EMPTY != 0),
{
    lsr & LSR_THR_EMPTY != 0
}

/// The port write that sends `byte` once `tx_ready` holds: the data register of COM1.
pub fn write_byte(byte: u8) -> (r: (u16, u8))
    ensures
        r == (COM1, byte),
{
    (COM1, byte)
}

/// The bytes `write_str` sends: those of the string's UTF-8 encoding, in order.
pub fn write_str(s: &str) -> (r: Vec<u8>)
    ensures
        r@ == s.spec_bytes(),
{
    let b = s.as_bytes();
    let mut r: Vec<u8> = Vec::new();
    append_bytes(&mut r, b);
    assert(r@ =~= s.spec_bytes());
    r
}

/// Appends every byte of `s` to `v`.
pub fn append_bytes(v: &mut Vec<u8>, s: &[u8])
    ensures
        final(v)@ == old(v)@ + s@,
{
    let mut i: usize = 0;
    while i < s.len()
        invariant
            i <= s.len(),
            v@ == old(v)@ + s@.subrange(0, i as int),
        decreases s.len() - i,
    {
        v.push(s[i]);
        i = i + 1;
        assert(v@ =~= old(v)@ + s@.subrange(0, i as int));
    }
    assert(s@.subrange(0, s.len() as int) =~= s@);
}

/// The lower-case hexadecimal digit of a nibble.
pub open spec fn hex_digit(n: u8) -> u8 {
    if n < 10 {
        (48 + n) as u8
    } else {
        (97 + n - 10) as u8
    }
}

/// Nibble `i` of `v`, counting from the most significant one.
pub open spec fn nibble(v: u64, i: int) -> u8 {
    ((v >> (((15 - i) * 4) as u64)) & 0xfu64) as u8
}

/// `v` as `0x` followed by sixteen lower-case hexadecimal digits.
pub open spec fn hex_spec(v: u64) -> Seq<u8> {
    seq![48u8, 120u8] + Seq::new(16, |i: int| hex_digit(nibble(v, i)))
}

/// The bytes `write_hex(val)` sends: `0x` and all sixteen digits, leading zeros kept.
pub fn write_hex(val: u64) -> (r: Vec<u8>)
    ensures
        r@ == hex_spec(val),
{
    let mut r: Vec<u8> = Vec::new();
    r.push(48u8);
    r.push(120u8);
    let mut i: u64 = 0;
    while i < 16
        invariant
            i <= 16,
            r@.len() == 2 + i,
            r@[0] == 48u8,
            r@[1] == 120u8,
            forall|k: int| 0 <= k < i ==> #[trigger] r@[2 + k] == hex_digit(nibble(val, k)),
        decreases 16 - i,
    {
        let sh: u64 = (15 - i) * 4;
        let w: u64 = val >> sh;
        assert((w & 0x0Fu64) < 16) by (bit_vector);
        let n: u8 = (w & 0x0F) as u8;
        assert(n == nibble(val, i as int));
        let byte: u8 = if n < 10 { 48u8 + n } else { 97u8 + (n - 10) };
        r.push(byte);
        i = i + 1;
    }
    assert forall|k: int| 0 <= k < 18 implies #[trigger] r@[k] == hex_spec(val)[k] by {
        if k >= 2 {
            assert(r@[2 + (k - 2)] == hex_digit(nibble(val, k - 2)));
        }
    }
    assert(r@ =~= hex_spec(val));
    r
}

/// Takes the serial line's lock; the caller waits while another holder has it.
pub fn lock(l: &mut SpinLock)
    requires
        !old(l).is_locked(),
    ensures
        final(l).is_locked(),
{
    l.lock();
}

/// Releases the serial line's lock.
pub fn unlock(l: &mut SpinLock)
    ensures
        !final(l).is_locked(),
{
    l.unlock();
}

} // verus!
