use vstd::prelude::*;

verus! {

/// Input clock of the programmable interval timer, in Hz.
pub const PIT_HZ: u32 = 1193182;
/// Command port and channel 0 data port.
pub const PIT_COMMAND: u16 = 0x43;
pub const PIT_CHANNEL0: u16 = 0x40;

/// The reload value for a rate of `hz`.
pub open spec fn divisor(hz: u32) -> u32 {
    (PIT_HZ / hz) as u32
}

/// The port writes that set channel 0 to a square wave of `hz`: the mode
/// command, then the low and high bytes of the divisor. A rate of 0 has no
/// divisor, so `hz` must be positive.
pub fn init(hz: u32) -> (r: Vec<(u16, u8)>)
    requires
        hz > 0,
    ensures
        r@ == seq![
            (PIT_COMMAND, 0x36u8),
            (PIT_CHANNEL0, (divisor(hz) & 0xFF) as u8),
            (PIT_CHANNEL0, ((divisor(hz) >> 8u32) & 0xFF) as u8),
        ],
{
    let d: u32 = PIT_HZ / hz;
    let lo = (d & 0xFF) as u8;
    let hi = ((d >> 8u32) & 0xFF) as u8;
    let mut r: Vec<(u16, u8)> = Vec::new();
    r.push((PIT_COMMAND, 0x36));
    r.push((PIT_CHANNEL0, lo));
    r.push((PIT_CHANNEL0, hi));
    assert(r@ =~= seq![
        (PIT_COMMAND, 0x36u8),
        (PIT_CHANNEL0, (divisor(hz) & 0xFF) as u8),
        (PIT_CHANNEL0, ((divisor(hz) >> 8u32) & 0xFF) as u8),
    ]);
    r
}

} // verus!
