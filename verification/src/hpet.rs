use vstd::prelude::*;

verus! {

/// Offset of the general configuration register; writing 1 starts the counter.
pub const HPET_CONFIG: u64 = 0x10;
/// Offset of the main counter.
pub const HPET_COUNTER: u64 = 0xF0;

/// The counter period in femtoseconds, from the capabilities register: its top half.
pub fn period_fs(caps: u64) -> (r: u64)
    ensures
        r == caps >> 32u64,
{
    caps >> 32u64
}

/// Nanoseconds since the counter started: `ticks` times the period in
/// femtoseconds, the product wrapping at 64 bits, over one million.
pub fn now_ns(ticks: u64, period_fs: u64) -> (r: u64)
    ensures
        r == (ticks as int * period_fs as int) % 0x1_0000_0000_0000_0000 / 1_000_000,
{
    ticks.wrapping_mul(period_fs) / 1_000_000
}

/// Whether a sleep of `ns` nanoseconds begun at `start` still waits at `now`: the
/// sleeping task yields and asks again while this holds. Time does not run
/// backwards, so `now` is at least `start`.
pub fn sleep_ns(start: u64, now: u64, ns: u64) -> (waiting: bool)
    requires
        start <= now,
    ensures
        waiting == (now - start < ns),
{
    now - start < ns
}

} // verus!
