use vstd::prelude::*;

verus! {

/// Status register bits: busy, ready, data request, error.
pub const ATA_BSY: u8 = 0x80;
pub const ATA_DRDY: u8 = 0x40;
pub const ATA_DRQ: u8 = 0x08;
pub const ATA_ERR: u8 = 0x01;

/// What one reading of the status register means to a waiting driver.
#[derive(Debug, Clone, Copy, PartialEq, Eq, Structural)]
pub enum Poll {
    /// Read the status again (one try is used up).
    Again,
    /// The wait ends in failure.
    Fail,
    /// The wait ends in success.
    Done,
}

/// Waiting for the drive to be ready: busy reads again, an error fails, ready
/// succeeds, anything else reads again.
pub fn ready_poll(status: u8) -> (p: Poll)
    ensures
        p == if status & ATA_BSY != 0 {
            Poll::Again
        } else if status & ATA_ERR != 0 {
            Poll::Fail
        } else if status & ATA_DRDY != 0 {
            Poll::Done
        } else {
            Poll::Again
        },
{
    if status & ATA_BSY != 0 {
        Poll::Again
    } else if status & ATA_ERR != 0 {
        Poll::Fail
    } else if status & ATA_DRDY != 0 {
        Poll::Done
    } else {
        Poll::Again
    }
}

/// Waiting for data: an error fails, not busy with data requested succeeds,
/// anything else reads again.
pub fn drq_poll(status: u8) -> (p: Poll)
    ensures
        p == if status & ATA_ERR != 0 {
            Poll::Fail
        } else if status & ATA_BSY == 0 && status & ATA_DRQ != 0 {
            Poll::Done
        } else {
            Poll::Again
        },
{
    if status & ATA_ERR != 0 {
        Poll::Fail
    } else if status & ATA_BSY == 0 && status & ATA_DRQ != 0 {
        Poll::Done
    } else {
        Poll::Again
    }
}

/// A bounded wait: the reads left before it gives up.
pub struct Wait {
    left: u32,
}

impl Wait {
    pub closed spec fn spec_left(&self) -> u32 {
        self.left
    }

    /// A wait of `budget` reads.
    pub fn new(budget: u32) -> (r: Self)
        ensures
            r.spec_left() == budget,
    {
        Wait { left: budget }
    }

    /// Feeds one status reading to the wait: `Fail` when no reads are left (the
    /// reading is not looked at), else what `poll` says of it, one read used up.
    pub fn step(&mut self, p: Poll) -> (r: Poll)
        ensures
            old(self).spec_left() == 0 ==> r == Poll::Fail && final(self).spec_left() == 0,
            old(self).spec_left() > 0 ==> r == p && final(self).spec_left() == old(self).spec_left() - 1,
    {
        if self.left == 0 {
            return Poll::Fail;
        }
        self.left = self.left - 1;
        p
    }
}

/// Budgets of the two waits.
pub const READY_BUDGET: u32 = 100000;
pub const DRQ_BUDGET: u32 = 1000000;

/// The port writes that start a 28-bit LBA read of `count` sectors at `lba` on
/// the master drive: drive and top address bits, count, address bytes, then the
/// READ SECTORS command.
pub fn read_command(lba: u32, count: u8) -> (r: Vec<(u16, u8)>)
    ensures
        r@ == seq![
            (0x1F6u16, (0xE0u32 | ((lba >> 24u32) & 0x0F)) as u8),
            (0x1F2u16, count),
            (0x1F3u16, (lba & 0xFF) as u8),
            (0x1F4u16, ((lba >> 8u32) & 0xFF) as u8),
            (0x1F5u16, ((lba >> 16u32) & 0xFF) as u8),
            (0x1F7u16, 0x20u8),
        ],
{
    let mut r: Vec<(u16, u8)> = Vec::new();
    r.push((0x1F6, (0xE0u32 | ((lba >> 24u32) & 0x0F)) as u8));
    r.push((0x1F2, count));
    r.push((0x1F3, (lba & 0xFF) as u8));
    r.push((0x1F4, ((lba >> 8u32) & 0xFF) as u8));
    r.push((0x1F5, ((lba >> 16u32) & 0xFF) as u8));
    r.push((0x1F7, 0x20));
    assert(r@ =~= seq![
        (0x1F6u16, (0xE0u32 | ((lba >> 24u32) & 0x0F)) as u8),
        (0x1F2u16, count),
        (0x1F3u16, (lba & 0xFF) as u8),
        (0x1F4u16, ((lba >> 8u32) & 0xFF) as u8),
        (0x1F5u16, ((lba >> 16u32) & 0xFF) as u8),
        (0x1F7u16, 0x20u8),
    ]);
    r
}

/// The port writes of IDENTIFY DEVICE on the master drive, after selecting it.
pub fn identify_command() -> (r: Vec<(u16, u8)>)
    ensures
        r@ == seq![(0x1F6u16, 0xA0u8), (0x1F2u16, 0u8), (0x1F3u16, 0u8), (0x1F4u16, 0u8), (0x1F5u16, 0u8), (0x1F7u16, 0xECu8)],
{
    let mut r: Vec<(u16, u8)> = Vec::new();
    r.push((0x1F6, 0xA0));
    r.push((0x1F2, 0));
    r.push((0x1F3, 0));
    r.push((0x1F4, 0));
    r.push((0x1F5, 0));
    r.push((0x1F7, 0xEC));
    assert(r@ =~= seq![(0x1F6u16, 0xA0u8), (0x1F2u16, 0u8), (0x1F3u16, 0u8), (0x1F4u16, 0u8), (0x1F5u16, 0u8), (0x1F7u16, 0xECu8)]);
    r
}

/// The little-endian bytes of the words read from the data port.
pub open spec fn words_le(w: Seq<u16>) -> Seq<u8> {
    Seq::new(2 * w.len(), |i: int| if i % 2 == 0 { (w[i / 2] & 0xFF) as u8 } else { (w[i / 2] >> 8u16) as u8 })
}

/// The reply to a sector read: the first `count * 512` bytes of the words read.
pub fn sectors_reply(words: &[u16], count: u8) -> (r: Vec<u8>)
    requires
        words.len() >= count * 256,
    ensures
        r@ == words_le(words@).subrange(0, count * 512),
{
    let n: usize = count as usize * 256;
    let mut r: Vec<u8> = Vec::new();
    let mut i: usize = 0;
    while i < n
        invariant
            n == count * 256,
            n <= words.len(),
            i <= n,
            r@.len() == 2 * i,
            forall|k: int| 0 <= k < 2 * i ==> #[trigger] r@[k] == words_le(words@)[k],
        decreases n - i,
    {
        let w = words[i];
        r.push((w & 0xFF) as u8);
        r.push((w >> 8u16) as u8);
        i = i + 1;
    }
    assert(r@ =~= words_le(words@).subrange(0, count * 512));
    r
}

} // verus!
