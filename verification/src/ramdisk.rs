use vstd::prelude::*;
use crate::multiboot::{le_u32, read_u32};
use crate::vfs::{le_bytes_u32, u32_le_bytes};

verus! {

/// Bytes in a sector, and sectors one request moves at most.
pub const SECTOR: usize = 512;
pub const MAX_SECTORS: u8 = 8;

/// The sectors a block request names: the block address (little endian at 1) and
/// the count (byte 5, capped at `MAX_SECTORS`), as a byte offset and length.
pub open spec fn request_span(req: Seq<u8>) -> (int, int) {
    let lba = le_u32(req, 1);
    let count = if req[5] > MAX_SECTORS { MAX_SECTORS } else { req[5] };
    (lba * 512, count * 512)
}

/// `[off, off + n)` lies in a disk of `len` bytes and starts inside it.
pub open spec fn in_range_spec(off: int, n: int, len: int) -> bool {
    off < len && n <= len - off
}

/// A disk held in memory.
pub struct RamDisk {
    data: Vec<u8>,
}

impl RamDisk {
    pub closed spec fn view(&self) -> Seq<u8> {
        self.data@
    }

    /// A disk with the given contents.
    pub fn new(data: Vec<u8>) -> (r: Self)
        ensures
            r@ == data@,
    {
        RamDisk { data }
    }

    /// The bytes of the disk.
    pub fn len(&self) -> (r: usize)
        ensures
            r == self@.len(),
    {
        self.data.len()
    }

    fn span(&self, req: &[u8]) -> (r: Option<(usize, usize)>)
        requires
            req.len() >= 6,
        ensures
            match r {
                Some((off, n)) => in_range_spec(request_span(req@).0, request_span(req@).1, self@.len() as int) && off
                    == request_span(req@).0 && n == request_span(req@).1,
                None => !in_range_spec(request_span(req@).0, request_span(req@).1, self@.len() as int),
            },
    {
        let lba = read_u32(req, 1);
        let mut count = req[5];
        if count > MAX_SECTORS {
            count = MAX_SECTORS;
        }
        let n: u64 = count as u64 * 512;
        let off: u64 = lba as u64 * 512;
        let len = self.data.len() as u64;
        if off < len && n <= len - off {
            Some((off as usize, n as usize))
        } else {
            None
        }
    }

    /// Reads the sectors a request names: their bytes, or nothing when they do not
    /// lie in the disk.
    pub fn on_read(&self, req: &[u8]) -> (reply: Vec<u8>)
        requires
            req.len() >= 6,
        ensures
            ({
                let (off, n) = request_span(req@);
                &&& in_range_spec(off, n, self@.len() as int) ==> reply@ == self@.subrange(off, off + n)
                &&& !in_range_spec(off, n, self@.len() as int) ==> reply@ == Seq::<u8>::empty()
            }),
    {
        let mut r: Vec<u8> = Vec::new();
        match self.span(req) {
            None => r,
            Some((off, n)) => {
                let mut i: usize = 0;
                while i < n
                    invariant
                        off + n <= self@.len(),
                        self@.len() == self.data.len(),
                        i <= n,
                        r@ == self@.subrange(off as int, off + i),
                    decreases n - i,
                {
                    r.push(self.data[off + i]);
                    i = i + 1;
                    assert(r@ =~= self@.subrange(off as int, off + i));
                }
                r
            },
        }
    }

    /// A sync request: the disk is memory, so there is nothing to flush; answers 0.
    pub fn on_sync(&self) -> (reply: Vec<u8>)
        ensures
            reply@ == le_bytes_u32(0),
    {
        u32_le_bytes(0)
    }

    /// Writes the data of a request (from byte 6 on) to the sectors it names and
    /// answers 0; answers -1, writing nothing, when they do not lie in the disk.
    /// The request must carry the data for the whole span.
    pub fn on_bwrite(&mut self, req: &[u8]) -> (reply: Vec<u8>)
        requires
            req.len() >= 6 + request_span(req@).1,
        ensures
            final(self)@.len() == old(self)@.len(),
            ({
                let (off, n) = request_span(req@);
                &&& in_range_spec(off, n, old(self)@.len() as int) ==> reply@ == le_bytes_u32(0) && final(self)@ == old(self)@.subrange(
                    0,
                    off,
                ) + req@.subrange(6, 6 + n) + old(self)@.subrange(off + n, old(self)@.len() as int)
                &&& !in_range_spec(off, n, old(self)@.len() as int) ==> reply@ == le_bytes_u32(0xFFFF_FFFFu32) && final(self)@ == old(
                    self,
                )@
            }),
    {
        match self.span(req) {
            None => u32_le_bytes(0xFFFF_FFFFu32),
            Some((off, n)) => {
                let mut i: usize = 0;
                while i < n
                    invariant
                        off + n <= self@.len(),
                        n == request_span(req@).1,
                        req.len() >= 6 + n,
                        self@.len() == old(self)@.len(),
                        self@.len() == self.data.len(),
                        i <= n,
                        forall|k: int| 0 <= k < off ==> #[trigger] self@[k] == old(self)@[k],
                        forall|k: int| off <= k < off + i ==> #[trigger] self@[k] == req@[6 + k - off],
                        forall|k: int| off + i <= k < self@.len() ==> #[trigger] self@[k] == old(self)@[k],
                    decreases n - i,
                {
                    self.data.set(off + i, req[6 + i]);
                    i = i + 1;
                }
                assert(self@ =~= old(self)@.subrange(0, off as int) + req@.subrange(6, 6 + n) + old(self)@.subrange(
                    off + n,
                    old(self)@.len() as int,
                ));
                u32_le_bytes(0)
            },
        }
    }
}

/// A read gives back what a write wrote: after a successful write of a span, a
/// read request naming the same span returns the written bytes.
pub proof fn law_read_after_write(disk: Seq<u8>, wreq: Seq<u8>, rreq: Seq<u8>)
    requires
        wreq.len() >= 6 + request_span(wreq).1,
        rreq.len() >= 6,
        request_span(rreq) == request_span(wreq),
        in_range_spec(request_span(wreq).0, request_span(wreq).1, disk.len() as int),
    ensures
        ({
            let (off, n) = request_span(wreq);
            let after = disk.subrange(0, off) + wreq.subrange(6, 6 + n) + disk.subrange(off + n, disk.len() as int);
            &&& after.len() == disk.len()
            &&& in_range_spec(off, n, after.len() as int)
            &&& after.subrange(off, off + n) == wreq.subrange(6, 6 + n)
        }),
{
    let (off, n) = request_span(wreq);
    let after = disk.subrange(0, off) + wreq.subrange(6, 6 + n) + disk.subrange(off + n, disk.len() as int);
    assert(after.subrange(off, off + n) =~= wreq.subrange(6, 6 + n));
}

} // verus!
