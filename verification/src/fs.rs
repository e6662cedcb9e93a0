use vstd::prelude::*;
use crate::multiboot::{le_u32, read_u32};
use crate::vfs::{le_bytes_u32, u32_le_bytes};

verus! {

/// Files the file service keeps open at most.
pub const MAX_FILES: usize = 128;
/// Longest path an open request passes on.
pub const MAX_OPEN_PATH: usize = 254;

/// The open files of the file service, by handle.
pub struct FileTable {
    used: Vec<bool>,
}

impl FileTable {
    pub closed spec fn wf(&self) -> bool {
        self.used@.len() == MAX_FILES
    }

    pub closed spec fn view(&self) -> Seq<bool> {
        self.used@
    }

    /// No file open.
    pub fn new() -> (r: Self)
        ensures
            r.wf(),
            r@.len() == MAX_FILES,
            forall|i: int| 0 <= i < MAX_FILES ==> !#[trigger] r@[i],
    {
        let mut used: Vec<bool> = Vec::new();
        let mut i: usize = 0;
        while i < MAX_FILES
            invariant
                i <= MAX_FILES,
                used@.len() == i,
                forall|k: int| 0 <= k < i ==> !#[trigger] used@[k],
            decreases MAX_FILES - i,
        {
            used.push(false);
            i = i + 1;
        }
        FileTable { used }
    }

    /// The handle an open would take: the first free one, or -1 when all are taken.
    pub fn free_slot(&self) -> (r: i32)
        requires
            self.wf(),
        ensures
            r == -1 <==> self@.index_of_first(false) is None,
            r != -1 ==> self@.index_of_first(false) == Some(r as int),
    {
        let mut i: usize = 0;
        while i < MAX_FILES
            invariant
                self.wf(),
                i <= MAX_FILES,
                forall|k: int| 0 <= k < i ==> #[trigger] self@[k],
            decreases MAX_FILES - i,
        {
            if !self.used[i] {
                proof {
                    self@.index_of_first_ensures(false);
                    let f = self@.index_of_first(false).unwrap();
                    if f < i {
                        assert(self@[f]);
                    }
                    if f > i {
                        assert(self@[i as int] != false);
                    }
                }
                return i as i32;
            }
            i = i + 1;
        }
        proof {
            self@.index_of_first_ensures(false);
            if self@.contains(false) {
                let k = choose|k: int| 0 <= k < self@.len() && self@[k] == false;
                assert(self@[k]);
            }
        }
        -1
    }

    /// Records the outcome of opening into `slot`: the file system's result `rc` of
    /// 0 makes `slot` the handle, anything else gives -1 and keeps it free.
    pub fn finish_open(&mut self, slot: i32, rc: i32) -> (handle: i32)
        requires
            old(self).wf(),
            0 <= slot < MAX_FILES,
        ensures
            final(self).wf(),
            rc == 0 ==> handle == slot && final(self)@ == old(self)@.update(slot as int, true),
            rc != 0 ==> handle == -1 && final(self)@ == old(self)@,
    {
        if rc == 0 {
            self.used.set(slot as usize, true);
            slot
        } else {
            -1
        }
    }

    /// A read request: the handle (little endian at 1) and the most bytes wanted
    /// (at 5), the latter capped by the reply buffer. `None` for a handle out of
    /// range or not open, which is answered with no bytes.
    pub fn read_target(&self, req: &[u8], reply_cap: usize) -> (r: Option<(usize, usize)>)
        requires
            self.wf(),
            req.len() >= 9,
        ensures
            ({
                let h = le_u32(req@, 1) as i32;
                let maxlen = le_u32(req@, 5);
                &&& (h < 0 || h >= MAX_FILES || !self@[h as int]) ==> r is None
                &&& (0 <= h < MAX_FILES && self@[h as int]) ==> r == Some(
                    (h as usize, if (maxlen as int) < reply_cap { maxlen as usize } else { reply_cap }),
                )
            }),
    {
        let h = read_u32(req, 1) as i32;
        let maxlen = read_u32(req, 5) as usize;
        if h < 0 || h as usize >= MAX_FILES || !self.used[h as usize] {
            return None;
        }
        let want = if maxlen < reply_cap { maxlen } else { reply_cap };
        Some((h as usize, want))
    }
}

/// The path of an open request: the bytes after the operation byte, at most
/// `MAX_OPEN_PATH` of them, in a zeroed 256-byte buffer (so NUL-terminated).
pub fn open_path(req: &[u8]) -> (path: Vec<u8>)
    requires
        req.len() >= 1,
    ensures
        path@.len() == 256,
        ({
            let n = if req.len() - 1 < MAX_OPEN_PATH { req.len() - 1 } else { MAX_OPEN_PATH as int };
            &&& path@.subrange(0, n) == req@.subrange(1, 1 + n)
            &&& forall|k: int| n <= k < 256 ==> #[trigger] path@[k] == 0
        }),
{
    let n: usize = if req.len() - 1 < MAX_OPEN_PATH { req.len() - 1 } else { MAX_OPEN_PATH };
    let mut path: Vec<u8> = Vec::new();
    let mut i: usize = 0;
    while i < 256
        invariant
            n <= MAX_OPEN_PATH,
            1 + n <= req.len(),
            i <= 256,
            path@.len() == i,
            forall|k: int| 0 <= k < i && k < n ==> #[trigger] path@[k] == req@[1 + k],
            forall|k: int| n <= k < i ==> #[trigger] path@[k] == 0,
        decreases 256 - i,
    {
        if i < n {
            path.push(req[1 + i]);
        } else {
            path.push(0);
        }
        i = i + 1;
    }
    assert(path@.subrange(0, n as int) =~= req@.subrange(1, 1 + n));
    path
}

/// The reply to an open: the handle as four little-endian bytes.
pub fn open_reply(handle: i32) -> (r: Vec<u8>)
    ensures
        r@ == le_bytes_u32(handle as u32),
{
    u32_le_bytes(handle as u32)
}

/// The reply to a write: the bytes after the operation byte, counted, as four
/// little-endian bytes (the service takes them without storing them).
pub fn on_write(req: &[u8]) -> (r: Vec<u8>)
    requires
        req.len() <= i32::MAX,
    ensures
        r@ == le_bytes_u32((if req.len() == 0 { 0 } else { req.len() - 1 }) as u32),
{
    let n: usize = if req.len() == 0 { 0 } else { req.len() - 1 };
    u32_le_bytes(n as u32)
}

/// The block request the file system's device reads with: the operation byte,
/// the block number's low 32 bits, the block count's low byte.
pub fn bread_request(blk_id: u64, blk_cnt: u32) -> (r: Vec<u8>)
    ensures
        r@ == seq![crate::libsys::OP_READ] + le_bytes_u32(blk_id as u32) + seq![blk_cnt as u8],
{
    let mut r: Vec<u8> = Vec::new();
    r.push(crate::libsys::OP_READ);
    let b = u32_le_bytes(blk_id as u32);
    crate::serial::append_bytes(&mut r, b.as_slice());
    r.push(blk_cnt as u8);
    assert(r@ =~= seq![crate::libsys::OP_READ] + le_bytes_u32(blk_id as u32) + seq![blk_cnt as u8]);
    r
}

/// How many bytes of a block reply the file system takes: all it asked for, or
/// what came back when less.
pub fn bread_len(blk_cnt: u32, got: usize) -> (r: usize)
    ensures
        r == if blk_cnt as int * 512 < got { blk_cnt as int * 512 } else { got as int },
{
    let want: u64 = blk_cnt as u64 * 512;
    if want < got as u64 {
        want as usize
    } else {
        got
    }
}

} // verus!
