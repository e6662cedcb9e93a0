use vstd::prelude::*;
use crate::vfs::{first_free, le_bytes_u32, resolve_spec, u32_le_bytes};
use crate::multiboot::le_u32;

verus! {

/// Service numbers.
pub const SVC_VFS: u32 = 1;
pub const SVC_ATA: u32 = 2;
pub const SVC_FS: u32 = 3;
pub const SVC_KBD: u32 = 4;
pub const SVC_ECHO: u32 = 5;

/// Request operation bytes.
pub const OP_BIND: u8 = 1;
pub const OP_RESOLVE: u8 = 2;
pub const OP_READ: u8 = 3;
pub const OP_WRITE: u8 = 4;
pub const OP_OPEN: u8 = 5;
pub const OP_IRQ: u8 = 6;
pub const OP_ECHO: u8 = 7;
pub const OP_ECHO_TS: u8 = 8;

/// Size of the request buffer a client builds its requests in.
pub const REQ_BUF: usize = 256;
/// Open files a process may hold.
pub const MAX_FDS: usize = 256;

/// The request that asks the name service which service serves `path`: the
/// operation byte, four unused zero bytes, then the path. The path must fit the
/// request buffer.
pub fn vfs_resolve(path: &[u8]) -> (req: Vec<u8>)
    requires
        path.len() <= REQ_BUF - 5,
    ensures
        req@ == seq![OP_RESOLVE, 0u8, 0u8, 0u8, 0u8] + path@,
{
    let mut req: Vec<u8> = Vec::new();
    req.push(OP_RESOLVE);
    req.push(0);
    req.push(0);
    req.push(0);
    req.push(0);
    crate::serial::append_bytes(&mut req, path);
    assert(req@ =~= seq![OP_RESOLVE, 0u8, 0u8, 0u8, 0u8] + path@);
    req
}

/// The request that binds `path` to `service_id`: the operation byte, the service
/// as four little-endian bytes, then the path.
pub fn vfs_bind(path: &[u8], service_id: u32) -> (req: Vec<u8>)
    requires
        path.len() <= REQ_BUF - 5,
    ensures
        req@ == seq![OP_BIND] + le_bytes_u32(service_id) + path@,
{
    let mut req: Vec<u8> = Vec::new();
    req.push(OP_BIND);
    let sid = u32_le_bytes(service_id);
    crate::serial::append_bytes(&mut req, sid.as_slice());
    crate::serial::append_bytes(&mut req, path);
    assert(req@ =~= seq![OP_BIND] + le_bytes_u32(service_id) + path@);
    req
}

/// The request that opens `path` at the service that serves it.
pub fn open_request(path: &[u8]) -> (req: Vec<u8>)
    requires
        path.len() <= REQ_BUF - 1,
    ensures
        req@ == seq![OP_OPEN] + path@,
{
    let mut req: Vec<u8> = Vec::new();
    req.push(OP_OPEN);
    crate::serial::append_bytes(&mut req, path);
    assert(req@ =~= seq![OP_OPEN] + path@);
    req
}

/// The request that reads up to `len` bytes of the open file `handle`.
pub fn read_request(handle: i32, len: u32) -> (req: Vec<u8>)
    ensures
        req@ == seq![OP_READ] + le_bytes_u32(handle as u32) + le_bytes_u32(len),
{
    let mut req: Vec<u8> = Vec::new();
    req.push(OP_READ);
    let h = u32_le_bytes(handle as u32);
    crate::serial::append_bytes(&mut req, h.as_slice());
    let l = u32_le_bytes(len);
    crate::serial::append_bytes(&mut req, l.as_slice());
    assert(req@ =~= seq![OP_READ] + le_bytes_u32(handle as u32) + le_bytes_u32(len));
    req
}

/// The request that writes `buf`: the operation byte and at most 255 bytes of it.
pub fn write_request(buf: &[u8]) -> (req: Vec<u8>)
    ensures
        req@ == seq![OP_WRITE] + buf@.subrange(0, if buf.len() < 255 { buf.len() as int } else { 255 }),
{
    let n: usize = if buf.len() < 255 { buf.len() } else { 255 };
    let mut req: Vec<u8> = Vec::new();
    req.push(OP_WRITE);
    let mut i: usize = 0;
    while i < n
        invariant
            n <= buf.len(),
            i <= n,
            req@ == seq![OP_WRITE] + buf@.subrange(0, i as int),
        decreases n - i,
    {
        req.push(buf[i]);
        i = i + 1;
        assert(req@ =~= seq![OP_WRITE] + buf@.subrange(0, i as int));
    }
    req
}

/// The little-endian value of a reply of at most four bytes, read into a zeroed
/// four-byte buffer.
pub open spec fn reply_value(reply: Seq<u8>) -> u32 {
    let b = |i: int| if i < reply.len() { reply[i] } else { 0u8 };
    ((b(0) as u32) | ((b(1) as u32) << 8u32) | ((b(2) as u32) << 16u32) | ((b(3) as u32) << 24u32)) as u32
}

/// The answer of a reply: its bytes in a zeroed four-byte buffer, read as a
/// little-endian `u32`. A longer reply does not fit that buffer.
pub fn reply_u32(reply: &[u8]) -> (r: u32)
    requires
        reply.len() <= 4,
    ensures
        r == reply_value(reply@),
{
    let mut out = [0u8; 4];
    let mut i: usize = 0;
    while i < reply.len()
        invariant
            reply.len() <= 4,
            i <= reply.len(),
            forall|k: int| 0 <= k < i ==> #[trigger] out@[k] == reply@[k],
            forall|k: int| i <= k < 4 ==> #[trigger] out@[k] == 0,
        decreases reply.len() - i,
    {
        out[i] = reply[i];
        i = i + 1;
    }
    (out[0] as u32) | ((out[1] as u32) << 8u32) | ((out[2] as u32) << 16u32) | ((out[3] as u32) << 24u32)
}

/// The same answer read as a signed number.
pub fn reply_i32(reply: &[u8]) -> (r: i32)
    requires
        reply.len() <= 4,
    ensures
        r == reply_value(reply@) as i32,
{
    reply_u32(reply) as i32
}

/// An open file of the process: the mailbox of its service and the service's handle.
#[derive(Clone, Copy)]
pub struct Fd {
    pub conn: usize,
    pub handle: i32,
    pub used: bool,
}

/// The open files of the process.
pub struct FdTable {
    fds: Vec<Fd>,
}

impl FdTable {
    pub closed spec fn wf(&self) -> bool {
        self.fds@.len() == MAX_FDS
    }

    pub closed spec fn view(&self) -> Seq<Option<(usize, i32)>> {
        self.fds@.map_values(|f: Fd| if f.used { Some((f.conn, f.handle)) } else { None })
    }

    /// No open file.
    pub fn new() -> (r: Self)
        ensures
            r.wf(),
            forall|i: int| 0 <= i < MAX_FDS ==> #[trigger] r@[i] is None,
    {
        let mut fds: Vec<Fd> = Vec::new();
        let mut i: usize = 0;
        while i < MAX_FDS
            invariant
                i <= MAX_FDS,
                fds@.len() == i,
                forall|k: int| 0 <= k < i ==> !(#[trigger] fds@[k]).used,
            decreases MAX_FDS - i,
        {
            fds.push(Fd { conn: 0, handle: 0, used: false });
            i = i + 1;
        }
        FdTable { fds }
    }

    /// Records an open file in the first free descriptor and returns it; -1, changing
    /// nothing, when all are taken.
    pub fn install(&mut self, conn: usize, handle: i32) -> (fd: i32)
        requires
            old(self).wf(),
        ensures
            final(self).wf(),
            fd == -1 <==> old(self)@.index_of_first(None) is None,
            fd == -1 ==> final(self)@ == old(self)@,
            fd != -1 ==> old(self)@.index_of_first(None) == Some(fd as int) && final(self)@ == old(self)@.update(
                fd as int,
                Some((conn, handle)),
            ),
    {
        let mut i: usize = 0;
        while i < MAX_FDS
            invariant
                self.wf(),
                *self == *old(self),
                i <= MAX_FDS,
                forall|k: int| 0 <= k < i ==> #[trigger] self@[k] is Some,
            decreases MAX_FDS - i,
        {
            if !self.fds[i].used {
                assert(self@[i as int] is None);
                self.fds.set(i, Fd { conn, handle, used: true });
                proof {
                    old(self)@.index_of_first_ensures(None);
                    let k = old(self)@.index_of_first(None).unwrap();
                    if k < i {
                        assert(old(self)@[k] is Some);
                    }
                    if k > i {
                        assert(old(self)@[i as int] != None::<(usize, i32)>);
                    }
                    assert(self@ =~= old(self)@.update(i as int, Some((conn, handle))));
                }
                return i as i32;
            }
            i = i + 1;
        }
        proof {
            old(self)@.index_of_first_ensures(None);
            if old(self)@.contains(None) {
                let k = choose|k: int| 0 <= k < old(self)@.len() && old(self)@[k] == None::<(usize, i32)>;
                assert(old(self)@[k] is Some);
            }
        }
        -1
    }

    /// The mailbox and handle of descriptor `fd`; `None` for a descriptor out of
    /// range or not open.
    pub fn lookup(&self, fd: i32) -> (r: Option<(usize, i32)>)
        requires
            self.wf(),
        ensures
            (fd < 0 || fd >= MAX_FDS) ==> r is None,
            0 <= fd < MAX_FDS ==> r == self@[fd as int],
    {
        if fd < 0 || fd as usize >= MAX_FDS {
            return None;
        }
        let f = self.fds[fd as usize];
        if f.used {
            Some((f.conn, f.handle))
        } else {
            None
        }
    }
}

/// Empty scans a server makes in a row before it blocks.
pub const SPIN_BUDGET: u32 = 5000;

/// What a serving loop does next.
#[derive(Debug, Clone, Copy, PartialEq, Eq, Structural)]
pub enum ServeAction {
    /// Scan the inbox again at once.
    Rescan,
    /// Spin briefly, then scan again.
    Spin,
    /// Mark the server blocked, scan once more, and block in the kernel if that
    /// scan finds nothing.
    TryBlock,
}

/// The count of empty scans in a row of a serving loop.
pub struct ServeLoop {
    empty: u32,
}

impl ServeLoop {
    pub closed spec fn spec_empty(&self) -> u32 {
        self.empty
    }

    /// A loop that has seen no empty scan.
    pub fn new() -> (r: Self)
        ensures
            r.spec_empty() == 0,
    {
        ServeLoop { empty: 0 }
    }

    /// After a scan that did (`found`) or did not answer a request: a scan that
    /// found work restarts the count and scans again; an empty one counts, spins
    /// while the count is under `SPIN_BUDGET`, and else tries to block, the count
    /// starting over.
    pub fn serve_step(&mut self, found: bool) -> (a: ServeAction)
        requires
            old(self).spec_empty() < SPIN_BUDGET,
        ensures
            final(self).spec_empty() < SPIN_BUDGET,
            found ==> a == ServeAction::Rescan && final(self).spec_empty() == 0,
            !found && old(self).spec_empty() + 1 < SPIN_BUDGET ==> a == ServeAction::Spin && final(self).spec_empty()
                == old(self).spec_empty() + 1,
            !found && old(self).spec_empty() + 1 >= SPIN_BUDGET ==> a == ServeAction::TryBlock && final(self).spec_empty() == 0,
    {
        if found {
            self.empty = 0;
            return ServeAction::Rescan;
        }
        self.empty = self.empty + 1;
        if self.empty < SPIN_BUDGET {
            return ServeAction::Spin;
        }
        self.empty = 0;
        ServeAction::TryBlock
    }
}

/// The spinning server never blocks: after a scan it rescans at once when it
/// found work, and spins first when it did not.
pub fn serve_spin(found: bool) -> (a: ServeAction)
    ensures
        a == if found { ServeAction::Rescan } else { ServeAction::Spin },
{
    if found {
        ServeAction::Rescan
    } else {
        ServeAction::Spin
    }
}

/// Whether a server that marked itself blocked and scanned again blocks in the
/// kernel: only when that scan found nothing.
pub fn block_after_scan(found: bool) -> (block: bool)
    ensures
        block == !found,
{
    !found
}

/// Four little-endian bytes read back give the number they were made from, both
/// as a `u32` in a longer message and as a reply.
pub proof fn lemma_le_bytes_u32(v: u32)
    ensures
        le_u32(le_bytes_u32(v), 0) == v,
        reply_value(le_bytes_u32(v)) == v,
{
    assert((((v & 0xFF) as u8 as u32) | ((((v >> 8u32) & 0xFF) as u8 as u32) << 8u32) | ((((v >> 16u32) & 0xFF) as u8
        as u32) << 16u32) | (((v >> 24u32) as u8 as u32) << 24u32)) == v) by (bit_vector);
}

/// What a client binds it resolves: after the name service handles a client's
/// bind request for `path` and `sid` (taking the path from byte 5 on and the
/// service from bytes 1 to 4), a resolve request for `path` is answered with a
/// reply the client reads as `sid`. The path must be bound nowhere yet, and a
/// binding must be free.
pub proof fn law_bind_request_then_resolve(bs: Seq<Option<(Seq<u8>, u32)>>, sid: u32, path: Seq<u8>)
    requires
        first_free(bs) is Some,
        forall|i: int| 0 <= i < bs.len() ==> match #[trigger] bs[i] {
            Some((p, s)) => p != path,
            None => true,
        },
    ensures
        ({
            let bind_req = seq![OP_BIND] + le_bytes_u32(sid) + path;
            let resolve_req = seq![OP_RESOLVE, 0u8, 0u8, 0u8, 0u8] + path;
            let bound = bs.update(
                first_free(bs).unwrap(),
                Some((bind_req.subrange(5, bind_req.len() as int), le_u32(bind_req, 1))),
            );
            reply_value(le_bytes_u32(resolve_spec(bound, resolve_req.subrange(5, resolve_req.len() as int)))) == sid
        }),
{
    let bind_req = seq![OP_BIND] + le_bytes_u32(sid) + path;
    let resolve_req = seq![OP_RESOLVE, 0u8, 0u8, 0u8, 0u8] + path;
    lemma_le_bytes_u32(sid);
    let le = le_bytes_u32(sid);
    assert(bind_req[1] == le[0] && bind_req[2] == le[1] && bind_req[3] == le[2] && bind_req[4] == le[3]);
    assert(le_u32(bind_req, 1) == le_u32(le, 0));
    assert(bind_req.subrange(5, bind_req.len() as int) =~= path);
    assert(resolve_req.subrange(5, resolve_req.len() as int) =~= path);
    crate::vfs::law_bind_then_resolve(bs, sid, path);
}

/// The service an `open` goes to, from what the path resolved to: `None` (the
/// open fails with -1) when no service serves the path (0).
pub fn open_target(resolved: u32) -> (r: Option<u32>)
    ensures
        r == (if resolved == 0 { None } else { Some(resolved) }),
{
    if resolved == 0 {
        None
    } else {
        Some(resolved)
    }
}

/// The end of an `open` once the file's service answered with `reply` over
/// mailbox `conn`: a negative handle fails with -1, changing nothing; otherwise
/// the file gets the first free descriptor, as `install` says (-1 when none is).
pub fn finish_open(fds: &mut FdTable, conn: usize, reply: &[u8]) -> (fd: i32)
    requires
        old(fds).wf(),
        reply.len() <= 4,
    ensures
        final(fds).wf(),
        ({
            let h = reply_value(reply@) as i32;
            &&& h < 0 ==> fd == -1 && final(fds)@ == old(fds)@
            &&& h >= 0 ==> (fd == -1 <==> old(fds)@.index_of_first(None) is None)
            &&& h >= 0 && fd == -1 ==> final(fds)@ == old(fds)@
            &&& h >= 0 && fd != -1 ==> old(fds)@.index_of_first(None) == Some(fd as int) && final(fds)@ == old(fds)@.update(
                fd as int,
                Some((conn, h)),
            )
        }),
{
    let handle = reply_i32(reply);
    if handle < 0 {
        return -1;
    }
    fds.install(conn, handle)
}

} // verus!
