use vstd::prelude::*;
use vstd::string::StringSliceAdditionalSpecFns;
use crate::serial::{append_bytes, hex_spec, write_hex};

verus! {

/// Bytes the kernel log keeps.
pub const KLOG_SIZE: usize = 262144;
/// Bytes a dump shows at most: the newest ones.
pub const DUMP_TAIL: usize = 49152;

/// The last `n` bytes of `s`, or all of `s` when it is shorter.
pub open spec fn tail(s: Seq<u8>, n: nat) -> Seq<u8> {
    if s.len() <= n {
        s
    } else {
        s.subrange(s.len() - n, s.len() as int)
    }
}

/// The banner a dump starts with.
pub open spec fn dump_header() -> Seq<u8> {
    "\n===== KLOG TAIL DUMP =====\n".spec_bytes()
}

/// The banner a dump ends with.
pub open spec fn dump_footer() -> Seq<u8> {
    "\n===== END KLOG =====\n".spec_bytes()
}

/// The record of a kernel page fault that `snapshot_crash` appends.
pub open spec fn crash_record(error: u64, cr2: u64, rip: u64, rsp: u64, cpu: u64) -> Seq<u8> {
    "\n===== KERNEL PAGE FAULT =====\nerror=".spec_bytes() + hex_spec(error) + "\ncr2=".spec_bytes() + hex_spec(cr2)
        + "\nrip=".spec_bytes() + hex_spec(rip) + "\nrsp=".spec_bytes() + hex_spec(rsp) + "\ncpu=".spec_bytes()
        + hex_spec(cpu) + "\n".spec_bytes()
}

/// The bytes a ring of `KLOG_SIZE` bytes holds, oldest first: from the write
/// position round to it once the ring has wrapped, else up to it.
pub open spec fn ring_contents(buf: Seq<u8>, pos: int, wrapped: bool) -> Seq<u8> {
    if wrapped {
        buf.subrange(pos, KLOG_SIZE as int) + buf.subrange(0, pos)
    } else {
        buf.subrange(0, pos)
    }
}

/// The kernel log: a ring of the newest `KLOG_SIZE` bytes, a copy of it taken at
/// a crash, and whether it has been dumped.
pub struct Klog {
    buf: Vec<u8>,
    pos: usize,
    wrapped: bool,
    dumped: bool,
    crash: Vec<u8>,
    crash_len: usize,
}

impl Klog {
    pub closed spec fn wf(&self) -> bool {
        &&& self.buf@.len() == KLOG_SIZE
        &&& self.pos < KLOG_SIZE
        &&& self.crash@.len() == KLOG_SIZE
        &&& self.crash_len <= KLOG_SIZE
    }

    /// The bytes the log holds, oldest first.
    pub closed spec fn view(&self) -> Seq<u8> {
        ring_contents(self.buf@, self.pos as int, self.wrapped)
    }

    /// The bytes of the crash copy.
    pub closed spec fn crash_view(&self) -> Seq<u8> {
        self.crash@.subrange(0, self.crash_len as int)
    }

    /// Whether a dump was made.
    pub closed spec fn spec_dumped(&self) -> bool {
        self.dumped
    }

    /// An empty log, not yet dumped, with an empty crash copy.
    pub fn new() -> (r: Self)
        ensures
            r.wf(),
            r.view() == Seq::<u8>::empty(),
            r.crash_view() == Seq::<u8>::empty(),
            !r.spec_dumped(),
    {
        let r = Klog {
            buf: vec![0u8; KLOG_SIZE],
            pos: 0,
            wrapped: false,
            dumped: false,
            crash: vec![0u8; KLOG_SIZE],
            crash_len: 0,
        };
        assert(r.view() =~= Seq::<u8>::empty());
        assert(r.crash_view() =~= Seq::<u8>::empty());
        r
    }

    /// Number of bytes the log holds.
    pub fn len(&self) -> (r: usize)
        requires
            self.wf(),
        ensures
            r == self.view().len(),
    {
        if self.wrapped {
            KLOG_SIZE
        } else {
            self.pos
        }
    }

    fn push_byte(&mut self, b: u8)
        requires
            old(self).wf(),
        ensures
            final(self).wf(),
            final(self).view() == tail(old(self).view().push(b), KLOG_SIZE as nat),
            final(self).crash_view() == old(self).crash_view(),
            final(self).spec_dumped() == old(self).spec_dumped(),
    {
        let ghost old_buf = self.buf@;
        let p = self.pos;
        self.buf.set(p, b);
        let ghost nb = self.buf@;
        assert(nb == old_buf.update(p as int, b));
        if p + 1 >= KLOG_SIZE {
            self.pos = 0;
            let was = self.wrapped;
            self.wrapped = true;
            if was {
                assert(self.view() =~= tail(ring_contents(old_buf, p as int, true).push(b), KLOG_SIZE as nat));
            } else {
                assert(self.view() =~= tail(ring_contents(old_buf, p as int, false).push(b), KLOG_SIZE as nat));
            }
        } else {
            self.pos = p + 1;
            if self.wrapped {
                assert(self.view() =~= tail(ring_contents(old_buf, p as int, true).push(b), KLOG_SIZE as nat));
            } else {
                assert(self.view() =~= tail(ring_contents(old_buf, p as int, false).push(b), KLOG_SIZE as nat));
            }
        }
    }

    /// Appends `bytes`: the log then holds the newest `KLOG_SIZE` bytes of what it
    /// held followed by `bytes`.
    pub fn append(&mut self, bytes: &[u8])
        requires
            old(self).wf(),
        ensures
            final(self).wf(),
            final(self).view() == tail(old(self).view() + bytes@, KLOG_SIZE as nat),
            final(self).crash_view() == old(self).crash_view(),
            final(self).spec_dumped() == old(self).spec_dumped(),
    {
        self.append_unlocked(bytes);
    }

    /// Appends `bytes`, the caller holding the log's lock.
    fn append_unlocked(&mut self, bytes: &[u8])
        requires
            old(self).wf(),
        ensures
            final(self).wf(),
            final(self).view() == tail(old(self).view() + bytes@, KLOG_SIZE as nat),
            final(self).crash_view() == old(self).crash_view(),
            final(self).spec_dumped() == old(self).spec_dumped(),
    {
        let mut i: usize = 0;
        proof {
            assert(old(self).view() + bytes@.subrange(0, 0) =~= old(self).view());
            lemma_ring_len(old(self).buf@, old(self).pos as int, old(self).wrapped);
        }
        while i < bytes.len()
            invariant
                self.wf(),
                i <= bytes.len(),
                self.view() == tail(old(self).view() + bytes@.subrange(0, i as int), KLOG_SIZE as nat),
                self.crash_view() == old(self).crash_view(),
                self.spec_dumped() == old(self).spec_dumped(),
            decreases bytes.len() - i,
        {
            let ghost before = old(self).view() + bytes@.subrange(0, i as int);
            self.push_byte(bytes[i]);
            proof {
                lemma_tail_push(before, bytes@[i as int], KLOG_SIZE as nat);
                assert(before.push(bytes@[i as int]) =~= old(self).view() + bytes@.subrange(0, i + 1));
            }
            i = i + 1;
        }
        proof {
            assert(bytes@.subrange(0, bytes.len() as int) =~= bytes@);
        }
    }

    /// The bytes a dump sends: the header, the newest `DUMP_TAIL` bytes of the
    /// log, oldest first, and the footer.
    pub fn dump(&self) -> (r: Vec<u8>)
        requires
            self.wf(),
        ensures
            r@ == dump_header() + tail(self.view(), DUMP_TAIL as nat) + dump_footer(),
    {
        let total: usize = if self.wrapped { KLOG_SIZE } else { self.pos };
        let take: usize = if total < DUMP_TAIL { total } else { DUMP_TAIL };
        let mut i: usize = (self.pos + KLOG_SIZE - take) % KLOG_SIZE;
        let mut r: Vec<u8> = Vec::new();
        append_bytes(&mut r, "\n===== KLOG TAIL DUMP =====\n".as_bytes());
        let ghost h = r@;
        let ghost v = self.view();
        let ghost start: int = v.len() - take;
        proof {
            lemma_ring_len(self.buf@, self.pos as int, self.wrapped);
        }
        let mut n: usize = 0;
        while n < take
            invariant
                self.wf(),
                take <= v.len(),
                v == self.view(),
                start == v.len() - take,
                n <= take,
                i < KLOG_SIZE,
                n < take ==> i == ring_index(self.pos as int, self.wrapped, start + n),
                r@ == h + v.subrange(start, start + n),
            decreases take - n,
        {
            proof {
                lemma_ring_index(self.buf@, self.pos as int, self.wrapped, start + n);
            }
            r.push(self.buf[i]);
            assert(r@ =~= h + v.subrange(start, start + n + 1));
            i = i + 1;
            if i >= KLOG_SIZE {
                i = 0;
            }
            n = n + 1;
            proof {
                if n < take {
                    lemma_ring_index_step(self.pos as int, self.wrapped, start + n - 1, v.len() as int);
                }
            }
        }
        append_bytes(&mut r, "\n===== END KLOG =====\n".as_bytes());
        assert(v.subrange(start, start + take) =~= tail(v, DUMP_TAIL as nat));
        r
    }

    /// The first call dumps the log (as `dump`) and returns the bytes sent; every
    /// later one sends nothing and returns `None`.
    pub fn dump_once(&mut self) -> (r: Option<Vec<u8>>)
        requires
            old(self).wf(),
        ensures
            final(self).wf(),
            final(self).spec_dumped(),
            final(self).view() == old(self).view(),
            final(self).crash_view() == old(self).crash_view(),
            old(self).spec_dumped() ==> r is None,
            !old(self).spec_dumped() ==> (r matches Some(d) && d@ == dump_header() + tail(old(self).view(), DUMP_TAIL as nat)
                + dump_footer()),
    {
        if self.dumped {
            return None;
        }
        self.dumped = true;
        Some(self.dump())
    }

    /// Records a kernel page fault: when the log's lock was free (`lock_free`), the
    /// fault record is appended; then the crash copy becomes what the log holds.
    pub fn snapshot_crash(&mut self, error: u64, cr2: u64, rip: u64, rsp: u64, cpu: u64, lock_free: bool)
        requires
            old(self).wf(),
        ensures
            final(self).wf(),
            final(self).spec_dumped() == old(self).spec_dumped(),
            lock_free ==> final(self).view() == tail(old(self).view() + crash_record(error, cr2, rip, rsp, cpu), KLOG_SIZE as nat),
            !lock_free ==> final(self).view() == old(self).view(),
            final(self).crash_view() == final(self).view(),
    {
        if lock_free {
            let ghost v0 = self.view();
            let ghost mut acc: Seq<u8> = Seq::empty();
            proof {
                assert(v0 + acc =~= v0);
                lemma_ring_len(self.buf@, self.pos as int, self.wrapped);
                assert(tail(v0, KLOG_SIZE as nat) =~= v0);
            }
            self.append_step(Ghost(v0), Ghost(acc), "\n===== KERNEL PAGE FAULT =====\nerror=".as_bytes());
            proof { acc = acc + "\n===== KERNEL PAGE FAULT =====\nerror=".spec_bytes(); }
            self.append_hex_step(Ghost(v0), Ghost(acc), error);
            proof { acc = acc + hex_spec(error); }
            self.append_step(Ghost(v0), Ghost(acc), "\ncr2=".as_bytes());
            proof { acc = acc + "\ncr2=".spec_bytes(); }
            self.append_hex_step(Ghost(v0), Ghost(acc), cr2);
            proof { acc = acc + hex_spec(cr2); }
            self.append_step(Ghost(v0), Ghost(acc), "\nrip=".as_bytes());
            proof { acc = acc + "\nrip=".spec_bytes(); }
            self.append_hex_step(Ghost(v0), Ghost(acc), rip);
            proof { acc = acc + hex_spec(rip); }
            self.append_step(Ghost(v0), Ghost(acc), "\nrsp=".as_bytes());
            proof { acc = acc + "\nrsp=".spec_bytes(); }
            self.append_hex_step(Ghost(v0), Ghost(acc), rsp);
            proof { acc = acc + hex_spec(rsp); }
            self.append_step(Ghost(v0), Ghost(acc), "\ncpu=".as_bytes());
            proof { acc = acc + "\ncpu=".spec_bytes(); }
            self.append_hex_step(Ghost(v0), Ghost(acc), cpu);
            proof { acc = acc + hex_spec(cpu); }
            self.append_step(Ghost(v0), Ghost(acc), "\n".as_bytes());
            proof {
                acc = acc + "\n".spec_bytes();
                assert(acc =~= crash_record(error, cr2, rip, rsp, cpu));
            }
        }
        self.copy_to_crash();
    }

    /// Appends `val` as `0x` and sixteen hex digits, the caller holding the lock.
    fn append_hex_unlocked(&mut self, val: u64)
        requires
            old(self).wf(),
        ensures
            final(self).wf(),
            final(self).view() == tail(old(self).view() + hex_spec(val), KLOG_SIZE as nat),
            final(self).crash_view() == old(self).crash_view(),
            final(self).spec_dumped() == old(self).spec_dumped(),
    {
        let h = write_hex(val);
        self.append_unlocked(h.as_slice());
    }

    /// One piece of a record: the log held the newest bytes of `v0 + acc` and then
    /// holds those of `v0 + acc + bytes`.
    fn append_step(&mut self, Ghost(v0): Ghost<Seq<u8>>, Ghost(acc): Ghost<Seq<u8>>, bytes: &[u8])
        requires
            old(self).wf(),
            old(self).view() == tail(v0 + acc, KLOG_SIZE as nat),
        ensures
            final(self).wf(),
            final(self).view() == tail(v0 + (acc + bytes@), KLOG_SIZE as nat),
            final(self).crash_view() == old(self).crash_view(),
            final(self).spec_dumped() == old(self).spec_dumped(),
    {
        self.append_unlocked(bytes);
        proof {
            law_log_keeps_newest(v0 + acc, bytes@, KLOG_SIZE as nat);
            assert(v0 + acc + bytes@ =~= v0 + (acc + bytes@));
        }
    }

    fn append_hex_step(&mut self, Ghost(v0): Ghost<Seq<u8>>, Ghost(acc): Ghost<Seq<u8>>, val: u64)
        requires
            old(self).wf(),
            old(self).view() == tail(v0 + acc, KLOG_SIZE as nat),
        ensures
            final(self).wf(),
            final(self).view() == tail(v0 + (acc + hex_spec(val)), KLOG_SIZE as nat),
            final(self).crash_view() == old(self).crash_view(),
            final(self).spec_dumped() == old(self).spec_dumped(),
    {
        self.append_hex_unlocked(val);
        proof {
            law_log_keeps_newest(v0 + acc, hex_spec(val), KLOG_SIZE as nat);
            assert(v0 + acc + hex_spec(val) =~= v0 + (acc + hex_spec(val)));
        }
    }

    fn copy_to_crash(&mut self)
        requires
            old(self).wf(),
        ensures
            final(self).wf(),
            final(self).view() == old(self).view(),
            final(self).spec_dumped() == old(self).spec_dumped(),
            final(self).crash_view() == old(self).view(),
    {
        let total: usize = if self.wrapped { KLOG_SIZE } else { self.pos };
        let mut src: usize = if self.wrapped { self.pos } else { 0 };
        let ghost v = self.view();
        proof {
            lemma_ring_len(self.buf@, self.pos as int, self.wrapped);
        }
        let mut dst: usize = 0;
        while dst < total
            invariant
                self.wf(),
                v == self.view(),
                total == v.len(),
                total <= KLOG_SIZE,
                dst <= total,
                src < KLOG_SIZE,
                dst < total ==> src == ring_index(self.pos as int, self.wrapped, dst as int),
                forall|k: int| 0 <= k < dst ==> #[trigger] self.crash@[k] == v[k],
                self.spec_dumped() == old(self).spec_dumped(),
            decreases total - dst,
        {
            proof {
                lemma_ring_index(self.buf@, self.pos as int, self.wrapped, dst as int);
            }
            let b = self.buf[src];
            self.crash.set(dst, b);
            src = src + 1;
            if src == KLOG_SIZE {
                src = 0;
            }
            dst = dst + 1;
            proof {
                if dst < total {
                    lemma_ring_index_step(self.pos as int, self.wrapped, dst - 1, v.len() as int);
                }
            }
        }
        self.crash_len = total;
        assert(self.crash_view() =~= v);
    }

    /// Up to `max` bytes of the crash copy from `offset` on; none when `offset` is
    /// at or past its end.
    pub fn read_crash_snapshot(&self, max: usize, offset: usize) -> (r: Vec<u8>)
        requires
            self.wf(),
        ensures
            offset >= self.crash_view().len() ==> r@ == Seq::<u8>::empty(),
            offset < self.crash_view().len() ==> r@ == self.crash_view().subrange(
                offset as int,
                offset + if max < self.crash_view().len() - offset { max as int } else { self.crash_view().len() - offset },
            ),
    {
        let len = self.crash_len;
        let mut r: Vec<u8> = Vec::new();
        if offset >= len {
            return r;
        }
        let n: usize = if max < len - offset { max } else { len - offset };
        let mut k: usize = 0;
        while k < n
            invariant
                self.wf(),
                len == self.crash_len,
                offset < len,
                n <= len - offset,
                k <= n,
                r@ == self.crash_view().subrange(offset as int, offset + k),
            decreases n - k,
        {
            r.push(self.crash[offset + k]);
            k = k + 1;
            assert(r@ =~= self.crash_view().subrange(offset as int, offset + k));
        }
        r
    }
}

/// Where the `k`-th byte of the ring's contents sits in the buffer.
pub open spec fn ring_index(pos: int, wrapped: bool, k: int) -> int {
    if wrapped {
        if pos + k < KLOG_SIZE {
            pos + k
        } else {
            pos + k - KLOG_SIZE
        }
    } else {
        k
    }
}

pub proof fn lemma_ring_len(buf: Seq<u8>, pos: int, wrapped: bool)
    requires
        buf.len() == KLOG_SIZE,
        0 <= pos < KLOG_SIZE,
    ensures
        ring_contents(buf, pos, wrapped).len() == if wrapped { KLOG_SIZE as int } else { pos },
{
}

pub proof fn lemma_ring_index(buf: Seq<u8>, pos: int, wrapped: bool, k: int)
    requires
        buf.len() == KLOG_SIZE,
        0 <= pos < KLOG_SIZE,
        0 <= k < ring_contents(buf, pos, wrapped).len(),
    ensures
        0 <= ring_index(pos, wrapped, k) < KLOG_SIZE,
        buf[ring_index(pos, wrapped, k)] == ring_contents(buf, pos, wrapped)[k],
{
}

pub proof fn lemma_ring_index_step(pos: int, wrapped: bool, k: int, len: int)
    requires
        0 <= pos < KLOG_SIZE,
        0 <= k,
        k + 1 < len,
        len == if wrapped { KLOG_SIZE as int } else { pos },
    ensures
        ring_index(pos, wrapped, k + 1) == if ring_index(pos, wrapped, k) + 1 >= KLOG_SIZE {
            0
        } else {
            ring_index(pos, wrapped, k) + 1
        },
{
}

pub proof fn lemma_tail_push(s: Seq<u8>, b: u8, n: nat)
    requires
        n > 0,
    ensures
        tail(tail(s, n).push(b), n) == tail(s.push(b), n),
{
    if s.len() <= n {
    } else {
        assert(tail(tail(s, n).push(b), n) =~= tail(s.push(b), n));
    }
}

/// What the log holds after more bytes are appended depends only on what it
/// held before and the new bytes: keeping the newest `n` bytes and appending
/// keeps the newest `n` bytes of the whole.
pub proof fn law_log_keeps_newest(a: Seq<u8>, b: Seq<u8>, n: nat)
    requires
        n > 0,
    ensures
        tail(tail(a, n) + b, n) == tail(a + b, n),
    decreases b.len(),
{
    if b.len() == 0 {
        assert(tail(a, n) + b =~= tail(a, n));
        assert(a + b =~= a);
        if a.len() > n {
            assert(tail(tail(a, n), n) =~= tail(a, n));
        }
    } else {
        let b0 = b.drop_last();
        let x = b.last();
        law_log_keeps_newest(a, b0, n);
        lemma_tail_push(tail(a, n) + b0, x, n);
        lemma_tail_push(a + b0, x, n);
        assert((tail(a, n) + b0).push(x) =~= tail(a, n) + b);
        assert((a + b0).push(x) =~= a + b);
    }
}

} // verus!
