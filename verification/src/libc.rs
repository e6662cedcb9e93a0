use vstd::prelude::*;

verus! {

/// Bytes the allocation arena holds.
pub const ARENA_SIZE: usize = 16 * 1024 * 1024;

/// `s` holds a terminating NUL.
pub open spec fn has_nul(s: Seq<u8>) -> bool {
    s.contains(0u8)
}

/// Length of the C string at the start of `s`: the index of its first NUL.
pub open spec fn cstrlen(s: Seq<u8>) -> int {
    match s.index_of_first(0u8) {
        Some(i) => i,
        None => s.len() as int,
    }
}

/// The C string at the start of `s`, without its NUL.
pub open spec fn cstr(s: Seq<u8>) -> Seq<u8> {
    s.subrange(0, cstrlen(s))
}

proof fn lemma_cstrlen(s: Seq<u8>)
    ensures
        0 <= cstrlen(s) <= s.len(),
        forall|j: int| 0 <= j < cstrlen(s) ==> s[j] != 0,
        has_nul(s) ==> cstrlen(s) < s.len() && s[cstrlen(s)] == 0,
        !has_nul(s) ==> cstrlen(s) == s.len(),
{
    s.index_of_first_ensures(0u8);
}

/// Length of the C string in `s`.
pub fn strlen(s: &[u8]) -> (r: usize)
    requires
        has_nul(s@),
    ensures
        r == cstrlen(s@),
{
    proof {
        lemma_cstrlen(s@);
    }
    let mut i: usize = 0;
    while s[i] != 0
        invariant
            has_nul(s@),
            0 <= cstrlen(s@) < s.len(),
            s@[cstrlen(s@)] == 0,
            forall|j: int| 0 <= j < cstrlen(s@) ==> s@[j] != 0,
            i <= cstrlen(s@),
        decreases cstrlen(s@) - i,
    {
        assert(s@[i as int] != 0);
        assert(i != cstrlen(s@));
        i = i + 1;
    }
    i
}

/// Length of the C string in `s`, or `maxlen` if it is longer.
pub fn strnlen(s: &[u8], maxlen: usize) -> (r: usize)
    requires
        maxlen <= s.len() || has_nul(s@),
    ensures
        r == if cstrlen(s@) < maxlen { cstrlen(s@) } else { maxlen as int },
{
    proof {
        lemma_cstrlen(s@);
    }
    let mut i: usize = 0;
    while i < maxlen && s[i] != 0
        invariant
            maxlen <= s.len() || has_nul(s@),
            0 <= cstrlen(s@) <= s.len(),
            has_nul(s@) ==> cstrlen(s@) < s.len() && s@[cstrlen(s@)] == 0,
            !has_nul(s@) ==> cstrlen(s@) == s.len(),
            forall|j: int| 0 <= j < cstrlen(s@) ==> s@[j] != 0,
            i <= cstrlen(s@),
            i <= maxlen,
        decreases maxlen - i,
    {
        i = i + 1;
    }
    i
}

/// The index where two C strings first differ or both end.
pub open spec fn first_stop(a: Seq<u8>, b: Seq<u8>, i: int) -> bool {
    a[i] != b[i] || a[i] == 0
}

/// What a string comparison returns when it stops at `i`: the difference of the
/// two bytes there (0 when both strings ended).
pub open spec fn diff_at(a: Seq<u8>, b: Seq<u8>, i: int) -> i32 {
    (a[i] as int - b[i] as int) as i32
}

/// `first_stop` at a machine index.
pub open spec fn stops_at(a: Seq<u8>, b: Seq<u8>, i: usize) -> bool {
    first_stop(a, b, i as int) && diff_at(a, b, i as int) == (a[i as int] as int - b[i as int] as int) as i32
}

/// Byte `i` of `s` is not NUL.
pub open spec fn nonzero_at(s: Seq<u8>, i: usize) -> bool {
    s[i as int] != 0
}

/// `r` is what comparing the C strings of `a` and `b` gives: the difference of
/// the bytes at the first index where they differ or both end.
pub open spec fn compared(a: Seq<u8>, b: Seq<u8>, r: i32) -> bool {
    exists|i: int|
        {
            &&& 0 <= i <= cstrlen(a)
            &&& i < a.len() && i < b.len()
            &&& first_stop(a, b, i)
            &&& (forall|j: int| 0 <= j < i ==> !first_stop(a, b, j))
            &&& r == diff_at(a, b, i)
        }
}

/// `d1` is `d0` with the C string of `src`, NUL included, copied to its start.
pub open spec fn copied(d0: Seq<u8>, d1: Seq<u8>, src: Seq<u8>) -> bool {
    &&& d1.len() == d0.len()
    &&& d1.subrange(0, cstrlen(src) + 1) == src.subrange(0, cstrlen(src) + 1)
    &&& d1.subrange(cstrlen(src) + 1, d0.len() as int) == d0.subrange(cstrlen(src) + 1, d0.len() as int)
}

/// A copy compares equal to what it was copied from: after `strcpy(dst, src)`,
/// `dst` holds the C string of `src`, and comparing the two gives 0.
pub proof fn law_copy_compares_equal(d0: Seq<u8>, d1: Seq<u8>, src: Seq<u8>, r: i32)
    requires
        has_nul(src),
        d0.len() > cstrlen(src),
        copied(d0, d1, src),
        compared(d1, src, r),
    ensures
        cstr(d1) == cstr(src),
        r == 0,
{
    lemma_cstrlen(src);
    let n = cstrlen(src);
    assert forall|j: int| 0 <= j <= n implies d1[j] == src[j] by {
        assert(d1.subrange(0, n + 1)[j] == src.subrange(0, n + 1)[j]);
    }
    lemma_cstrlen(d1);
    assert(d1.contains(0u8)) by {
        assert(d1[n] == 0u8);
    }
    assert(cstrlen(d1) == n) by {
        if cstrlen(d1) < n {
            assert(d1[cstrlen(d1)] == 0);
        } else if cstrlen(d1) > n {
            assert(d1[n] != 0);
        }
    }
    assert(cstr(d1) =~= cstr(src));
    let i = choose|i: int|
        {
            &&& 0 <= i <= cstrlen(d1)
            &&& i < d1.len() && i < src.len()
            &&& first_stop(d1, src, i)
            &&& (forall|j: int| 0 <= j < i ==> !first_stop(d1, src, j))
            &&& r == diff_at(d1, src, i)
        };
    assert(d1[i] == src[i]);
}

/// The difference of two bytes.
fn byte_diff(x: u8, y: u8) -> (r: i32)
    ensures
        r == x as int - y as int,
{
    x as i32 - y as i32
}

/// Compares two C strings: the difference of the first bytes that differ, or 0
/// when they are equal. `b` must be readable as far as `a` is compared.
pub fn strcmp(a: &[u8], b: &[u8]) -> (r: i32)
    requires
        has_nul(a@),
        b.len() > cstrlen(a@),
    ensures
        compared(a@, b@, r),
{
    proof {
        lemma_cstrlen(a@);
    }
    let mut i: usize = 0;
    loop
        invariant
            has_nul(a@),
            0 <= cstrlen(a@) < a.len(),
            cstrlen(a@) < b.len(),
            a@[cstrlen(a@)] == 0,
            forall|j: int| 0 <= j < cstrlen(a@) ==> a@[j] != 0,
            i <= cstrlen(a@),
            forall|j: int| 0 <= j < i ==> !first_stop(a@, b@, j),
        decreases cstrlen(a@) - i,
    {
        let ca = a[i];
        let cb = b[i];
        if ca != cb {
            assert(stops_at(a@, b@, i));
            return byte_diff(ca, cb);
        }
        if ca == 0 {
            assert(stops_at(a@, b@, i));
            return 0;
        }
        assert(nonzero_at(a@, i));
        i = i + 1;
    }
}

/// Compares at most `n` bytes of two C strings.
pub fn strncmp(a: &[u8], b: &[u8], n: usize) -> (r: i32)
    requires
        n <= a.len() || has_nul(a@),
        b.len() >= a.len() || b.len() >= n || b.len() > cstrlen(a@),
    ensures
        (exists|i: int| {
            &&& 0 <= i < n
            &&& i <= cstrlen(a@)
            &&& first_stop(a@, b@, i)
            &&& (forall|j: int| 0 <= j < i ==> !first_stop(a@, b@, j))
            &&& r == diff_at(a@, b@, i)
        }) || (r == 0 && forall|j: int| 0 <= j < n ==> !first_stop(a@, b@, j)),
{
    proof {
        lemma_cstrlen(a@);
    }
    let mut i: usize = 0;
    while i < n
        invariant
            n <= a.len() || has_nul(a@),
            b.len() >= a.len() || b.len() >= n || b.len() > cstrlen(a@),
            0 <= cstrlen(a@) <= a.len(),
            has_nul(a@) ==> cstrlen(a@) < a.len() && a@[cstrlen(a@)] == 0,
            !has_nul(a@) ==> cstrlen(a@) == a.len(),
            forall|j: int| 0 <= j < cstrlen(a@) ==> a@[j] != 0,
            i <= n,
            i <= cstrlen(a@),
            forall|j: int| 0 <= j < i ==> !first_stop(a@, b@, j),
        decreases n - i,
    {
        let ca = a[i];
        let cb = b[i];
        if ca != cb {
            assert(stops_at(a@, b@, i));
            return byte_diff(ca, cb);
        }
        if ca == 0 {
            assert(stops_at(a@, b@, i));
            return 0;
        }
        assert(nonzero_at(a@, i));
        i = i + 1;
    }
    0
}

/// Copies the C string of `src`, NUL included, to the start of `dst`.
pub fn strcpy(dst: &mut Vec<u8>, src: &[u8])
    requires
        has_nul(src@),
        old(dst).len() > cstrlen(src@),
    ensures
        copied(old(dst)@, final(dst)@, src@),
{
    proof {
        lemma_cstrlen(src@);
    }
    let n = strlen(src);
    let mut i: usize = 0;
    while i <= n
        invariant
            n == cstrlen(src@),
            n < src.len(),
            n < dst.len(),
            dst@.len() == old(dst)@.len(),
            i <= n + 1,
            forall|k: int| 0 <= k < i ==> #[trigger] dst@[k] == src@[k],
            forall|k: int| i <= k < dst@.len() ==> #[trigger] dst@[k] == old(dst)@[k],
        decreases n + 1 - i,
    {
        dst.set(i, src[i]);
        i = i + 1;
    }
    assert(dst@.subrange(0, n + 1) =~= src@.subrange(0, n + 1));
    assert(dst@.subrange(n + 1, dst@.len() as int) =~= old(dst)@.subrange(n + 1, dst@.len() as int));
}

/// Copies at most `siz - 1` bytes of the C string of `src` to `dst` and ends it
/// with a NUL (nothing when `siz` is 0); returns the length of `src`'s string.
pub fn strlcpy(dst: &mut Vec<u8>, src: &[u8], siz: usize) -> (r: usize)
    requires
        has_nul(src@),
        siz <= old(dst).len(),
    ensures
        r == cstrlen(src@),
        final(dst)@.len() == old(dst)@.len(),
        siz == 0 ==> final(dst)@ == old(dst)@,
        siz > 0 ==> {
            let n = if cstrlen(src@) + 1 < siz { cstrlen(src@) } else { siz - 1 };
            final(dst)@ == src@.subrange(0, n) + seq![0u8] + old(dst)@.subrange(n + 1, old(dst)@.len() as int)
        },
{
    proof {
        lemma_cstrlen(src@);
    }
    let srclen = strlen(src);
    if siz != 0 {
        let n: usize = if srclen < siz - 1 { srclen } else { siz - 1 };
        let mut i: usize = 0;
        while i < n
            invariant
                n < siz,
                siz <= dst.len(),
                n <= srclen,
                srclen < src.len(),
                dst@.len() == old(dst)@.len(),
                i <= n,
                forall|k: int| 0 <= k < i ==> #[trigger] dst@[k] == src@[k],
                forall|k: int| i <= k < dst@.len() ==> #[trigger] dst@[k] == old(dst)@[k],
            decreases n - i,
        {
            dst.set(i, src[i]);
            i = i + 1;
        }
        dst.set(n, 0);
        assert(dst@ =~= src@.subrange(0, n as int) + seq![0u8] + old(dst)@.subrange(n + 1, old(dst)@.len() as int));
    }
    srclen
}

/// Appends the C string of `src` to that of `dst`, the result holding at most
/// `siz - 1` bytes and a NUL; returns the length the full result would have. When
/// `dst`'s string is at least `siz` long nothing is written.
pub fn strlcat(dst: &mut Vec<u8>, src: &[u8], siz: usize) -> (r: usize)
    requires
        has_nul(old(dst)@),
        has_nul(src@),
        siz <= old(dst).len(),
        cstrlen(old(dst)@) + cstrlen(src@) <= usize::MAX,
    ensures
        r == cstrlen(old(dst)@) + cstrlen(src@),
        final(dst)@.len() == old(dst)@.len(),
        cstrlen(old(dst)@) >= siz ==> final(dst)@ == old(dst)@,
        cstrlen(old(dst)@) < siz ==> {
            let d = cstrlen(old(dst)@);
            let avail = siz - d - 1;
            let n = if cstrlen(src@) < avail { cstrlen(src@) } else { avail };
            final(dst)@ == old(dst)@.subrange(0, d) + src@.subrange(0, n) + seq![0u8] + old(dst)@.subrange(d + n + 1, old(dst)@.len() as int)
        },
{
    proof {
        lemma_cstrlen(src@);
        lemma_cstrlen(old(dst)@);
    }
    let dstlen = strlen(dst.as_slice());
    let srclen = strlen(src);
    if dstlen >= siz {
        return dstlen + srclen;
    }
    let avail = siz - dstlen - 1;
    let n: usize = if srclen < avail { srclen } else { avail };
    let mut i: usize = 0;
    while i < n
        invariant
            dstlen < siz,
            siz <= dst.len(),
            avail == siz - dstlen - 1,
            n <= avail,
            n <= srclen,
            srclen < src.len(),
            dst@.len() == old(dst)@.len(),
            i <= n,
            forall|k: int| 0 <= k < dstlen ==> #[trigger] dst@[k] == old(dst)@[k],
            forall|k: int| dstlen <= k < dstlen + i ==> #[trigger] dst@[k] == src@[k - dstlen],
            forall|k: int| dstlen + i <= k < dst@.len() ==> #[trigger] dst@[k] == old(dst)@[k],
        decreases n - i,
    {
        dst.set(dstlen + i, src[i]);
        i = i + 1;
    }
    dst.set(dstlen + n, 0);
    proof {
        let d = dstlen as int;
        assert(dst@ =~= old(dst)@.subrange(0, d) + src@.subrange(0, n as int) + seq![0u8] + old(dst)@.subrange(d + n + 1, old(dst)@.len() as int));
    }
    dstlen + srclen
}

/// Copies at most `n` bytes of `src`'s C string to `dst`, then fills the rest of
/// the first `n` bytes with NULs.
pub fn strncpy(dst: &mut Vec<u8>, src: &[u8], n: usize)
    requires
        n <= old(dst).len(),
        n <= src.len() || has_nul(src@),
    ensures
        final(dst)@.len() == old(dst)@.len(),
        forall|k: int| 0 <= k < n ==> #[trigger] final(dst)@[k] == if k < cstrlen(src@) { src@[k] } else { 0u8 },
        final(dst)@.subrange(n as int, old(dst)@.len() as int) == old(dst)@.subrange(n as int, old(dst)@.len() as int),
{
    proof {
        lemma_cstrlen(src@);
    }
    let mut i: usize = 0;
    let mut ended = false;
    while i < n && !ended
        invariant
            n <= dst.len(),
            n <= src.len() || has_nul(src@),
            0 <= cstrlen(src@) <= src.len(),
            has_nul(src@) ==> cstrlen(src@) < src.len() && src@[cstrlen(src@)] == 0,
            !has_nul(src@) ==> cstrlen(src@) == src.len(),
            forall|j: int| 0 <= j < cstrlen(src@) ==> src@[j] != 0,
            dst@.len() == old(dst)@.len(),
            i <= n,
            !ended ==> i <= cstrlen(src@),
            ended ==> i == cstrlen(src@) + 1,
            forall|k: int| 0 <= k < i ==> #[trigger] dst@[k] == if k < cstrlen(src@) { src@[k] } else { 0u8 },
            dst@.subrange(n as int, dst@.len() as int) == old(dst)@.subrange(n as int, dst@.len() as int),
        decreases n - i,
    {
        let c = src[i];
        if c == 0 {
            assert(i == cstrlen(src@));
        } else {
            assert(i < cstrlen(src@));
        }
        dst.set(i, c);
        i = i + 1;
        if c == 0 {
            ended = true;
        }
        assert(dst@.subrange(n as int, dst@.len() as int) =~= old(dst)@.subrange(n as int, dst@.len() as int));
    }
    while i < n
        invariant
            n <= dst.len(),
            dst@.len() == old(dst)@.len(),
            i <= n,
            i >= cstrlen(src@) || i == n,
            forall|k: int| 0 <= k < i ==> #[trigger] dst@[k] == if k < cstrlen(src@) { src@[k] } else { 0u8 },
            dst@.subrange(n as int, dst@.len() as int) == old(dst)@.subrange(n as int, dst@.len() as int),
        decreases n - i,
    {
        dst.set(i, 0);
        i = i + 1;
        assert(dst@.subrange(n as int, dst@.len() as int) =~= old(dst)@.subrange(n as int, dst@.len() as int));
    }
}

/// The index of the first occurrence of `c` in the C string of `s`, its NUL
/// included (so `c == 0` finds the end); `None` when it does not occur.
pub fn strchr(s: &[u8], c: i32) -> (r: Option<usize>)
    requires
        has_nul(s@),
    ensures
        match r {
            Some(i) => i <= cstrlen(s@) && s@[i as int] as i32 == c && forall|j: int| 0 <= j < i ==> s@[j] as i32 != c,
            None => forall|j: int| 0 <= j <= cstrlen(s@) ==> s@[j] as i32 != c,
        },
{
    proof {
        lemma_cstrlen(s@);
    }
    let mut i: usize = 0;
    loop
        invariant
            0 <= cstrlen(s@) < s.len(),
            s@[cstrlen(s@)] == 0,
            forall|j: int| 0 <= j < cstrlen(s@) ==> s@[j] != 0,
            i <= cstrlen(s@),
            forall|j: int| 0 <= j < i ==> s@[j] as i32 != c,
        decreases cstrlen(s@) - i,
    {
        let cur = s[i];
        if cur as i32 == c {
            return Some(i);
        }
        if cur == 0 {
            return None;
        }
        i = i + 1;
    }
}

/// The index of the last occurrence of `c` in the C string of `s`, its NUL
/// included; `None` when it does not occur.
pub fn strrchr(s: &[u8], c: i32) -> (r: Option<usize>)
    requires
        has_nul(s@),
    ensures
        match r {
            Some(i) => i <= cstrlen(s@) && s@[i as int] as i32 == c && forall|j: int| i < j <= cstrlen(s@) ==> s@[j] as i32 != c,
            None => forall|j: int| 0 <= j <= cstrlen(s@) ==> s@[j] as i32 != c,
        },
{
    proof {
        lemma_cstrlen(s@);
    }
    let mut result: Option<usize> = None;
    let mut i: usize = 0;
    loop
        invariant
            0 <= cstrlen(s@) < s.len(),
            s@[cstrlen(s@)] == 0,
            forall|j: int| 0 <= j < cstrlen(s@) ==> s@[j] != 0,
            i <= cstrlen(s@),
            match result {
                Some(k) => k < i && s@[k as int] as i32 == c && forall|j: int| k < j < i ==> s@[j] as i32 != c,
                None => forall|j: int| 0 <= j < i ==> s@[j] as i32 != c,
            },
        decreases cstrlen(s@) - i,
    {
        let cur = s[i];
        if cur as i32 == c {
            result = Some(i);
        }
        if cur == 0 {
            return result;
        }
        i = i + 1;
    }
}

/// Where a block starts when the arena has handed out `offset` bytes: the next
/// multiple of 16.
pub open spec fn block_start(offset: int) -> int {
    ((offset + 15) / 16) * 16
}

/// Blocks handed out one after another do not overlap, and each starts on a
/// multiple of 16: a block of `s1` bytes taken when `o` bytes were handed out
/// ends before the next one starts.
pub proof fn law_blocks_disjoint(o: int, s1: int)
    requires
        0 <= o,
        0 <= s1,
    ensures
        block_start(o) % 16 == 0,
        o <= block_start(o),
        block_start(o) + s1 <= block_start(block_start(o) + s1),
        block_start(block_start(o) + s1) % 16 == 0,
{
    assert(((o + 15) / 16) * 16 % 16 == 0 && o <= ((o + 15) / 16) * 16) by (nonlinear_arith)
        requires
            0 <= o,
    ;
    let e = block_start(o) + s1;
    assert(((e + 15) / 16) * 16 % 16 == 0 && e <= ((e + 15) / 16) * 16) by (nonlinear_arith)
        requires
            0 <= e,
    ;
}

/// A bump allocator over an arena of `ARENA_SIZE` bytes: each block starts at the
/// next 16-byte boundary; nothing is ever freed.
pub struct BumpArena {
    offset: usize,
}

impl BumpArena {
    pub closed spec fn spec_offset(&self) -> usize {
        self.offset
    }

    pub open spec fn wf(&self) -> bool {
        self.spec_offset() <= ARENA_SIZE
    }

    /// An arena with nothing handed out.
    pub fn new() -> (r: Self)
        ensures
            r.wf(),
            r.spec_offset() == 0,
    {
        BumpArena { offset: 0 }
    }

    /// A block of `size` bytes: its offset in the arena, the used part rounded up
    /// to 16 first; `None`, changing nothing, when it does not fit.
    pub fn malloc(&mut self, size: usize) -> (r: Option<usize>)
        requires
            old(self).wf(),
        ensures
            final(self).wf(),
            ({
                let off = block_start(old(self).spec_offset() as int);
                &&& off + size > ARENA_SIZE ==> r is None && final(self).spec_offset() == old(self).spec_offset()
                &&& off + size <= ARENA_SIZE ==> r == Some(off as usize) && final(self).spec_offset() == off + size
            }),
    {
        let o = self.offset;
        let o15: usize = o + 15;
        let off = o15 & !15usize;
        assert(off == (o15 / 16) * 16) by (bit_vector)
            requires
                o15 <= 0x100_0010,
                off == o15 & !15usize,
        ;
        if size > ARENA_SIZE || off > ARENA_SIZE - size {
            return None;
        }
        self.offset = off + size;
        Some(off)
    }

    /// A block of `nmemb * size` bytes, as `malloc` gives it; the block is zeroed
    /// by the caller.
    pub fn calloc(&mut self, nmemb: usize, size: usize) -> (r: Option<usize>)
        requires
            old(self).wf(),
            nmemb * size <= usize::MAX,
        ensures
            final(self).wf(),
            ({
                let off = block_start(old(self).spec_offset() as int);
                &&& off + nmemb * size > ARENA_SIZE ==> r is None && final(self).spec_offset() == old(self).spec_offset()
                &&& off + nmemb * size <= ARENA_SIZE ==> r == Some(off as usize) && final(self).spec_offset() == off + nmemb * size
            }),
    {
        let total = nmemb * size;
        self.malloc(total)
    }
}

/// The contents of each element.
pub open spec fn views(s: Seq<Vec<u8>>) -> Seq<Seq<u8>> {
    s.map_values(|e: Vec<u8>| e@)
}

/// The comparator `compare` returns `ord` of the contents of its two arguments.
pub open spec fn compares_by<F: Fn(&[u8], &[u8]) -> i32>(compare: F, ord: spec_fn(Seq<u8>, Seq<u8>) -> int) -> bool {
    forall|x: &[u8], y: &[u8], r: i32| #[trigger] call_ensures(compare, (x, y), r) ==> r == ord(x@, y@)
}

/// `ord` never puts both `a` after `b` and `b` after `a`.
pub open spec fn asymmetric(ord: spec_fn(Seq<u8>, Seq<u8>) -> int) -> bool {
    forall|a: Seq<u8>, b: Seq<u8>| #[trigger] ord(a, b) > 0 ==> ord(b, a) <= 0
}

/// No element of `e` is put after the next one by `ord`.
pub open spec fn sorted_by(e: Seq<Seq<u8>>, ord: spec_fn(Seq<u8>, Seq<u8>) -> int) -> bool {
    forall|k: int| 0 <= k < e.len() - 1 ==> ord(#[trigger] e[k], e[k + 1]) <= 0
}

/// Sorts `v` by insertion with the comparator `compare`: each element in turn is moved
/// down past the elements before it that `compare` puts after it.
fn insertion_sort<F: Fn(&[u8], &[u8]) -> i32>(v: &mut Vec<Vec<u8>>, compare: &F)
    requires
        forall|x: &[u8], y: &[u8]| call_requires(*compare, (x, y)),
    ensures
        views(final(v)@).to_multiset() == views(old(v)@).to_multiset(),
        final(v)@.len() == old(v)@.len(),
        forall|ord: spec_fn(Seq<u8>, Seq<u8>) -> int|
            compares_by(*compare, ord) && asymmetric(ord) ==> sorted_by(views(final(v)@), ord),
{
    broadcast use vstd::seq_lib::group_to_multiset_ensures;
    let n = v.len();
    if n < 2 {
        return;
    }
    let mut i: usize = 1;
    while i < n
        invariant
            forall|x: &[u8], y: &[u8]| call_requires(*compare, (x, y)),
            1 <= i <= n,
            v@.len() == n,
            views(v@).to_multiset() == views(old(v)@).to_multiset(),
            forall|ord: spec_fn(Seq<u8>, Seq<u8>) -> int|
                compares_by(*compare, ord) && asymmetric(ord) ==> sorted_by(views(v@).subrange(0, i as int), ord),
        decreases n - i,
    {
        let ghost w = v@;
        let tmp = v.remove(i);
        let mut j: usize = i;
        while j > 0
            invariant_except_break
                forall|ord: spec_fn(Seq<u8>, Seq<u8>) -> int|
                    compares_by(*compare, ord) ==> forall|k: int| j <= k < i ==> ord(#[trigger] views(w)[k], tmp@) > 0,
            invariant
                forall|x: &[u8], y: &[u8]| call_requires(*compare, (x, y)),
                0 <= j <= i < n,
                w.len() == n,
                v@ == w.remove(i as int),
                tmp == w[i as int],
            ensures
                0 <= j <= i,
                forall|ord: spec_fn(Seq<u8>, Seq<u8>) -> int|
                    compares_by(*compare, ord) ==> forall|k: int| j <= k < i ==> ord(#[trigger] views(w)[k], tmp@) > 0,
                forall|ord: spec_fn(Seq<u8>, Seq<u8>) -> int|
                    compares_by(*compare, ord) ==> (j > 0 ==> ord(views(w)[j - 1], tmp@) <= 0),
            decreases j,
        {
            let a = v[j - 1].as_slice();
            let b = tmp.as_slice();
            let r = compare(a, b);
            assert(views(w)[j - 1] == w[j - 1]@);
            if r <= 0 {
                break;
            }
            j = j - 1;
        }
        v.insert(j, tmp);
        proof {
            let vw = views(w);
            assert(v@ == w.remove(i as int).insert(j as int, w[i as int]));
            assert(views(v@) =~= vw.remove(i as int).insert(j as int, vw[i as int]));
            let m = vw.to_multiset();
            let x = vw[i as int];
            assert(vw.len() == n);
            vstd::seq_lib::to_multiset_remove(vw, i as int);
            vstd::seq_lib::to_multiset_insert(vw.remove(i as int), j as int, x);
            vstd::seq_lib::to_multiset_contains(vw, x);
            assert(vw[i as int] == x);
            assert(m.contains(x));
            assert(m.remove(x).insert(x) =~= m) by {
                broadcast use vstd::multiset::group_multiset_axioms;
            }
            assert forall|ord: spec_fn(Seq<u8>, Seq<u8>) -> int|
                compares_by(*compare, ord) && asymmetric(ord) implies sorted_by(views(v@).subrange(0, i + 1), ord) by {
                let p = views(v@).subrange(0, i + 1);
                assert(sorted_by(vw.subrange(0, i as int), ord));
                assert forall|k: int| 0 <= k < p.len() - 1 implies ord(#[trigger] p[k], p[k + 1]) <= 0 by {
                    if k + 1 < j {
                        assert(p[k] == vw.subrange(0, i as int)[k]);
                        assert(p[k + 1] == vw.subrange(0, i as int)[k + 1]);
                    } else if k + 1 == j {
                        assert(p[k] == vw[j - 1]);
                        assert(p[k + 1] == tmp@);
                    } else if k == j {
                        assert(p[k] == tmp@);
                        assert(p[k + 1] == vw[j as int]);
                        assert(ord(vw[j as int], tmp@) > 0);
                    } else {
                        assert(p[k] == vw.subrange(0, i as int)[k - 1]);
                        assert(p[k + 1] == vw.subrange(0, i as int)[k]);
                    }
                }
            }
        }
        i = i + 1;
    }
    proof {
        assert(views(v@).subrange(0, n as int) =~= views(v@));
    }
}

/// Largest element, in bytes, that `qsort` sorts.
pub const QSORT_MAX_SIZE: usize = 256;

/// The `n` elements of `size` bytes each at the start of `s`.
pub open spec fn elements(s: Seq<u8>, n: nat, size: nat) -> Seq<Seq<u8>> {
    Seq::new(n, |k: int| s.subrange(k * size, k * size + size))
}

proof fn lemma_chunk_bounds(a: int, b: int, size: int)
    by (nonlinear_arith)
    requires
        0 <= a <= b,
        0 <= size,
    ensures
        a * size <= b * size,
        (a + 1) * size == a * size + size,
        0 <= a * size,
{
}

/// Copies the `nmemb` elements of `size` bytes at the start of `base` out, in order.
fn split_elements(base: &Vec<u8>, nmemb: usize, size: usize) -> (r: Vec<Vec<u8>>)
    requires
        nmemb * size <= base@.len(),
    ensures
        views(r@) == elements(base@, nmemb as nat, size as nat),
        r@.len() == nmemb,
{
    let blen = base.len();
    let mut r: Vec<Vec<u8>> = Vec::new();
    let mut k: usize = 0;
    let mut off: usize = 0;
    while k < nmemb
        invariant
            k <= nmemb,
            off == k * size,
            nmemb * size <= base@.len(),
            base@.len() == blen,
            r@.len() == k,
            views(r@) == elements(base@, k as nat, size as nat),
        decreases nmemb - k,
    {
        proof {
            lemma_chunk_bounds(k + 1, nmemb as int, size as int);
            lemma_chunk_bounds(k as int, k as int, size as int);
        }
        let mut e: Vec<u8> = Vec::new();
        let mut b: usize = 0;
        while b < size
            invariant
                b <= size,
                off + size <= base@.len(),
                base@.len() == blen,
                e@ == base@.subrange(off as int, off + b),
            decreases size - b,
        {
            e.push(base[off + b]);
            b = b + 1;
            assert(e@ =~= base@.subrange(off as int, off + b));
        }
        let ghost r0 = r@;
        r.push(e);
        proof {
            let want = elements(base@, (k + 1) as nat, size as nat);
            assert forall|kk: int| 0 <= kk <= k implies #[trigger] views(r@)[kk] == want[kk] by {
                if kk < k {
                    assert(views(r@)[kk] == views(r0)[kk]);
                    assert(views(r0)[kk] == elements(base@, k as nat, size as nat)[kk]);
                } else {
                    assert(views(r@)[kk] == e@);
                }
            }
            assert(views(r@) =~= want);
        }
        off = off + size;
        k = k + 1;
    }
    r
}

/// Writes the elements of `elems`, each of `size` bytes, over the start of `base`.
fn join_elements(base: &mut Vec<u8>, elems: &Vec<Vec<u8>>, nmemb: usize, size: usize)
    requires
        nmemb * size <= old(base)@.len(),
        elems@.len() == nmemb,
        forall|k: int| 0 <= k < nmemb ==> (#[trigger] elems@[k])@.len() == size,
    ensures
        final(base)@.len() == old(base)@.len(),
        forall|p: int| nmemb * size <= p < old(base)@.len() ==> final(base)@[p] == old(base)@[p],
        elements(final(base)@, nmemb as nat, size as nat) == views(elems@),
{
    let blen = base.len();
    let mut k: usize = 0;
    let mut off: usize = 0;
    while k < nmemb
        invariant
            k <= nmemb,
            off == k * size,
            nmemb * size <= base@.len(),
            base@.len() == old(base)@.len(),
            base@.len() == blen,
            elems@.len() == nmemb,
            forall|kk: int| 0 <= kk < nmemb ==> (#[trigger] elems@[kk])@.len() == size,
            forall|p: int| off <= p < base@.len() ==> base@[p] == old(base)@[p],
            forall|kk: int| 0 <= kk < k ==> #[trigger] base@.subrange(kk * size, kk * size + size) == elems@[kk]@,
        decreases nmemb - k,
    {
        proof {
            lemma_chunk_bounds(k + 1, nmemb as int, size as int);
            lemma_chunk_bounds(k as int, k as int, size as int);
        }
        let mut b: usize = 0;
        while b < size
            invariant
                b <= size,
                off == k * size,
                k < nmemb,
                off + size <= base@.len(),
                base@.len() == old(base)@.len(),
                base@.len() == blen,
                elems@.len() == nmemb,
                elems@[k as int]@.len() == size,
                forall|p: int| off + b <= p < base@.len() ==> base@[p] == old(base)@[p],
                base@.subrange(off as int, off + b) == elems@[k as int]@.subrange(0, b as int),
                forall|kk: int| 0 <= kk < k ==> #[trigger] base@.subrange(kk * size, kk * size + size) == elems@[kk]@,
            decreases size - b,
        {
            let ghost before = base@;
            let x = elems[k][b];
            base.set(off + b, x);
            proof {
                assert forall|kk: int| 0 <= kk < k implies #[trigger] base@.subrange(kk * size, kk * size + size)
                    == elems@[kk]@ by {
                    lemma_chunk_bounds(kk + 1, k as int, size as int);
                    lemma_chunk_bounds(kk, kk, size as int);
                    assert(base@.subrange(kk * size, kk * size + size) =~= before.subrange(kk * size, kk * size + size));
                }
                assert(base@.subrange(off as int, off + b + 1) =~= elems@[k as int]@.subrange(0, b + 1));
            }
            b = b + 1;
        }
        proof {
            assert(elems@[k as int]@.subrange(0, size as int) =~= elems@[k as int]@);
            assert(base@.subrange(k * size, k * size + size) == elems@[k as int]@);
        }
        off = off + size;
        k = k + 1;
    }
    proof {
        assert(elements(base@, nmemb as nat, size as nat) =~= views(elems@));
    }
}

/// Sorts the `nmemb` elements of `size` bytes each at the start of `base` by
/// insertion, with the comparator `compare`, which is given two elements' bytes and
/// returns a positive number when the first goes after the second. Fewer than two
/// elements, or elements of more than `QSORT_MAX_SIZE` bytes, are left as they are.
/// Afterwards the elements are those that were there, in some order, and the bytes
/// past them are unchanged; when `compare` computes an order that never puts two
/// elements each after the other, no element goes after the next.
pub fn qsort<F: Fn(&[u8], &[u8]) -> i32>(base: &mut Vec<u8>, nmemb: usize, size: usize, compare: F)
    requires
        nmemb * size <= old(base)@.len(),
        forall|x: &[u8], y: &[u8]| call_requires(compare, (x, y)),
    ensures
        final(base)@.len() == old(base)@.len(),
        forall|p: int| nmemb * size <= p < old(base)@.len() ==> final(base)@[p] == old(base)@[p],
        nmemb < 2 || size > QSORT_MAX_SIZE ==> final(base)@ == old(base)@,
        elements(final(base)@, nmemb as nat, size as nat).to_multiset() == elements(
            old(base)@,
            nmemb as nat,
            size as nat,
        ).to_multiset(),
        forall|ord: spec_fn(Seq<u8>, Seq<u8>) -> int|
            size <= QSORT_MAX_SIZE && compares_by(compare, ord) && asymmetric(ord) ==> sorted_by(
                elements(final(base)@, nmemb as nat, size as nat),
                ord,
            ),
{
    if nmemb < 2 || size > QSORT_MAX_SIZE {
        return;
    }
    let mut elems = split_elements(base, nmemb, size);
    let ghost e0 = views(elems@);
    insertion_sort(&mut elems, &compare);
    proof {
        let e1 = views(elems@);
        assert forall|k: int| 0 <= k < nmemb implies (#[trigger] elems@[k])@.len() == size by {
            assert(e1[k] == elems@[k]@);
            vstd::seq_lib::to_multiset_contains(e1, e1[k]);
            assert(e1.contains(e1[k]));
            vstd::seq_lib::to_multiset_contains(e0, e1[k]);
            let j = choose|j: int| 0 <= j < e0.len() && e0[j] == e1[k];
            lemma_chunk_bounds(j + 1, nmemb as int, size as int);
            lemma_chunk_bounds(j, j, size as int);
        }
    }
    join_elements(base, &elems, nmemb, size);
}

} // verus!
