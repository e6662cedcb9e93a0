use vstd::prelude::*;
use crate::multiboot::le_u32;

verus! {

/// Bindings the name service keeps.
pub const MAX_VFS_BINDINGS: usize = 32;
/// Longest path a binding holds.
pub const MAX_PATH_LEN: usize = 64;

/// A path bound to a service.
#[derive(Clone, Copy)]
pub struct Binding {
    pub path: [u8; 64],
    pub path_len: usize,
    pub endpoint: u32,
    pub used: bool,
}

/// What a binding means: `None` when unused, else its path and its service.
pub open spec fn binding_view(b: Binding) -> Option<(Seq<u8>, u32)> {
    if b.used {
        Some((b.path@.subrange(0, b.path_len as int), b.endpoint))
    } else {
        None
    }
}

/// `p` is a prefix of `path`.
pub open spec fn is_prefix(p: Seq<u8>, path: Seq<u8>) -> bool {
    p.len() <= path.len() && path.subrange(0, p.len() as int) == p
}

/// The service and prefix length that `resolve(path)` settles on after the first
/// `n` bindings: a used binding whose path is a prefix of `path` and at least as
/// long as the best so far replaces it.
pub open spec fn best_match(bs: Seq<Option<(Seq<u8>, u32)>>, path: Seq<u8>, n: int) -> (u32, int)
    decreases n,
{
    if n <= 0 {
        (0, 0)
    } else {
        let prev = best_match(bs, path, n - 1);
        match bs[n - 1] {
            Some((p, sid)) => if is_prefix(p, path) && p.len() >= prev.1 {
                (sid, p.len() as int)
            } else {
                prev
            },
            None => prev,
        }
    }
}

/// The service `path` resolves to: the one bound to its longest bound prefix, the
/// last such binding on a tie; 0 when no bound path is a prefix of it.
pub open spec fn resolve_spec(bs: Seq<Option<(Seq<u8>, u32)>>, path: Seq<u8>) -> u32 {
    best_match(bs, path, bs.len() as int).0
}

/// The first unused binding, if any.
pub open spec fn first_free(bs: Seq<Option<(Seq<u8>, u32)>>) -> Option<int> {
    bs.index_of_first(None)
}

/// The bindings of the name service.
pub struct Vfs {
    bindings: Vec<Binding>,
}

impl Vfs {
    pub closed spec fn wf(&self) -> bool {
        &&& self.bindings@.len() == MAX_VFS_BINDINGS
        &&& forall|i: int| 0 <= i < MAX_VFS_BINDINGS ==> (#[trigger] self.bindings@[i]).path_len <= MAX_PATH_LEN
    }

    /// The bindings, in table order.
    pub closed spec fn view(&self) -> Seq<Option<(Seq<u8>, u32)>> {
        self.bindings@.map_values(|b: Binding| binding_view(b))
    }

    /// No binding.
    pub fn new() -> (r: Self)
        ensures
            r.wf(),
            r@.len() == MAX_VFS_BINDINGS,
            forall|i: int| 0 <= i < MAX_VFS_BINDINGS ==> #[trigger] r@[i] is None,
    {
        let mut bindings: Vec<Binding> = Vec::new();
        let mut i: usize = 0;
        while i < MAX_VFS_BINDINGS
            invariant
                i <= MAX_VFS_BINDINGS,
                bindings@.len() == i,
                forall|k: int| 0 <= k < i ==> !(#[trigger] bindings@[k]).used && bindings@[k].path_len == 0,
            decreases MAX_VFS_BINDINGS - i,
        {
            bindings.push(Binding { path: [0u8; 64], path_len: 0, endpoint: 0, used: false });
            i = i + 1;
        }
        Vfs { bindings }
    }

    /// Binds `path` to service `sid` in the first unused binding and returns 0; -1,
    /// changing nothing, when every binding is used.
    pub fn bind(&mut self, sid: u32, path: &[u8]) -> (r: i32)
        requires
            old(self).wf(),
            path.len() <= MAX_PATH_LEN,
        ensures
            final(self).wf(),
            r == 0 || r == -1,
            r == -1 <==> first_free(old(self)@) is None,
            r == -1 ==> final(self)@ == old(self)@,
            r == 0 ==> final(self)@ == old(self)@.update(first_free(old(self)@).unwrap(), Some((path@, sid))),
    {
        let mut idx: usize = 0;
        while idx < MAX_VFS_BINDINGS
            invariant
                self.wf(),
                *self == *old(self),
                path.len() <= MAX_PATH_LEN,
                idx <= MAX_VFS_BINDINGS,
                forall|j: int| 0 <= j < idx ==> #[trigger] self@[j] is Some,
            decreases MAX_VFS_BINDINGS - idx,
        {
            let b = self.bindings[idx];
            assert(self@[idx as int] == binding_view(b));
            if !b.used {
                let mut nb = b;
                let mut i: usize = 0;
                while i < path.len()
                    invariant
                        i <= path.len(),
                        path.len() <= MAX_PATH_LEN,
                        nb.path@.subrange(0, i as int) == path@.subrange(0, i as int),
                    decreases path.len() - i,
                {
                    nb.path[i] = path[i];
                    i = i + 1;
                    assert(nb.path@.subrange(0, i as int) =~= path@.subrange(0, i as int));
                }
                nb.path_len = path.len();
                nb.endpoint = sid;
                nb.used = true;
                self.bindings.set(idx, nb);
                proof {
                    assert(path@.subrange(0, path.len() as int) =~= path@);
                    assert(old(self)@[idx as int] is None);
                    old(self)@.index_of_first_ensures(None);
                    let ff = first_free(old(self)@);
                    assert(ff is Some);
                    let k = ff.unwrap();
                    if k < idx {
                        assert(old(self)@[k] is Some);
                    }
                    if k > idx {
                        assert(old(self)@[idx as int] is Some);
                    }
                    assert(self@ =~= old(self)@.update(idx as int, Some((path@, sid))));
                }
                return 0;
            }
            idx = idx + 1;
        }
        proof {
            old(self)@.index_of_first_ensures(None);
            if old(self)@.contains(None) {
                let i = choose|i: int| 0 <= i < old(self)@.len() && old(self)@[i] == None::<(Seq<u8>, u32)>;
                assert(old(self)@[i] is Some);
            }
        }
        -1
    }

    /// The service `path` resolves to, as `resolve_spec` says.
    pub fn resolve(&self, path: &[u8]) -> (r: u32)
        requires
            self.wf(),
        ensures
            r == resolve_spec(self@, path@),
    {
        let mut best: u32 = 0;
        let mut best_len: usize = 0;
        let mut k: usize = 0;
        while k < MAX_VFS_BINDINGS
            invariant
                self.wf(),
                k <= MAX_VFS_BINDINGS,
                (best, best_len as int) == best_match(self@, path@, k as int),
            decreases MAX_VFS_BINDINGS - k,
        {
            let b = self.bindings[k];
            assert(self@[k as int] == binding_view(b));
            if b.used {
                let n = b.path_len;
                if path.len() >= n && n >= best_len && prefix_eq(path, &b.path, n) {
                    best = b.endpoint;
                    best_len = n;
                }
            }
            k = k + 1;
        }
        best
    }
}

/// Whether the first `n` bytes of `path` and `p` agree.
fn prefix_eq(path: &[u8], p: &[u8; 64], n: usize) -> (r: bool)
    requires
        n <= path.len(),
        n <= 64,
    ensures
        r == (path@.subrange(0, n as int) == p@.subrange(0, n as int)),
{
    let mut i: usize = 0;
    while i < n
        invariant
            n <= path.len(),
            n <= 64,
            i <= n,
            path@.subrange(0, i as int) == p@.subrange(0, i as int),
        decreases n - i,
    {
        if path[i] != p[i] {
            assert(path@.subrange(0, n as int)[i as int] != p@.subrange(0, n as int)[i as int]);
            return false;
        }
        i = i + 1;
        assert(path@.subrange(0, i as int) =~= p@.subrange(0, i as int));
    }
    true
}

/// The four little-endian bytes of `v`.
pub open spec fn le_bytes_u32(v: u32) -> Seq<u8> {
    seq![(v & 0xFF) as u8, ((v >> 8u32) & 0xFF) as u8, ((v >> 16u32) & 0xFF) as u8, (v >> 24u32) as u8]
}

pub fn u32_le_bytes(v: u32) -> (r: Vec<u8>)
    ensures
        r@ == le_bytes_u32(v),
{
    let mut r: Vec<u8> = Vec::new();
    r.push((v & 0xFF) as u8);
    r.push(((v >> 8u32) & 0xFF) as u8);
    r.push(((v >> 16u32) & 0xFF) as u8);
    r.push((v >> 24u32) as u8);
    assert(r@ =~= le_bytes_u32(v));
    r
}

/// A bind request: the operation byte, the service as four little-endian bytes,
/// then the path.
pub fn on_bind(vfs: &mut Vfs, req: &[u8]) -> (reply: Vec<u8>)
    requires
        old(vfs).wf(),
        req.len() <= 5 + MAX_PATH_LEN,
    ensures
        final(vfs).wf(),
        req.len() < 5 ==> reply@ == le_bytes_u32((-1i32) as u32) && final(vfs)@ == old(vfs)@,
        req.len() >= 5 ==> {
            let sid = le_u32(req@, 1);
            let path = req@.subrange(5, req.len() as int);
            &&& first_free(old(vfs)@) is None ==> reply@ == le_bytes_u32((-1i32) as u32) && final(vfs)@ == old(vfs)@
            &&& first_free(old(vfs)@) is Some ==> reply@ == le_bytes_u32(0) && final(vfs)@ == old(vfs)@.update(
                first_free(old(vfs)@).unwrap(),
                Some((path, sid)),
            )
        },
{
    let mut r: i32 = -1;
    if req.len() >= 5 {
        let sid = crate::multiboot::read_u32(req, 1);
        let path = slice_from(req, 5);
        r = vfs.bind(sid, path.as_slice());
    }
    u32_le_bytes(r as u32)
}

/// The bytes of `s` from `start` on.
pub fn slice_from(s: &[u8], start: usize) -> (r: Vec<u8>)
    requires
        start <= s.len(),
    ensures
        r@ == s@.subrange(start as int, s.len() as int),
{
    let mut r: Vec<u8> = Vec::new();
    let mut i: usize = start;
    while i < s.len()
        invariant
            start <= i <= s.len(),
            r@ == s@.subrange(start as int, i as int),
        decreases s.len() - i,
    {
        r.push(s[i]);
        i = i + 1;
        assert(r@ =~= s@.subrange(start as int, i as int));
    }
    r
}

/// A resolve request: the operation byte, four unused bytes, then the path. The
/// reply is the service as four little-endian bytes, 0 for a request too short.
pub fn on_resolve(vfs: &Vfs, req: &[u8]) -> (reply: Vec<u8>)
    requires
        vfs.wf(),
    ensures
        req.len() < 5 ==> reply@ == le_bytes_u32(0),
        req.len() >= 5 ==> reply@ == le_bytes_u32(resolve_spec(vfs@, req@.subrange(5, req.len() as int))),
{
    let mut r: u32 = 0;
    if req.len() >= 5 {
        let path = slice_from(req, 5);
        r = vfs.resolve(path.as_slice());
    }
    u32_le_bytes(r)
}

/// The bindings that `best_match` passes over after the first `n` do not change
/// what it settled on when none of them is a bound prefix at least as long.
proof fn lemma_best_match_stays(bs: Seq<Option<(Seq<u8>, u32)>>, path: Seq<u8>, n: int, m: int)
    requires
        0 <= n <= m <= bs.len(),
        forall|j: int| n <= j < m ==> match #[trigger] bs[j] {
            Some((p, sid)) => !(is_prefix(p, path) && p.len() >= best_match(bs, path, n).1),
            None => true,
        },
    ensures
        best_match(bs, path, m) == best_match(bs, path, n),
    decreases m - n,
{
    if m > n {
        lemma_best_match_stays(bs, path, n, m - 1);
    }
}

/// The prefix length `best_match` settles on is that of a prefix of `path`.
proof fn lemma_best_match_len(bs: Seq<Option<(Seq<u8>, u32)>>, path: Seq<u8>, n: int)
    requires
        0 <= n <= bs.len(),
    ensures
        0 <= best_match(bs, path, n).1 <= path.len(),
    decreases n,
{
    if n > 0 {
        lemma_best_match_len(bs, path, n - 1);
    }
}

/// Binding a path that no binding holds yet makes it resolve to its service:
/// after a successful bind of `path` to `sid`, `resolve(path)` is `sid`.
pub proof fn law_bind_then_resolve(bs: Seq<Option<(Seq<u8>, u32)>>, sid: u32, path: Seq<u8>)
    requires
        first_free(bs) is Some,
        forall|i: int| 0 <= i < bs.len() ==> match #[trigger] bs[i] {
            Some((p, s)) => p != path,
            None => true,
        },
    ensures
        resolve_spec(bs.update(first_free(bs).unwrap(), Some((path, sid))), path) == sid,
{
    bs.index_of_first_ensures(None);
    let k = first_free(bs).unwrap();
    let nb = bs.update(k, Some((path, sid)));
    assert(0 <= k < bs.len());
    lemma_best_match_len(nb, path, k);
    assert(path.subrange(0, path.len() as int) =~= path);
    assert(best_match(nb, path, k + 1) == (sid, path.len() as int));
    assert forall|j: int| k + 1 <= j < nb.len() implies match #[trigger] nb[j] {
        Some((p, s)) => !(is_prefix(p, path) && p.len() >= best_match(nb, path, k + 1).1),
        None => true,
    } by {
        assert(nb[j] == bs[j]);
        match bs[j] {
            Some((p, s)) => {
                if is_prefix(p, path) && p.len() >= path.len() {
                    assert(p =~= path);
                }
            },
            None => {},
        }
    }
    lemma_best_match_stays(nb, path, k + 1, nb.len() as int);
}

/// The used bindings come first: no unused binding lies before a used one. So it
/// is while bindings are only ever added in the first free slot.
pub open spec fn packed(bs: Seq<Option<(Seq<u8>, u32)>>) -> bool {
    forall|i: int, j: int| 0 <= i < j < bs.len() && #[trigger] bs[j] is Some ==> #[trigger] bs[i] is Some
}

/// Binding in the first free slot keeps the bindings packed.
pub proof fn law_bind_keeps_packed(bs: Seq<Option<(Seq<u8>, u32)>>, sid: u32, path: Seq<u8>)
    requires
        packed(bs),
        first_free(bs) is Some,
    ensures
        packed(bs.update(first_free(bs).unwrap(), Some((path, sid)))),
{
    bs.index_of_first_ensures(None);
    let k = first_free(bs).unwrap();
    let nb = bs.update(k, Some((path, sid)));
    assert forall|i: int, j: int| 0 <= i < j < nb.len() && #[trigger] nb[j] is Some implies #[trigger] nb[i] is Some by {
        if i != k {
            if j == k {
                assert(bs[i] != None::<(Seq<u8>, u32)>);
            } else {
                assert(bs[j] is Some);
            }
        }
    }
}

/// The newest binding of a path wins: while bindings are only added (packed), a
/// successful bind of `path` to `sid` makes `resolve(path)` give `sid`, even when
/// `path` was bound before to another service.
pub proof fn law_newest_binding_wins(bs: Seq<Option<(Seq<u8>, u32)>>, sid: u32, path: Seq<u8>)
    requires
        packed(bs),
        first_free(bs) is Some,
    ensures
        resolve_spec(bs.update(first_free(bs).unwrap(), Some((path, sid))), path) == sid,
{
    bs.index_of_first_ensures(None);
    let k = first_free(bs).unwrap();
    let nb = bs.update(k, Some((path, sid)));
    assert(0 <= k < bs.len());
    lemma_best_match_len(nb, path, k);
    assert(path.subrange(0, path.len() as int) =~= path);
    assert(best_match(nb, path, k + 1) == (sid, path.len() as int));
    assert forall|j: int| k + 1 <= j < nb.len() implies match #[trigger] nb[j] {
        Some((p, s)) => !(is_prefix(p, path) && p.len() >= best_match(nb, path, k + 1).1),
        None => true,
    } by {
        assert(nb[j] == bs[j]);
        if bs[j] is Some {
            assert(bs[k] is Some);
        }
    }
    lemma_best_match_stays(nb, path, k + 1, nb.len() as int);
}

} // verus!
