use vstd::prelude::*;
use crate::multiboot::{le_u32, le_u64, read_u32, read_u64};
use crate::pmm::{alloc_spec, free_bytes, lemma_alloc_spec, lists_aligned, BuddyAllocator};
use crate::vmm::{lemma_map_grows, map_spec, PageTables, TABLE_FLAGS};

verus! {

/// The OS/ABI byte this kernel's executables carry.
pub const OSABI_NUM: u8 = 0xAE;
/// Size of the ELF header and of a program header.
pub const EHDR_SIZE: usize = 64;
pub const PHDR_SIZE: u64 = 56;
/// Program header type of a loadable segment.
pub const PT_LOAD: u32 = 1;

/// The little-endian `u16` at `off`.
pub open spec fn le_u16(s: Seq<u8>, off: int) -> u16 {
    ((s[off] as u16) | ((s[off + 1] as u16) << 8u16)) as u16
}

fn read_u16(s: &[u8], off: usize) -> (r: u16)
    requires
        off + 2 <= s.len(),
    ensures
        r == le_u16(s@, off as int),
{
    (s[off] as u16) | ((s[off + 1] as u16) << 8u16)
}

/// A loadable segment: where its bytes are in the file, where it goes, and how
/// much of it is file data and how much memory it takes.
#[derive(Debug, Clone, Copy, PartialEq, Eq, Structural)]
pub struct Segment {
    pub offset: u64,
    pub vaddr: u64,
    pub filesz: u64,
    pub memsz: u64,
}

/// The segment described by the program header at `off`.
pub open spec fn segment_at(d: Seq<u8>, off: int) -> Segment {
    Segment { offset: le_u64(d, off + 8), vaddr: le_u64(d, off + 16), filesz: le_u64(d, off + 32), memsz: le_u64(d, off + 40) }
}

/// A segment this loader can place: its file bytes lie in the image, and its
/// pages do not run past the top of the address space. File data beyond its
/// memory size is not copied (see `page_spec`).
pub open spec fn segment_ok(d: Seq<u8>, s: Segment) -> bool {
    &&& s.offset + s.filesz <= d.len()
    &&& s.vaddr + s.memsz + 0xFFF <= u64::MAX
}

/// The loadable segments of the first `n` program headers, in order; `None` when
/// a program header lies outside the image or a loadable segment cannot be placed.
pub open spec fn segments_spec(d: Seq<u8>, phoff: int, phentsize: int, n: int) -> Option<Seq<Segment>>
    decreases n,
{
    if n <= 0 {
        Some(Seq::empty())
    } else {
        match segments_spec(d, phoff, phentsize, n - 1) {
            None => None,
            Some(segs) => {
                let off = phoff + (n - 1) * phentsize;
                if off + PHDR_SIZE > d.len() {
                    None
                } else if le_u32(d, off) != PT_LOAD {
                    Some(segs)
                } else if !segment_ok(d, segment_at(d, off)) {
                    None
                } else {
                    Some(segs.push(segment_at(d, off)))
                }
            },
        }
    }
}

/// An executable image: its entry point and loadable segments; `None` when it is
/// shorter than its header, lacks the ELF magic, is not 64-bit, carries another
/// OS/ABI, or its program headers or segments do not fit (see `segments_spec`).
pub open spec fn parse_spec(d: Seq<u8>) -> Option<(u64, Seq<Segment>)> {
    if d.len() < EHDR_SIZE {
        None
    } else if d[0] != 0x7F || d[1] != 0x45 || d[2] != 0x4C || d[3] != 0x46 {
        None
    } else if d[4] != 2 || d[7] != OSABI_NUM {
        None
    } else {
        let phoff = le_u64(d, 32);
        let phentsize = le_u16(d, 54);
        let phnum = le_u16(d, 56);
        if phoff + phnum * phentsize > d.len() {
            None
        } else {
            match segments_spec(d, phoff as int, phentsize as int, phnum as int) {
                None => None,
                Some(segs) => Some((le_u64(d, 24), segs)),
            }
        }
    }
}

/// Parses an executable image, as `parse_spec` says.
pub fn parse(d: &[u8]) -> (r: Option<(u64, Vec<Segment>)>)
    ensures
        match r {
            None => parse_spec(d@) is None,
            Some((entry, segs)) => parse_spec(d@) == Some((entry, segs@)),
        },
{
    if d.len() < EHDR_SIZE {
        return None;
    }
    if d[0] != 0x7F || d[1] != 0x45 || d[2] != 0x4C || d[3] != 0x46 {
        return None;
    }
    if d[4] != 2 || d[7] != OSABI_NUM {
        return None;
    }
    let entry = read_u64(d, 24);
    let phoff = read_u64(d, 32);
    let phentsize = read_u16(d, 54);
    let phnum = read_u16(d, 56);
    assert((phnum as u64) * (phentsize as u64) <= 0xFFFF * 0xFFFF) by (nonlinear_arith)
        requires
            phnum <= 0xFFFF,
            phentsize <= 0xFFFF,
    ;
    let table: u64 = phnum as u64 * phentsize as u64;
    if phoff > d.len() as u64 || table > d.len() as u64 - phoff {
        return None;
    }
    let mut segs: Vec<Segment> = Vec::new();
    let mut i: u16 = 0;
    while i < phnum
        invariant
            i <= phnum,
            phoff + phnum * phentsize <= d.len(),
            phnum == le_u16(d@, 56),
            phentsize == le_u16(d@, 54),
            phoff == le_u64(d@, 32),
            segments_spec(d@, phoff as int, phentsize as int, i as int) == Some(segs@),
        decreases phnum - i,
    {
        let ghost prev = segs@;
        assert(phoff + i * phentsize <= phoff + phnum * phentsize) by (nonlinear_arith)
            requires
                i <= phnum,
        ;
        let off: u64 = phoff + i as u64 * phentsize as u64;
        if (d.len() as u64) < PHDR_SIZE || off > d.len() as u64 - PHDR_SIZE {
            proof {
                lemma_segments_none_extends(d@, phoff as int, phentsize as int, i as int + 1, phnum as int);
            }
            return None;
        }
        let o = off as usize;
        if read_u32(d, o) == PT_LOAD {
            let s = Segment {
                offset: read_u64(d, o + 8),
                vaddr: read_u64(d, o + 16),
                filesz: read_u64(d, o + 32),
                memsz: read_u64(d, o + 40),
            };
            let ok = s.offset <= d.len() as u64 && s.filesz <= d.len() as u64 - s.offset && s.memsz <= u64::MAX - 0xFFF && s.vaddr
                <= u64::MAX - 0xFFF - s.memsz;
            if !ok {
                proof {
                    lemma_segments_none_extends(d@, phoff as int, phentsize as int, i as int + 1, phnum as int);
                }
                return None;
            }
            segs.push(s);
        }
        i = i + 1;
    }
    Some((entry, segs))
}

pub proof fn lemma_segments_none_extends(d: Seq<u8>, phoff: int, phentsize: int, n: int, m: int)
    requires
        0 < n <= m,
        segments_spec(d, phoff, phentsize, n) is None,
    ensures
        segments_spec(d, phoff, phentsize, m) is None,
    decreases m - n,
{
    if n < m {
        lemma_segments_none_extends(d, phoff, phentsize, n + 1, m);
    }
}

/// What loading does for one page of a segment: the virtual page it maps, and
/// the file bytes it copies into the fresh zeroed page (source offset in the
/// image, offset in the page, length), if any.
#[derive(Debug, Clone, Copy, PartialEq, Eq, Structural)]
pub struct PagePlan {
    pub vaddr: u64,
    pub copy: Option<PageCopy>,
}

/// File bytes copied into a page: from `src` in the image to `dst` in the page.
#[derive(Debug, Clone, Copy, PartialEq, Eq, Structural)]
pub struct PageCopy {
    pub src: u64,
    pub dst: u64,
    pub len: u64,
}

/// Number of pages segment `s` spans.
pub open spec fn page_count(s: Segment) -> int {
    ((s.vaddr % 4096) + s.memsz + 0xFFF) / 0x1000
}

/// Page `n` of segment `s`: the page at the segment's page-aligned start plus
/// `n` pages, and the part of the file data that falls in it.
pub open spec fn page_spec(s: Segment, n: int) -> PagePlan {
    let delta = s.vaddr % 4096;
    let page_start = n * 4096;
    let copy_start = if page_start > delta { page_start } else { delta as int };
    let copy_end = if delta + s.filesz < page_start + 4096 { delta + s.filesz } else { page_start + 4096 };
    PagePlan {
        vaddr: ((s.vaddr - delta) + page_start) as u64,
        copy: if copy_end > copy_start {
            Some(PageCopy { src: (s.offset + copy_start - delta) as u64, dst: (copy_start - page_start) as u64, len: (copy_end - copy_start) as u64 })
        } else {
            None
        },
    }
}

/// The plan of every page of a segment, in order.
pub fn segment_pages(s: Segment) -> (r: Vec<PagePlan>)
    requires
        s.vaddr + s.memsz + 0xFFF <= u64::MAX,
        s.offset + s.filesz <= u64::MAX,
    ensures
        r@.len() == page_count(s),
        forall|n: int| 0 <= n < r@.len() ==> #[trigger] r@[n] == page_spec(s, n),
{
    let va = s.vaddr;
    let delta = va & 0xFFF;
    assert(delta == va % 4096) by (bit_vector)
        requires
            delta == va & 0xFFF,
    ;
    let base = s.vaddr - delta;
    let count = (delta + s.memsz + 0xFFF) / 0x1000;
    let mut r: Vec<PagePlan> = Vec::new();
    let mut n: u64 = 0;
    while n < count
        invariant
            n <= count,
            count == page_count(s),
            delta == s.vaddr % 4096,
            base == s.vaddr - delta,
            s.vaddr + s.memsz + 0xFFF <= u64::MAX,
            s.offset + s.filesz <= u64::MAX,
            r@.len() == n,
            forall|k: int| 0 <= k < n ==> #[trigger] r@[k] == page_spec(s, k),
        decreases count - n,
    {
        assert(n * 4096 <= delta + s.memsz) by (nonlinear_arith)
            requires
                n < count,
                count == (delta + s.memsz + 0xFFF) / 0x1000,
        ;
        let page_start = n * 4096;
        let copy_start = if page_start > delta { page_start } else { delta };
        let copy_end = if s.filesz < page_start + 4096 - delta { delta + s.filesz } else { page_start + 4096 };
        let copy = if copy_end > copy_start {
            Some(PageCopy { src: s.offset + (copy_start - delta), dst: copy_start - page_start, len: copy_end - copy_start })
        } else {
            None
        };
        r.push(PagePlan { vaddr: base + page_start, copy });
        n = n + 1;
    }
    r
}

/// A page of a loaded image: the physical page taken for it, which is mapped at
/// `plan.vaddr`, and what goes into it.
#[derive(Debug, Clone, Copy, PartialEq, Eq, Structural)]
pub struct LoadedPage {
    pub phys: u64,
    pub plan: PagePlan,
}

/// The plans of every page of segment `s`.
pub open spec fn plans_of(s: Segment) -> Seq<PagePlan> {
    Seq::new(page_count(s) as nat, |n: int| page_spec(s, n))
}

/// The plans of every page of every segment, segment by segment.
pub open spec fn all_plans(segs: Seq<Segment>) -> Seq<PagePlan>
    decreases segs.len(),
{
    if segs.len() == 0 {
        Seq::empty()
    } else {
        all_plans(segs.drop_last()) + plans_of(segs.last())
    }
}

/// Placing pages one by one in the address space of `pml4`: each takes a page
/// from the allocator and maps it at its plan's address with `TABLE_FLAGS`; the
/// first page the allocator cannot give (0) stops the load (`None`).
pub open spec fn place_spec(
    mem: Map<u64, Seq<u64>>,
    lists: Seq<Seq<u64>>,
    pml4: u64,
    plans: Seq<PagePlan>,
) -> (Option<Seq<LoadedPage>>, Map<u64, Seq<u64>>, Seq<Seq<u64>>)
    decreases plans.len(),
{
    if plans.len() == 0 {
        (Some(Seq::empty()), mem, lists)
    } else {
        let (r, m, l) = place_spec(mem, lists, pml4, plans.drop_last());
        match r {
            None => (None, m, l),
            Some(placed) => {
                let (b, l2) = alloc_spec(l, 0);
                if b == 0 {
                    (None, m, l2)
                } else {
                    let (_, m3, l3) = map_spec(m, l2, pml4, plans.last().vaddr, b, TABLE_FLAGS);
                    (Some(placed.push(LoadedPage { phys: b, plan: plans.last() })), m3, l3)
                }
            },
        }
    }
}

/// Loading image `d` into the address space of `pml4`: its entry point and the
/// pages placed, as `parse_spec` and `place_spec` say.
pub open spec fn load_spec(mem: Map<u64, Seq<u64>>, lists: Seq<Seq<u64>>, d: Seq<u8>, pml4: u64) -> (
    Option<(u64, Seq<LoadedPage>)>,
    Map<u64, Seq<u64>>,
    Seq<Seq<u64>>,
) {
    match parse_spec(d) {
        None => (None, mem, lists),
        Some((entry, segs)) => {
            let (r, m, l) = place_spec(mem, lists, pml4, all_plans(segs));
            match r {
                None => (None, m, l),
                Some(pages) => (Some((entry, pages)), m, l),
            }
        },
    }
}

pub proof fn lemma_segments_ok(d: Seq<u8>, phoff: int, phentsize: int, n: int)
    ensures
        segments_spec(d, phoff, phentsize, n) matches Some(segs) ==> forall|i: int|
            0 <= i < segs.len() ==> segment_ok(d, #[trigger] segs[i]),
    decreases n,
{
    if n > 0 {
        lemma_segments_ok(d, phoff, phentsize, n - 1);
    }
}

pub proof fn lemma_all_plans_prefix(segs: Seq<Segment>, k: int)
    requires
        0 <= k <= segs.len(),
    ensures
        all_plans(segs.take(k)).is_prefix_of(all_plans(segs)),
    decreases segs.len(),
{
    if k == segs.len() {
        assert(segs.take(k) =~= segs);
    } else {
        lemma_all_plans_prefix(segs.drop_last(), k);
        assert(segs.drop_last().take(k) =~= segs.take(k));
        let a = all_plans(segs.drop_last());
        let p = all_plans(segs.take(k));
        assert((a + plans_of(segs.last())).subrange(0, p.len() as int) =~= a.subrange(0, p.len() as int));
    }
}

pub proof fn lemma_place_none_extends(
    mem: Map<u64, Seq<u64>>,
    lists: Seq<Seq<u64>>,
    pml4: u64,
    p: Seq<PagePlan>,
    a: Seq<PagePlan>,
)
    requires
        p.is_prefix_of(a),
        place_spec(mem, lists, pml4, p).0 is None,
    ensures
        place_spec(mem, lists, pml4, a) == place_spec(mem, lists, pml4, p),
    decreases a.len(),
{
    if a.len() == p.len() {
        assert(a =~= p);
    } else {
        assert(a.drop_last().subrange(0, p.len() as int) =~= a.subrange(0, p.len() as int));
        lemma_place_none_extends(mem, lists, pml4, p, a.drop_last());
    }
}

/// Placing pages keeps every table there was, leaves the free lists aligned, and
/// never adds free bytes.
pub proof fn lemma_place_grows(mem: Map<u64, Seq<u64>>, lists: Seq<Seq<u64>>, pml4: u64, plans: Seq<PagePlan>)
    requires
        lists_aligned(lists),
    ensures
        forall|f: u64| mem.dom().contains(f) ==> #[trigger] place_spec(mem, lists, pml4, plans).1.dom().contains(f),
        lists_aligned(place_spec(mem, lists, pml4, plans).2),
        free_bytes(place_spec(mem, lists, pml4, plans).2) <= free_bytes(lists),
    decreases plans.len(),
{
    if plans.len() > 0 {
        lemma_place_grows(mem, lists, pml4, plans.drop_last());
        let (r, m, l) = place_spec(mem, lists, pml4, plans.drop_last());
        if r is Some {
            let (b, l2) = alloc_spec(l, 0);
            lemma_alloc_spec(l, 0);
            if b != 0 {
                lemma_map_grows(m, l2, pml4, plans.last().vaddr, b, TABLE_FLAGS);
            }
        }
    }
}

/// Loading keeps every table there was, leaves the free lists aligned, and never
/// adds free bytes.
pub proof fn lemma_load_grows(mem: Map<u64, Seq<u64>>, lists: Seq<Seq<u64>>, d: Seq<u8>, pml4: u64)
    requires
        lists_aligned(lists),
    ensures
        forall|f: u64| mem.dom().contains(f) ==> #[trigger] load_spec(mem, lists, d, pml4).1.dom().contains(f),
        lists_aligned(load_spec(mem, lists, d, pml4).2),
        free_bytes(load_spec(mem, lists, d, pml4).2) <= free_bytes(lists),
{
    match parse_spec(d) {
        None => {},
        Some((entry, segs)) => {
            lemma_place_grows(mem, lists, pml4, all_plans(segs));
        },
    }
}

/// Loads image `d` into the address space of `pml4`: parses it, and for every page
/// of every loadable segment takes a page from `pmm` and maps it. The pages come
/// back with their plans, for the bytes to be copied into them.
pub fn load(tables: &mut PageTables, pmm: &mut BuddyAllocator, d: &[u8], pml4: u64) -> (r: Option<(u64, Vec<LoadedPage>)>)
    requires
        old(tables).wf(),
        old(pmm).wf(),
    ensures
        final(tables).wf(),
        final(pmm).wf(),
        ({
            let (want, m, l) = load_spec(old(tables)@, old(pmm)@, d@, pml4);
            &&& final(tables)@ == m
            &&& final(pmm)@ == l
            &&& match r {
                None => want is None,
                Some((entry, pages)) => want == Some((entry, pages@)),
            }
        }),
        final(pmm).spec_free_memory() == old(pmm).spec_free_memory() + free_bytes(final(pmm)@) - free_bytes(
            old(pmm)@,
        ),
        final(pmm).spec_total_memory() == old(pmm).spec_total_memory(),
{
    let (entry, segs) = match parse(d) {
        None => return None,
        Some(p) => p,
    };
    let ghost segs_v = segs@;
    proof {
        lemma_segments_ok(d@, le_u64(d@, 32) as int, le_u16(d@, 54) as int, le_u16(d@, 56) as int);
    }
    let mut pages: Vec<LoadedPage> = Vec::new();
    let mut si: usize = 0;
    while si < segs.len()
        invariant
            si <= segs@.len(),
            segs@ == segs_v,
            parse_spec(d@) == Some((entry, segs_v)),
            forall|i: int| 0 <= i < segs_v.len() ==> segment_ok(d@, #[trigger] segs_v[i]),
            tables.wf(),
            pmm.wf(),
            place_spec(old(tables)@, old(pmm)@, pml4, all_plans(segs_v.take(si as int))) == (
                Some(pages@),
                tables@,
                pmm@,
            ),
            pmm.spec_free_memory() == old(pmm).spec_free_memory() + free_bytes(pmm@) - free_bytes(old(pmm)@),
            pmm.spec_total_memory() == old(pmm).spec_total_memory(),
        decreases segs_v.len() - si,
    {
        let seg = segs[si];
        assert(segment_ok(d@, seg));
        assert(d@.len() == d.len() && d.len() <= u64::MAX);
        let plans = segment_pages(seg);
        let ghost done = all_plans(segs_v.take(si as int));
        proof {
            assert(segs_v.take(si + 1).drop_last() =~= segs_v.take(si as int));
            assert(segs_v.take(si + 1).last() == seg);
            assert(plans@ =~= plans_of(seg));
        }
        let mut n: usize = 0;
        while n < plans.len()
            invariant
                n <= plans@.len(),
                si < segs_v.len(),
                seg == segs_v[si as int],
                parse_spec(d@) == Some((entry, segs_v)),
                plans@ == plans_of(seg),
                all_plans(segs_v.take(si + 1)) == done + plans_of(seg),
                tables.wf(),
                pmm.wf(),
                place_spec(old(tables)@, old(pmm)@, pml4, done + plans@.take(n as int)) == (Some(pages@), tables@, pmm@),
                pmm.spec_free_memory() == old(pmm).spec_free_memory() + free_bytes(pmm@) - free_bytes(old(pmm)@),
                pmm.spec_total_memory() == old(pmm).spec_total_memory(),
            decreases plans@.len() - n,
        {
            let plan = plans[n];
            let ghost so_far = done + plans@.take(n as int);
            proof {
                assert((done + plans@.take(n + 1)).drop_last() =~= so_far);
                assert((done + plans@.take(n + 1)).last() == plan);
            }
            let b = pmm.alloc_pages(0);
            if b == 0 {
                proof {
                    let p = done + plans@.take(n + 1);
                    let whole = all_plans(segs_v);
                    lemma_all_plans_prefix(segs_v, si + 1);
                    assert(p.is_prefix_of(done + plans_of(seg))) by {
                        assert((done + plans_of(seg)).subrange(0, p.len() as int) =~= p);
                    }
                    assert(p.is_prefix_of(whole)) by {
                        assert(whole.subrange(0, p.len() as int) =~= (done + plans_of(seg)).subrange(0, p.len() as int));
                    }
                    lemma_place_none_extends(old(tables)@, old(pmm)@, pml4, p, whole);
                }
                return None;
            }
            tables.map_page(pmm, pml4, plan.vaddr, b, TABLE_FLAGS);
            pages.push(LoadedPage { phys: b, plan });
            n = n + 1;
        }
        proof {
            assert(plans@.take(plans@.len() as int) =~= plans@);
        }
        si = si + 1;
    }
    proof {
        assert(segs_v.take(segs_v.len() as int) =~= segs_v);
    }
    Some((entry, pages))
}

} // verus!
