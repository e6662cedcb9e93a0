use vstd::prelude::*;
use crate::pmm::{
    aligned, alloc_spec, bsz, free_bytes, free_spec, lemma_alloc_spec, lemma_bsz, lemma_free_spec, lists_aligned,
    BuddyAllocator,
};

verus! {

/// Entries in one page table.
pub const TABLE_ENTRIES: usize = 512;

/// Flags of an intermediate entry made for a new table: present, writable, user.
pub const TABLE_FLAGS: u64 = 0x07;

/// The address bits of an entry.
pub const ADDRESS_MASK: u64 = 0xFFFF_FFFF_FFFF_F000;

/// Where every address space sees the IPC arena.
pub const ARENA_VADDR: u64 = 0x5000_0000;

/// Pages in the IPC arena.
pub const ARENA_PAGES: u64 = 128;

/// The table or page an entry points to.
pub open spec fn frame_of(e: u64) -> u64 {
    e & ADDRESS_MASK
}

/// Bit 0 of an entry.
pub open spec fn present(e: u64) -> bool {
    e & 1 != 0
}

/// The nine bits of `virt` that index the table of the level at `shift`.
pub open spec fn table_index(virt: u64, shift: u64) -> int {
    ((virt >> shift) & 0x1FF) as int
}

/// A table of zero entries.
pub open spec fn zero_table() -> Seq<u64> {
    Seq::new(512, |j: int| 0u64)
}

/// Every table of `mem` has 512 entries.
pub open spec fn tables_wf(mem: Map<u64, Seq<u64>>) -> bool {
    forall|f: u64| mem.dom().contains(f) ==> (#[trigger] mem[f]).len() == 512
}

/// One step down the walk from table `t` through entry `i`, making the next table
/// when the entry is not present: a page is taken from the allocator, zeroed, and
/// the entry set to it with `TABLE_FLAGS`. The walk stops (`None`) at a present
/// entry whose table is not one of `mem`.
pub open spec fn descend(mem: Map<u64, Seq<u64>>, lists: Seq<Seq<u64>>, t: u64, i: int) -> (Option<u64>, Map<u64, Seq<u64>>, Seq<Seq<u64>>) {
    let e = mem[t][i];
    if !present(e) {
        let (b, l2) = alloc_spec(lists, 0);
        let m1 = mem.insert(b, zero_table());
        (Some(b), m1.insert(t, m1[t].update(i, b | TABLE_FLAGS)), l2)
    } else if mem.dom().contains(frame_of(e)) {
        (Some(frame_of(e)), mem, lists)
    } else {
        (None, mem, lists)
    }
}

/// What mapping `virt` to `phys | flags` under `pml4` does to the tables and the
/// allocator's free lists, and whether the walk reached the last level.
pub open spec fn map_spec(
    mem: Map<u64, Seq<u64>>,
    lists: Seq<Seq<u64>>,
    pml4: u64,
    virt: u64,
    phys: u64,
    flags: u64,
) -> (bool, Map<u64, Seq<u64>>, Seq<Seq<u64>>) {
    if !mem.dom().contains(pml4) {
        (false, mem, lists)
    } else {
        let (p, m1, l1) = descend(mem, lists, pml4, table_index(virt, 39));
        match p {
            None => (false, m1, l1),
            Some(p) => {
                let (d, m2, l2) = descend(m1, l1, p, table_index(virt, 30));
                match d {
                    None => (false, m2, l2),
                    Some(d) => {
                        let (t, m3, l3) = descend(m2, l2, d, table_index(virt, 21));
                        match t {
                            None => (false, m3, l3),
                            Some(t) => (true, m3.insert(t, m3[t].update(table_index(virt, 12), phys | flags)), l3),
                        }
                    }
                }
            }
        }
    }
}

/// The table entry `i` of `t` points to, when it is present and one of `mem`.
pub open spec fn next_table(mem: Map<u64, Seq<u64>>, t: u64, i: int) -> Option<u64> {
    let e = mem[t][i];
    if present(e) && mem.dom().contains(frame_of(e)) {
        Some(frame_of(e))
    } else {
        None
    }
}

/// The last-level table that the walk of `virt` from `pml4` reaches, without making
/// any table.
pub open spec fn leaf_table(mem: Map<u64, Seq<u64>>, pml4: u64, virt: u64) -> Option<u64> {
    if !mem.dom().contains(pml4) {
        None
    } else {
        match next_table(mem, pml4, table_index(virt, 39)) {
            None => None,
            Some(p) => match next_table(mem, p, table_index(virt, 30)) {
                None => None,
                Some(d) => next_table(mem, d, table_index(virt, 21)),
            },
        }
    }
}

/// The last-level entry for `virt`, when the walk reaches one.
pub open spec fn lookup(mem: Map<u64, Seq<u64>>, pml4: u64, virt: u64) -> Option<u64> {
    match leaf_table(mem, pml4, virt) {
        None => None,
        Some(t) => Some(mem[t][table_index(virt, 12)]),
    }
}

/// `virt` is mapped: the walk reaches a present last-level entry.
pub open spec fn mapped(mem: Map<u64, Seq<u64>>, pml4: u64, virt: u64) -> bool {
    match lookup(mem, pml4, virt) {
        None => false,
        Some(e) => present(e),
    }
}

/// What unmapping `virt` does: the last-level entry, if the walk reaches one, is
/// cleared.
pub open spec fn unmap_spec(mem: Map<u64, Seq<u64>>, pml4: u64, virt: u64) -> Map<u64, Seq<u64>> {
    match leaf_table(mem, pml4, virt) {
        None => mem,
        Some(t) => mem.insert(t, mem[t].update(table_index(virt, 12), 0)),
    }
}

/// The pages that freeing the table `t` of level `depth` gives back, in the order
/// they are given back: for each present entry (bar entry 0 of a top-level table,
/// which the kernel shares), the page it maps at the last level, or everything
/// below the table it points to; then `t` itself. A table that is not one of `mem`
/// is not followed.
pub open spec fn table_frees(mem: Map<u64, Seq<u64>>, t: u64, depth: nat) -> Seq<u64>
    decreases depth, 513nat,
{
    entries_frees(mem, t, depth, 512).push(t)
}

/// What the entries `0..n` of `t` give back (see `table_frees`).
pub open spec fn entries_frees(mem: Map<u64, Seq<u64>>, t: u64, depth: nat, n: nat) -> Seq<u64>
    decreases depth, n,
{
    if n == 0 {
        Seq::empty()
    } else {
        let i = n - 1;
        let e = mem[t][i];
        let rest = entries_frees(mem, t, depth, (n - 1) as nat);
        if (depth == 4 && i == 0) || !present(e) {
            rest
        } else if depth <= 1 {
            rest.push(frame_of(e))
        } else if !mem.dom().contains(frame_of(e)) {
            rest
        } else {
            rest + table_frees(mem, frame_of(e), (depth - 1) as nat)
        }
    }
}

/// The most pages freeing a table of level `depth` can give back: a last-level
/// table gives back its 512 pages and itself; a higher one, 512 subtrees and
/// itself.
pub open spec fn frees_bound(depth: nat) -> nat
    decreases depth,
{
    if depth <= 1 {
        513
    } else {
        512 * frees_bound((depth - 1) as nat) + 1
    }
}

/// The free counter below which `free_table` may free any tree:
/// `u64::MAX - 4 MiB * frees_bound(4)`.
pub const FREE_TABLE_LIMIT: u64 = 0xfbfd_feff_7fbf_ffff;

pub proof fn lemma_frees_bound_grows(d: nat, e: nat)
    requires
        1 <= d <= e,
    ensures
        frees_bound(d) <= frees_bound(e),
    decreases e,
{
    if d < e {
        lemma_frees_bound_grows(d, (e - 1) as nat);
    }
}

pub proof fn lemma_table_frees_bound(mem: Map<u64, Seq<u64>>, t: u64, depth: nat)
    requires
        1 <= depth,
    ensures
        table_frees(mem, t, depth).len() <= frees_bound(depth),
    decreases depth, 513nat,
{
    lemma_entries_frees_bound(mem, t, depth, 512);
}

pub proof fn lemma_entries_frees_bound(mem: Map<u64, Seq<u64>>, t: u64, depth: nat, n: nat)
    requires
        1 <= depth,
        n <= 512,
    ensures
        entries_frees(mem, t, depth, n).len() <= n * (if depth <= 1 { 1 } else { frees_bound((depth - 1) as nat) }),
    decreases depth, n,
{
    let per: nat = if depth <= 1 { 1 } else { frees_bound((depth - 1) as nat) };
    if n > 0 {
        lemma_entries_frees_bound(mem, t, depth, (n - 1) as nat);
        let e = mem[t][n - 1];
        if !((depth == 4 && n - 1 == 0) || !present(e)) && depth > 1 && mem.dom().contains(frame_of(e)) {
            lemma_table_frees_bound(mem, frame_of(e), (depth - 1) as nat);
        }
        assert((n - 1) * per + per == n * per) by (nonlinear_arith);
    }
}

/// The free lists after giving back the pages `frames` one by one with
/// `free_pages(0, ..)`, and the bytes the allocator's free counter grows by.
pub open spec fn release_all(lists: Seq<Seq<u64>>, frames: Seq<u64>) -> (Seq<Seq<u64>>, int)
    decreases frames.len(),
{
    if frames.len() == 0 {
        (lists, 0)
    } else {
        let (l, c) = release_all(lists, frames.drop_last());
        let (l2, o) = free_spec(l, 0, frames.last());
        (l2, c + bsz(o as u64))
    }
}

pub proof fn lemma_release_concat(l: Seq<Seq<u64>>, a: Seq<u64>, b: Seq<u64>)
    ensures
        release_all(l, a + b) == (
            release_all(release_all(l, a).0, b).0,
            release_all(l, a).1 + release_all(release_all(l, a).0, b).1,
        ),
    decreases b.len(),
{
    if b.len() == 0 {
        assert(a + b =~= a);
    } else {
        lemma_release_concat(l, a, b.drop_last());
        assert((a + b).drop_last() =~= a + b.drop_last());
        assert((a + b).last() == b.last());
    }
}

pub proof fn lemma_entries_frees_grow(mem: Map<u64, Seq<u64>>, t: u64, depth: nat, m: nat, n: nat)
    requires
        m <= n,
    ensures
        entries_frees(mem, t, depth, m).len() <= entries_frees(mem, t, depth, n).len(),
    decreases n,
{
    if m < n {
        lemma_entries_frees_grow(mem, t, depth, m, (n - 1) as nat);
    }
}

/// The facts about entry bits the walks use: the largest block is 4 MiB, an
/// entry's frame is page aligned, and a page-aligned table with `TABLE_FLAGS` is
/// present and points back to the table.
proof fn lemma_entry_bits(e: u64, b: u64)
    ensures
        bsz(10) == 4194304,
        aligned(frame_of(e), 0),
        aligned(b, 0) ==> present(b | TABLE_FLAGS) && frame_of(b | TABLE_FLAGS) == b,
        !present(0u64),
{
    lemma_bsz(0);
    assert((4096u64 << 10u64) == 4194304 && (e & 0xFFFF_FFFF_FFFF_F000u64) & 4095u64 == 0 && (b & 4095u64 == 0
        ==> (b | 7u64) & 1u64 != 0 && (b | 7u64) & 0xFFFF_FFFF_FFFF_F000u64 == b) && 0u64 & 1u64 == 0) by (bit_vector);
}

/// The tables and free lists after mapping the first `n` arena pages: page `i` of
/// `ARENA_VADDR` onward to page `i` of `arena_phys` onward, with `TABLE_FLAGS`.
pub open spec fn arena_spec(
    mem: Map<u64, Seq<u64>>,
    lists: Seq<Seq<u64>>,
    pml4: u64,
    arena_phys: u64,
    n: nat,
) -> (Map<u64, Seq<u64>>, Seq<Seq<u64>>)
    decreases n,
{
    if n == 0 {
        (mem, lists)
    } else {
        let (m, l) = arena_spec(mem, lists, pml4, arena_phys, (n - 1) as nat);
        let r = map_spec(
            m,
            l,
            pml4,
            (ARENA_VADDR + (n - 1) * 0x1000) as u64,
            (arena_phys + (n - 1) * 0x1000) as u64,
            TABLE_FLAGS,
        );
        (r.1, r.2)
    }
}

/// A step down the walk keeps every table there was, leaves the free lists
/// aligned, and never adds free bytes.
pub proof fn lemma_descend_grows(mem: Map<u64, Seq<u64>>, lists: Seq<Seq<u64>>, t: u64, i: int)
    requires
        lists_aligned(lists),
    ensures
        forall|f: u64| mem.dom().contains(f) ==> #[trigger] descend(mem, lists, t, i).1.dom().contains(f),
        lists_aligned(descend(mem, lists, t, i).2),
        free_bytes(descend(mem, lists, t, i).2) <= free_bytes(lists),
{
    lemma_alloc_spec(lists, 0);
}

/// Mapping a page keeps every table there was, leaves the free lists aligned,
/// and never adds free bytes.
pub proof fn lemma_map_grows(
    mem: Map<u64, Seq<u64>>,
    lists: Seq<Seq<u64>>,
    pml4: u64,
    virt: u64,
    phys: u64,
    flags: u64,
)
    requires
        lists_aligned(lists),
    ensures
        forall|f: u64| mem.dom().contains(f) ==> #[trigger] map_spec(mem, lists, pml4, virt, phys, flags).1.dom().contains(f),
        lists_aligned(map_spec(mem, lists, pml4, virt, phys, flags).2),
        free_bytes(map_spec(mem, lists, pml4, virt, phys, flags).2) <= free_bytes(lists),
{
    if mem.dom().contains(pml4) {
        let (p, m1, l1) = descend(mem, lists, pml4, table_index(virt, 39));
        lemma_descend_grows(mem, lists, pml4, table_index(virt, 39));
        if p is Some {
            let (d, m2, l2) = descend(m1, l1, p->0, table_index(virt, 30));
            lemma_descend_grows(m1, l1, p->0, table_index(virt, 30));
            if d is Some {
                lemma_descend_grows(m2, l2, d->0, table_index(virt, 21));
            }
        }
    }
}

/// The frames on the walk of `virt` from `pml4` that already exist are distinct
/// tables.
pub open spec fn path_distinct(mem: Map<u64, Seq<u64>>, pml4: u64, virt: u64) -> bool {
    match next_table(mem, pml4, table_index(virt, 39)) {
        None => true,
        Some(p) => p != pml4 && match next_table(mem, p, table_index(virt, 30)) {
            None => true,
            Some(d) => d != pml4 && d != p && match next_table(mem, d, table_index(virt, 21)) {
                None => true,
                Some(t) => t != pml4 && t != p && t != d,
            },
        },
    }
}

/// The next three pages the allocator hands out, one after another, are distinct
/// and none of them is already a table.
pub open spec fn fresh_allocations(mem: Map<u64, Seq<u64>>, lists: Seq<Seq<u64>>) -> bool {
    let (b1, l1) = alloc_spec(lists, 0);
    let (b2, l2) = alloc_spec(l1, 0);
    let (b3, l3) = alloc_spec(l2, 0);
    &&& !mem.dom().contains(b1)
    &&& !mem.dom().contains(b2)
    &&& !mem.dom().contains(b3)
    &&& b1 != b2
    &&& b1 != b3
    &&& b2 != b3
}

proof fn lemma_indices(virt: u64)
    ensures
        0 <= table_index(virt, 39) < 512,
        0 <= table_index(virt, 30) < 512,
        0 <= table_index(virt, 21) < 512,
        0 <= table_index(virt, 12) < 512,
{
    assert((virt >> 39u64) & 0x1FFu64 < 512 && (virt >> 30u64) & 0x1FFu64 < 512 && (virt >> 21u64) & 0x1FFu64 < 512
        && (virt >> 12u64) & 0x1FFu64 < 512) by (bit_vector);
}

/// Clearing a page leaves it unmapped: after `unmap_page(pml4, virt)` the walk of
/// `virt` finds no present last-level entry.
pub proof fn law_unmap_clears(mem: Map<u64, Seq<u64>>, pml4: u64, virt: u64)
    requires
        tables_wf(mem),
    ensures
        !mapped(unmap_spec(mem, pml4, virt), pml4, virt),
{
    let i4 = table_index(virt, 39);
    let i3 = table_index(virt, 30);
    let i2 = table_index(virt, 21);
    let i1 = table_index(virt, 12);
    lemma_indices(virt);
    match leaf_table(mem, pml4, virt) {
        None => {},
        Some(t) => {
            let m2 = unmap_spec(mem, pml4, virt);
            assert(m2 == mem.insert(t, mem[t].update(i1, 0)));
            lemma_entry_bits(0, 0);
            if pml4 == t && i4 == i1 {
            } else {
                assert(m2[pml4][i4] == mem[pml4][i4]);
                let p = next_table(mem, pml4, i4)->0;
                if p == t && i3 == i1 {
                } else {
                    assert(m2[p][i3] == mem[p][i3]);
                    let d = next_table(mem, p, i3)->0;
                    if d == t && i2 == i1 {
                    } else {
                        assert(m2[d][i2] == mem[d][i2]);
                        assert(leaf_table(m2, pml4, virt) == Some(t));
                    }
                }
            }
        },
    }
}

/// What a mapping writes is what the walk then finds: after `map_page(pml4, virt,
/// phys, flags)` succeeds, the last-level entry of `virt` is `phys | flags`,
/// provided the tables already on the way are distinct and the pages the
/// allocator hands out for new tables are not tables already.
pub proof fn law_map_then_lookup(
    mem: Map<u64, Seq<u64>>,
    lists: Seq<Seq<u64>>,
    pml4: u64,
    virt: u64,
    phys: u64,
    flags: u64,
)
    requires
        tables_wf(mem),
        lists_aligned(lists),
        map_spec(mem, lists, pml4, virt, phys, flags).0,
        path_distinct(mem, pml4, virt),
        fresh_allocations(mem, lists),
    ensures
        lookup(map_spec(mem, lists, pml4, virt, phys, flags).1, pml4, virt) == Some(phys | flags),
{
    let i4 = table_index(virt, 39);
    let i3 = table_index(virt, 30);
    let i2 = table_index(virt, 21);
    let i1 = table_index(virt, 12);
    lemma_indices(virt);
    let (b1, l1) = alloc_spec(lists, 0);
    let (b2, l2) = alloc_spec(l1, 0);
    let (b3, l3) = alloc_spec(l2, 0);
    lemma_alloc_spec(lists, 0);
    lemma_alloc_spec(l1, 0);
    lemma_alloc_spec(l2, 0);
    lemma_entry_bits(0, b1);
    lemma_entry_bits(0, b2);
    lemma_entry_bits(0, b3);
    let z = zero_table();
    let (p, m1, k1) = descend(mem, lists, pml4, i4);
    let p = p->0;
    let (d, m2, k2) = descend(m1, k1, p, i3);
    let d = d->0;
    let (t, m3, k3) = descend(m2, k2, d, i2);
    let t = t->0;
    let fin = m3.insert(t, m3[t].update(i1, phys | flags));
    assert(fin == map_spec(mem, lists, pml4, virt, phys, flags).1);
    if present(mem[pml4][i4]) {
        assert(m1 == mem && k1 == lists);
        if present(mem[p][i3]) {
            assert(m2 == mem && k2 == lists);
            if present(mem[d][i2]) {
                assert(m3 == mem);
            } else {
                assert(t == b1);
            }
        } else {
            assert(d == b1);
            assert(t == b2);
        }
    } else {
        assert(p == b1);
        assert(d == b2);
        assert(t == b3);
    }
    assert(fin[pml4][i4] == m1[pml4][i4]);
    assert(lookup(fin, pml4, virt) == Some(phys | flags));
}

/// Whether the walk of `v` from `pml4` reads entry `i` of table `t` on its way to
/// the last level.
pub open spec fn reads_slot(mem: Map<u64, Seq<u64>>, pml4: u64, v: u64, t: u64, i: int) -> bool {
    ||| pml4 == t && table_index(v, 39) == i
    ||| next_table(mem, pml4, table_index(v, 39)) == Some(t) && table_index(v, 30) == i
    ||| (match next_table(mem, pml4, table_index(v, 39)) {
        Some(p) => next_table(mem, p, table_index(v, 30)) == Some(t),
        None => false,
    }) && table_index(v, 21) == i
    ||| leaf_table(mem, pml4, v) == Some(t) && table_index(v, 12) == i
}

/// A step down the walk changes no present entry of a table there was, unless
/// the page it takes for a new table is that table.
proof fn lemma_descend_keeps(m: Map<u64, Seq<u64>>, l: Seq<Seq<u64>>, t: u64, i: int, x: u64, j: int)
    requires
        tables_wf(m),
        0 <= i < 512,
        0 <= j < 512,
        m.dom().contains(x),
        present(m[x][j]),
        alloc_spec(l, 0).0 != x,
    ensures
        descend(m, l, t, i).1.dom().contains(x),
        descend(m, l, t, i).1[x][j] == m[x][j],
{
    if !present(m[t][i]) {
        let b = alloc_spec(l, 0).0;
        let m1 = m.insert(b, zero_table());
        assert(m1[x] == m[x]);
        if t == x {
            assert(j != i);
            assert(m1[t].update(i, b | TABLE_FLAGS)[j] == m1[t][j]);
        }
    }
}

/// Mapping a page leaves every mapped page where it was: after `map_page(pml4,
/// virt, phys, flags)` succeeds, a page `v2` that was mapped keeps its last-level
/// entry, provided the walk of `v2` does not read the entry the mapping writes
/// in a last-level table that was already there, and the pages the allocator
/// hands out for new tables are not tables already.
pub proof fn law_map_keeps_others(
    mem: Map<u64, Seq<u64>>,
    lists: Seq<Seq<u64>>,
    pml4: u64,
    virt: u64,
    phys: u64,
    flags: u64,
    v2: u64,
)
    requires
        tables_wf(mem),
        lists_aligned(lists),
        map_spec(mem, lists, pml4, virt, phys, flags).0,
        fresh_allocations(mem, lists),
        mapped(mem, pml4, v2),
        leaf_table(mem, pml4, virt) matches Some(t) ==> !reads_slot(mem, pml4, v2, t, table_index(virt, 12)),
    ensures
        lookup(map_spec(mem, lists, pml4, virt, phys, flags).1, pml4, v2) == lookup(mem, pml4, v2),
{
    let i4 = table_index(virt, 39);
    let i3 = table_index(virt, 30);
    let i2 = table_index(virt, 21);
    let i1 = table_index(virt, 12);
    let j4 = table_index(v2, 39);
    let j3 = table_index(v2, 30);
    let j2 = table_index(v2, 21);
    let j1 = table_index(v2, 12);
    lemma_indices(virt);
    lemma_indices(v2);
    let (b1, l1) = alloc_spec(lists, 0);
    let (b2, l2) = alloc_spec(l1, 0);
    let (b3, l3) = alloc_spec(l2, 0);
    lemma_alloc_spec(lists, 0);
    lemma_alloc_spec(l1, 0);
    lemma_alloc_spec(l2, 0);
    lemma_entry_bits(0, b1);
    lemma_entry_bits(0, b2);
    lemma_entry_bits(0, b3);
    let q3 = next_table(mem, pml4, j4)->0;
    let q2 = next_table(mem, q3, j3)->0;
    let q1 = next_table(mem, q2, j2)->0;
    let (p, m1, k1) = descend(mem, lists, pml4, i4);
    let p = p->0;
    let (d, m2, k2) = descend(m1, k1, p, i3);
    let d = d->0;
    let (t, m3, k3) = descend(m2, k2, d, i2);
    let t = t->0;
    let fin = m3.insert(t, m3[t].update(i1, phys | flags));
    assert(fin == map_spec(mem, lists, pml4, virt, phys, flags).1);
    // Which page each step would take from the allocator.
    assert(alloc_spec(k1, 0).0 == b1 || alloc_spec(k1, 0).0 == b2);
    assert(alloc_spec(k2, 0).0 == b1 || alloc_spec(k2, 0).0 == b2 || alloc_spec(k2, 0).0 == b3);
    // The present entries the walk of `v2` reads stay through the three steps.
    lemma_descend_keeps(mem, lists, pml4, i4, pml4, j4);
    lemma_descend_keeps(mem, lists, pml4, i4, q3, j3);
    lemma_descend_keeps(mem, lists, pml4, i4, q2, j2);
    lemma_descend_keeps(mem, lists, pml4, i4, q1, j1);
    lemma_descend_keeps(m1, k1, p, i3, pml4, j4);
    lemma_descend_keeps(m1, k1, p, i3, q3, j3);
    lemma_descend_keeps(m1, k1, p, i3, q2, j2);
    lemma_descend_keeps(m1, k1, p, i3, q1, j1);
    lemma_descend_keeps(m2, k2, d, i2, pml4, j4);
    lemma_descend_keeps(m2, k2, d, i2, q3, j3);
    lemma_descend_keeps(m2, k2, d, i2, q2, j2);
    lemma_descend_keeps(m2, k2, d, i2, q1, j1);
    // The last write is to a new table, or to the last-level table `virt` already had.
    if !(t == b1 || t == b2 || t == b3) {
        assert(present(mem[pml4][i4]) && present(mem[p][i3]) && present(mem[d][i2]));
        assert(leaf_table(mem, pml4, virt) == Some(t));
    }
    assert(fin[pml4][j4] == mem[pml4][j4]);
    assert(fin[q3][j3] == mem[q3][j3]);
    assert(fin[q2][j2] == mem[q2][j2]);
    assert(fin[q1][j1] == mem[q1][j1]);
}

/// The index of the level at `shift` in `virt`.
fn index_at(virt: u64, shift: u64) -> (r: usize)
    requires
        shift < 64,
    ensures
        r == table_index(virt, shift),
        r < 512,
{
    let x = (virt >> shift) & 0x1FF;
    assert(x < 512) by (bit_vector)
        requires
            x == (virt >> shift) & 0x1FF,
    ;
    x as usize
}

spec fn slot(k: int, j: int) -> int {
    512 * k + j
}

proof fn lemma_slot(k: int, j: int, n: int)
    requires
        0 <= k < n,
        0 <= j < 512,
    ensures
        0 <= 512 * k + j < 512 * n,
        512 * k <= 512 * k + j,
{
    assert(512 * k + j < 512 * n) by (nonlinear_arith)
        requires
            k < n,
            j < 512,
    ;
    assert(0 <= 512 * k) by (nonlinear_arith)
        requires
            0 <= k,
    ;
}

proof fn lemma_slots_apart(k: int, j: int, k2: int, j2: int)
    requires
        0 <= j < 512,
        0 <= j2 < 512,
        k != k2,
    ensures
        512 * k + j != 512 * k2 + j2,
{
    assert(512 * k + j != 512 * k2 + j2) by (nonlinear_arith)
        requires
            0 <= j < 512,
            0 <= j2 < 512,
            k != k2,
    ;
}

/// The page tables of the machine: the frames known to hold a table, each with
/// its 512 entries.
pub struct PageTables {
    frames: Vec<u64>,
    entries: Vec<u64>,
    mem: Ghost<Map<u64, Seq<u64>>>,
}

impl View for PageTables {
    type V = Map<u64, Seq<u64>>;

    closed spec fn view(&self) -> Map<u64, Seq<u64>> {
        self.mem@
    }
}

impl PageTables {
    /// The structure's invariant: the entries of frame `k` stand at
    /// `512 * k .. 512 * k + 512`, no frame is held twice, and the frames are
    /// exactly the tables of the view.
    pub closed spec fn wf(&self) -> bool {
        &&& self.entries@.len() == 512 * self.frames@.len()
        &&& forall|a: int, b: int| 0 <= a < b < self.frames@.len() ==> self.frames@[a] != self.frames@[b]
        &&& forall|f: u64| #[trigger] self.mem@.dom().contains(f) <==> self.frames@.contains(f)
        &&& forall|k: int| 0 <= k < self.frames@.len() ==> (#[trigger] self.mem@[self.frames@[k]]).len() == 512
        &&& forall|k: int, j: int|
            0 <= k < self.frames@.len() && 0 <= j < 512 ==> #[trigger] self.mem@[self.frames@[k]][j]
                == self.entries@[512 * k + j]
    }

    /// Every table of a well-formed structure has 512 entries.
    pub proof fn lemma_tables(&self)
        requires
            self.wf(),
        ensures
            tables_wf(self@),
    {
        assert forall|f: u64| self@.dom().contains(f) implies (#[trigger] self@[f]).len() == 512 by {
            let k = choose|k: int| 0 <= k < self.frames@.len() && self.frames@[k] == f;
            assert(self.mem@[self.frames@[k]].len() == 512);
        }
    }

    /// No tables.
    pub fn new() -> (r: Self)
        ensures
            r.wf(),
            r@ == Map::<u64, Seq<u64>>::empty(),
    {
        PageTables { frames: Vec::new(), entries: Vec::new(), mem: Ghost(Map::empty()) }
    }

    fn find(&self, f: u64) -> (r: Option<usize>)
        requires
            self.wf(),
        ensures
            match r {
                Some(k) => k < self.frames@.len() && self.frames@[k as int] == f && self@.dom().contains(f),
                None => !self@.dom().contains(f),
            },
    {
        let mut k: usize = 0;
        while k < self.frames.len()
            invariant
                self.wf(),
                k <= self.frames@.len(),
                forall|m: int| 0 <= m < k ==> self.frames@[m] != f,
            decreases self.frames@.len() - k,
        {
            if self.frames[k] == f {
                assert(self.frames@.contains(f));
                assert(self@.dom().contains(f));
                return Some(k);
            }
            k = k + 1;
        }
        None
    }

    /// Whether `f` is one of the tables.
    pub fn holds(&self, f: u64) -> (r: bool)
        requires
            self.wf(),
        ensures
            r == self@.dom().contains(f),
    {
        self.find(f).is_some()
    }

    /// Entry `i` of table `f`, if `f` is one of the tables.
    pub fn entry(&self, f: u64, i: usize) -> (r: Option<u64>)
        requires
            self.wf(),
            i < TABLE_ENTRIES,
        ensures
            r == (if self@.dom().contains(f) { Some(self@[f][i as int]) } else { None }),
    {
        match self.find(f) {
            Some(k) => {
                proof {
                    lemma_slot(k as int, i as int, self.frames@.len() as int);
                    assert(self.entries.len() == self.entries@.len());
                }
                Some(self.entries[512 * k + i])
            },
            None => None,
        }
    }

    fn read(&self, k: usize, i: usize) -> (e: u64)
        requires
            self.wf(),
            k < self.frames@.len(),
            i < 512,
        ensures
            e == self@[self.frames@[k as int]][i as int],
    {
        proof {
            lemma_slot(k as int, i as int, self.frames@.len() as int);
            assert(self.entries.len() == self.entries@.len());
        }
        self.entries[512 * k + i]
    }

    fn write(&mut self, k: usize, i: usize, v: u64)
        requires
            old(self).wf(),
            k < old(self).frames@.len(),
            i < 512,
        ensures
            final(self).wf(),
            final(self).frames@ == old(self).frames@,
            final(self)@ == old(self)@.insert(
                old(self).frames@[k as int],
                old(self)@[old(self).frames@[k as int]].update(i as int, v),
            ),
    {
        let ghost f = self.frames@[k as int];
        let ghost n = self.frames@.len() as int;
        proof {
            lemma_slot(k as int, i as int, n);
            assert(self.entries.len() == self.entries@.len());
        }
        self.entries.set(512 * k + i, v);
        self.mem = Ghost(self.mem@.insert(f, self.mem@[f].update(i as int, v)));
        assert forall|k2: int, j: int| 0 <= k2 < n && 0 <= j < 512 implies #[trigger] self.mem@[self.frames@[k2]][j]
            == self.entries@[512 * k2 + j] by {
            lemma_slot(k2, j, n);
            if k2 != k {
                lemma_slots_apart(k as int, i as int, k2, j);
            }
        }
        assert forall|f2: u64| #[trigger] self.mem@.dom().contains(f2) <==> self.frames@.contains(f2) by {
            if f2 == f {
                assert(self.frames@[k as int] == f);
            }
        }
    }

    /// Makes `f` a table of zero entries (a new table, or an old one cleared) and
    /// returns its place.
    fn install(&mut self, f: u64) -> (k: usize)
        requires
            old(self).wf(),
        ensures
            final(self).wf(),
            k < final(self).frames@.len(),
            final(self).frames@[k as int] == f,
            final(self).frames@.len() >= old(self).frames@.len(),
            forall|m: int| 0 <= m < old(self).frames@.len() ==> final(self).frames@[m] == old(self).frames@[m],
            final(self)@ == old(self)@.insert(f, zero_table()),
    {
        let ghost old_mem = self.mem@;
        let ghost old_frames = self.frames@;
        let k: usize;
        match self.find(f) {
            Some(k0) => {
                k = k0;
                assert forall|m: int, i: int|
                    0 <= m < self.frames@.len() && m != k && 0 <= i < 512 implies old_mem[self.frames@[m]][i]
                        == self.entries@[512 * m + i] by {
                    assert(self.mem@[self.frames@[m]][i] == self.entries@[512 * m + i]);
                }
                assert forall|m: int| 0 <= m < self.frames@.len() && m != k implies old_mem.dom().contains(
                    self.frames@[m],
                ) && (#[trigger] old_mem[self.frames@[m]]).len() == 512 by {
                    assert(self.frames@.contains(self.frames@[m]));
                }
            },
            None => {
                let ghost n = self.frames@.len() as int;
                let ghost ents = self.entries@;
                let mut j: usize = 0;
                while j < 512
                    invariant
                        j <= 512,
                        self.frames@ == old_frames,
                        n == old_frames.len(),
                        ents.len() == 512 * n,
                        self.entries@.len() == 512 * n + j,
                        forall|x: int| 0 <= x < 512 * n ==> self.entries@[x] == ents[x],
                    decreases 512 - j,
                {
                    self.entries.push(0);
                    j = j + 1;
                }
                let len = self.frames.len();
                self.frames.push(f);
                k = len;
                assert forall|m: int, i: int|
                    0 <= m < self.frames@.len() && m != k && 0 <= i < 512 implies old_mem[self.frames@[m]][i]
                        == self.entries@[512 * m + i] by {
                    lemma_slot(m, i, n);
                    assert(self.frames@[m] == old_frames[m]);
                    assert(old_mem[old_frames[m]][i] == ents[512 * m + i]);
                }
                assert forall|m: int| 0 <= m < self.frames@.len() && m != k implies old_mem.dom().contains(
                    self.frames@[m],
                ) && (#[trigger] old_mem[self.frames@[m]]).len() == 512 by {
                    assert(self.frames@[m] == old_frames[m]);
                    assert(old_frames.contains(old_frames[m]));
                }
                assert forall|a: int, b: int| 0 <= a < b < self.frames@.len() implies self.frames@[a] != self.frames@[b] by {
                    if b == n {
                        assert(old_frames.contains(old_frames[a]));
                    }
                }
                assert forall|g: u64| #[trigger] self.frames@.contains(g) <==> (old_mem.dom().contains(g) || g == f) by {
                    if self.frames@.contains(g) {
                        let x = choose|x: int| 0 <= x < self.frames@.len() && self.frames@[x] == g;
                        if x < n {
                            assert(old_frames.contains(g));
                        }
                    }
                    if old_mem.dom().contains(g) {
                        let x = choose|x: int| 0 <= x < old_frames.len() && old_frames[x] == g;
                        assert(self.frames@[x] == g);
                    }
                    if g == f {
                        assert(self.frames@[n] == f);
                    }
                }
            },
        }
        let ghost n = self.frames@.len() as int;
        let ghost ents = self.entries@;
        let ghost frs = self.frames@;
        proof {
            lemma_slot(k as int, 0, n);
        }
        let mut j: usize = 0;
        while j < 512
            invariant
                j <= 512,
                k < n,
                self.frames@ == frs,
                frs.len() == n,
                frs[k as int] == f,
                self.entries@.len() == 512 * n,
                ents.len() == 512 * n,
                forall|i: int| 0 <= i < j ==> self.entries@[#[trigger] slot(k as int, i)] == 0,
                forall|m: int, i: int|
                    0 <= m < n && m != k && 0 <= i < 512 ==> self.entries@[#[trigger] slot(m, i)] == ents[slot(m, i)],
            decreases 512 - j,
        {
            proof {
                lemma_slot(k as int, j as int, n);
                assert(self.entries.len() == self.entries@.len());
                assert forall|m: int, i: int| 0 <= m < n && m != k && 0 <= i < 512 implies #[trigger] slot(m, i) != slot(k as int, j as int) by {
                    lemma_slots_apart(m, i, k as int, j as int);
                }
            }
            self.entries.set(512 * k + j, 0);
            j = j + 1;
        }
        self.mem = Ghost(old_mem.insert(f, zero_table()));
        assert forall|m: int, i: int| 0 <= m < n && 0 <= i < 512 implies #[trigger] self.mem@[self.frames@[m]][i]
            == self.entries@[512 * m + i] by {
            if m != k {
                assert(self.frames@[m] != f);
                assert(self.entries@[slot(m, i)] == ents[slot(m, i)]);
            } else {
                assert(self.entries@[slot(k as int, i)] == 0);
            }
        }
        assert forall|m: int| 0 <= m < n implies (#[trigger] self.mem@[self.frames@[m]]).len() == 512 by {
            if m != k {
                assert(self.frames@[m] != f);
            }
        }
        assert forall|g: u64| #[trigger] self.mem@.dom().contains(g) <==> self.frames@.contains(g) by {
            assert(self.frames@.contains(g) <==> (old_mem.dom().contains(g) || g == f));
        }
        k
    }

    /// Follows entry `i` of the table at place `kt` one level down, making the next
    /// table when the entry is not present (see `descend`); returns the place of the
    /// next table, or `None` when the entry leads out of the tables.
    fn get_or_create(&mut self, pmm: &mut BuddyAllocator, kt: usize, i: usize) -> (r: Option<usize>)
        requires
            old(self).wf(),
            old(pmm).wf(),
            kt < old(self).frames@.len(),
            i < 512,
        ensures
            final(self).wf(),
            final(pmm).wf(),
            final(self).frames@.len() >= old(self).frames@.len(),
            forall|m: int| 0 <= m < old(self).frames@.len() ==> final(self).frames@[m] == old(self).frames@[m],
            ({
                let (next, m, l) = descend(old(self)@, old(pmm)@, old(self).frames@[kt as int], i as int);
                &&& final(self)@ == m
                &&& final(pmm)@ == l
                &&& match r {
                    Some(k) => k < final(self).frames@.len() && next == Some(final(self).frames@[k as int]),
                    None => next is None,
                }
            }),
            final(pmm).spec_free_memory() == old(pmm).spec_free_memory() + free_bytes(final(pmm)@) - free_bytes(
                old(pmm)@,
            ),
            final(pmm).spec_total_memory() == old(pmm).spec_total_memory(),
    {
        let e = self.read(kt, i);
        if e & 1 == 0 {
            let b = pmm.alloc_pages(0);
            let kb = self.install(b);
            self.write(kt, i, b | TABLE_FLAGS);
            Some(kb)
        } else {
            self.find(e & ADDRESS_MASK)
        }
    }

    /// Maps the page at `virt` to `phys` with `flags` in the address space of
    /// `pml4`, making the missing tables on the way from pages of `pmm`. Returns
    /// false, having changed nothing, when `pml4` or a table on the way is not one of
    /// these tables.
    pub fn map_page(&mut self, pmm: &mut BuddyAllocator, pml4: u64, virt: u64, phys: u64, flags: u64) -> (ok: bool)
        requires
            old(self).wf(),
            old(pmm).wf(),
        ensures
            final(self).wf(),
            final(pmm).wf(),
            (ok, final(self)@, final(pmm)@) == map_spec(old(self)@, old(pmm)@, pml4, virt, phys, flags),
            final(pmm).spec_free_memory() == old(pmm).spec_free_memory() + free_bytes(final(pmm)@) - free_bytes(
                old(pmm)@,
            ),
            final(pmm).spec_total_memory() == old(pmm).spec_total_memory(),
    {
        let i4 = index_at(virt, 39);
        let i3 = index_at(virt, 30);
        let i2 = index_at(virt, 21);
        let i1 = index_at(virt, 12);
        let k4 = match self.find(pml4) {
            Some(k) => k,
            None => return false,
        };
        let k3 = match self.get_or_create(pmm, k4, i4) {
            Some(k) => k,
            None => return false,
        };
        let k2 = match self.get_or_create(pmm, k3, i3) {
            Some(k) => k,
            None => return false,
        };
        let k1 = match self.get_or_create(pmm, k2, i2) {
            Some(k) => k,
            None => return false,
        };
        self.write(k1, i1, phys | flags);
        true
    }

    fn step_down(&self, k: usize, i: usize) -> (r: Option<usize>)
        requires
            self.wf(),
            k < self.frames@.len(),
            i < 512,
        ensures
            match r {
                Some(k2) => k2 < self.frames@.len() && next_table(self@, self.frames@[k as int], i as int) == Some(
                    self.frames@[k2 as int],
                ),
                None => next_table(self@, self.frames@[k as int], i as int) is None,
            },
    {
        let e = self.read(k, i);
        if e & 1 == 0 {
            None
        } else {
            self.find(e & ADDRESS_MASK)
        }
    }

    /// Clears the last-level entry of `virt` in the address space of `pml4`, when
    /// the walk reaches one through present entries.
    pub fn unmap_page(&mut self, pml4: u64, virt: u64)
        requires
            old(self).wf(),
        ensures
            final(self).wf(),
            final(self)@ == unmap_spec(old(self)@, pml4, virt),
    {
        let i4 = index_at(virt, 39);
        let i3 = index_at(virt, 30);
        let i2 = index_at(virt, 21);
        let i1 = index_at(virt, 12);
        let k4 = match self.find(pml4) {
            Some(k) => k,
            None => return,
        };
        let k3 = match self.step_down(k4, i4) {
            Some(k) => k,
            None => return,
        };
        let k2 = match self.step_down(k3, i3) {
            Some(k) => k,
            None => return,
        };
        let k1 = match self.step_down(k2, i2) {
            Some(k) => k,
            None => return,
        };
        self.write(k1, i1, 0);
    }

    /// A new address space: a zeroed top-level table from `pmm` whose first entry is
    /// `boot_entry`, the first entry of the kernel's own top-level table. Returns the
    /// new table's address (0 when the allocator had no page).
    pub fn create_address_space(&mut self, pmm: &mut BuddyAllocator, boot_entry: u64) -> (r: u64)
        requires
            old(self).wf(),
            old(pmm).wf(),
        ensures
            final(self).wf(),
            final(pmm).wf(),
            (r, final(pmm)@) == alloc_spec(old(pmm)@, 0),
            final(self)@ == old(self)@.insert(r, zero_table().update(0, boot_entry)),
            final(pmm).spec_free_memory() == old(pmm).spec_free_memory() + free_bytes(final(pmm)@) - free_bytes(
                old(pmm)@,
            ),
            final(pmm).spec_total_memory() == old(pmm).spec_total_memory(),
    {
        let b = pmm.alloc_pages(0);
        let k = self.install(b);
        self.write(k, 0, boot_entry);
        b
    }

    /// Gives back to `pmm` every page below the table `t` of level `depth` and `t`
    /// itself, in the order `table_frees` lists them; the allocator's free counter
    /// must have room for them all.
    fn free_subtree(&self, pmm: &mut BuddyAllocator, t: u64, depth: u8)
        requires
            self.wf(),
            old(pmm).wf(),
            1 <= depth <= 4,
            self@.dom().contains(t),
            aligned(t, 0),
            old(pmm).spec_free_memory() + 4194304 * table_frees(self@, t, depth as nat).len() <= u64::MAX,
        ensures
            final(pmm).wf(),
            final(pmm)@ == release_all(old(pmm)@, table_frees(self@, t, depth as nat)).0,
            final(pmm).spec_free_memory() == old(pmm).spec_free_memory() + release_all(
                old(pmm)@,
                table_frees(self@, t, depth as nat),
            ).1,
            release_all(old(pmm)@, table_frees(self@, t, depth as nat)).1 <= 4194304 * table_frees(
                self@,
                t,
                depth as nat,
            ).len(),
            final(pmm).spec_total_memory() == old(pmm).spec_total_memory(),
        decreases depth,
    {
        let kt = match self.find(t) {
            Some(k) => k,
            None => {
                return;
            },
        };
        let ghost mem = self@;
        let ghost lists0 = pmm@;
        let ghost free0 = pmm.spec_free_memory() as int;
        let ghost d = depth as nat;
        let mut i: usize = 0;
        proof {
            lemma_entries_frees_grow(mem, t, d, 0, 512);
        }
        while i < 512
            invariant
                self.wf(),
                self@ == mem,
                pmm.wf(),
                i <= 512,
                kt < self.frames@.len(),
                self.frames@[kt as int] == t,
                1 <= depth <= 4,
                d == depth as nat,
                pmm@ == release_all(lists0, entries_frees(mem, t, d, i as nat)).0,
                pmm.spec_free_memory() == free0 + release_all(lists0, entries_frees(mem, t, d, i as nat)).1,
                release_all(lists0, entries_frees(mem, t, d, i as nat)).1 <= 4194304 * entries_frees(mem, t, d, i as nat).len(),
                entries_frees(mem, t, d, i as nat).len() <= entries_frees(mem, t, d, 512).len(),
                free0 + 4194304 * (entries_frees(mem, t, d, 512).len() + 1) <= u64::MAX,
                pmm.spec_total_memory() == old(pmm).spec_total_memory(),
            decreases 512 - i,
        {
            let ghost before = entries_frees(mem, t, d, i as nat);
            proof {
                lemma_entries_frees_grow(mem, t, d, (i + 1) as nat, 512);
            }
            let e = self.read(kt, i);
            if !(depth == 4 && i == 0) && e & 1 != 0 {
                let f = e & ADDRESS_MASK;
                proof {
                    lemma_entry_bits(e, 0);
                    pmm.lemma_lists_aligned();
                }
                if depth == 1 {
                    proof {
                        lemma_free_spec(pmm@, 0, f);
                        lemma_bsz(free_spec(pmm@, 0, f).1 as u64);
                        assert(entries_frees(mem, t, d, (i + 1) as nat) == before.push(f));
                    }
                    pmm.free_pages(0, f);
                    proof {
                        assert(before.push(f).drop_last() =~= before);
                    }
                } else if self.holds(f) {
                    let ghost sub = table_frees(mem, f, (d - 1) as nat);
                    assert(entries_frees(mem, t, d, (i + 1) as nat) == before + sub);
                    self.free_subtree(pmm, f, depth - 1);
                    proof {
                        lemma_release_concat(lists0, before, sub);
                    }
                }
            }
            i = i + 1;
        }
        proof {
            pmm.lemma_lists_aligned();
            lemma_entry_bits(0, 0);
            lemma_free_spec(pmm@, 0, t);
            lemma_bsz(free_spec(pmm@, 0, t).1 as u64);
        }
        pmm.free_pages(0, t);
        proof {
            let all = entries_frees(mem, t, d, 512);
            assert(all.push(t).drop_last() =~= all);
        }
    }

    /// Maps the IPC arena into the address space of `pml4`: its `ARENA_PAGES` pages
    /// from `ARENA_VADDR` on, to the physical pages from `arena_phys` on.
    pub fn map_arena(&mut self, pmm: &mut BuddyAllocator, pml4: u64, arena_phys: u64)
        requires
            old(self).wf(),
            old(pmm).wf(),
            arena_phys + ARENA_PAGES * 0x1000 <= u64::MAX,
        ensures
            final(self).wf(),
            final(pmm).wf(),
            (final(self)@, final(pmm)@) == arena_spec(old(self)@, old(pmm)@, pml4, arena_phys, ARENA_PAGES as nat),
            final(pmm).spec_free_memory() == old(pmm).spec_free_memory() + free_bytes(final(pmm)@) - free_bytes(
                old(pmm)@,
            ),
            final(pmm).spec_total_memory() == old(pmm).spec_total_memory(),
    {
        let mut i: u64 = 0;
        while i < ARENA_PAGES
            invariant
                i <= ARENA_PAGES,
                self.wf(),
                pmm.wf(),
                arena_phys + ARENA_PAGES * 0x1000 <= u64::MAX,
                (self@, pmm@) == arena_spec(old(self)@, old(pmm)@, pml4, arena_phys, i as nat),
                pmm.spec_free_memory() == old(pmm).spec_free_memory() + free_bytes(pmm@) - free_bytes(old(pmm)@),
                pmm.spec_total_memory() == old(pmm).spec_total_memory(),
            decreases ARENA_PAGES - i,
        {
            self.map_page(pmm, pml4, ARENA_VADDR + i * 0x1000, arena_phys + i * 0x1000, TABLE_FLAGS);
            i = i + 1;
        }
    }

    /// Takes the table at `f` with the given entries into the structure, as a
    /// table already in memory (the kernel's own tables, for one).
    pub fn adopt(&mut self, f: u64, table: &[u64])
        requires
            old(self).wf(),
            table@.len() == 512,
        ensures
            final(self).wf(),
            final(self)@ == old(self)@.insert(f, table@),
    {
        let k = self.install(f);
        let ghost base = self@;
        proof {
            assert(table@.subrange(0, 0) + zero_table().subrange(0, 512) =~= zero_table());
            assert(base.insert(f, zero_table()) =~= base);
        }
        let mut j: usize = 0;
        while j < 512
            invariant
                j <= 512,
                self.wf(),
                k < self.frames@.len(),
                self.frames@[k as int] == f,
                table@.len() == 512,
                base.dom().contains(f),
                self@ == base.insert(f, table@.subrange(0, j as int) + zero_table().subrange(j as int, 512)),
            decreases 512 - j,
        {
            self.write(k, j, table[j]);
            proof {
                assert(table@.subrange(0, j + 1) + zero_table().subrange(j + 1, 512) =~= (table@.subrange(0, j as int)
                    + zero_table().subrange(j as int, 512)).update(j as int, table@[j as int]));
            }
            j = j + 1;
        }
        proof {
            assert(table@.subrange(0, 512) + zero_table().subrange(512, 512) =~= table@);
            assert(base.insert(f, table@) =~= old(self)@.insert(f, table@));
        }
    }

    /// Gives back to `pmm` every page below the table `t` of level `depth` and `t`
    /// itself, in the order `table_frees` lists them. The allocator's free counter
    /// must be at most `FREE_TABLE_LIMIT`, which leaves room for the largest tree.
    pub fn free_table(&self, pmm: &mut BuddyAllocator, t: u64, depth: u8)
        requires
            self.wf(),
            old(pmm).wf(),
            1 <= depth <= 4,
            self@.dom().contains(t),
            aligned(t, 0),
            old(pmm).spec_free_memory() <= FREE_TABLE_LIMIT,
        ensures
            final(pmm).wf(),
            final(pmm)@ == release_all(old(pmm)@, table_frees(self@, t, depth as nat)).0,
            final(pmm).spec_free_memory() == old(pmm).spec_free_memory() + release_all(
                old(pmm)@,
                table_frees(self@, t, depth as nat),
            ).1,
            final(pmm).spec_total_memory() == old(pmm).spec_total_memory(),
    {
        proof {
            lemma_table_frees_bound(self@, t, depth as nat);
            lemma_frees_bound_grows(depth as nat, 4);
            assert(frees_bound(1) == 513);
            assert(frees_bound(2) == 262657);
            assert(frees_bound(3) == 134480385);
            assert(frees_bound(4) == 68853957121);
        }
        self.free_subtree(pmm, t, depth);
    }
}

} // verus!
