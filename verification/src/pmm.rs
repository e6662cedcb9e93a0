use vstd::prelude::*;
use crate::multiboot::{memory_map, memory_regions};

verus! {

/// Size of one physical page in bytes.
pub const PAGE_SIZE: u64 = 4096;

/// Number of block orders the buddy allocator manages (orders `0..MAX_ORDER`).
pub const MAX_ORDER: usize = 11;

/// Bytes covered by a block of `order`: `PAGE_SIZE << order`.
pub open spec fn bsz(order: u64) -> u64 {
    (4096u64 << order) as u64
}

/// `a` is a multiple of the block size of `order`.
pub open spec fn aligned(a: u64, order: u64) -> bool {
    a & ((bsz(order) - 1) as u64) == 0
}

/// The buddy of the block at `a` with the given order.
pub open spec fn buddy_of(a: u64, order: u64) -> u64 {
    a ^ bsz(order)
}

pub open spec fn min_u64(a: u64, b: u64) -> u64 {
    if a <= b { a } else { b }
}

pub proof fn lemma_bsz(order: u64)
    requires
        order < 11,
    ensures
        4096 <= bsz(order) <= 4194304,
        order < 10 ==> bsz((order + 1) as u64) == 2 * bsz(order),
        bsz(0) == 4096,
{
    assert((4096u64 << 0u64) == 4096) by (bit_vector);
    assert(order < 11 ==> 4096 <= (4096u64 << order) <= 4194304) by (bit_vector);
    assert(order < 10 ==> (4096u64 << ((order + 1) as u64)) == 2 * (4096u64 << order)) by (bit_vector);
}

pub proof fn lemma_aligned_down(a: u64, order: u64)
    requires
        order < 10,
        aligned(a, (order + 1) as u64),
    ensures
        aligned(a, order),
        a + bsz(order) <= u64::MAX,
        aligned((a + bsz(order)) as u64, order),
{
    assert(order < 10 && (a & (((4096u64 << ((order + 1) as u64)) - 1) as u64) == 0)
        ==> (a & (((4096u64 << order) - 1) as u64)) == 0
            && a + (4096u64 << order) <= 0xffff_ffff_ffff_ffffu64
            && (((a + (4096u64 << order)) as u64) & (((4096u64 << order) - 1) as u64)) == 0)
        by (bit_vector);
}

pub proof fn lemma_buddy(a: u64, order: u64)
    requires
        order < 10,
        aligned(a, order),
    ensures
        aligned(buddy_of(a, order), order),
        aligned(min_u64(a, buddy_of(a, order)), (order + 1) as u64),
{
    assert(order < 10 && (a & (((4096u64 << order) - 1) as u64)) == 0
        ==> ((a ^ (4096u64 << order)) & (((4096u64 << order) - 1) as u64)) == 0)
        by (bit_vector);
    assert(order < 10 && (a & (((4096u64 << order) - 1) as u64)) == 0
        ==> ((if a <= (a ^ (4096u64 << order)) { a } else { (a ^ (4096u64 << order)) })
            & (((4096u64 << ((order + 1) as u64)) - 1) as u64)) == 0)
        by (bit_vector);
}

/// The free list of `order` with `addr` put at its head.
pub open spec fn push_head(lists: Seq<Seq<u64>>, order: int, addr: u64) -> Seq<Seq<u64>> {
    lists.update(order, seq![addr].add(lists[order]))
}

/// Bytes held by the free lists of orders `0..n`.
pub open spec fn free_bytes_below(lists: Seq<Seq<u64>>, n: nat) -> int
    decreases n,
{
    if n == 0 {
        0
    } else {
        free_bytes_below(lists, (n - 1) as nat) + lists[n - 1].len() * bsz((n - 1) as u64)
    }
}

/// Bytes held by all free lists.
pub open spec fn free_bytes(lists: Seq<Seq<u64>>) -> int {
    free_bytes_below(lists, MAX_ORDER as nat)
}

/// Every block on the free list of order `k` is aligned to that order.
pub open spec fn lists_aligned(lists: Seq<Seq<u64>>) -> bool {
    &&& lists.len() == MAX_ORDER
    &&& forall|k: int, i: int|
        0 <= k < MAX_ORDER && 0 <= i < lists[k].len() ==> #[trigger] aligned(lists[k][i], k as u64)
}

/// What `alloc_pages(order)` returns (0 for none) and the free lists it leaves:
/// the head of the free list of `order` if there is one; otherwise a block of the
/// next order, split, its upper half put on the free list of `order`.
pub open spec fn alloc_spec(lists: Seq<Seq<u64>>, order: nat) -> (u64, Seq<Seq<u64>>)
    decreases MAX_ORDER - order,
{
    if order >= MAX_ORDER {
        (0, lists)
    } else if lists[order as int].len() > 0 {
        (lists[order as int][0], lists.update(order as int, lists[order as int].drop_first()))
    } else if order + 1 >= MAX_ORDER {
        (0, lists)
    } else {
        let (b, rest) = alloc_spec(lists, order + 1);
        if b == 0 {
            (0, rest)
        } else {
            (b, push_head(rest, order as int, (b + bsz(order as u64)) as u64))
        }
    }
}

/// First position of `x` in `s`, if any.
pub open spec fn first_index(s: Seq<u64>, x: u64) -> Option<int> {
    s.index_of_first(x)
}

/// What `free_pages(order, addr)` leaves in the free lists, and the order of the
/// block it finally puts on a list: while the buddy of the block is free, it is
/// taken off its list and the two merge into a block of the next order.
pub open spec fn free_spec(lists: Seq<Seq<u64>>, order: nat, addr: u64) -> (Seq<Seq<u64>>, nat)
    decreases MAX_ORDER - order,
{
    if order + 1 >= MAX_ORDER {
        (push_head(lists, order as int, addr), order)
    } else {
        let buddy = buddy_of(addr, order as u64);
        match first_index(lists[order as int], buddy) {
            Some(i) => free_spec(
                lists.update(order as int, lists[order as int].remove(i)),
                order + 1,
                min_u64(addr, buddy),
            ),
            None => (push_head(lists, order as int, addr), order),
        }
    }
}

pub proof fn lemma_free_bytes_update(lists: Seq<Seq<u64>>, k: int, s: Seq<u64>, n: nat)
    requires
        0 <= k < lists.len(),
        n <= lists.len(),
        n <= MAX_ORDER,
    ensures
        free_bytes_below(lists.update(k, s), n) == free_bytes_below(lists, n) + (if k < n {
            (s.len() - lists[k].len()) * bsz(k as u64)
        } else {
            0
        }),
    decreases n,
{
    if n > 0 {
        lemma_free_bytes_update(lists, k, s, (n - 1) as nat);
        let m = (n - 1) as int;
        if m == k {
            assert(s.len() * bsz(k as u64) == (s.len() - lists[k].len()) * bsz(k as u64)
                + lists[k].len() * bsz(k as u64)) by (nonlinear_arith);
        }
    }
}

pub proof fn lemma_free_bytes_nonneg(lists: Seq<Seq<u64>>, n: nat)
    requires
        n <= lists.len(),
        n <= MAX_ORDER,
    ensures
        free_bytes_below(lists, n) >= 0,
    decreases n,
{
    if n > 0 {
        lemma_free_bytes_nonneg(lists, (n - 1) as nat);
        assert(lists[n - 1].len() * bsz((n - 1) as u64) >= 0) by (nonlinear_arith);
    }
}

pub proof fn lemma_push_head(lists: Seq<Seq<u64>>, k: int, addr: u64)
    requires
        lists_aligned(lists),
        0 <= k < MAX_ORDER,
        aligned(addr, k as u64),
    ensures
        lists_aligned(push_head(lists, k, addr)),
        free_bytes(push_head(lists, k, addr)) == free_bytes(lists) + bsz(k as u64),
{
    let l2 = push_head(lists, k, addr);
    assert forall|j: int, i: int|
        0 <= j < MAX_ORDER && 0 <= i < l2[j].len() implies #[trigger] aligned(l2[j][i], j as u64) by {
        if j == k && i > 0 {
            assert(l2[j][i] == lists[j][i - 1]);
        }
    }
    lemma_free_bytes_update(lists, k, seq![addr].add(lists[k]), MAX_ORDER as nat);
    let d = seq![addr].add(lists[k]).len() - lists[k].len();
    assert(d * bsz(k as u64) == bsz(k as u64)) by (nonlinear_arith) requires d == 1;
}

pub proof fn lemma_alloc_spec(lists: Seq<Seq<u64>>, order: nat)
    requires
        lists_aligned(lists),
        order < MAX_ORDER,
    ensures
        lists_aligned(alloc_spec(lists, order).1),
        aligned(alloc_spec(lists, order).0, order as u64),
        free_bytes(alloc_spec(lists, order).1) <= free_bytes(lists),
        alloc_spec(lists, order).0 != 0 ==> free_bytes(alloc_spec(lists, order).1)
            == free_bytes(lists) - bsz(order as u64),
    decreases MAX_ORDER - order,
{
    lemma_bsz(order as u64);
    let k = order as int;
    if lists[k].len() > 0 {
        let l2 = lists.update(k, lists[k].drop_first());
        assert forall|j: int, i: int|
            0 <= j < MAX_ORDER && 0 <= i < l2[j].len() implies #[trigger] aligned(l2[j][i], j as u64) by {
            if j == k {
                assert(l2[j][i] == lists[j][i + 1]);
            }
        }
        assert(aligned(lists[k][0], k as u64));
        lemma_free_bytes_update(lists, k, lists[k].drop_first(), MAX_ORDER as nat);
        let d = lists[k].drop_first().len() - lists[k].len();
        assert(d == -1);
        assert(d * bsz(k as u64) == -bsz(k as u64)) by (nonlinear_arith) requires d == -1;
    } else if order + 1 >= MAX_ORDER {
        assert(0u64 & ((bsz(order as u64) - 1) as u64) == 0) by (bit_vector);
    } else {
        lemma_alloc_spec(lists, order + 1);
        let (b, rest) = alloc_spec(lists, order + 1);
        lemma_bsz((order + 1) as u64);
        if b == 0 {
            assert(0u64 & ((bsz(order as u64) - 1) as u64) == 0) by (bit_vector);
        } else {
            lemma_aligned_down(b, order as u64);
            lemma_push_head(rest, k, (b + bsz(order as u64)) as u64);
        }
    }
}

pub proof fn lemma_free_spec(lists: Seq<Seq<u64>>, order: nat, addr: u64)
    requires
        lists_aligned(lists),
        order < MAX_ORDER,
        aligned(addr, order as u64),
    ensures
        lists_aligned(free_spec(lists, order, addr).0),
        free_spec(lists, order, addr).1 < MAX_ORDER,
        free_bytes(free_spec(lists, order, addr).0) == free_bytes(lists) + bsz(order as u64),
    decreases MAX_ORDER - order,
{
    lemma_bsz(order as u64);
    let k = order as int;
    if order + 1 >= MAX_ORDER {
        lemma_push_head(lists, k, addr);
    } else {
        let buddy = buddy_of(addr, order as u64);
        lists[k].index_of_first_ensures(buddy);
        match first_index(lists[k], buddy) {
            Some(i) => {
                let l2 = lists.update(k, lists[k].remove(i));
                assert forall|j: int, m: int|
                    0 <= j < MAX_ORDER && 0 <= m < l2[j].len() implies #[trigger] aligned(l2[j][m], j as u64) by {
                    if j == k {
                        if m < i {
                            assert(l2[j][m] == lists[j][m]);
                        } else {
                            assert(l2[j][m] == lists[j][m + 1]);
                        }
                    }
                }
                lemma_free_bytes_update(lists, k, lists[k].remove(i), MAX_ORDER as nat);
                let d = lists[k].remove(i).len() - lists[k].len();
                assert(d == -1);
                assert(d * bsz(k as u64) == -bsz(k as u64)) by (nonlinear_arith) requires d == -1;
                lemma_buddy(addr, order as u64);
                lemma_bsz((order + 1) as u64);
                lemma_free_spec(l2, order + 1, min_u64(addr, buddy));
            },
            None => {
                lemma_push_head(lists, k, addr);
            },
        }
    }
}


/// The buddy allocator of physical memory: one free list per order, each list
/// held with its head first, and the byte counters the kernel keeps beside them.
pub struct BuddyAllocator {
    free_lists: Vec<Vec<u64>>,
    total_memory: u64,
    free_memory: u64,
}

impl View for BuddyAllocator {
    type V = Seq<Seq<u64>>;

    closed spec fn view(&self) -> Seq<Seq<u64>> {
        self.free_lists@.map_values(|l: Vec<u64>| l@)
    }
}

/// `PAGE_SIZE << order`.
pub fn block_bytes(order: usize) -> (r: u64)
    requires
        order < MAX_ORDER,
    ensures
        r == bsz(order as u64),
{
    PAGE_SIZE << (order as u64)
}

impl BuddyAllocator {
    /// The allocator's invariant: eleven free lists, every free block aligned to its
    /// order, and the free-byte counter never below the bytes on the lists.
    pub closed spec fn wf(&self) -> bool {
        &&& lists_aligned(self@)
        &&& self.free_memory >= free_bytes(self@)
    }

    /// The free lists of a well-formed allocator hold aligned blocks.
    pub proof fn lemma_lists_aligned(&self)
        requires
            self.wf(),
        ensures
            lists_aligned(self@),
    {
    }

    pub closed spec fn spec_free_memory(&self) -> u64 {
        self.free_memory
    }

    pub closed spec fn spec_total_memory(&self) -> u64 {
        self.total_memory
    }

    /// An allocator with every free list empty and both counters zero.
    pub fn new() -> (r: Self)
        ensures
            r.wf(),
            r@ == Seq::new(MAX_ORDER as nat, |i: int| Seq::<u64>::empty()),
            r.spec_free_memory() == 0,
            r.spec_total_memory() == 0,
    {
        let mut lists: Vec<Vec<u64>> = Vec::new();
        let mut i: usize = 0;
        while i < MAX_ORDER
            invariant
                i <= MAX_ORDER,
                lists.len() == i,
                forall|j: int| 0 <= j < i ==> (#[trigger] lists@[j])@.len() == 0,
            decreases MAX_ORDER - i,
        {
            lists.push(Vec::new());
            i = i + 1;
        }
        let r = BuddyAllocator { free_lists: lists, total_memory: 0, free_memory: 0 };
        assert(r@ =~~= Seq::new(MAX_ORDER as nat, |i: int| Seq::<u64>::empty()));
        proof {
            let l = r@;
            assert forall|n: nat| n <= MAX_ORDER implies free_bytes_below(l, n) == 0 by {
                lemma_free_bytes_zero(l, n);
            }
        }
        r
    }

    /// Bytes the allocator counts as free.
    pub fn free_memory(&self) -> (r: u64)
        ensures
            r == self.spec_free_memory(),
    {
        self.free_memory
    }

    /// Bytes the allocator was given; kept at its initial value.
    pub fn total_memory(&self) -> (r: u64)
        ensures
            r == self.spec_total_memory(),
    {
        self.total_memory
    }

    /// Number of free blocks of `order`.
    pub fn free_count(&self, order: usize) -> (r: usize)
        requires
            self.wf(),
            order < MAX_ORDER,
        ensures
            r == self@[order as int].len(),
    {
        self.free_lists[order].len()
    }

    /// The free block of `order` at position `i` of its list (0 is the head).
    pub fn free_block(&self, order: usize, i: usize) -> (r: u64)
        requires
            self.wf(),
            order < MAX_ORDER,
            i < self@[order as int].len(),
        ensures
            r == self@[order as int][i as int],
    {
        self.free_lists[order][i]
    }

    /// Puts the block at `addr` at the head of the free list of `order` and counts
    /// its bytes as free.
    pub fn free_page(&mut self, addr: u64, order: usize)
        requires
            old(self).wf(),
            order < MAX_ORDER,
            aligned(addr, order as u64),
            old(self).spec_free_memory() + bsz(order as u64) <= u64::MAX,
        ensures
            final(self).wf(),
            final(self)@ == push_head(old(self)@, order as int, addr),
            final(self).spec_free_memory() == old(self).spec_free_memory() + bsz(order as u64),
            final(self).spec_total_memory() == old(self).spec_total_memory(),
    {
        let ghost old_lists = self@;
        let size = block_bytes(order);
        self.free_lists[order].insert(0, addr);
        self.free_memory = self.free_memory + size;
        proof {
            assert(self@ =~~= push_head(old_lists, order as int, addr));
            lemma_push_head(old_lists, order as int, addr);
        }
    }

    /// Takes a block of `order` off the free lists and returns its address, or 0
    /// when none can be had. An empty list of `order` is refilled by splitting a
    /// block of the next order: the lower half is returned, the upper half freed.
    pub fn alloc_pages(&mut self, order: usize) -> (block: u64)
        requires
            old(self).wf(),
            order < MAX_ORDER,
        ensures
            final(self).wf(),
            (block, final(self)@) == alloc_spec(old(self)@, order as nat),
            aligned(block, order as u64),
            final(self).spec_free_memory() == old(self).spec_free_memory() + free_bytes(final(self)@)
                - free_bytes(old(self)@),
            block != 0 ==> free_bytes(final(self)@) == free_bytes(old(self)@) - bsz(order as u64),
            block != 0 ==> final(self).spec_free_memory() == old(self).spec_free_memory() - bsz(order as u64),
            final(self).spec_total_memory() == old(self).spec_total_memory(),
        decreases MAX_ORDER - order,
    {
        let ghost old_lists = self@;
        proof {
            lemma_alloc_spec(old_lists, order as nat);
            lemma_bsz(order as u64);
        }
        if self.free_lists[order].len() > 0 {
            let b = self.free_lists[order].remove(0);
            let size = block_bytes(order);
            proof {
                assert(self@ =~~= old_lists.update(order as int, old_lists[order as int].drop_first()));
                lemma_free_bytes_update(old_lists, order as int, old_lists[order as int].drop_first(), MAX_ORDER as nat);
                let d = old_lists[order as int].drop_first().len() - old_lists[order as int].len();
                assert(d * bsz(order as u64) == -bsz(order as u64)) by (nonlinear_arith) requires d == -1;
                lemma_free_bytes_nonneg(self@, MAX_ORDER as nat);
            }
            self.free_memory = self.free_memory - size;
            return b;
        }
        if order + 1 >= MAX_ORDER {
            return 0;
        }
        let block = self.alloc_pages(order + 1);
        if block == 0 {
            return 0;
        }
        proof {
            lemma_alloc_spec(old_lists, (order + 1) as nat);
            lemma_bsz((order + 1) as u64);
            lemma_aligned_down(block, order as u64);
            lemma_free_bytes_nonneg(self@, MAX_ORDER as nat);
        }
        let size = block_bytes(order);
        self.free_page(block + size, order);
        block
    }

    /// Hands the region `[base, base + size)` to the allocator: the region is shrunk
    /// to whole pages, and then carved into blocks as `region_spec` says, the blocks
    /// that overlap the kernel image `[kernel_start, kernel_end)` being left out.
    /// Every block added lies in the rounded region at or above 1 MiB, outside the
    /// kernel image, aligned to its order, apart from every other added block.
    pub fn add_region(&mut self, base: u64, size: u64, kernel_start: u64, kernel_end: u64)
        requires
            old(self).wf(),
            base + size + PAGE_SIZE <= u64::MAX,
            old(self).spec_free_memory() + size <= u64::MAX,
        ensures
            final(self).wf(),
            final(self)@ == region_spec(
                old(self)@,
                round_up_page(base),
                round_down_page(size),
                kernel_start,
                kernel_end,
            ),
            final(self).spec_free_memory() == old(self).spec_free_memory() + free_bytes(final(self)@)
                - free_bytes(old(self)@),
            free_bytes(final(self)@) <= free_bytes(old(self)@) + round_down_page(size),
            final(self).spec_total_memory() == old(self).spec_total_memory(),
            carved_from(
                old(self)@,
                final(self)@,
                round_up_page(base),
                round_down_page(size),
                kernel_start,
                kernel_end,
            ),
    {
        proof {
            lemma_page_rounding(base, size);
            law_added_blocks(self@, base, size, kernel_start, kernel_end);
        }
        let aligned_base: u64 = (base + PAGE_SIZE - 1) & !(PAGE_SIZE - 1);
        let aligned_size: u64 = size & !(PAGE_SIZE - 1);
        assert(aligned_base == round_up_page(base));
        assert(aligned_size == round_down_page(size));
        let mut base = aligned_base;
        let mut remaining = aligned_size;
        let ghost goal = region_spec(self@, aligned_base, aligned_size, kernel_start, kernel_end);
        let ghost gap = self.free_memory - free_bytes(self@);
        let ghost fb0 = free_bytes(self@);
        while remaining > 0
            invariant
                self.wf(),
                page_aligned(base),
                page_aligned(remaining),
                base + remaining <= u64::MAX,
                region_spec(self@, base, remaining, kernel_start, kernel_end) == goal,
                self.free_memory - free_bytes(self@) == gap,
                free_bytes(self@) + remaining <= fb0 + aligned_size,
                self.free_memory + remaining <= old(self).free_memory + aligned_size,
                old(self).free_memory + aligned_size <= u64::MAX,
                self.total_memory == old(self).total_memory,
            decreases remaining,
        {
            let mut best: usize = 0;
            if base < LOW_MEMORY_END {
                proof { lemma_bsz(0); }
                base = base + (PAGE_SIZE << (best as u64));
                remaining = remaining - (PAGE_SIZE << (best as u64));
                continue;
            }
            let mut order: usize = MAX_ORDER;
            while order > 0
                invariant_except_break
                    best == 0,
                    forall|k: nat| order <= k < MAX_ORDER ==> !(bsz(k as u64) <= remaining && #[trigger] aligned(base, k as u64)),
                invariant
                    order <= MAX_ORDER,
                    page_aligned(base),
                    order == 0 ==> best_order(base, remaining, (MAX_ORDER - 1) as nat) == 0,
                ensures
                    best == best_order(base, remaining, (MAX_ORDER - 1) as nat),
                    best < MAX_ORDER,
                decreases order,
            {
                order = order - 1;
                let size = block_bytes(order);
                proof { lemma_bsz(order as u64); }
                if size <= remaining && base & (size - 1) == 0 {
                    best = order;
                    proof { lemma_best_order_top(base, remaining, (MAX_ORDER - 1) as nat, order as nat); }
                    break;
                }
                proof {
                    if order == 0 {
                        lemma_best_order_top(base, remaining, (MAX_ORDER - 1) as nat, 0);
                    }
                }
            }
            let size = block_bytes(best);
            proof {
                lemma_best_order(base, remaining, (MAX_ORDER - 1) as nat);
                lemma_bsz(best as u64);
                lemma_bsz_page(best as u64);
                lemma_bsz(0);
            }
            if base + size > kernel_start && base < kernel_end {
                base = base + size;
                remaining = remaining - size;
                continue;
            }
            proof {
                lemma_push_head(self@, best as int, base);
            }
            self.free_page(base, best);
            base = base + size;
            remaining = remaining - size;
        }
    }

    /// Fills the free lists from the usable RAM that the multiboot2 information
    /// structure `info` lists, region by region as `add_region` does, the kernel image
    /// `[kernel_start, kernel_end)` left out. Returns false, and changes nothing,
    /// when `info` is malformed or the regions would overflow the byte counters.
    pub fn init(&mut self, info: &[u8], kernel_start: u64, kernel_end: u64) -> (ok: bool)
        requires
            old(self).wf(),
        ensures
            final(self).wf(),
            ok <==> (memory_map(info@) is Some && regions_fit(
                old(self).spec_free_memory() as int,
                memory_map(info@).unwrap(),
            )),
            ok ==> final(self)@ == add_regions_spec(old(self)@, memory_map(info@).unwrap(), kernel_start, kernel_end),
            ok ==> final(self).spec_free_memory() == old(self).spec_free_memory() + free_bytes(final(self)@)
                - free_bytes(old(self)@),
            !ok ==> final(self)@ == old(self)@ && final(self).spec_free_memory() == old(self).spec_free_memory(),
            final(self).spec_total_memory() == old(self).spec_total_memory(),
    {
        let regions = match memory_regions(info) {
            Some(r) => r,
            None => return false,
        };
        let ghost regs = regions@;
        // The regions must fit the address space and the free-byte counter.
        let mut i: usize = 0;
        let mut sum: u64 = 0;
        while i < regions.len()
            invariant
                i <= regs.len(),
                regs == regions@,
                memory_map(info@) == Some(regs),
                self.wf(),
                self@ == old(self)@,
                self.free_memory == old(self).free_memory,
                self.total_memory == old(self).total_memory,
                self.free_memory + sum <= u64::MAX,
                forall|k: int| 0 <= k < i ==> #[trigger] regs[k].0 + regs[k].1 + 4096 <= u64::MAX,
                sum == total_len(regs.subrange(0, i as int)),
            decreases regs.len() - i,
        {
            let (b, l) = regions[i];
            proof {
                lemma_total_len_split(regs, i as int);
                lemma_total_len_append(regs.subrange(0, i as int), regs.subrange(i as int, regs.len() as int));
                assert(regs.subrange(0, i as int).add(regs.subrange(i as int, regs.len() as int)) =~= regs);
                lemma_total_len_nonneg(regs.subrange(i + 1, regs.len() as int));
            }
            if b > u64::MAX - PAGE_SIZE || l > u64::MAX - PAGE_SIZE - b || l > u64::MAX - self.free_memory - sum {
                proof {
                    assert(b == regs[i as int].0 && l == regs[i as int].1);
                    assert(total_len(regs) == sum + l + total_len(regs.subrange(i + 1, regs.len() as int)));
                    if regions_fit_from(regs, 0) {
                        assert(regs[i as int].0 + regs[i as int].1 + 4096 <= u64::MAX);
                        assert(self.free_memory + total_len(regs) > u64::MAX);
                    }
                    assert(!regions_fit(old(self).free_memory as int, regs));
                }
                return false;
            }
            sum = sum + l;
            i = i + 1;
        }
        proof {
            assert(regs.subrange(0, regs.len() as int) =~= regs);
        }
        let ghost start_fm = self.free_memory;
        let ghost fb0 = free_bytes(self@);
        let ghost goal = add_regions_spec(self@, regs, kernel_start, kernel_end);
        assert(regs.subrange(0, regs.len() as int) =~= regs);
        let mut j: usize = 0;
        while j < regions.len()
            invariant
                j <= regs.len(),
                regs == regions@,
                self.wf(),
                regions_fit_from(regs, 0),
                add_regions_spec(self@, regs.subrange(j as int, regs.len() as int), kernel_start, kernel_end) == goal,
                self.free_memory + total_len(regs.subrange(j as int, regs.len() as int)) <= u64::MAX,
                self.free_memory - free_bytes(self@) == start_fm - fb0,
                self.total_memory == old(self).total_memory,
            decreases regs.len() - j,
        {
            let (b, l) = regions[j];
            proof {
                lemma_regions_fit_at(regs, 0, j as int);
                lemma_total_len_split_front(regs.subrange(j as int, regs.len() as int));
                assert(regs.subrange(j as int, regs.len() as int).drop_first() =~= regs.subrange(j + 1, regs.len() as int));
                lemma_total_len_nonneg(regs.subrange(j + 1, regs.len() as int));
                lemma_page_rounding(b, l);
            }
            self.add_region(b, l, kernel_start, kernel_end);
            j = j + 1;
        }
        proof {
            assert(regs.subrange(j as int, regs.len() as int) =~= Seq::<(u64, u64)>::empty());
        }
        true
    }

    /// Frees the block of `order` at `addr`: while its buddy is on the free list of
    /// its order, the buddy is taken off and the two merge into one block of the next
    /// order; the block that results goes to the head of its list.
    pub fn free_pages(&mut self, order: usize, addr: u64)
        requires
            old(self).wf(),
            order < MAX_ORDER,
            aligned(addr, order as u64),
            old(self).spec_free_memory() + bsz((MAX_ORDER - 1) as u64) <= u64::MAX,
        ensures
            final(self).wf(),
            final(self)@ == free_spec(old(self)@, order as nat, addr).0,
            free_bytes(final(self)@) == free_bytes(old(self)@) + bsz(order as u64),
            final(self).spec_free_memory() == old(self).spec_free_memory()
                + bsz(free_spec(old(self)@, order as nat, addr).1 as u64),
            final(self).spec_total_memory() == old(self).spec_total_memory(),
    {
        let mut current_addr = addr;
        let mut current_order = order;
        let ghost goal = free_spec(old(self)@, order as nat, addr);
        proof {
            lemma_free_spec(old(self)@, order as nat, addr);
        }
        assert(free_bytes(goal.0) == free_bytes(old(self)@) + bsz(order as u64));
        loop
            invariant
                self.wf(),
                current_order < MAX_ORDER,
                aligned(current_addr, current_order as u64),
                free_spec(self@, current_order as nat, current_addr) == goal,
                goal == free_spec(old(self)@, order as nat, addr),
                free_bytes(goal.0) == free_bytes(old(self)@) + bsz(order as u64),
                self.spec_free_memory() == old(self).spec_free_memory(),
                self.spec_total_memory() == old(self).spec_total_memory(),
                old(self).spec_free_memory() + bsz((MAX_ORDER - 1) as u64) <= u64::MAX,
            decreases MAX_ORDER - current_order,
        {
            proof {
                lemma_bsz(current_order as u64);
                lemma_bsz((MAX_ORDER - 1) as u64);
                assert(bsz(current_order as u64) <= bsz((MAX_ORDER - 1) as u64)) by {
                    lemma_bsz_mono(current_order as u64);
                }
            }
            if current_order == MAX_ORDER - 1 {
                assert(free_spec(self@, current_order as nat, current_addr) == (
                    push_head(self@, current_order as int, current_addr),
                    current_order as nat,
                ));
                self.free_page(current_addr, current_order);
                return;
            }
            let buddy_addr = current_addr ^ block_bytes(current_order);
            let ghost lists = self@;
            let ghost list = lists[current_order as int];
            assert(self.free_lists@[current_order as int]@ == list);
            let mut i: usize = 0;
            let n = self.free_lists[current_order].len();
            while i < n
                invariant
                    i <= n,
                    n == list.len(),
                    self@ == lists,
                    current_order < MAX_ORDER,
                    self.free_lists.len() == MAX_ORDER,
                    self.free_lists@[current_order as int]@ == list,
                    forall|j: int| 0 <= j < i ==> list[j] != buddy_addr,
                ensures
                    i <= n,
                    i < n ==> list[i as int] == buddy_addr,
                    forall|j: int| 0 <= j < i ==> list[j] != buddy_addr,
                decreases n - i,
            {
                if self.free_lists[current_order][i] == buddy_addr {
                    break;
                }
                i = i + 1;
            }
            proof {
                list.index_of_first_ensures(buddy_addr);
            }
            if i == n {
                proof {
                    assert(!list.contains(buddy_addr));
                }
                self.free_page(current_addr, current_order);
                return;
            }
            proof {
                assert(list[i as int] == buddy_addr);
                assert(list.contains(buddy_addr));
                assert(first_index(list, buddy_addr) == Some(i as int));
                lemma_free_spec(lists, current_order as nat, current_addr);
                lemma_buddy(current_addr, current_order as u64);
            }
            self.free_lists[current_order].remove(i);
            proof {
                let l2 = lists.update(current_order as int, list.remove(i as int));
                assert(self@ =~~= l2);
                lemma_free_bytes_update(lists, current_order as int, list.remove(i as int), MAX_ORDER as nat);
                let d = list.remove(i as int).len() - list.len();
                assert(d * bsz(current_order as u64) == -bsz(current_order as u64)) by (nonlinear_arith) requires d == -1;
                lemma_removal_keeps_aligned(lists, current_order as int, i as int);
            }
            current_addr = if current_addr <= buddy_addr { current_addr } else { buddy_addr };
            current_order = current_order + 1;
        }
    }
}

/// The first order, from `order` up, whose free list is not empty (`MAX_ORDER` if none).
pub open spec fn source_order(lists: Seq<Seq<u64>>, order: nat) -> nat
    decreases MAX_ORDER - order,
{
    if order >= MAX_ORDER {
        order
    } else if lists[order as int].len() > 0 {
        order
    } else {
        source_order(lists, order + 1)
    }
}

/// The block that an allocation of `order` takes off the free lists has no buddy
/// left on the list it came from (or comes from the top order).
pub open spec fn source_buddy_busy(lists: Seq<Seq<u64>>, order: nat) -> bool {
    let j = source_order(lists, order);
    j + 1 >= MAX_ORDER || !lists[j as int].drop_first().contains(buddy_of(lists[j as int][0], j as u64))
}

pub proof fn lemma_alloc_spec_frame(lists: Seq<Seq<u64>>, order: nat, k: int)
    requires
        lists.len() == MAX_ORDER,
        0 <= k < order,
        order < MAX_ORDER,
    ensures
        alloc_spec(lists, order).1.len() == MAX_ORDER,
        alloc_spec(lists, order).1[k] == lists[k],
    decreases MAX_ORDER - order,
{
    if lists[order as int].len() > 0 {
    } else if order + 1 >= MAX_ORDER {
    } else {
        lemma_alloc_spec_frame(lists, order + 1, k);
        lemma_alloc_spec_frame(lists, order + 1, order as int);
    }
}

pub proof fn lemma_split_buddy(b: u64, order: u64)
    requires
        order < 10,
        aligned(b, (order + 1) as u64),
    ensures
        buddy_of(b, order) == b + bsz(order),
        min_u64(b, buddy_of(b, order)) == b,
{
    assert(order < 10 && (b & (((4096u64 << ((order + 1) as u64)) - 1) as u64)) == 0
        ==> (b ^ (4096u64 << order)) == b + (4096u64 << order)) by (bit_vector);
}

/// Freeing a block right after allocating it gives the free lists back exactly,
/// and the freed block ends on the list it was taken from, provided that list did
/// not also hold the buddy of the block taken.
pub proof fn law_alloc_then_free_restores(lists: Seq<Seq<u64>>, order: nat)
    requires
        lists_aligned(lists),
        order < MAX_ORDER,
        alloc_spec(lists, order).0 != 0,
        source_buddy_busy(lists, order),
    ensures
        free_spec(alloc_spec(lists, order).1, order, alloc_spec(lists, order).0) == (
            lists,
            source_order(lists, order),
        ),
    decreases MAX_ORDER - order,
{
    let k = order as int;
    let (b, l1) = alloc_spec(lists, order);
    if lists[k].len() > 0 {
        assert(l1 == lists.update(k, lists[k].drop_first()));
        if order + 1 < MAX_ORDER {
            l1[k].index_of_first_ensures(buddy_of(b, order as u64));
        }
        assert(push_head(l1, k, b) =~~= lists);
    } else {
        lemma_alloc_spec(lists, order + 1);
        let (b2, rest) = alloc_spec(lists, order + 1);
        assert(b2 == b);
        law_alloc_then_free_restores(lists, order + 1);
        lemma_alloc_spec_frame(lists, order + 1, k);
        lemma_split_buddy(b, order as u64);
        let buddy = buddy_of(b, order as u64);
        assert(l1 == push_head(rest, k, buddy));
        assert(l1[k] =~= seq![buddy]);
        assert(l1[k][0] == buddy);
        assert(l1[k].contains(buddy));
        l1[k].index_of_first_ensures(buddy);
        assert(first_index(l1[k], buddy) == Some(0int));
        assert(l1.update(k, l1[k].remove(0)) =~~= rest);
    }
}

/// Lowest physical address the allocator takes memory from.
pub const LOW_MEMORY_END: u64 = 0x100000;

/// The largest order `k <= top` whose block fits in `remaining` bytes and to which
/// `base` is aligned; 0 when there is none.
pub open spec fn best_order(base: u64, remaining: u64, top: nat) -> nat
    decreases top,
{
    if bsz(top as u64) <= remaining && aligned(base, top as u64) {
        top
    } else if top == 0 {
        0
    } else {
        best_order(base, remaining, (top - 1) as nat)
    }
}

/// `x` is a multiple of the page size.
pub open spec fn page_aligned(x: u64) -> bool {
    x % 4096 == 0
}

/// What `add_region` does to the free lists once `base` and `remaining` are page
/// aligned: pages below 1 MiB are skipped one at a time; elsewhere the largest block
/// that is aligned and fits is carved off, and put on its free list unless it
/// overlaps the kernel image `[kernel_start, kernel_end)`.
pub open spec fn region_spec(
    lists: Seq<Seq<u64>>,
    base: u64,
    remaining: u64,
    kernel_start: u64,
    kernel_end: u64,
) -> Seq<Seq<u64>>
    decreases remaining,
{
    if remaining == 0 || base + remaining > u64::MAX {
        lists
    } else if base < LOW_MEMORY_END {
        if remaining < 4096 {
            lists
        } else {
            region_spec(lists, (base + 4096) as u64, (remaining - 4096) as u64, kernel_start, kernel_end)
        }
    } else {
        let o = best_order(base, remaining, (MAX_ORDER - 1) as nat);
        let size = bsz(o as u64);
        if size > remaining || size == 0 {
            lists
        } else if base + size > kernel_start && base < kernel_end {
            region_spec(lists, (base + size) as u64, (remaining - size) as u64, kernel_start, kernel_end)
        } else {
            region_spec(
                push_head(lists, o as int, base),
                (base + size) as u64,
                (remaining - size) as u64,
                kernel_start,
                kernel_end,
            )
        }
    }
}

/// `base` rounded up to a page boundary, as `add_region` computes it.
pub open spec fn round_up_page(base: u64) -> u64 {
    ((base + 4095) as u64) & !4095u64
}

/// `size` rounded down to a whole number of pages.
pub open spec fn round_down_page(size: u64) -> u64 {
    size & !4095u64
}

pub proof fn lemma_page_rounding(base: u64, size: u64)
    requires
        base + 4095 <= u64::MAX,
    ensures
        base <= round_up_page(base) <= base + 4095,
        page_aligned(round_up_page(base)),
        round_down_page(size) <= size,
        page_aligned(round_down_page(size)),
{
    assert(base + 4095 <= 0xffff_ffff_ffff_ffffu64 ==> base <= (((base + 4095) as u64) & !4095u64)
        && (((base + 4095) as u64) & !4095u64) <= base + 4095
        && (((base + 4095) as u64) & !4095u64) % 4096 == 0) by (bit_vector);
    assert((size & !4095u64) <= size && (size & !4095u64) % 4096 == 0) by (bit_vector);
}

pub proof fn lemma_bsz_page(order: u64)
    requires
        order < 11,
    ensures
        page_aligned(bsz(order)),
        aligned(order as u64, 0) || true,
{
    assert(order < 11 ==> (4096u64 << order) % 4096 == 0) by (bit_vector);
}

pub proof fn lemma_aligned_zero(a: u64)
    ensures
        aligned(a, 0) == page_aligned(a),
{
    assert((a & (((4096u64 << 0u64) - 1) as u64) == 0) == (a % 4096 == 0)) by (bit_vector);
}

pub proof fn lemma_best_order(base: u64, remaining: u64, top: nat)
    requires
        top < MAX_ORDER,
        page_aligned(base),
    ensures
        best_order(base, remaining, top) <= top,
        aligned(base, best_order(base, remaining, top) as u64),
        best_order(base, remaining, top) > 0 ==> bsz(best_order(base, remaining, top) as u64) <= remaining,
    decreases top,
{
    lemma_aligned_zero(base);
    if bsz(top as u64) <= remaining && aligned(base, top as u64) {
    } else if top == 0 {
    } else {
        lemma_best_order(base, remaining, (top - 1) as nat);
    }
}

pub proof fn lemma_best_order_top(base: u64, remaining: u64, top: nat, k: nat)
    requires
        top < MAX_ORDER,
        k <= top,
        forall|j: nat| k < j <= top ==> !(bsz(j as u64) <= remaining && #[trigger] aligned(base, j as u64)),
        k == 0 || (bsz(k as u64) <= remaining && aligned(base, k as u64)),
    ensures
        best_order(base, remaining, top) == k || (k == 0 && best_order(base, remaining, top) == 0),
    decreases top,
{
    if top > k {
        lemma_best_order_top(base, remaining, (top - 1) as nat, k);
    }
}

/// `(k, i)` names a block that heads the free list of order `k` in `after` and was
/// not on it in `before`: blocks are put on a list at its head.
pub open spec fn is_new_block(before: Seq<Seq<u64>>, after: Seq<Seq<u64>>, k: int, i: int) -> bool {
    0 <= k < after.len() && 0 <= i < after[k].len() - before[k].len()
}

/// The block of `order` at `a` lies in `[base, base + remaining)`, starts at or
/// above 1 MiB, shares no byte with the kernel image `[kernel_start, kernel_end)`,
/// and is aligned to its order.
pub open spec fn block_in_region(
    a: u64,
    order: int,
    base: u64,
    remaining: u64,
    kernel_start: u64,
    kernel_end: u64,
) -> bool {
    &&& 0 <= order < MAX_ORDER
    &&& base <= a
    &&& a + bsz(order as u64) <= base + remaining
    &&& a >= LOW_MEMORY_END
    &&& !(a + bsz(order as u64) > kernel_start && a < kernel_end)
    &&& aligned(a, order as u64)
}

/// The blocks `[a, a + bsz(ka))` and `[c, c + bsz(kc))` share no byte.
pub open spec fn blocks_disjoint(a: u64, ka: int, c: u64, kc: int) -> bool {
    a + bsz(ka as u64) <= c || c + bsz(kc as u64) <= a
}

/// `after` is `before` with new blocks put at the heads of its free lists, every new
/// block lying in the region as `block_in_region` says, and no two new blocks
/// sharing a byte.
pub open spec fn carved_from(
    before: Seq<Seq<u64>>,
    after: Seq<Seq<u64>>,
    base: u64,
    remaining: u64,
    kernel_start: u64,
    kernel_end: u64,
) -> bool {
    &&& after.len() == before.len()
    &&& forall|k: int| 0 <= k < before.len() ==> before[k].len() <= #[trigger] after[k].len()
    &&& forall|k: int|
        0 <= k < before.len() ==> (#[trigger] after[k]).subrange(
            after[k].len() - before[k].len(),
            after[k].len() as int,
        ) == before[k]
    &&& forall|k: int, i: int|
        #[trigger] is_new_block(before, after, k, i) ==> block_in_region(
            after[k][i],
            k,
            base,
            remaining,
            kernel_start,
            kernel_end,
        )
    &&& forall|k1: int, i1: int, k2: int, i2: int|
        #![trigger is_new_block(before, after, k1, i1), is_new_block(before, after, k2, i2)]
        is_new_block(before, after, k1, i1) && is_new_block(before, after, k2, i2) && (k1 != k2
            || i1 != i2) ==> blocks_disjoint(after[k1][i1], k1, after[k2][i2], k2)
}

proof fn lemma_carved_same(lists: Seq<Seq<u64>>, base: u64, remaining: u64, kernel_start: u64, kernel_end: u64)
    ensures
        carved_from(lists, lists, base, remaining, kernel_start, kernel_end),
{
    assert forall|k: int| 0 <= k < lists.len() implies (#[trigger] lists[k]).subrange(
        lists[k].len() - lists[k].len(),
        lists[k].len() as int,
    ) == lists[k] by {
        assert(lists[k].subrange(0, lists[k].len() as int) =~= lists[k]);
    }
}

proof fn lemma_carved_widen(
    before: Seq<Seq<u64>>,
    after: Seq<Seq<u64>>,
    inner_base: u64,
    inner_remaining: u64,
    base: u64,
    remaining: u64,
    kernel_start: u64,
    kernel_end: u64,
)
    requires
        carved_from(before, after, inner_base, inner_remaining, kernel_start, kernel_end),
        base <= inner_base,
        inner_base + inner_remaining <= base + remaining,
    ensures
        carved_from(before, after, base, remaining, kernel_start, kernel_end),
{
    assert forall|k: int, i: int| #[trigger] is_new_block(before, after, k, i) implies block_in_region(
        after[k][i],
        k,
        base,
        remaining,
        kernel_start,
        kernel_end,
    ) by {
        assert(block_in_region(after[k][i], k, inner_base, inner_remaining, kernel_start, kernel_end));
    }
}

proof fn lemma_carved_push(
    lists: Seq<Seq<u64>>,
    after: Seq<Seq<u64>>,
    order: int,
    base: u64,
    remaining: u64,
    kernel_start: u64,
    kernel_end: u64,
)
    requires
        0 <= order < lists.len(),
        block_in_region(base, order, base, remaining, kernel_start, kernel_end),
        bsz(order as u64) <= remaining,
        base + remaining <= u64::MAX,
        carved_from(
            push_head(lists, order, base),
            after,
            (base + bsz(order as u64)) as u64,
            (remaining - bsz(order as u64)) as u64,
            kernel_start,
            kernel_end,
        ),
    ensures
        carved_from(lists, after, base, remaining, kernel_start, kernel_end),
{
    let l1 = push_head(lists, order, base);
    let size = bsz(order as u64);
    let inner_base = (base + size) as u64;
    let inner_remaining = (remaining - size) as u64;
    let top = after[order].len() - lists[order].len() - 1;
    let s = after[order].subrange(after[order].len() - l1[order].len(), after[order].len() as int);
    assert(s == l1[order]);
    assert(l1[order].len() == lists[order].len() + 1);
    assert(forall|k: int| 0 <= k < lists.len() && k != order ==> #[trigger] l1[k] == lists[k]);
    assert(after[order][top] == base) by {
        assert(s[0] == after[order][top]);
    }
    assert forall|k: int| 0 <= k < lists.len() implies lists[k].len() <= #[trigger] after[k].len()
        && after[k].subrange(after[k].len() - lists[k].len(), after[k].len() as int) == lists[k] by {
        if k == order {
            assert(after[k].subrange(after[k].len() - lists[k].len(), after[k].len() as int)
                =~= s.subrange(1, s.len() as int));
            assert(s.subrange(1, s.len() as int) =~= lists[k]);
        } else {
            assert(l1[k] == lists[k]);
        }
    }
    assert forall|k: int, i: int| #[trigger] is_new_block(lists, after, k, i) implies block_in_region(
        after[k][i],
        k,
        base,
        remaining,
        kernel_start,
        kernel_end,
    ) by {
        if k == order && i == top {
        } else {
            assert(is_new_block(l1, after, k, i));
            assert(block_in_region(after[k][i], k, inner_base, inner_remaining, kernel_start, kernel_end));
        }
    }
    assert forall|k1: int, i1: int, k2: int, i2: int|
        #![trigger is_new_block(lists, after, k1, i1), is_new_block(lists, after, k2, i2)]
        is_new_block(lists, after, k1, i1) && is_new_block(lists, after, k2, i2) && (k1 != k2
            || i1 != i2) implies blocks_disjoint(after[k1][i1], k1, after[k2][i2], k2) by {
        let first = k1 == order && i1 == top;
        let second = k2 == order && i2 == top;
        if first {
            assert(is_new_block(l1, after, k2, i2));
            assert(block_in_region(after[k2][i2], k2, inner_base, inner_remaining, kernel_start, kernel_end));
        } else if second {
            assert(is_new_block(l1, after, k1, i1));
            assert(block_in_region(after[k1][i1], k1, inner_base, inner_remaining, kernel_start, kernel_end));
        } else {
            assert(is_new_block(l1, after, k1, i1));
            assert(is_new_block(l1, after, k2, i2));
        }
    }
}

proof fn lemma_region_carves(
    lists: Seq<Seq<u64>>,
    base: u64,
    remaining: u64,
    kernel_start: u64,
    kernel_end: u64,
)
    requires
        lists.len() == MAX_ORDER,
        page_aligned(base),
        page_aligned(remaining),
    ensures
        carved_from(
            lists,
            region_spec(lists, base, remaining, kernel_start, kernel_end),
            base,
            remaining,
            kernel_start,
            kernel_end,
        ),
    decreases remaining,
{
    if remaining == 0 || base + remaining > u64::MAX {
        lemma_carved_same(lists, base, remaining, kernel_start, kernel_end);
    } else if base < LOW_MEMORY_END {
        if remaining < 4096 {
            lemma_carved_same(lists, base, remaining, kernel_start, kernel_end);
        } else {
            let b2 = (base + 4096) as u64;
            let r2 = (remaining - 4096) as u64;
            lemma_region_carves(lists, b2, r2, kernel_start, kernel_end);
            lemma_carved_widen(
                lists,
                region_spec(lists, b2, r2, kernel_start, kernel_end),
                b2,
                r2,
                base,
                remaining,
                kernel_start,
                kernel_end,
            );
        }
    } else {
        let o = best_order(base, remaining, (MAX_ORDER - 1) as nat);
        lemma_best_order(base, remaining, (MAX_ORDER - 1) as nat);
        lemma_bsz(o as u64);
        lemma_bsz(0);
        lemma_bsz_page(o as u64);
        let size = bsz(o as u64);
        let b2 = (base + size) as u64;
        let r2 = (remaining - size) as u64;
        if size > remaining || size == 0 {
            lemma_carved_same(lists, base, remaining, kernel_start, kernel_end);
        } else if base + size > kernel_start && base < kernel_end {
            lemma_region_carves(lists, b2, r2, kernel_start, kernel_end);
            lemma_carved_widen(
                lists,
                region_spec(lists, b2, r2, kernel_start, kernel_end),
                b2,
                r2,
                base,
                remaining,
                kernel_start,
                kernel_end,
            );
        } else {
            let l1 = push_head(lists, o as int, base);
            lemma_region_carves(l1, b2, r2, kernel_start, kernel_end);
            lemma_carved_push(
                lists,
                region_spec(l1, b2, r2, kernel_start, kernel_end),
                o as int,
                base,
                remaining,
                kernel_start,
                kernel_end,
            );
        }
    }
}

/// The blocks that `add_region(base, size, kernel_start, kernel_end)` puts on the
/// free lists lie in the page-rounded region `[round_up_page(base),
/// round_up_page(base) + round_down_page(size))`, start at or above 1 MiB, share no
/// byte with the kernel image, are aligned to their order, and share no byte with
/// one another; every block that was on a list before stays there, behind them.
pub proof fn law_added_blocks(
    lists: Seq<Seq<u64>>,
    base: u64,
    size: u64,
    kernel_start: u64,
    kernel_end: u64,
)
    requires
        lists.len() == MAX_ORDER,
    ensures
        carved_from(
            lists,
            region_spec(lists, round_up_page(base), round_down_page(size), kernel_start, kernel_end),
            round_up_page(base),
            round_down_page(size),
            kernel_start,
            kernel_end,
        ),
{
    assert((((base + 4095) as u64) & !4095u64) % 4096 == 0) by (bit_vector);
    lemma_page_rounding(0, size);
    lemma_region_carves(lists, round_up_page(base), round_down_page(size), kernel_start, kernel_end);
}

/// What `init` does to the free lists: `add_region` on each region in turn.
pub open spec fn add_regions_spec(
    lists: Seq<Seq<u64>>,
    regions: Seq<(u64, u64)>,
    kernel_start: u64,
    kernel_end: u64,
) -> Seq<Seq<u64>>
    decreases regions.len(),
{
    if regions.len() == 0 {
        lists
    } else {
        add_regions_spec(
            region_spec(lists, round_up_page(regions[0].0), round_down_page(regions[0].1), kernel_start, kernel_end),
            regions.drop_first(),
            kernel_start,
            kernel_end,
        )
    }
}

/// Sum of the region lengths.
pub open spec fn total_len(regions: Seq<(u64, u64)>) -> int
    decreases regions.len(),
{
    if regions.len() == 0 {
        0
    } else {
        regions[0].1 + total_len(regions.drop_first())
    }
}

/// Every region from position `i` on ends, rounded up to a page, inside the address space.
pub open spec fn regions_fit_from(regions: Seq<(u64, u64)>, i: int) -> bool {
    forall|k: int| i <= k < regions.len() ==> #[trigger] regions[k].0 + regions[k].1 + 4096 <= u64::MAX
}

/// The regions can be added to an allocator whose free-byte counter is `free`.
pub open spec fn regions_fit(free: int, regions: Seq<(u64, u64)>) -> bool {
    regions_fit_from(regions, 0) && free + total_len(regions) <= u64::MAX
}

pub proof fn lemma_total_len_nonneg(regions: Seq<(u64, u64)>)
    ensures
        total_len(regions) >= 0,
    decreases regions.len(),
{
    if regions.len() > 0 {
        lemma_total_len_nonneg(regions.drop_first());
    }
}

pub proof fn lemma_total_len_split_front(regions: Seq<(u64, u64)>)
    requires
        regions.len() > 0,
    ensures
        total_len(regions) == regions[0].1 + total_len(regions.drop_first()),
{
}

pub proof fn lemma_total_len_append(a: Seq<(u64, u64)>, b: Seq<(u64, u64)>)
    ensures
        total_len(a.add(b)) == total_len(a) + total_len(b),
    decreases a.len(),
{
    if a.len() == 0 {
        assert(a.add(b) =~= b);
    } else {
        assert(a.add(b).drop_first() =~= a.drop_first().add(b));
        lemma_total_len_append(a.drop_first(), b);
    }
}

pub proof fn lemma_total_len_split(regions: Seq<(u64, u64)>, i: int)
    requires
        0 <= i < regions.len(),
    ensures
        total_len(regions.subrange(0, i + 1)) == total_len(regions.subrange(0, i)) + regions[i].1,
        total_len(regions.subrange(i, regions.len() as int)) == regions[i].1 + total_len(
            regions.subrange(i + 1, regions.len() as int),
        ),
{
    assert(regions.subrange(0, i + 1) =~= regions.subrange(0, i).add(seq![regions[i]]));
    lemma_total_len_append(regions.subrange(0, i), seq![regions[i]]);
    let x = regions[i];
    assert(seq![x].drop_first() =~= Seq::<(u64, u64)>::empty());
    assert(seq![x][0] == x);
    assert(total_len(Seq::<(u64, u64)>::empty()) == 0);
    assert(total_len(seq![x]) == x.1);
    assert(regions.subrange(i, regions.len() as int).drop_first() =~= regions.subrange(i + 1, regions.len() as int));
}

pub proof fn lemma_regions_fit_at(regions: Seq<(u64, u64)>, i: int, k: int)
    requires
        regions_fit_from(regions, i),
        i <= k < regions.len(),
    ensures
        regions[k].0 + regions[k].1 + 4096 <= u64::MAX,
{
}

/// The smallest order whose block holds `size` bytes; `None` when even the largest does not.
pub open spec fn heap_order(size: nat, from: nat) -> Option<nat>
    decreases MAX_ORDER - from,
{
    if from >= MAX_ORDER {
        None
    } else if bsz(from as u64) >= size {
        Some(from)
    } else {
        heap_order(size, from + 1)
    }
}

/// The kernel's global allocator: each allocation takes a whole buddy block, the
/// smallest one that holds the requested size.
pub struct KernelHeap;

impl KernelHeap {
    /// The order of the block an allocation of `size` bytes uses.
    pub fn order_for(&self, size: usize) -> (r: Option<usize>)
        ensures
            match r {
                Some(o) => heap_order(size as nat, 0) == Some(o as nat) && o < MAX_ORDER,
                None => heap_order(size as nat, 0) is None,
            },
    {
        let mut curr_order: usize = 0;
        loop
            invariant
                curr_order <= MAX_ORDER,
                heap_order(size as nat, 0) == heap_order(size as nat, curr_order as nat),
            decreases MAX_ORDER - curr_order,
        {
            if curr_order >= MAX_ORDER {
                return None;
            }
            if block_bytes(curr_order) >= size as u64 {
                return Some(curr_order);
            }
            curr_order = curr_order + 1;
        }
    }

    /// Allocates `size` bytes: a block of `order_for(size)` from `pmm`, or 0 when
    /// the size is too large or no block is free.
    pub fn allocate(&self, pmm: &mut BuddyAllocator, size: usize) -> (r: u64)
        requires
            old(pmm).wf(),
        ensures
            final(pmm).wf(),
            match heap_order(size as nat, 0) {
                Some(o) => (r, final(pmm)@) == alloc_spec(old(pmm)@, o),
                None => r == 0 && final(pmm)@ == old(pmm)@,
            },
    {
        match self.order_for(size) {
            None => 0,
            Some(o) => pmm.alloc_pages(o),
        }
    }

    /// Gives back the block at `ptr` that an allocation of `size` bytes took.
    pub fn deallocate(&self, pmm: &mut BuddyAllocator, ptr: u64, size: usize)
        requires
            old(pmm).wf(),
            old(pmm).spec_free_memory() + bsz((MAX_ORDER - 1) as u64) <= u64::MAX,
            heap_order(size as nat, 0) is Some ==> aligned(ptr, heap_order(size as nat, 0).unwrap() as u64),
        ensures
            final(pmm).wf(),
            match heap_order(size as nat, 0) {
                Some(o) => final(pmm)@ == free_spec(old(pmm)@, o, ptr).0,
                None => final(pmm)@ == old(pmm)@,
            },
    {
        match self.order_for(size) {
            None => {},
            Some(o) => pmm.free_pages(o, ptr),
        }
    }
}

/// A spin lock as the kernel keeps one: a flag that `lock` sets and `unlock` clears.
pub struct SpinLock {
    locked: bool,
}

impl SpinLock {
    pub closed spec fn is_locked(&self) -> bool {
        self.locked
    }

    /// A lock that is free.
    pub fn new() -> (r: Self)
        ensures
            !r.is_locked(),
    {
        SpinLock { locked: false }
    }

    /// Sets the flag and returns what it was: the lock is taken when this is false.
    pub fn try_lock(&mut self) -> (was_locked: bool)
        ensures
            was_locked == old(self).is_locked(),
            final(self).is_locked(),
    {
        let was = self.locked;
        self.locked = true;
        was
    }

    /// Takes the lock. A held lock is never freed by the one thread that waits on
    /// it, so the lock must be free.
    pub fn lock(&mut self)
        requires
            !old(self).is_locked(),
        ensures
            final(self).is_locked(),
    {
        let was = self.try_lock();
        assert(!was);
    }

    /// Frees the lock.
    pub fn unlock(&mut self)
        ensures
            !final(self).is_locked(),
    {
        self.locked = false;
    }
}

pub proof fn lemma_bsz_mono(order: u64)
    requires
        order < 11,
    ensures
        bsz(order) <= bsz(10),
{
    assert(order < 11 ==> (4096u64 << order) <= (4096u64 << 10u64)) by (bit_vector);
}

pub proof fn lemma_removal_keeps_aligned(lists: Seq<Seq<u64>>, k: int, i: int)
    requires
        lists_aligned(lists),
        0 <= k < MAX_ORDER,
        0 <= i < lists[k].len(),
    ensures
        lists_aligned(lists.update(k, lists[k].remove(i))),
{
    let l2 = lists.update(k, lists[k].remove(i));
    assert forall|j: int, m: int|
        0 <= j < MAX_ORDER && 0 <= m < l2[j].len() implies #[trigger] aligned(l2[j][m], j as u64) by {
        if j == k {
            if m < i {
                assert(l2[j][m] == lists[j][m]);
            } else {
                assert(l2[j][m] == lists[j][m + 1]);
            }
        }
    }
}

pub proof fn lemma_free_bytes_zero(lists: Seq<Seq<u64>>, n: nat)
    requires
        n <= lists.len(),
        forall|k: int| 0 <= k < lists.len() ==> (#[trigger] lists[k]).len() == 0,
    ensures
        free_bytes_below(lists, n) == 0,
    decreases n,
{
    if n > 0 {
        lemma_free_bytes_zero(lists, (n - 1) as nat);
    }
}

} // verus!

