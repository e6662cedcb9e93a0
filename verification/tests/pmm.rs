use theos::pmm::{block_bytes, BuddyAllocator, KernelHeap, SpinLock, MAX_ORDER, PAGE_SIZE};

#[test]
fn alloc_on_empty_allocator_fails() {
    let mut a = BuddyAllocator::new();
    for order in 0..MAX_ORDER {
        assert_eq!(a.alloc_pages(order), 0);
    }
    assert_eq!(a.free_memory(), 0);
}

#[test]
fn block_bytes_doubles() {
    assert_eq!(block_bytes(0), 4096);
    assert_eq!(block_bytes(1), 8192);
    assert_eq!(block_bytes(10), 4096 << 10);
}

#[test]
fn split_gives_lower_half_and_frees_upper_half() {
    let mut a = BuddyAllocator::new();
    a.free_page(0x200000, 2);
    assert_eq!(a.free_memory(), 4 * PAGE_SIZE);
    let b = a.alloc_pages(0);
    assert_eq!(b, 0x200000);
    assert_eq!(a.free_count(0), 1);
    assert_eq!(a.free_block(0, 0), 0x201000);
    assert_eq!(a.free_count(1), 1);
    assert_eq!(a.free_block(1, 0), 0x202000);
    assert_eq!(a.free_count(2), 0);
    assert_eq!(a.free_memory(), 3 * PAGE_SIZE);
}

#[test]
fn free_merges_buddies_back() {
    let mut a = BuddyAllocator::new();
    a.free_page(0x200000, 2);
    let b = a.alloc_pages(0);
    a.free_pages(0, b);
    assert_eq!(a.free_count(0), 0);
    assert_eq!(a.free_count(1), 0);
    assert_eq!(a.free_count(2), 1);
    assert_eq!(a.free_block(2, 0), 0x200000);
}

#[test]
fn free_counts_merged_buddy_twice() {
    let mut a = BuddyAllocator::new();
    a.free_page(0x200000, 0);
    a.free_pages(0, 0x201000);
    assert_eq!(a.free_count(0), 0);
    assert_eq!(a.free_count(1), 1);
    assert_eq!(a.free_block(1, 0), 0x200000);
    // 4 KiB for the first page, then 8 KiB for the merged block.
    assert_eq!(a.free_memory(), 3 * PAGE_SIZE);
}

#[test]
fn add_region_skips_low_memory_and_kernel() {
    let mut a = BuddyAllocator::new();
    // 0xff000..0x105000: the page below 1 MiB is skipped.
    a.add_region(0xff000, 0x6000, 0x102000, 0x103000);
    // 0x100000: the largest aligned block that fits is 16 KiB, and it meets the
    // kernel image, so the whole block is skipped.
    // 0x104000: the last page is freed.
    assert_eq!(a.free_count(2), 0);
    assert_eq!(a.free_count(1), 0);
    assert_eq!(a.free_count(0), 1);
    assert_eq!(a.free_block(0, 0), 0x104000);
    assert_eq!(a.free_memory(), PAGE_SIZE);
}

#[test]
fn add_region_block_meeting_kernel_is_skipped_whole() {
    let mut a = BuddyAllocator::new();
    a.add_region(0xff000, 0x5000, 0x102000, 0x103000);
    assert_eq!(a.free_memory(), 0);
}

#[test]
fn add_region_rounds_to_pages() {
    let mut a = BuddyAllocator::new();
    a.add_region(0x200001, 0x1fff, 0, 0);
    // base rounds up to 0x201000, size down to 0x1000.
    assert_eq!(a.free_count(0), 1);
    assert_eq!(a.free_block(0, 0), 0x201000);
}

fn mb_tag(ty: u32, body: &[u8]) -> Vec<u8> {
    let size = 8 + body.len() as u32;
    let mut t = Vec::new();
    t.extend_from_slice(&ty.to_le_bytes());
    t.extend_from_slice(&size.to_le_bytes());
    t.extend_from_slice(body);
    while t.len() % 8 != 0 {
        t.push(0);
    }
    t
}

fn mmap_body(entries: &[(u64, u64, u32)]) -> Vec<u8> {
    let mut b = Vec::new();
    b.extend_from_slice(&24u32.to_le_bytes());
    b.extend_from_slice(&0u32.to_le_bytes());
    for (base, len, ty) in entries {
        b.extend_from_slice(&base.to_le_bytes());
        b.extend_from_slice(&len.to_le_bytes());
        b.extend_from_slice(&ty.to_le_bytes());
        b.extend_from_slice(&0u32.to_le_bytes());
    }
    b
}

fn info_with(tags: &[Vec<u8>]) -> Vec<u8> {
    let mut info = vec![0u8; 8];
    for t in tags {
        info.extend_from_slice(t);
    }
    info.extend_from_slice(&mb_tag(0, &[]));
    let total = info.len() as u32;
    info[0..4].copy_from_slice(&total.to_le_bytes());
    info
}

#[test]
fn init_adds_available_regions_only() {
    let info = info_with(&[mb_tag(6, &mmap_body(&[(0x400000, 0x1000, 1), (0x500000, 0x1000, 2)]))]);
    let mut a = BuddyAllocator::new();
    assert!(a.init(&info, 0, 0));
    assert_eq!(a.free_count(0), 1);
    assert_eq!(a.free_block(0, 0), 0x400000);
}

#[test]
fn init_rejects_truncated_info() {
    let mut info = info_with(&[mb_tag(6, &mmap_body(&[(0x400000, 0x1000, 1)]))]);
    info.truncate(20);
    let mut a = BuddyAllocator::new();
    assert!(!a.init(&info, 0, 0));
    assert_eq!(a.free_count(0), 0);
}

#[test]
fn heap_picks_smallest_order() {
    let h = KernelHeap;
    assert_eq!(h.order_for(1), Some(0));
    assert_eq!(h.order_for(4096), Some(0));
    assert_eq!(h.order_for(4097), Some(1));
    assert_eq!(h.order_for(4096 << 10), Some(10));
    assert_eq!(h.order_for((4096 << 10) + 1), None);
    let mut a = BuddyAllocator::new();
    a.free_page(0x800000, 1);
    assert_eq!(h.allocate(&mut a, 5000), 0x800000);
    h.deallocate(&mut a, 0x800000, 5000);
    assert_eq!(a.free_count(1), 1);
}

#[test]
fn spinlock_takes_and_frees() {
    let mut l = SpinLock::new();
    assert!(!l.try_lock());
    assert!(l.try_lock());
    l.unlock();
    l.lock();
    assert!(l.try_lock());
}

#[test]
fn add_region_blocks_are_aligned_disjoint_and_outside_kernel() {
    let mut a = BuddyAllocator::new();
    let (base, size, ks, ke) = (0xf0800u64, 0x80_0000u64, 0x20_3000u64, 0x28_0000u64);
    a.add_region(base, size, ks, ke);
    let lo = 0xf1000u64;
    let hi = lo + 0x80_0000;
    let mut blocks: Vec<(u64, u64)> = Vec::new();
    for order in 0..MAX_ORDER {
        for i in 0..a.free_count(order) {
            let b = a.free_block(order, i);
            let len = block_bytes(order);
            assert_eq!(b % len, 0);
            assert!(b >= 0x100000);
            assert!(lo <= b && b + len <= hi);
            assert!(b + len <= ks || b >= ke);
            blocks.push((b, len));
        }
    }
    assert!(!blocks.is_empty());
    for (i, x) in blocks.iter().enumerate() {
        for (j, y) in blocks.iter().enumerate() {
            if i != j {
                assert!(x.0 + x.1 <= y.0 || y.0 + y.1 <= x.0);
            }
        }
    }
}
