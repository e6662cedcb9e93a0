use theos::elf::load;
use theos::pmm::{BuddyAllocator, PAGE_SIZE};
use theos::syscalls::{map_user_stack, spawn_image, USER_STACK_PAGES};
use theos::vmm::{PageTables, ARENA_VADDR};

/// The last-level entry for `virt`, walking present entries through the tables.
fn walk(t: &PageTables, pml4: u64, virt: u64) -> Option<u64> {
    let mut table = pml4;
    for shift in [39u64, 30, 21] {
        let e = t.entry(table, ((virt >> shift) & 0x1FF) as usize)?;
        if e & 1 == 0 {
            return None;
        }
        table = e & !0xFFF;
    }
    t.entry(table, ((virt >> 12) & 0x1FF) as usize)
}

fn allocator(base: u64, order: usize) -> BuddyAllocator {
    let mut a = BuddyAllocator::new();
    a.free_page(base, order);
    a
}

const VIRT: u64 = 0x0000_0080_4000_1000;

#[test]
fn map_page_makes_tables_and_maps() {
    let mut pmm = allocator(0x200000, 4);
    let mut t = PageTables::new();
    let pml4 = t.create_address_space(&mut pmm, 0);
    assert_eq!(pml4, 0x200000);
    assert!(t.holds(pml4));
    assert!(t.map_page(&mut pmm, pml4, VIRT, 0x9000, 0x3));
    assert_eq!(t.entry(pml4, 1), Some(0x201007));
    assert_eq!(t.entry(0x201000, 1), Some(0x202007));
    assert_eq!(t.entry(0x202000, 0), Some(0x203007));
    assert_eq!(t.entry(0x203000, 1), Some(0x9003));
    assert_eq!(walk(&t, pml4, VIRT), Some(0x9003));
    assert_eq!(pmm.free_memory(), 12 * PAGE_SIZE);
    // A second page in the same last-level table takes no new table.
    assert!(t.map_page(&mut pmm, pml4, VIRT + 0x1000, 0xA000, 0x7));
    assert_eq!(walk(&t, pml4, VIRT + 0x1000), Some(0xA007));
    assert_eq!(walk(&t, pml4, VIRT), Some(0x9003));
    assert_eq!(pmm.free_memory(), 12 * PAGE_SIZE);
}

#[test]
fn unmap_page_clears_the_entry() {
    let mut pmm = allocator(0x200000, 4);
    let mut t = PageTables::new();
    let pml4 = t.create_address_space(&mut pmm, 0);
    assert!(t.map_page(&mut pmm, pml4, VIRT, 0x9000, 0x3));
    t.unmap_page(pml4, VIRT);
    assert_eq!(walk(&t, pml4, VIRT), Some(0));
    // Unmapping where nothing is mapped changes nothing.
    t.unmap_page(pml4, 0x1000);
    assert_eq!(walk(&t, pml4, 0x1000), None);
}

#[test]
fn walk_stops_at_unknown_tables() {
    let mut pmm = allocator(0x200000, 4);
    let mut t = PageTables::new();
    assert!(!t.map_page(&mut pmm, 0x300000, VIRT, 0x9000, 0x3));
    let mut top = vec![0u64; 512];
    top[1] = 0x777007;
    t.adopt(0x300000, &top);
    assert_eq!(t.entry(0x300000, 1), Some(0x777007));
    assert!(!t.map_page(&mut pmm, 0x300000, VIRT, 0x9000, 0x3));
    assert_eq!(pmm.free_memory(), 16 * PAGE_SIZE);
    assert!(!t.holds(0x777000));
}

#[test]
fn create_address_space_shares_the_kernel_entry() {
    let mut pmm = allocator(0x200000, 0);
    let mut t = PageTables::new();
    let pml4 = t.create_address_space(&mut pmm, 0x1234_5003);
    assert_eq!(pml4, 0x200000);
    assert_eq!(t.entry(pml4, 0), Some(0x1234_5003));
    assert_eq!(t.entry(pml4, 1), Some(0));
    assert_eq!(t.entry(pml4, 511), Some(0));
}

#[test]
fn free_table_gives_everything_back() {
    let mut pmm = allocator(0x200000, 4);
    let mut t = PageTables::new();
    let pml4 = t.create_address_space(&mut pmm, 0x5003);
    assert!(t.map_page(&mut pmm, pml4, VIRT, 0x9000, 0x3));
    t.free_table(&mut pmm, pml4, 4);
    // The mapped page is given back too; the five table pages merge back.
    assert_eq!(pmm.free_count(0), 1);
    assert_eq!(pmm.free_block(0, 0), 0x9000);
    assert_eq!(pmm.free_count(4), 1);
    assert_eq!(pmm.free_block(4, 0), 0x200000);
}

#[test]
fn arena_is_mapped_everywhere_alike() {
    let mut pmm = allocator(0x200000, 4);
    let mut t = PageTables::new();
    let pml4 = t.create_address_space(&mut pmm, 0);
    t.map_arena(&mut pmm, pml4, 0x800000);
    assert_eq!(walk(&t, pml4, ARENA_VADDR), Some(0x800007));
    assert_eq!(walk(&t, pml4, ARENA_VADDR + 5 * 0x1000), Some(0x805007));
    assert_eq!(walk(&t, pml4, ARENA_VADDR + 127 * 0x1000), Some(0x87F007));
    assert_eq!(walk(&t, pml4, ARENA_VADDR + 128 * 0x1000), Some(0));
}

#[test]
fn user_stack_is_mapped() {
    let mut pmm = allocator(0x400000, 8);
    let mut t = PageTables::new();
    let pml4 = t.create_address_space(&mut pmm, 0);
    let top = map_user_stack(&mut t, &mut pmm, pml4, USER_STACK_PAGES);
    assert_eq!(top, 0x1004_0000);
    for i in 0..64u64 {
        let e = walk(&t, pml4, 0x1000_0000 + i * 0x1000).unwrap();
        assert_eq!(e & 0xFFF, 0x7);
    }
    assert_eq!(walk(&t, pml4, 0x1004_0000), Some(0));
}

fn elf_image() -> Vec<u8> {
    let mut d = vec![0u8; 64];
    d[0..4].copy_from_slice(&[0x7F, b'E', b'L', b'F']);
    d[4] = 2;
    d[7] = 0xAE;
    d[24..32].copy_from_slice(&0x401000u64.to_le_bytes());
    d[32..40].copy_from_slice(&64u64.to_le_bytes());
    d[54..56].copy_from_slice(&56u16.to_le_bytes());
    d[56..58].copy_from_slice(&1u16.to_le_bytes());
    let mut ph = vec![0u8; 56];
    ph[0..4].copy_from_slice(&1u32.to_le_bytes());
    ph[8..16].copy_from_slice(&0xB0u64.to_le_bytes());
    ph[16..24].copy_from_slice(&0x400800u64.to_le_bytes());
    ph[32..40].copy_from_slice(&0x20u64.to_le_bytes());
    ph[40..48].copy_from_slice(&0x1900u64.to_le_bytes());
    d.extend_from_slice(&ph);
    d.resize(d.len() + 0x100, 0xCC);
    d
}

#[test]
fn load_maps_every_segment_page() {
    let mut pmm = allocator(0x200000, 4);
    let mut t = PageTables::new();
    let pml4 = t.create_address_space(&mut pmm, 0);
    let (entry, pages) = load(&mut t, &mut pmm, &elf_image(), pml4).unwrap();
    assert_eq!(entry, 0x401000);
    assert_eq!(pages.len(), 3);
    assert_eq!(pages[0].plan.vaddr, 0x400000);
    assert_eq!(pages[1].plan.vaddr, 0x401000);
    assert_eq!(pages[2].plan.vaddr, 0x402000);
    assert_eq!(pages[0].phys, 0x201000);
    assert_eq!(walk(&t, pml4, 0x400000), Some(pages[0].phys | 7));
    assert_eq!(walk(&t, pml4, 0x401000), Some(pages[1].phys | 7));
    assert_eq!(walk(&t, pml4, 0x402000), Some(pages[2].phys | 7));
    let copy = pages[0].plan.copy.unwrap();
    assert_eq!((copy.src, copy.dst, copy.len), (0xB0, 0x800, 0x20));
    assert!(pages[1].plan.copy.is_none());
    assert!(pages[2].plan.copy.is_none());
}

#[test]
fn load_fails_without_memory_or_on_bad_image() {
    let mut pmm = allocator(0x200000, 0);
    let mut t = PageTables::new();
    let pml4 = t.create_address_space(&mut pmm, 0);
    assert!(load(&mut t, &mut pmm, &elf_image(), pml4).is_none());
    let mut bad = elf_image();
    bad[7] = 0;
    assert!(load(&mut t, &mut pmm, &bad, pml4).is_none());
}

#[test]
fn spawn_image_builds_an_address_space() {
    let mut pmm = allocator(0x400000, 8);
    let mut t = PageTables::new();
    let (pml4, entry, pages, top) = spawn_image(&mut t, &mut pmm, &elf_image(), 0x1234_5003, USER_STACK_PAGES).unwrap();
    assert_eq!(pml4, 0x400000);
    assert_eq!(entry, 0x401000);
    assert_eq!(pages.len(), 3);
    assert_eq!(top, 0x1004_0000);
    assert_eq!(t.entry(pml4, 0), Some(0x1234_5003));
    // The shared entry 0 leads to tables these page tables do not hold: nothing
    // could be mapped below it.
    assert_eq!(walk(&t, pml4, 0x400000), None);

    let mut pmm = allocator(0x400000, 8);
    let mut t = PageTables::new();
    let (pml4, _, pages, _) = spawn_image(&mut t, &mut pmm, &elf_image(), 0, USER_STACK_PAGES).unwrap();
    assert_eq!(walk(&t, pml4, 0x400000), Some(pages[0].phys | 7));
    assert_eq!(walk(&t, pml4, 0x1000_0000).map(|e| e & 0xFFF), Some(7));
}

#[test]
fn spawn_image_gives_back_a_failed_load() {
    let mut pmm = allocator(0x200000, 0);
    let mut t = PageTables::new();
    assert!(spawn_image(&mut t, &mut pmm, &elf_image(), 0, USER_STACK_PAGES).is_none());
    assert_eq!(pmm.free_count(0), 1);
    assert_eq!(pmm.free_block(0, 0), 0x200000);
    let mut bad = elf_image();
    bad[0] = 0;
    let mut pmm = allocator(0x200000, 2);
    assert!(spawn_image(&mut t, &mut pmm, &bad, 0, USER_STACK_PAGES).is_none());
    assert_eq!(pmm.free_count(2), 1);
}

fn image_with(vaddr: u64, filesz: u64, memsz: u64) -> Vec<u8> {
    let mut d = vec![0u8; 64];
    d[0..4].copy_from_slice(&[0x7F, b'E', b'L', b'F']);
    d[4] = 2;
    d[7] = 0xAE;
    d[24..32].copy_from_slice(&0x401000u64.to_le_bytes());
    d[32..40].copy_from_slice(&64u64.to_le_bytes());
    d[54..56].copy_from_slice(&56u16.to_le_bytes());
    d[56..58].copy_from_slice(&1u16.to_le_bytes());
    let mut ph = vec![0u8; 56];
    ph[0..4].copy_from_slice(&1u32.to_le_bytes());
    ph[16..24].copy_from_slice(&vaddr.to_le_bytes());
    ph[32..40].copy_from_slice(&filesz.to_le_bytes());
    ph[40..48].copy_from_slice(&memsz.to_le_bytes());
    d.extend_from_slice(&ph);
    d
}

#[test]
fn load_takes_file_data_beyond_memory_size() {
    let mut pmm = allocator(0x200000, 4);
    let mut t = PageTables::new();
    let pml4 = t.create_address_space(&mut pmm, 0);
    // one file byte, no memory: no page, and the entry point all the same
    let (entry, pages) = load(&mut t, &mut pmm, &image_with(0, 1, 0), pml4).unwrap();
    assert_eq!(entry, 0x401000);
    assert!(pages.is_empty());
    // 100 file bytes into 16 bytes of memory at the end of a page: one page, and
    // only what falls inside it is copied
    let (_, pages) = load(&mut t, &mut pmm, &image_with(0x400FF8, 100, 16), pml4).unwrap();
    assert_eq!(pages.len(), 2);
    let c0 = pages[0].plan.copy.unwrap();
    assert_eq!((c0.src, c0.dst, c0.len), (0, 0xFF8, 8));
    let c1 = pages[1].plan.copy.unwrap();
    assert_eq!((c1.src, c1.dst, c1.len), (8, 0, 92));
}
