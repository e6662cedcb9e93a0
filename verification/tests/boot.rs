use theos::acpi::{hpet_mmio, lapic_ids, root_table, rsdp_offset, sdt_entries, sig_match};
use theos::fb::{fb_info, FbInfo};
use theos::modules::Modules;
use theos::multiboot::{memory_regions, tag_offsets};

fn tag(ty: u32, body: &[u8]) -> Vec<u8> {
    let mut t = Vec::new();
    t.extend_from_slice(&ty.to_le_bytes());
    t.extend_from_slice(&((8 + body.len()) as u32).to_le_bytes());
    t.extend_from_slice(body);
    while t.len() % 8 != 0 {
        t.push(0);
    }
    t
}

fn info(tags: &[Vec<u8>]) -> Vec<u8> {
    let mut i = vec![0u8; 8];
    for t in tags {
        i.extend_from_slice(t);
    }
    i.extend_from_slice(&tag(0, &[]));
    let total = i.len() as u32;
    i[0..4].copy_from_slice(&total.to_le_bytes());
    i
}

fn module_body(start: u32, end: u32) -> Vec<u8> {
    let mut b = Vec::new();
    b.extend_from_slice(&start.to_le_bytes());
    b.extend_from_slice(&end.to_le_bytes());
    b.extend_from_slice(b"mod\0");
    b
}

#[test]
fn tag_offsets_walks_padded_tags() {
    let i = info(&[tag(3, &module_body(0x10000, 0x12000)), tag(9, &[1, 2, 3])]);
    assert_eq!(tag_offsets(&i), Some(vec![8, 32]));
    assert_eq!(tag_offsets(&i[..12]), None);
}

#[test]
fn memory_regions_lists_available_entries() {
    let mut body = Vec::new();
    body.extend_from_slice(&24u32.to_le_bytes());
    body.extend_from_slice(&0u32.to_le_bytes());
    for (base, len, ty) in [(0u64, 0x9F000u64, 1u32), (0x100000, 0x7F00000, 1), (0xF0000, 0x10000, 2)] {
        body.extend_from_slice(&base.to_le_bytes());
        body.extend_from_slice(&len.to_le_bytes());
        body.extend_from_slice(&ty.to_le_bytes());
        body.extend_from_slice(&0u32.to_le_bytes());
    }
    let i = info(&[tag(6, &body)]);
    assert_eq!(memory_regions(&i), Some(vec![(0, 0x9F000), (0x100000, 0x7F00000)]));
}

#[test]
fn modules_from_tags() {
    let i = info(&[tag(3, &module_body(0x10000, 0x12000)), tag(3, &module_body(0x20000, 0x20000)), tag(3, &module_body(0x30100, 0x30200))]);
    let m = Modules::init(&i).unwrap();
    assert_eq!(m.count(), 2);
    assert_eq!(m.get(0), Some((0x10000, 0x2000)));
    assert_eq!(m.get(1), Some((0x30100, 0x100)));
    assert_eq!(m.get(2), None);
    assert!(m.overlaps(0x11000, 0x1000));
    assert!(!m.overlaps(0x12000, 0x1000));
    assert!(m.overlaps(0x30000, 0x100));
    assert!(m.overlaps(0x30F00, 0x10));
    assert!(!m.overlaps(0x31000, 0x1000));
    assert!(!Modules::new().overlaps(0, 0x100000));
}

#[test]
fn modules_keeps_at_most_four() {
    let tags: Vec<Vec<u8>> = (0..6).map(|k| tag(3, &module_body(0x1000 * (k + 1), 0x1000 * (k + 1) + 0x10))).collect();
    let m = Modules::init(&info(&tags)).unwrap();
    assert_eq!(m.count(), 4);
    assert_eq!(m.get(3), Some((0x4000, 0x10)));
}

#[test]
fn modules_malformed_info() {
    assert!(Modules::init(&[0u8; 4]).is_none());
}

#[test]
fn framebuffer_from_tag() {
    let mut body = Vec::new();
    body.extend_from_slice(&0xFD00_0000u64.to_le_bytes());
    body.extend_from_slice(&4096u32.to_le_bytes());
    body.extend_from_slice(&1024u32.to_le_bytes());
    body.extend_from_slice(&768u32.to_le_bytes());
    body.push(32);
    body.push(1);
    body.extend_from_slice(&[0, 0]);
    let i = info(&[tag(8, &body)]);
    let f = fb_info(&i).unwrap().unwrap();
    assert!(f == FbInfo { phys: 0xFD00_0000, pitch: 4096, width: 1024, height: 768, bpp: 32 });
    body[21] = 2;
    let i = info(&[tag(8, &body)]);
    assert!(fb_info(&i) == Some(None));
    let i = info(&[]);
    assert!(fb_info(&i) == Some(None));
}

#[test]
fn rsdp_last_acpi_tag() {
    let i = info(&[tag(14, &[1u8; 20]), tag(15, &[2u8; 36])]);
    let offs = tag_offsets(&i).unwrap();
    assert_eq!(rsdp_offset(&i), Some(Some(offs[1] + 8)));
    assert_eq!(rsdp_offset(&info(&[tag(3, &module_body(1, 2))])), Some(None));
}

#[test]
fn root_table_by_revision() {
    let mut r = vec![0u8; 36];
    r[16..20].copy_from_slice(&0x7FE0_0000u32.to_le_bytes());
    r[24..32].copy_from_slice(&0x1_0000_0000u64.to_le_bytes());
    assert_eq!(root_table(&r), (false, 0x7FE0_0000));
    r[15] = 2;
    assert_eq!(root_table(&r), (true, 0x1_0000_0000));
}

#[test]
fn sdt_entries_of_rsdt_and_xsdt() {
    let mut t = vec![0u8; 36];
    t[0..4].copy_from_slice(b"RSDT");
    t.extend_from_slice(&0x1000u32.to_le_bytes());
    t.extend_from_slice(&0x2000u32.to_le_bytes());
    let len = t.len() as u32;
    t[4..8].copy_from_slice(&len.to_le_bytes());
    assert_eq!(sdt_entries(&t, false), vec![0x1000, 0x2000]);
    let mut x = vec![0u8; 36];
    x.extend_from_slice(&0x1_2345_6789u64.to_le_bytes());
    let len = x.len() as u32;
    x[4..8].copy_from_slice(&len.to_le_bytes());
    assert_eq!(sdt_entries(&x, true), vec![0x1_2345_6789]);
    assert!(sig_match(&t, b"RSDT"));
    assert!(!sig_match(&t, b"XSDT"));
    assert!(!sig_match(b"AP", b"APIC"));
}

#[test]
fn madt_lists_enabled_processors() {
    let mut m = vec![0u8; 44];
    // processor 0: enabled; processor 1: disabled; an I/O APIC entry; processor 2: enabled
    m.extend_from_slice(&[0, 8, 0, 0, 1, 0, 0, 0]);
    m.extend_from_slice(&[0, 8, 1, 1, 0, 0, 0, 0]);
    m.extend_from_slice(&[1, 12, 0, 0, 0, 0, 0, 0, 0, 0, 0, 0]);
    m.extend_from_slice(&[0, 8, 2, 3, 1, 0, 0, 0]);
    assert_eq!(lapic_ids(&m), vec![0, 3]);
    // a zero-length entry ends the walk
    let mut z = vec![0u8; 44];
    z.extend_from_slice(&[0, 0, 0, 5, 1, 0, 0, 0]);
    assert_eq!(lapic_ids(&z), Vec::<u8>::new());
}

#[test]
fn hpet_address_from_table() {
    let mut t = vec![0u8; 56];
    t[44..52].copy_from_slice(&0xFED0_0000u64.to_le_bytes());
    assert_eq!(hpet_mmio(&t), 0xFED0_0000);
}
