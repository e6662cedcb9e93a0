use theos::cpu::{ap_start_order, CPULocal, CpuTable};
use theos::fb::{clip_rect, draw_glyph, fill_rect, pixel_offset, put_pixel, put_pixels, ConOp, Console, FbInfo, Font, BG, FG};
use theos::kvfs::{console_file, ReadOp, WriteOp};
use theos::libc::{qsort, strchr, strcmp, strcpy, strlcat, strlcpy, strlen, strncmp, strncpy, strnlen, strrchr, BumpArena};
use theos::scheduler::TaskRef;

#[test]
fn c_string_lengths() {
    assert_eq!(strlen(b"abc\0def\0"), 3);
    assert_eq!(strlen(b"\0"), 0);
    assert_eq!(strnlen(b"abcdef", 4), 4);
    assert_eq!(strnlen(b"ab\0def", 4), 2);
}

#[test]
fn c_string_compare() {
    assert_eq!(strcmp(b"abc\0", b"abc\0"), 0);
    assert_eq!(strcmp(b"abd\0", b"abc\0"), 1);
    assert_eq!(strcmp(b"ab\0", b"abc\0"), -(b'c' as i32));
    assert_eq!(strncmp(b"abcx\0", b"abcy\0", 3), 0);
    assert_eq!(strncmp(b"abcx\0", b"abcy\0", 4), (b'x' as i32) - (b'y' as i32));
    assert_eq!(strncmp(b"a\0", b"a\0", 10), 0);
}

#[test]
fn c_string_copies() {
    let mut d = vec![9u8; 8];
    strcpy(&mut d, b"hi\0zz");
    assert_eq!(d, vec![b'h', b'i', 0, 9, 9, 9, 9, 9]);
    assert_eq!(strcmp(&d, b"hi\0zz"), 0);
    assert_eq!(strlen(&d), 2);

    let mut d = vec![9u8; 8];
    assert_eq!(strlcpy(&mut d, b"hello\0", 4), 5);
    assert_eq!(d, vec![b'h', b'e', b'l', 0, 9, 9, 9, 9]);
    let mut d = vec![9u8; 8];
    assert_eq!(strlcpy(&mut d, b"hello\0", 0), 5);
    assert_eq!(d, vec![9u8; 8]);

    let mut d = b"ab\0\0\0\0\0\0".to_vec();
    assert_eq!(strlcat(&mut d, b"cdef\0", 5), 6);
    assert_eq!(&d[..5], b"abcd\0");
    let mut d = b"abcdef\0\0".to_vec();
    assert_eq!(strlcat(&mut d, b"xy\0", 4), 8);
    assert_eq!(d, b"abcdef\0\0".to_vec());

    let mut d = vec![9u8; 6];
    strncpy(&mut d, b"ab\0", 5);
    assert_eq!(d, vec![b'a', b'b', 0, 0, 0, 9]);
    let mut d = vec![9u8; 4];
    strncpy(&mut d, b"abcdef", 3);
    assert_eq!(d, vec![b'a', b'b', b'c', 9]);
}

#[test]
fn c_string_search() {
    assert_eq!(strchr(b"banana\0", b'n' as i32), Some(2));
    assert_eq!(strrchr(b"banana\0", b'n' as i32), Some(4));
    assert_eq!(strchr(b"banana\0", b'z' as i32), None);
    assert_eq!(strchr(b"ab\0", 0), Some(2));
    assert_eq!(strrchr(b"ab\0", 0), Some(2));
}

#[test]
fn bump_allocator_aligns_to_16() {
    let mut a = BumpArena::new();
    assert_eq!(a.malloc(5), Some(0));
    assert_eq!(a.malloc(5), Some(16));
    assert_eq!(a.calloc(4, 8), Some(32));
    assert_eq!(a.malloc(16 * 1024 * 1024), None);
    assert_eq!(a.malloc(1), Some(64));
}

fn fb() -> FbInfo {
    FbInfo { phys: 0, pitch: 16, width: 4, height: 3, bpp: 32 }
}

#[test]
fn pixels_land_at_their_offsets() {
    let f = fb();
    assert_eq!(pixel_offset(&f, 1, 2), Some(36));
    assert_eq!(pixel_offset(&f, 4, 0), None);
    assert_eq!(pixel_offset(&f, 0, 3), None);
    let mut mem = vec![0u8; 48];
    put_pixel(&f, &mut mem, 1, 2, 0x11223344);
    assert_eq!(&mem[36..40], &[0x44, 0x33, 0x22, 0x11]);
    put_pixel(&f, &mut mem, 9, 9, 0xFFFFFFFF);
    assert_eq!(mem.iter().filter(|b| **b != 0).count(), 4);
    let f24 = FbInfo { phys: 0, pitch: 12, width: 4, height: 3, bpp: 24 };
    let mut mem = vec![0u8; 36];
    put_pixel(&f24, &mut mem, 3, 0, 0x00AABBCC);
    assert_eq!(&mem[9..12], &[0xCC, 0xBB, 0xAA]);
    assert_eq!(clip_rect(&f, 2, 1, 10, 1), (4, 2));
}

fn font(w: u32, h: u32) -> Vec<u8> {
    let bpg = h * ((w + 7) / 8);
    let mut d = vec![0u8; 32];
    d[8..12].copy_from_slice(&32u32.to_le_bytes());
    d[20..24].copy_from_slice(&bpg.to_le_bytes());
    d[24..28].copy_from_slice(&h.to_le_bytes());
    d[28..32].copy_from_slice(&w.to_le_bytes());
    d.resize(32 + 256 * bpg as usize, 0);
    // glyph 'A': a diagonal
    let a = 32 + 65 * bpg as usize;
    for row in 0..h as usize {
        d[a + row] = 0x80 >> row;
    }
    d
}

#[test]
fn glyphs_draw_their_bits() {
    assert!(Font::new(vec![0u8; 10]).is_none());
    let f = Font::new(font(8, 2)).unwrap();
    assert_eq!(f.glyph_w(), 8);
    assert_eq!(f.glyph_h(), 2);
    assert_eq!(f.glyph(b'A'), vec![0x80, 0x40]);
    let px = draw_glyph(&f, b'A', 10, 20);
    assert_eq!(px.len(), 16);
    assert_eq!(px[0], (10, 20, FG));
    assert_eq!(px[1], (11, 20, BG));
    assert_eq!(px[9], (11, 21, FG));
    assert_eq!(px[15], (17, 21, BG));
}

#[test]
fn console_cursor_wraps_and_scrolls() {
    let info = FbInfo { phys: 0, pitch: 64, width: 16, height: 32, bpp: 32 };
    let mut c = Console::new(Some(info), 8, 16);
    assert!(c.present());
    assert_eq!((c.text_cols(), c.text_rows()), (2, 2));
    assert_eq!(c.con_putc(b'a'), vec![ConOp::Draw { c: b'a', x: 0, y: 0 }]);
    assert_eq!(c.con_putc(b'b'), vec![ConOp::Draw { c: b'b', x: 8, y: 0 }]);
    assert_eq!(c.con_putc(b'c'), vec![ConOp::Draw { c: b'c', x: 0, y: 16 }]);
    assert_eq!(c.con_putc(b'\r'), vec![]);
    assert_eq!(c.con_putc(b'\n'), vec![ConOp::Scroll]);
    assert_eq!(c.con_putc(b'd'), vec![ConOp::Draw { c: b'd', x: 0, y: 16 }]);
    assert!(!Console::new(None, 8, 16).present());
}

#[test]
fn cpu_table_records_ids() {
    let mut t = CpuTable::new();
    t.register_cpu(0, 5);
    t.register_cpu(1, 7);
    assert_eq!(t.apic_id_of(1), 7);
    assert_eq!(t.index_of(7), 1);
    assert_eq!(t.index_of(5), 0);
    assert_eq!(t.index_of(9), 0);
    t.init(1, 0x9000, 0x1000);
    let l = t.local(1);
    assert_eq!(l.kernel_stack_top, 0x9000);
    assert_eq!(l.kernel_cr3, 0x1000);
    assert_eq!(l.cpu_id, 1);
    t.set_current_task(1, Some(TaskRef { cpu: 1, priority: 2, slot: 3 }));
    assert!(t.local(1).current_task == Some(TaskRef { cpu: 1, priority: 2, slot: 3 }));
    t.set_stack_top(1, 0xA000);
    assert_eq!(t.local(1).kernel_stack_top, 0xA000);
    let d = CPULocal::default();
    assert_eq!(d.user_rsp, 0);
}

#[test]
fn console_file_writes_to_serial() {
    let mut f = console_file();
    assert!(f.ops.write == WriteOp::Serial);
    assert!(f.ops.read == ReadOp::Unsupported);
    let (r, out) = f.write(b"hey");
    assert_eq!(r, 0);
    assert_eq!(out, b"hey".to_vec());
    assert_eq!(f.read(10), -1);
}

#[test]
fn fill_rect_paints_the_clipped_rectangle() {
    let f = fb();
    let mut mem = vec![0u8; 48];
    fill_rect(&f, &mut mem, 2, 1, 10, 1, 0x0A0B0C0D);
    for x in 0..4usize {
        for y in 0..3usize {
            let o = y * 16 + x * 4;
            let want: &[u8] = if y == 1 && x >= 2 { &[0x0D, 0x0C, 0x0B, 0x0A] } else { &[0, 0, 0, 0] };
            assert_eq!(&mem[o..o + 4], want);
        }
    }
    let f24 = FbInfo { phys: 0, pitch: 12, width: 4, height: 3, bpp: 24 };
    let mut mem = vec![0u8; 36];
    fill_rect(&f24, &mut mem, 3, 2, 5, 5, 0x00112233);
    assert_eq!(&mem[33..36], &[0x33, 0x22, 0x11]);
    assert_eq!(mem.iter().filter(|b| **b != 0).count(), 3);
}

#[test]
fn glyph_pixels_reach_memory() {
    let f = fb();
    let mut mem = vec![0u8; 48];
    put_pixels(&f, &mut mem, &[(0, 0, 0x01010101), (3, 2, 0x02020202), (7, 7, 0x03030303)]);
    assert_eq!(&mem[0..4], &[1, 1, 1, 1]);
    assert_eq!(&mem[44..48], &[2, 2, 2, 2]);
    assert_eq!(mem.iter().filter(|b| **b != 0).count(), 8);
}

#[test]
fn console_clear_and_scroll() {
    // Two text lines of one pixel line each, 2 pixels wide, pitch 8.
    let info = FbInfo { phys: 0, pitch: 8, width: 2, height: 2, bpp: 32 };
    let mut c = Console::new(Some(info), 1, 1);
    let mut mem: Vec<u8> = (1..=16).collect();
    c.con_putc(b'x');
    c.clear(&mut mem);
    assert_eq!(mem, vec![0u8; 16]);
    assert_eq!(c.con_putc(b'y'), vec![ConOp::Draw { c: b'y', x: 0, y: 0 }]);
    let mut mem: Vec<u8> = (1..=16).collect();
    c.scroll(&mut mem);
    let mut want: Vec<u8> = (9..=16).collect();
    want.extend_from_slice(&[0u8; 8]);
    assert_eq!(mem, want);
}

#[test]
fn application_processors_start_order() {
    assert_eq!(ap_start_order(&[], 0), vec![1, 2, 3, 4, 5, 6, 7]);
    assert_eq!(ap_start_order(&[0, 1, 2, 3], 0), vec![2, 1, 3]);
    assert_eq!(ap_start_order(&[3, 1, 2], 1), vec![2, 3]);
    let many: Vec<u8> = (0..16).collect();
    assert_eq!(ap_start_order(&many, 0), vec![2, 4, 6, 8, 10, 12, 14]);
}

fn by_first_byte(a: &[u8], b: &[u8]) -> i32 {
    a[0] as i32 - b[0] as i32
}

#[test]
fn qsort_orders_elements_by_comparator() {
    let mut v = vec![3u8, 0xa, 1, 0xb, 2, 0xc, 9, 9];
    qsort(&mut v, 3, 2, by_first_byte);
    // the byte past the three elements is left alone
    assert_eq!(v, vec![1, 0xb, 2, 0xc, 3, 0xa, 9, 9]);
}

#[test]
fn qsort_keeps_equal_elements_in_order() {
    let mut v = vec![2u8, 1, 1, 2, 2, 3, 1, 4];
    qsort(&mut v, 4, 2, by_first_byte);
    assert_eq!(v, vec![1, 2, 1, 4, 2, 1, 2, 3]);
}

#[test]
fn qsort_leaves_short_arrays_and_large_elements() {
    let mut one = vec![5u8, 4, 3];
    qsort(&mut one, 1, 3, by_first_byte);
    assert_eq!(one, vec![5, 4, 3]);
    let mut big = vec![0u8; 600];
    big[0] = 9;
    big[300] = 1;
    let before = big.clone();
    qsort(&mut big, 2, 300, by_first_byte);
    assert_eq!(big, before);
}

#[test]
fn qsort_with_descending_comparator() {
    let mut v = vec![1u8, 5, 3, 4, 2];
    qsort(&mut v, 5, 1, |a: &[u8], b: &[u8]| b[0] as i32 - a[0] as i32);
    assert_eq!(v, vec![5, 4, 3, 2, 1]);
}
