use theos::descriptors::{cpu_gdt, handled_vectors, make_entry, msr_halves, msr_join, syscall_msrs, tss_descriptor};
use theos::hpet::{now_ns, period_fs, sleep_ns};
use theos::lapic;
use theos::pci::{bar_offset, class_info, config_address, on_find, parse_find_reply, vendor_device, PciFunction};
use theos::pit;
use theos::serial;

#[test]
fn serial_init_writes_registers_in_order() {
    let w = serial::init();
    assert_eq!(
        w,
        vec![(0x3F9, 0x00), (0x3FB, 0x80), (0x3F8, 0x01), (0x3F9, 0x00), (0x3FB, 0x03), (0x3FA, 0xC7), (0x3FC, 0x0B)]
    );
}

#[test]
fn serial_tx_ready_tests_bit_5() {
    assert!(serial::tx_ready(0x20));
    assert!(serial::tx_ready(0x60));
    assert!(!serial::tx_ready(0x1F));
    assert_eq!(serial::write_byte(b'A'), (0x3F8, b'A'));
}

#[test]
fn serial_write_str_sends_bytes() {
    assert_eq!(serial::write_str("hi!"), b"hi!".to_vec());
    assert_eq!(serial::write_str(""), Vec::<u8>::new());
}

#[test]
fn serial_write_hex_pads_to_sixteen_digits() {
    assert_eq!(serial::write_hex(0), b"0x0000000000000000".to_vec());
    assert_eq!(serial::write_hex(0xdeadbeef), b"0x00000000deadbeef".to_vec());
    assert_eq!(serial::write_hex(u64::MAX), b"0xffffffffffffffff".to_vec());
}

#[test]
fn serial_lock_and_unlock() {
    let mut l = theos::pmm::SpinLock::new();
    serial::lock(&mut l);
    assert!(l.try_lock());
    serial::unlock(&mut l);
    assert!(!l.try_lock());
}

#[test]
fn lapic_register_writes() {
    assert_eq!(lapic::base(0xFEE0_0900), 0xFEE0_0000);
    assert_eq!(lapic::init(0x0000_00FF), (0x0F0, 0x1FF));
    assert_eq!(lapic::init(0x0000_1000), (0x0F0, 0x11FF));
    assert_eq!(lapic::init_timer(), vec![(0x3E0, 3), (0x320, 0x20040), (0x380, 100_000)]);
    assert_eq!(lapic::eoi(), (0x0B0, 0));
    assert_eq!(lapic::send_ipi(3, 0x40), vec![(0x310, 3 << 24), (0x300, 0x4040)]);
    assert_eq!(lapic::send_init(2), vec![(0x310, 2 << 24), (0x300, 0x4500)]);
    assert_eq!(lapic::send_sipi(1, 0x08), vec![(0x310, 1 << 24), (0x300, 0x4608)]);
    assert_eq!(lapic::id(0x0500_0000), 5);
}

#[test]
fn pit_divisor_bytes() {
    // 1193182 / 100 = 11931 = 0x2E9B
    assert_eq!(pit::init(100), vec![(0x43, 0x36), (0x40, 0x9B), (0x40, 0x2E)]);
    // 1193182 / 1000 = 1193 = 0x04A9
    assert_eq!(pit::init(1000), vec![(0x43, 0x36), (0x40, 0xA9), (0x40, 0x04)]);
}

#[test]
fn hpet_time_formula() {
    assert_eq!(period_fs(0x0098_9680_0000_0000), 0x0098_9680);
    // 10 MHz counter: period 100_000_000 fs, 25 ticks = 2500 ns.
    assert_eq!(now_ns(25, 100_000_000), 2500);
    assert_eq!(now_ns(u64::MAX, 2), (u64::MAX.wrapping_mul(2)) / 1_000_000);
    assert!(sleep_ns(1000, 1500, 1000));
    assert!(!sleep_ns(1000, 2000, 1000));
}

#[test]
fn pci_config_words() {
    assert_eq!(config_address(0, 0, 0, 0), 0x8000_0000);
    assert_eq!(config_address(1, 2, 3, 0x13), 0x8001_1310);
    assert_eq!(vendor_device(0x1234_8086), (0x8086, 0x1234));
    assert_eq!(class_info(0x0C03_3001), (0x0C, 0x03, 0x30));
    assert_eq!(bar_offset(0), 0x10);
    assert_eq!(bar_offset(5), 0x24);
}

fn func(bus: u8, class: u8, sub: u8, pi: u8) -> PciFunction {
    PciFunction {
        bus,
        device: 1,
        function: 0,
        vendor: 0x8086,
        device_id: 0x1000 + bus as u16,
        class,
        subclass: sub,
        prog_if: pi,
        bar0: 0xF000_0004,
        bar1: 0x1,
    }
}

#[test]
fn pci_on_find_picks_indexed_match() {
    let fs = vec![func(0, 1, 1, 0), func(1, 0x0C, 0x03, 0x30), func(2, 0x0C, 0x03, 0x20), func(3, 0x0C, 0x03, 0x30)];
    let r = on_find(&[9, 0x0C, 0x03, 0x30, 1], &fs);
    assert_eq!(
        r,
        vec![1, 3, 1, 0, 0x86, 0x80, 0x03, 0x10, 0x0C, 0x03, 0x30, 0, 0x04, 0x00, 0x00, 0xF0, 0x01, 0, 0, 0]
    );
    // any interface: the second match is bus 2
    let r = on_find(&[9, 0x0C, 0x03, 0xFF, 1], &fs);
    assert_eq!(r[1], 2);
    // short request: any interface, first match
    let r = on_find(&[9, 0x0C, 0xFF], &fs);
    assert_eq!(r[1], 1);
    // no match
    assert_eq!(on_find(&[9, 0x02, 0xFF], &fs), vec![0]);
    assert_eq!(on_find(&[9, 0x0C, 0x03, 0x30, 2], &fs), vec![0]);
}

#[test]
fn pci_on_find_skips_absent_vendor() {
    let mut f = func(0, 1, 1, 0);
    f.vendor = 0xFFFF;
    assert_eq!(on_find(&[9, 1, 1], &[f]), vec![0]);
}

#[test]
fn idt_entry_splits_handler() {
    let e = make_entry(0x1122_3344_5566_7788);
    assert_eq!(e.offset_low, 0x7788);
    assert_eq!(e.offset_mid, 0x5566);
    assert_eq!(e.offset_high, 0x1122_3344);
    assert_eq!(e.selector, 0x08);
    assert_eq!(e.attr, 0x8E);
    assert_eq!(handled_vectors(), [0, 6, 8, 13, 14, 32, 33, 64, 65]);
}

#[test]
fn gdt_tss_descriptor() {
    let (lo, hi) = tss_descriptor(0x0000_1234_5678_9ABC);
    assert_eq!(hi, 0x1234);
    assert_eq!(lo & 0xFFFF, 103);
    assert_eq!((lo >> 16) & 0xFFFF, 0x9ABC);
    assert_eq!((lo >> 32) & 0xFF, 0x78);
    assert_eq!((lo >> 40) & 0xFF, 0x89);
    assert_eq!((lo >> 56) & 0xFF, 0x56);
    let g = cpu_gdt(0x1000);
    assert_eq!(g[1], 0x00AF9A000000FFFF);
    assert_eq!(g[6], 0);
}

#[test]
fn syscall_msr_values() {
    let w = syscall_msrs(0xD00, 0xFFFF_8000_0010_0000);
    assert_eq!(w[0], (0xC000_0080, 0xD01));
    assert_eq!(w[1], (0xC000_0081, 0x0013_0008_0000_0000));
    assert_eq!(w[2], (0xC000_0082, 0xFFFF_8000_0010_0000));
    assert_eq!(w[3], (0xC000_0084, 0x200));
    assert_eq!(msr_halves(0x1111_2222_3333_4444), (0x3333_4444, 0x1111_2222));
    assert_eq!(msr_join(0x3333_4444, 0x1111_2222), 0x1111_2222_3333_4444);
}

#[test]
fn pci_find_reply_reads_back() {
    let fs = vec![func(0, 1, 1, 0), func(1, 0x0C, 0x03, 0x30)];
    let mut r = on_find(&[9, 0x0C, 0x03], &fs);
    let f = parse_find_reply(&r).unwrap();
    assert!(f == fs[1]);
    let mut out = vec![0u8; 20];
    out[..1].copy_from_slice(&on_find(&[9, 0x02, 0xFF], &fs));
    assert!(parse_find_reply(&out).is_none());
    r[5] = 0x12;
    assert_eq!(parse_find_reply(&r).unwrap().vendor, 0x1286);
}
