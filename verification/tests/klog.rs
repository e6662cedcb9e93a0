use theos::klog::{Klog, DUMP_TAIL, KLOG_SIZE};

fn hex(v: u64) -> String {
    format!("0x{:016x}", v)
}

#[test]
fn klog_starts_empty() {
    let k = Klog::new();
    assert_eq!(k.len(), 0);
    assert_eq!(k.read_crash_snapshot(100, 0), Vec::<u8>::new());
}

#[test]
fn klog_append_keeps_bytes_in_order() {
    let mut k = Klog::new();
    k.append(b"hello ");
    k.append(b"world");
    assert_eq!(k.len(), 11);
    let d = k.dump();
    let mut want = b"\n===== KLOG TAIL DUMP =====\n".to_vec();
    want.extend_from_slice(b"hello world");
    want.extend_from_slice(b"\n===== END KLOG =====\n");
    assert_eq!(d, want);
}

#[test]
fn klog_keeps_only_newest_bytes_after_wrap() {
    let mut k = Klog::new();
    let mut all: Vec<u8> = Vec::new();
    for i in 0..(KLOG_SIZE + 1000) {
        all.push((i % 251) as u8);
    }
    k.append(&all);
    assert_eq!(k.len(), KLOG_SIZE);
    k.snapshot_crash(0, 0, 0, 0, 0, false);
    let snap = k.read_crash_snapshot(KLOG_SIZE, 0);
    assert_eq!(snap.len(), KLOG_SIZE);
    assert_eq!(&snap[..], &all[1000..]);
}

#[test]
fn klog_dump_shows_only_the_tail() {
    let mut k = Klog::new();
    let mut all: Vec<u8> = Vec::new();
    for i in 0..(DUMP_TAIL + 10) {
        all.push((i % 200) as u8 + 1);
    }
    k.append(&all);
    let d = k.dump();
    let header = b"\n===== KLOG TAIL DUMP =====\n";
    let footer = b"\n===== END KLOG =====\n";
    assert_eq!(d.len(), header.len() + DUMP_TAIL + footer.len());
    assert_eq!(&d[header.len()..header.len() + DUMP_TAIL], &all[10..]);
}

#[test]
fn klog_dump_once_dumps_once() {
    let mut k = Klog::new();
    k.append(b"x");
    assert!(k.dump_once().is_some());
    assert!(k.dump_once().is_none());
}

#[test]
fn klog_snapshot_crash_appends_fault_record() {
    let mut k = Klog::new();
    k.append(b"boot\n");
    k.snapshot_crash(2, 0xdead, 0x401000, 0x7000, 1, true);
    let want = format!(
        "boot\n\n===== KERNEL PAGE FAULT =====\nerror={}\ncr2={}\nrip={}\nrsp={}\ncpu={}\n",
        hex(2),
        hex(0xdead),
        hex(0x401000),
        hex(0x7000),
        hex(1)
    );
    let snap = k.read_crash_snapshot(4096, 0);
    assert_eq!(String::from_utf8(snap).unwrap(), want);
}

#[test]
fn klog_snapshot_without_lock_copies_log_only() {
    let mut k = Klog::new();
    k.append(b"abc");
    k.snapshot_crash(1, 2, 3, 4, 5, false);
    assert_eq!(k.read_crash_snapshot(10, 0), b"abc".to_vec());
}

#[test]
fn klog_read_crash_snapshot_offset_and_max() {
    let mut k = Klog::new();
    k.append(b"0123456789");
    k.snapshot_crash(0, 0, 0, 0, 0, false);
    assert_eq!(k.read_crash_snapshot(3, 2), b"234".to_vec());
    assert_eq!(k.read_crash_snapshot(100, 8), b"89".to_vec());
    assert_eq!(k.read_crash_snapshot(100, 10), Vec::<u8>::new());
    assert_eq!(k.read_crash_snapshot(100, 50), Vec::<u8>::new());
}
