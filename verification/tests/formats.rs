use theos::ipc::alloc_con;
use theos::scheduler::{Schedulers, TaskRef};
use theos::elf::{parse, segment_pages, PageCopy, PagePlan, Segment};
use theos::syscalls::{
    classify, code_candidates, decode, fatal_report, kernel_fault_report, route_ipc_peer, user_fault_report, Exception, Syscall,
    UNKNOWN_SYSCALL,
};
use theos::usb::{
    address_device_writes, config_fetch_len, configure_endpoint_writes, dbc_ep_context, dbc_info_context, evaluate_context_writes,
    ext_cap_step, scratchpad_count, ExtCapStep,
    bulk_dcis, bulk_endpoints, bulk_trb, cbw, control_trbs, csw_ok, decode_caps, device_mps0, ep_ctx_dw1, find_port, is_xhci,
    lang_descriptor, link_trb, mps0_for_speed, parse_capacity, port_reset_value, read10, read_capacity10, string_descriptor,
    sync_cache10, test_unit_ready, write10, xhci_bar, block_request, EventRing, ScsiStage, ScsiStep, ScsiTransfer, Trb, TrbRing,
};

fn elf_image(phnum: u16, segs: &[(u32, u64, u64, u64, u64)]) -> Vec<u8> {
    let mut d = vec![0u8; 64];
    d[0..4].copy_from_slice(&[0x7F, b'E', b'L', b'F']);
    d[4] = 2;
    d[7] = 0xAE;
    d[24..32].copy_from_slice(&0x401000u64.to_le_bytes());
    d[32..40].copy_from_slice(&64u64.to_le_bytes());
    d[54..56].copy_from_slice(&56u16.to_le_bytes());
    d[56..58].copy_from_slice(&phnum.to_le_bytes());
    for (ty, off, vaddr, filesz, memsz) in segs {
        let mut ph = vec![0u8; 56];
        ph[0..4].copy_from_slice(&ty.to_le_bytes());
        ph[8..16].copy_from_slice(&off.to_le_bytes());
        ph[16..24].copy_from_slice(&vaddr.to_le_bytes());
        ph[32..40].copy_from_slice(&filesz.to_le_bytes());
        ph[40..48].copy_from_slice(&memsz.to_le_bytes());
        d.extend_from_slice(&ph);
    }
    d.resize(d.len() + 0x100, 0xCC);
    d
}

#[test]
fn elf_parse_loadable_segments() {
    let img = elf_image(2, &[(1, 0xB0, 0x400800, 0x20, 0x1900), (4, 0, 0, 0, 0)]);
    let (entry, segs) = parse(&img).unwrap();
    assert_eq!(entry, 0x401000);
    assert_eq!(segs.len(), 1);
    assert!(segs[0] == Segment { offset: 0xB0, vaddr: 0x400800, filesz: 0x20, memsz: 0x1900 });
}

#[test]
fn elf_parse_rejects_bad_images() {
    let img = elf_image(1, &[(1, 0xB0, 0x400000, 0x20, 0x20)]);
    assert!(parse(&img[..63]).is_none());
    let mut bad = img.clone();
    bad[1] = b'X';
    assert!(parse(&bad).is_none());
    let mut bad = img.clone();
    bad[4] = 1;
    assert!(parse(&bad).is_none());
    let mut bad = img.clone();
    bad[7] = 0;
    assert!(parse(&bad).is_none());
    // program headers past the end
    let mut bad = img.clone();
    bad[56..58].copy_from_slice(&100u16.to_le_bytes());
    assert!(parse(&bad).is_none());
    // file data past the end
    let big = elf_image(1, &[(1, 0xB0, 0x400000, 0x10000, 0x10000)]);
    assert!(parse(&big).is_none());
}

#[test]
fn elf_segment_page_plan() {
    let s = Segment { offset: 0x1000, vaddr: 0x400800, filesz: 0x1000, memsz: 0x1900 };
    let p = segment_pages(s);
    assert_eq!(p.len(), 3);
    assert!(p[0] == PagePlan { vaddr: 0x400000, copy: Some(PageCopy { src: 0x1000, dst: 0x800, len: 0x800 }) });
    assert!(p[1] == PagePlan { vaddr: 0x401000, copy: Some(PageCopy { src: 0x1800, dst: 0, len: 0x800 }) });
    assert!(p[2] == PagePlan { vaddr: 0x402000, copy: None });
}

#[test]
fn syscall_decoding() {
    assert!(decode(0, 1, 2, 3, 4) == Syscall::Exit);
    assert!(decode(1, 3, 0, 0, 0) == Syscall::AllocPages { order: 3 });
    assert!(decode(2, 0x5000, 1, 0, 0) == Syscall::FreePages { addr: 0x5000, order: 1 });
    assert!(decode(5, 0x10, 0x20, 0x103, 0) == Syscall::Spawn { image: 0x10, image_len: 0x20, cpu: 3 });
    assert!(decode(6, 0xFFFF_FFFF, 9, 5, 0) == Syscall::IpcWrite { ipcd: -1, msg: 9, len: 5 });
    assert!(decode(11, 1, 2, 3, 4) == Syscall::IpcCall { ipcd: 1, msg: 2, len: 3, out: 4 });
    assert!(decode(16, 3, 0, 0, 0) == Syscall::Block { service: 3 });
    assert!(decode(18, 0, 0, 0, 0) == Syscall::SetDirectWake { on: false });
    assert!(decode(18, 2, 0, 0, 0) == Syscall::SetDirectWake { on: true });
    assert!(decode(19, 0, 0, 0, 0) == Syscall::Unknown);
    assert_eq!(UNKNOWN_SYSCALL, u64::MAX);
}

#[test]
fn exception_classification() {
    assert!(classify(32, 0) == Exception::PitTick);
    assert!(classify(33, 3) == Exception::Keyboard);
    assert!(classify(64, 0x1b) == Exception::LapicTimer);
    assert!(classify(65, 0) == Exception::Msi);
    assert!(classify(14, 0x1b) == Exception::UserFault { page_fault: true });
    assert!(classify(13, 0x23) == Exception::UserFault { page_fault: false });
    assert!(classify(14, 0x08) == Exception::KernelPageFault);
    assert!(classify(6, 0x08) == Exception::Fatal);
    assert_eq!(code_candidates(&[0x3FFFFF, 0x400000, 0x6FFFFF, 0x700000, 0x401234]), vec![0x400000, 0x6FFFFF, 0x401234]);
}

#[test]
fn route_ipc_peer_finds_or_opens_connection() {
    let mut s = Schedulers::new();
    let a = s.spawn_task(0, 1, 0, 0, 0, 0);
    let b = s.spawn_task(1, 1, 0, 0, 0, 0);
    let ra = TaskRef { cpu: 0, priority: 1, slot: 0 };
    let rb = TaskRef { cpu: 1, priority: 1, slot: 0 };
    let mut ta = s.task(ra).unwrap();
    let ipcd = alloc_con(&mut ta, b);
    s.set_task(ra, ta);
    assert_eq!(route_ipc_peer(&mut s, ra, ipcd), Some((rb, 0)));
    assert_eq!(s.task(rb).unwrap().ipc_con[0].unwrap().peer_pid, a);
    // a second time the same connection is found
    assert_eq!(route_ipc_peer(&mut s, ra, ipcd), Some((rb, 0)));
    assert!(s.task(rb).unwrap().ipc_con[1].is_none());
    // no such connection
    assert_eq!(route_ipc_peer(&mut s, ra, 5), None);
}

#[test]
fn trb_ring_wraps_with_link() {
    let mut r = TrbRing::new(0x10000);
    let (p, w) = r.push(0xAA, 8, 0x800);
    assert_eq!(p, 0x10000);
    assert!(w[0] == (0, Trb { param: 0xAA, status: 8, control: 0x801 }));
    for _ in 1..254 {
        r.push(0, 0, 0);
    }
    let (p, w) = r.push(0xBB, 0, 0x400);
    assert_eq!(p, 0x10000 + 254 * 16);
    assert_eq!(w.len(), 2);
    assert!(w[1] == (255, Trb { param: 0x10000, status: 0, control: (6 << 10) | 2 | 1 }));
    // the cycle bit flipped
    let (p, w) = r.push(0, 0, 0);
    assert_eq!(p, 0x10000);
    assert!(w[0] == (0, Trb { param: 0, status: 0, control: 0 }));
}

#[test]
fn event_ring_consumes_by_cycle_bit() {
    let mut e = EventRing::new(0x20000);
    assert!(e.consume(Trb { param: 1, status: 0, control: 0 }).is_none());
    let ev = e.consume(Trb { param: 0x55, status: 0x0100_0000, control: (33 << 10) | 1 }).unwrap();
    assert_eq!(ev.ttype, 33);
    assert_eq!(ev.code, 1);
    assert_eq!(ev.param, 0x55);
    assert_eq!(e.dequeue(), 1);
    assert_eq!(e.erdp(), 0x20000 + 16 | 8);
}

#[test]
fn controller_capabilities() {
    let c = decode_caps(0x0100_0020, 0x0800_0040, 0x0000_0004 | (0x50 << 16), 0x2003, 0x3015);
    assert_eq!(c.cap_len, 0x20);
    assert_eq!(c.max_slots, 0x40);
    assert_eq!(c.max_ports, 8);
    assert_eq!(c.csz, 64);
    assert_eq!(c.xecp, 0x50);
    assert_eq!(c.dboff, 0x2000);
    assert_eq!(c.rtsoff, 0x3000);
    assert_eq!(decode_caps(0, 0, 0, 0, 0).csz, 32);
}

#[test]
fn port_choice_prefers_enabled_then_speed() {
    let connected_slow = 1 | (1 << 10);
    let connected_enabled_fast = 1 | 2 | (4 << 10);
    let connected_enabled_slow = 1 | 2 | (3 << 10);
    assert_eq!(find_port(&[0, connected_slow, connected_enabled_slow, connected_enabled_fast]), Some((4, 4)));
    assert_eq!(find_port(&[connected_enabled_fast, connected_enabled_fast]), Some((1, 4)));
    assert_eq!(find_port(&[0, 2 | (4 << 10)]), None);
    assert_eq!(find_port(&[1]), None);
    assert_eq!(port_reset_value(0xFFFF_FFFF), (0xFFFF_FFFF & !0x212) | 0x210);
}

#[test]
fn control_transfer_trbs() {
    let t = control_trbs(0x80, 6, 0x0100, 0, 18, 0x9000, true);
    assert_eq!(t.len(), 3);
    assert_eq!(t[0].param, 0x0012_0000_0100_0680);
    assert_eq!(t[0].control, (2 << 10) | (1 << 6) | (3 << 16));
    assert!(t[1] == Trb { param: 0x9000, status: 18, control: (3 << 10) | (1 << 16) });
    assert!(t[2] == Trb { param: 0, status: 0, control: (4 << 10) | (1 << 5) });
    let t = control_trbs(0, 9, 1, 0, 0, 0, false);
    assert_eq!(t.len(), 2);
    assert_eq!(t[1].control, (4 << 10) | (1 << 16) | (1 << 5));
    assert!(bulk_trb(0x7000, 31) == Trb { param: 0x7000, status: 31, control: 0x420 });
}

fn cfg_descriptor(msc: bool) -> Vec<u8> {
    let mut c = vec![9, 2, 32, 0, 1, 1, 0, 0x80, 50];
    c.extend_from_slice(&[9, 4, 0, 0, 2, 0x08, if msc { 0x06 } else { 0x01 }, 0x50, 0]);
    c.extend_from_slice(&[7, 5, 0x81, 2, 0x00, 0x02, 0]);
    c.extend_from_slice(&[7, 5, 0x02, 2, 0x00, 0x02, 0]);
    c
}

#[test]
fn config_descriptor_bulk_endpoints() {
    let c = cfg_descriptor(true);
    let e = bulk_endpoints(&c, c.len()).unwrap();
    assert_eq!(e.cfg_value, 1);
    assert_eq!((e.in_addr, e.in_mps, e.out_addr, e.out_mps), (0x81, 512, 0x02, 512));
    assert_eq!(bulk_dcis(e.in_addr, e.out_addr), (3, 4));
    assert!(bulk_endpoints(&cfg_descriptor(false), 32).is_none());
    // the endpoints beyond the bytes read are not seen
    assert!(bulk_endpoints(&c, 25).is_none());
}

#[test]
fn packet_sizes() {
    assert_eq!(mps0_for_speed(4), 512);
    assert_eq!(mps0_for_speed(5), 512);
    assert_eq!(mps0_for_speed(3), 64);
    assert_eq!(mps0_for_speed(1), 8);
    assert_eq!(device_mps0(4, 9), 512);
    assert_eq!(device_mps0(3, 64), 64);
    assert_eq!(ep_ctx_dw1(2, 512), (3 << 1) | (2 << 3) | (512 << 16));
}

#[test]
fn scsi_wrappers() {
    let w = cbw(7, 512, true, &read10(0x0102_0304, 1));
    assert_eq!(w.len(), 31);
    assert_eq!(&w[0..4], &[0x55, 0x53, 0x42, 0x43]);
    assert_eq!(&w[4..8], &[7, 0, 0, 0]);
    assert_eq!(&w[8..12], &[0, 2, 0, 0]);
    assert_eq!(&w[12..15], &[0x80, 0, 10]);
    assert_eq!(&w[15..25], &[0x28, 0, 1, 2, 3, 4, 0, 0, 1, 0]);
    assert_eq!(&w[25..31], &[0u8; 6]);
    assert_eq!(write10(5, 2), [0x2A, 0, 0, 0, 0, 5, 0, 0, 2, 0]);
    assert_eq!(read_capacity10()[0], 0x25);
    assert_eq!(sync_cache10()[0], 0x35);
    assert_eq!(test_unit_ready(), [0u8; 6]);
    let mut csw = vec![0x55, 0x53, 0x42, 0x53, 7, 0, 0, 0, 0, 0, 0, 0, 0];
    assert!(csw_ok(&csw, 7));
    assert!(!csw_ok(&csw, 8));
    csw[12] = 1;
    assert!(!csw_ok(&csw, 7));
    assert_eq!(parse_capacity(&[0, 0, 0x0F, 0xFF, 0, 0, 2, 0]), (0xFFF, 512));
    assert_eq!(block_request(&[3, 1, 0, 0, 0, 20]), (1, 8, 4096));
}

#[test]
fn debug_capability_descriptors() {
    assert_eq!(string_descriptor(b"ab"), vec![6, 3, b'a', 0, b'b', 0]);
    assert_eq!(string_descriptor(b""), vec![2, 3]);
    assert_eq!(lang_descriptor(), [4, 3, 9, 4]);
    assert!(is_xhci(0x0C03_3000));
    assert!(!is_xhci(0x0C02_0000));
    assert_eq!(xhci_bar(0xFEBF_0004, 0x1), 0x1_FEBF_0000);
    assert_eq!(link_trb(0x1_2345_6000), [0x2345_6000, 0x1, 0, 0x1803]);
}

fn csw(tag: u32, status: u8) -> Vec<u8> {
    let mut c = Vec::new();
    c.extend_from_slice(&0x53425355u32.to_le_bytes());
    c.extend_from_slice(&tag.to_le_bytes());
    c.extend_from_slice(&[0, 0, 0, 0, status]);
    c
}

#[test]
fn scsi_transfer_stages() {
    let (mut t, wrapper, first) = ScsiTransfer::start(5, &read10(7, 1), 512, true, 0x9000, 0x8000, 3, 4);
    assert_eq!(t.tag, 6);
    assert_eq!(&wrapper[4..8], &6u32.to_le_bytes());
    assert_eq!(wrapper.len(), 31);
    assert_eq!(first, ScsiStep::Bulk { dci: 4, phys: 0x8000, len: 31 });
    assert_eq!(t.on_bulk(1, &[0u8; 13]), ScsiStep::Bulk { dci: 3, phys: 0x9000, len: 512 });
    assert_eq!(t.stage, ScsiStage::Data);
    assert_eq!(t.on_bulk(1, &[0u8; 13]), ScsiStep::Bulk { dci: 3, phys: 0x8040, len: 13 });
    assert_eq!(t.on_bulk(1, &csw(6, 0)), ScsiStep::Finish { ok: true });
    assert_eq!(t.stage, ScsiStage::Done);

    // No data: straight to the status stage; a wrong tag fails.
    let (mut u, _, _) = ScsiTransfer::start(u32::MAX, &test_unit_ready(), 0, false, 0, 0x8000, 3, 4);
    assert_eq!(u.tag, 0);
    assert_eq!(u.on_bulk(1, &[0u8; 13]), ScsiStep::Bulk { dci: 3, phys: 0x8040, len: 13 });
    assert_eq!(u.on_bulk(1, &csw(9, 0)), ScsiStep::Finish { ok: false });

    // A failed stage ends it.
    let (mut v, _, _) = ScsiTransfer::start(0, &write10(1, 1), 512, false, 0x9000, 0x8000, 3, 4);
    assert_eq!(v.on_bulk(1, &[0u8; 13]), ScsiStep::Bulk { dci: 4, phys: 0x9000, len: 512 });
    assert_eq!(v.on_bulk(-1, &[0u8; 13]), ScsiStep::Finish { ok: false });
}

#[test]
fn input_context_writes() {
    let a = address_device_writes(4, 2, 512, 0x1_2345_6000);
    let v: Vec<(u32, u32, u32)> = a.iter().map(|w| (w.ctx, w.dw, w.val)).collect();
    assert_eq!(v, vec![(0, 1, 3), (1, 0, 0x0840_0000), (1, 1, 0x2_0000), (2, 1, 0x0200_0026), (2, 2, 0x2345_6001), (2, 3, 1), (2, 4, 8)]);
    let e = evaluate_context_writes(64);
    let v: Vec<(u32, u32, u32)> = e.iter().map(|w| (w.ctx, w.dw, w.val)).collect();
    assert_eq!(v, vec![(0, 0, 0), (0, 1, 2), (2, 1, 0x0040_0026)]);
    let c = configure_endpoint_writes(3, 1, 3, 2, 512, 64, 0x7000, 0x8000);
    let v: Vec<(u32, u32, u32)> = c.iter().map(|w| (w.ctx, w.dw, w.val)).collect();
    assert_eq!(
        v,
        vec![
            (0, 0, 0),
            (0, 1, 0xD),
            (1, 0, 0x1830_0000),
            (1, 1, 0x1_0000),
            (3, 1, 0x40_0016),
            (3, 2, 0x8001),
            (3, 3, 0),
            (3, 4, 64),
            (4, 1, 0x200_0036),
            (4, 2, 0x7001),
            (4, 3, 0),
            (4, 4, 512),
        ]
    );
    assert_eq!(config_fetch_len(&[9, 2, 0x20, 0x00]), 32);
    assert_eq!(config_fetch_len(&[9, 2, 0x00, 0x20]), 4096);
}

#[test]
fn scratchpad_buffers() {
    assert_eq!(scratchpad_count(0), 0);
    assert_eq!(scratchpad_count(0x0800_0000), 1);
    assert_eq!(scratchpad_count(0x0020_0000), 32);
    assert_eq!(scratchpad_count(0xFFE0_0000), 0x3FF);
}

#[test]
fn extended_capability_walk_and_debug_contexts() {
    assert_eq!(ext_cap_step(0x40, 0x0000_040A, 0x0A), ExtCapStep::Found(0x40));
    assert_eq!(ext_cap_step(0x40, 0x0000_0401, 0x0A), ExtCapStep::Next(0x50));
    assert_eq!(ext_cap_step(0x40, 0x0000_0001, 0x0A), ExtCapStep::End);
    assert_eq!(ext_cap_step(0x40, 0x0000_0001, 0x01), ExtCapStep::Found(0x40));
    assert_eq!(dbc_ep_context(2, 0x1_0000_3000), [0, 0x0400_0016, 0x3001, 1, 1024, 0, 0, 0]);
    assert_eq!(
        dbc_info_context(0x4000, 0x4010, 0x4030, 0x4060, 4, 12, 20, 10),
        [0x4000, 0, 0x4010, 0, 0x4030, 0, 0x4060, 0, 0x0A14_0C04]
    );
}

#[test]
fn crash_reports() {
    let stack = [0x401234u64, 7, 0x6FFFFF, 0x700000];
    let r = user_fault_report(3, 14, 6, 0x401000, 0x7FF0, &stack, Some(0xDEAD), 0x1000, 0x2000);
    let text = String::from_utf8(r).unwrap();
    assert_eq!(
        text,
        "\nRING3 CRASH\npid=0x0000000000000003 vector=0x000000000000000e error_code=0x0000000000000006\n\
rip=0x0000000000401000 rsp=0x0000000000007ff0\nra=0x0000000000401234\n\
stack code candidates: 0x0000000000401234 0x00000000006fffff\n\
cr2=0x000000000000dead\ncr3=0x0000000000001000 task_cr3=0x0000000000002000\n"
    );
    let r = user_fault_report(-1, 13, 0, 0, 0, &[0], None, 0, 0);
    let text = String::from_utf8(r).unwrap();
    assert!(text.starts_with("\nRING3 CRASH\npid=0xffffffffffffffff vector=0x000000000000000d"));
    assert!(text.contains("candidates:\ncr3="));
    let k = String::from_utf8(kernel_fault_report(false, 2, 3, 4, 5, 1)).unwrap();
    assert_eq!(
        k,
        "\nNESTED PAGE FAULT\nerror=0x0000000000000002\ncr2=0x0000000000000003\nrip=0x0000000000000004\nrsp=0x0000000000000005\ncpu=0x0000000000000001\n"
    );
    assert!(String::from_utf8(kernel_fault_report(true, 0, 0, 0, 0, 0)).unwrap().starts_with("KERNEL PAGE FAULT\nerror="));
    assert_eq!(
        String::from_utf8(fatal_report(6, 0, 0x10, 2)).unwrap(),
        "EXCEPTION: 0x0000000000000006 error_code=0x0000000000000000 rip=0x0000000000000010 cpu=0x0000000000000002\n"
    );
}
