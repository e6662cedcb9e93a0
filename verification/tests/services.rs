use theos::arena::{Arena, IrqRing, MBOX_EMPTY, MBOX_REPLY, MBOX_REQ, SRV_BLOCKED};
use theos::irq::IrqRoutes;
use theos::kb::{decode_scancode, on_irq, on_read, KBButtonState, KbBuffer};
use theos::libsys::{
    block_after_scan, finish_open, open_request, open_target, read_request, reply_i32, reply_u32, serve_spin, vfs_bind, vfs_resolve, write_request, FdTable,
    ServeAction, ServeLoop, OP_IRQ,
};
use theos::ramdisk::RamDisk;
use theos::vfs::{on_bind, on_resolve, Vfs};

#[test]
fn irq_ring_is_fifo_and_bounded() {
    let mut r = IrqRing::new();
    assert_eq!(r.irq_pop(), None);
    r.irq_ring_push(1);
    r.irq_ring_push(2);
    assert_eq!(r.irq_pop(), Some(1));
    assert_eq!(r.irq_pop(), Some(2));
    assert_eq!(r.irq_pop(), None);
    for i in 0..300u32 {
        r.irq_ring_push(i as u8);
    }
    let mut n = 0;
    while let Some(_) = r.irq_pop() {
        n += 1;
    }
    assert_eq!(n, 255);
}

#[test]
fn mbox_connect_assigns_mailboxes_and_inbox() {
    let mut a = Arena::new();
    let i0 = a.mbox_connect(3, 7);
    let i1 = a.mbox_connect(3, 8);
    assert_eq!((i0, i1), (0, 1));
    let m = a.mailbox(1);
    assert_eq!(m.client_id, 8);
    assert_eq!(m.service_id, 3);
    assert_eq!(m.msg_offset, 0x10000 + 4096);
    assert_eq!(m.status, MBOX_EMPTY);
    for _ in 2..60 {
        a.mbox_connect(20, 1);
    }
    // past the user mailboxes the last one is reused
    assert_eq!(a.mbox_connect(3, 9), 47);
}

#[test]
fn mailbox_call_round_trip() {
    let mut a = Arena::new();
    let idx = a.mbox_connect(1, 7);
    assert!(!a.mbox_send(idx, b"req"));
    assert_eq!(a.mailbox(idx).status, MBOX_REQ);
    assert_eq!(a.pending_requests(1), vec![idx]);
    assert!(a.inbox_has_req(1));
    assert_eq!(a.message_bytes(idx), b"req".to_vec());
    assert_eq!(a.mbox_receive(idx), None);
    a.mbox_answer(idx, b"answer");
    assert_eq!(a.mailbox(idx).status, MBOX_REPLY);
    assert_eq!(a.pending_requests(1), Vec::<usize>::new());
    assert_eq!(a.mbox_receive(idx), Some(b"answer".to_vec()));
    assert_eq!(a.mailbox(idx).status, MBOX_EMPTY);
}

#[test]
fn send_notifies_blocked_server() {
    let mut a = Arena::new();
    let idx = a.mbox_connect(2, 7);
    a.set_srv_state(2, SRV_BLOCKED);
    assert!(a.notify_if_blocked(2));
    assert!(!a.notify_if_blocked(99));
    assert!(a.mbox_send(idx, b"x"));
}

#[test]
fn irq_dispatch_posts_request_and_scancode() {
    let mut a = Arena::new();
    let mut routes = IrqRoutes::new();
    assert_eq!(routes.dispatch(&mut a, 1, 0x1E), None);
    routes.register(&mut a, 1, 4);
    assert_eq!(routes.dispatch(&mut a, 1, 0x1E), Some(4));
    let m = a.mailbox(49);
    assert_eq!(m.service_id, 4);
    assert_eq!(m.status, MBOX_REQ);
    assert_eq!(a.message_bytes(49), vec![OP_IRQ]);
    assert_eq!(a.irq_pop(1), Some(0x1E));
    assert_eq!(a.pending_requests(4), vec![49]);
    assert_eq!(routes.dispatch(&mut a, 16, 0), None);
}

#[test]
fn keyboard_decodes_and_buffers() {
    let e = decode_scancode(0x1E).unwrap();
    assert_eq!(e.val, b'a');
    assert!(e.state == KBButtonState::Press);
    let e = decode_scancode(0x9E).unwrap();
    assert!(e.state == KBButtonState::Release);
    assert!(decode_scancode(0x01).is_none());
    assert!(decode_scancode(0x7F).is_none());
    let mut kb = KbBuffer::new();
    assert_eq!(on_read(&mut kb), Vec::<u8>::new());
    on_irq(&mut kb, 0x02);
    on_irq(&mut kb, 0x82);
    on_irq(&mut kb, 0x01);
    assert_eq!(on_read(&mut kb), vec![b'1', 0]);
    assert_eq!(on_read(&mut kb), vec![b'1', 1]);
    assert_eq!(on_read(&mut kb), Vec::<u8>::new());
}

#[test]
fn keyboard_buffer_drops_when_full() {
    let mut kb = KbBuffer::new();
    for _ in 0..100 {
        on_irq(&mut kb, 0x39);
    }
    let mut n = 0;
    while !on_read(&mut kb).is_empty() {
        n += 1;
    }
    assert_eq!(n, 63);
}

#[test]
fn vfs_bind_resolve_longest_prefix() {
    let mut v = Vfs::new();
    assert_eq!(v.resolve(b"/dev/ata0"), 0);
    assert_eq!(v.bind(2, b"/dev"), 0);
    assert_eq!(v.bind(3, b"/dev/ata0"), 0);
    assert_eq!(v.resolve(b"/dev/ata0"), 3);
    assert_eq!(v.resolve(b"/dev/kbd"), 2);
    assert_eq!(v.resolve(b"/de"), 0);
    // on a tie the later binding wins
    assert_eq!(v.bind(4, b"/dev"), 0);
    assert_eq!(v.resolve(b"/dev/kbd"), 4);
}

#[test]
fn vfs_table_fills_up() {
    let mut v = Vfs::new();
    for i in 0..32 {
        assert_eq!(v.bind(i, b"/x"), 0);
    }
    assert_eq!(v.bind(99, b"/y"), -1);
    assert_eq!(v.resolve(b"/y"), 0);
}

#[test]
fn vfs_request_handlers() {
    let mut v = Vfs::new();
    let req = vfs_bind(b"/fs", 3);
    assert_eq!(req, vec![1, 3, 0, 0, 0, b'/', b'f', b's']);
    assert_eq!(on_bind(&mut v, &req), vec![0, 0, 0, 0]);
    let q = vfs_resolve(b"/fs/a.txt");
    assert_eq!(q, vec![2, 0, 0, 0, 0, b'/', b'f', b's', b'/', b'a', b'.', b't', b'x', b't']);
    let reply = on_resolve(&v, &q);
    assert_eq!(reply, vec![3, 0, 0, 0]);
    assert_eq!(reply_u32(&reply), 3);
    assert_eq!(on_bind(&mut v, &[1, 2]), vec![0xFF, 0xFF, 0xFF, 0xFF]);
    assert_eq!(reply_i32(&[0xFF, 0xFF, 0xFF, 0xFF]), -1);
    assert_eq!(on_resolve(&v, &[2]), vec![0, 0, 0, 0]);
}

#[test]
fn client_requests_and_replies() {
    assert_eq!(open_request(b"/a"), vec![5, b'/', b'a']);
    assert_eq!(read_request(7, 512), vec![3, 7, 0, 0, 0, 0, 2, 0, 0]);
    let long = vec![b'z'; 300];
    let w = write_request(&long);
    assert_eq!(w.len(), 256);
    assert_eq!(w[0], 4);
    assert_eq!(reply_u32(&[1, 2]), 0x0201);
    assert_eq!(reply_u32(&[]), 0);
}

#[test]
fn fd_table_installs_first_free() {
    let mut t = FdTable::new();
    assert_eq!(t.install(4, 10), 0);
    assert_eq!(t.install(5, 11), 1);
    assert_eq!(t.lookup(1), Some((5, 11)));
    assert_eq!(t.lookup(2), None);
    assert_eq!(t.lookup(-1), None);
    assert_eq!(t.lookup(256), None);
    for _ in 2..256 {
        assert!(t.install(0, 0) >= 0);
    }
    assert_eq!(t.install(0, 0), -1);
}

#[test]
fn serve_loop_spins_then_blocks() {
    let mut l = ServeLoop::new();
    assert!(l.serve_step(true) == ServeAction::Rescan);
    for _ in 0..4999 {
        assert!(l.serve_step(false) == ServeAction::Spin);
    }
    assert!(l.serve_step(false) == ServeAction::TryBlock);
    assert!(l.serve_step(false) == ServeAction::Spin);
    assert!(serve_spin(false) == ServeAction::Spin);
    assert!(serve_spin(true) == ServeAction::Rescan);
    assert!(block_after_scan(false));
    assert!(!block_after_scan(true));
}

fn block_req(op: u8, lba: u32, count: u8, data: &[u8]) -> Vec<u8> {
    let mut r = vec![op];
    r.extend_from_slice(&lba.to_le_bytes());
    r.push(count);
    r.extend_from_slice(data);
    r
}

#[test]
fn ramdisk_read_after_write() {
    let mut d = RamDisk::new(vec![0u8; 4096]);
    let data: Vec<u8> = (0..1024u32).map(|i| (i % 256) as u8).collect();
    assert_eq!(d.on_bwrite(&block_req(4, 2, 2, &data)), vec![0, 0, 0, 0]);
    assert_eq!(d.on_read(&block_req(3, 2, 2, &[])), data);
    assert_eq!(d.on_read(&block_req(3, 0, 1, &[])), vec![0u8; 512]);
    assert_eq!(d.on_sync(), vec![0, 0, 0, 0]);
}

#[test]
fn ramdisk_out_of_range() {
    let mut d = RamDisk::new(vec![7u8; 2048]);
    assert_eq!(d.on_read(&block_req(3, 3, 2, &[])), Vec::<u8>::new());
    assert_eq!(d.on_read(&block_req(3, 4, 1, &[])), Vec::<u8>::new());
    assert_eq!(d.on_bwrite(&block_req(4, 3, 2, &[1u8; 1024])), vec![0xFF, 0xFF, 0xFF, 0xFF]);
    assert_eq!(d.on_read(&block_req(3, 3, 1, &[])), vec![7u8; 512]);
    // the count is capped at eight sectors
    let mut big = RamDisk::new(vec![1u8; 8192]);
    assert_eq!(big.on_read(&block_req(3, 0, 20, &[])).len(), 4096);
    assert_eq!(big.len(), 8192);
}

#[test]
fn irq_ring_starts_zeroed() {
    let r = IrqRing::new();
    assert_eq!((r.head, r.tail), (0, 0));
    assert!(r.data.iter().all(|b| *b == 0));
}

#[test]
fn vfs_newest_binding_of_a_path_wins() {
    let mut v = Vfs::new();
    assert_eq!(v.bind(5, b"/srv/log"), 0);
    assert_eq!(v.bind(6, b"/srv/log"), 0);
    assert_eq!(v.resolve(b"/srv/log"), 6);
}

#[test]
fn scan_answers_a_twice_listed_mailbox_once() {
    let mut a = Arena::new();
    let idx = a.mbox_connect(1, 7);
    a.inbox_add(1, idx as u32);
    assert_eq!(a.next_request(1, 0), None);
    a.mbox_send(idx, b"q");
    assert_eq!(a.next_request(1, 0), Some((0, idx)));
    assert_eq!(a.pending_requests(1), vec![idx, idx]);
    a.mbox_answer(idx, b"a");
    assert_eq!(a.next_request(1, 1), None);
}

#[test]
fn open_refuses_unserved_paths_and_bad_handles() {
    assert_eq!(open_target(0), None);
    assert_eq!(open_target(4), Some(4));
    let mut t = FdTable::new();
    assert_eq!(finish_open(&mut t, 3, &(-2i32).to_le_bytes()), -1);
    assert_eq!(t.lookup(0), None);
    assert_eq!(finish_open(&mut t, 3, &7i32.to_le_bytes()), 0);
    assert_eq!(t.lookup(0), Some((3, 7)));
}

#[test]
fn irq_ring_gives_back_the_first_bytes_in_order_when_overfilled() {
    let mut r = IrqRing::new();
    for i in 0..300u32 {
        r.irq_ring_push((i % 251) as u8);
    }
    for i in 0..255u32 {
        assert_eq!(r.irq_pop(), Some((i % 251) as u8));
    }
    assert_eq!(r.irq_pop(), None);
    assert_eq!(r.irq_pop(), None);
}
