use theos::bounce::{Bounce, BounceFrame};
use theos::ata::{drq_poll, identify_command, read_command, ready_poll, sectors_reply, Poll, Wait};
use theos::report::{echo_ts_stamps, floor_stats, heartbeat, kv, measure_stats, on_echo, on_echo_ts, print_u64, staged_stats};
use theos::fs::{bread_len, bread_request, on_write, open_path, open_reply, FileTable};
use theos::sleepq::{SleepQueues, TIMED_OUT, WOKEN};

#[test]
fn ata_status_polling() {
    assert_eq!(ready_poll(0x80), Poll::Again);
    assert_eq!(ready_poll(0x81), Poll::Again);
    assert_eq!(ready_poll(0x41), Poll::Fail);
    assert_eq!(ready_poll(0x50), Poll::Done);
    assert_eq!(ready_poll(0x00), Poll::Again);
    assert_eq!(drq_poll(0x09), Poll::Fail);
    assert_eq!(drq_poll(0x58), Poll::Done);
    assert_eq!(drq_poll(0x88), Poll::Again);
    let mut w = Wait::new(2);
    assert_eq!(w.step(Poll::Again), Poll::Again);
    assert_eq!(w.step(Poll::Again), Poll::Again);
    assert_eq!(w.step(Poll::Done), Poll::Fail);
}

#[test]
fn ata_commands() {
    assert_eq!(
        read_command(0x0A12_3456, 2),
        vec![(0x1F6, 0xEA), (0x1F2, 2), (0x1F3, 0x56), (0x1F4, 0x34), (0x1F5, 0x12), (0x1F7, 0x20)]
    );
    assert_eq!(identify_command()[5], (0x1F7, 0xEC));
    let words = vec![0x3412u16; 512];
    let r = sectors_reply(&words, 1);
    assert_eq!(r.len(), 512);
    assert_eq!(&r[0..4], &[0x12, 0x34, 0x12, 0x34]);
}

#[test]
fn decimal_numbers() {
    assert_eq!(print_u64(0), b"0".to_vec());
    assert_eq!(print_u64(7), b"7".to_vec());
    assert_eq!(print_u64(1024), b"1024".to_vec());
    assert_eq!(print_u64(u64::MAX), b"18446744073709551615".to_vec());
    assert_eq!(kv(" avg=", 42), b" avg=42".to_vec());
}

#[test]
fn stress_report_lines() {
    assert_eq!(theos::report::line("t1", true, "rounds", 256), b"PSTRESS test=t1 status=PASS rounds=256\n".to_vec());
    assert_eq!(theos::report::line("t2", false, "result", 1), b"PSTRESS test=t2 status=FAIL result=1\n".to_vec());
    assert_eq!(heartbeat("soak", 512), b"PSTRESS heartbeat phase=soak round=512\n".to_vec());
}

#[test]
fn measurement_statistics() {
    assert_eq!(measure_stats(&[5, 3, 10, 2]), (2, 5, 10));
    assert_eq!(measure_stats(&[7]), (7, 7, 7));
}

#[test]
fn echo_handlers() {
    assert_eq!(on_echo(b"abc"), b"abc".to_vec());
    let r = on_echo_ts(0x0102_0304_0506_0708, 9);
    assert_eq!(&r[0..8], &0x0102_0304_0506_0708u64.to_le_bytes());
    assert_eq!(&r[8..16], &9u64.to_le_bytes());
}

#[test]
fn file_service_table() {
    let mut t = FileTable::new();
    assert_eq!(t.free_slot(), 0);
    assert_eq!(t.finish_open(0, -5), -1);
    assert_eq!(t.free_slot(), 0);
    assert_eq!(t.finish_open(0, 0), 0);
    assert_eq!(t.free_slot(), 1);
    let mut req = vec![3u8];
    req.extend_from_slice(&0i32.to_le_bytes());
    req.extend_from_slice(&5000u32.to_le_bytes());
    assert_eq!(t.read_target(&req, 4096), Some((0, 4096)));
    req[1] = 1;
    assert_eq!(t.read_target(&req, 4096), None);
    let mut neg = vec![3u8];
    neg.extend_from_slice(&(-1i32).to_le_bytes());
    neg.extend_from_slice(&5u32.to_le_bytes());
    assert_eq!(t.read_target(&neg, 4096), None);
    for _ in 1..128 {
        let s = t.free_slot();
        t.finish_open(s, 0);
    }
    assert_eq!(t.free_slot(), -1);
}

#[test]
fn file_service_requests() {
    let p = open_path(b"\x05/hello.txt");
    assert_eq!(&p[..10], b"/hello.txt");
    assert!(p[10..].iter().all(|b| *b == 0));
    let long = vec![b'a'; 300];
    let p = open_path(&long);
    assert_eq!(p.len(), 256);
    assert_eq!(p[253], b'a');
    assert_eq!(p[254], 0);
    assert_eq!(open_reply(-1), vec![0xFF; 4]);
    assert_eq!(on_write(b"\x04abc"), vec![3, 0, 0, 0]);
    assert_eq!(on_write(b""), vec![0, 0, 0, 0]);
    assert_eq!(bread_request(0x1_0000_0002, 0x102), vec![3, 2, 0, 0, 0, 2]);
    assert_eq!(bread_len(2, 4096), 1024);
    assert_eq!(bread_len(8, 100), 100);
}

#[test]
fn targeted_wake_leaves_other_sleeper() {
    let mut q = SleepQueues::new();
    let a = q.prepare(0, 0x5053_1001, 50_000_000, 0, 1);
    let b = q.prepare(0, 0x5053_1002, 100_000, 0, 2);
    assert_eq!(q.wakeup(0x5053_1001), vec![1]);
    assert_eq!(q.tick(0, 100_000), vec![2]);
    assert_eq!(q.commit(a), WOKEN);
    assert_eq!(q.commit(b), TIMED_OUT);
}

#[test]
fn same_ident_broadcast_wakes_all() {
    let mut q = SleepQueues::new();
    let hs = [q.prepare(0, 0x5053_2001, 0, 0, 1), q.prepare(1, 0x5053_2001, 0, 0, 2), q.prepare(2, 0x5053_2001, 0, 0, 3)];
    assert_eq!(q.wakeup(0x5053_2001), vec![1, 2, 3]);
    for h in hs {
        assert_eq!(q.commit(h), WOKEN);
    }
}

#[test]
fn wake_before_sleep_is_not_sticky() {
    let mut q = SleepQueues::new();
    assert_eq!(q.wakeup(0x5053_3001), Vec::<u64>::new());
    let h = q.prepare(0, 0x5053_3001, 100_000, 1000, 1);
    assert_eq!(q.tick(0, 101_000), vec![1]);
    assert_eq!(q.commit(h), TIMED_OUT);
}

#[test]
fn repeated_short_timeouts_progress() {
    let mut q = SleepQueues::new();
    let mut now = 0u64;
    for _ in 0..256 {
        let h = q.prepare(1, 0x5053_4001, 100_000, now, 7);
        now += 100_000;
        assert_eq!(q.tick(1, now), vec![7]);
        assert_eq!(q.commit(h), TIMED_OUT);
        assert_eq!(q.active_count(1), 0);
    }
}

#[test]
fn bounce_first_frame_and_colours() {
    let mut b = Bounce::new();
    let f = b.step(640, 480);
    assert_eq!(f, BounceFrame { old_x: 32, old_y: 32, new_x: 39, new_y: 37, size: 128, color: 0x0000d8ff });
    for _ in 1..180 {
        b.step(4000, 4000);
    }
    let g = b.step(4000, 4000);
    assert_eq!(g.color, 0x00ff3b80);
    assert_eq!(g.old_x, 32 + 7 * 180);
    assert_eq!(g.new_x, 32 + 7 * 181);
}

#[test]
fn bounce_turns_at_the_edges() {
    let mut b = Bounce::new();
    // 39 + 128 reaches a 160-wide screen: the square turns back.
    let f = b.step(160, 480);
    assert_eq!((f.new_x, f.new_y), (25, 37));
    let g = b.step(160, 480);
    assert_eq!(g.new_x, 18);
    // On a short screen the vertical velocity flips too.
    let mut c = Bounce::new();
    assert_eq!(c.step(640, 160).new_y, 27);
    assert_eq!(c.step(640, 160).new_y, 22);
}

#[test]
fn floor_figures() {
    assert_eq!(floor_stats(&[(10, 20, 14), (100, 103, 101)]), (3, 6, 2, 4));
    // A server stamp before the client's write wraps around.
    assert_eq!(floor_stats(&[(10, 20, 5)]), (10, 10, u64::MAX - 4, 15));
}

#[test]
fn staged_figures() {
    assert_eq!(staged_stats(&[(1, 5, 9, 20)]), (4, 4, 11, 19));
    assert_eq!(staged_stats(&[(1, 0, 9, 20), (1, 5, 9, 20)]), (1, 6, 11, 19));
}

#[test]
fn echo_ts_round_trip() {
    let r = on_echo_ts(0x1122_3344_5566_7788, 9);
    assert_eq!(echo_ts_stamps(&r), (0x1122_3344_5566_7788, 9));
}
