use theos::ipc::{
    alloc_con, conn, find_conn_to, find_free_ipcd, read_ipc, recv_any, write_ipc, IPCConnection, IPCMessage, IPCState,
    MessagePool, Servers, IPC_POOL_SIZE,
};
use theos::scheduler::{Task, TaskState};

#[test]
fn message_defaults() {
    let m = IPCMessage::default();
    assert_eq!(m.len, 4096);
    assert!(m.data.iter().all(|b| *b == 0));
    assert_eq!(IPCMessage::empty().len, 0);
    let c = IPCConnection::default();
    assert_eq!(c.peer_pid, -1);
    assert!(c.state == IPCState::PeerDead);
    assert_eq!(c.ipc_pool_idx, -1);
}

#[test]
fn pool_allocates_first_free() {
    let mut p = MessagePool::new();
    assert_eq!(p.alloc_msg(), 0);
    assert_eq!(p.alloc_msg(), 1);
    p.free_msg(0);
    assert_eq!(p.alloc_msg(), 0);
    for _ in 2..IPC_POOL_SIZE {
        assert!(p.alloc_msg() >= 0);
    }
    assert_eq!(p.alloc_msg(), -1);
}

#[test]
fn connections_first_free_slot() {
    let mut t = Task::new(1, 0, 0, 0, 0, 5);
    assert_eq!(find_free_ipcd(&t), 0);
    assert_eq!(alloc_con(&mut t, 7), 0);
    assert_eq!(alloc_con(&mut t, 8), 1);
    assert_eq!(find_conn_to(&t, 8), Some(1));
    assert_eq!(find_conn_to(&t, 9), None);
    let c = conn(&t, 1).unwrap();
    assert_eq!(c.peer_pid, 8);
    assert!(c.state == IPCState::Open);
    assert!(conn(&t, -1).is_none());
    assert!(conn(&t, 32).is_none());
    assert!(conn(&t, 2).is_none());
    for _ in 2..32 {
        assert!(alloc_con(&mut t, 1) >= 0);
    }
    assert_eq!(alloc_con(&mut t, 1), -1);
}

#[test]
fn write_then_read_delivers_message() {
    let mut pool = MessagePool::new();
    let mut t = Task::new(1, 0, 0, 0, 0, 5);
    let ipcd = alloc_con(&mut t, 7);
    assert!(read_ipc(&pool, &mut t, ipcd).is_none());
    assert_eq!(write_ipc(&mut pool, &mut t, ipcd, 7, b"ping", 4), 0);
    let m = read_ipc(&pool, &mut t, ipcd).unwrap();
    assert_eq!(&m.data[..4], b"ping");
    assert_eq!(m.len, 4);
    // the message was taken
    assert!(read_ipc(&pool, &mut t, ipcd).is_none());
}

#[test]
fn write_refuses_negative_length() {
    let mut pool = MessagePool::new();
    let mut t = Task::new(1, 0, 0, 0, 0, 5);
    let ipcd = alloc_con(&mut t, 7);
    assert_eq!(write_ipc(&mut pool, &mut t, ipcd, 7, b"", -1), 1);
}

#[test]
fn write_to_blocked_task_awaiting_other_peer_is_refused() {
    let mut pool = MessagePool::new();
    let mut t = Task::new(1, 0, 0, 0, 0, 5);
    let ipcd = alloc_con(&mut t, 7);
    t.state = TaskState::Blocked;
    let mut c = t.ipc_con[ipcd as usize].unwrap();
    c.state = IPCState::AwaitingReply;
    t.ipc_con[ipcd as usize] = Some(c);
    assert_eq!(write_ipc(&mut pool, &mut t, ipcd, 8, b"x", 1), 1);
    // the awaited peer gets through and wakes the task
    assert_eq!(write_ipc(&mut pool, &mut t, ipcd, 7, b"x", 1), 0);
    assert!(t.state == TaskState::Ready);
    assert!(t.wake_pending);
}

#[test]
fn recv_any_takes_first_connection_with_message() {
    let mut pool = MessagePool::new();
    let mut t = Task::new(1, 0, 0, 0, 0, 5);
    let a = alloc_con(&mut t, 7);
    let b = alloc_con(&mut t, 8);
    assert!(recv_any(&pool, &mut t).is_none());
    write_ipc(&mut pool, &mut t, b, 8, b"hi", 2);
    write_ipc(&mut pool, &mut t, a, 7, b"yo", 2);
    let (i, m) = recv_any(&pool, &mut t).unwrap();
    assert_eq!(i, a);
    assert_eq!(&m.data[..2], b"yo");
    let (i, _) = recv_any(&pool, &mut t).unwrap();
    assert_eq!(i, b);
}

#[test]
fn servers_register_wake_release() {
    let mut s = Servers::new();
    assert_eq!(s.wake_server(3), None);
    s.register_server(3, 42, 1);
    assert_eq!(s.wake_server(3), Some((42, 1)));
    s.release_server_by_pid(42);
    assert_eq!(s.wake_server(3), None);
    s.register_server(99, 1, 1);
    assert_eq!(s.wake_server(99), None);
}
