use ipc_teal::broadcast::{BroadReceiver, Broadcaster, OpenError};
use ipc_teal::broadcast_channel::{Receiver, Sender};
use ipc_teal::channel::PeerCred;
use ipc_teal::layout::{SIZE_HEADER, SIZE_SEND_STATE, ST_ACTIVE, ST_CLOSED, ST_WAITING};
use ipc_teal::recv_queue::MapRange;

#[test]
fn broadcaster_layout() {
    let b = Broadcaster::new(1 << 24, 1000);
    assert_eq!(b.queue_depth(), 1024);
    assert_eq!(b.file_len(), SIZE_SEND_STATE + 1024 * SIZE_HEADER + (1 << 24));
    assert_eq!(b.buf_head(), 0);
    assert_eq!(b.buf_tail(), 0);
    assert_eq!(b.tail(), 0);
    assert_eq!(b.send_state(), ST_ACTIVE);
    let mut b = b;
    b.close();
    assert_eq!(b.send_state(), ST_CLOSED);
    assert_eq!(b.queue_depth(), 1024);
}

#[test]
fn broad_receiver_open_checks() {
    let ok = BroadReceiver::open(12, 8, SIZE_SEND_STATE + 8 * SIZE_HEADER).unwrap();
    assert_eq!(ok.head(), 12);
    assert_eq!(ok.queue_depth(), 8);
    assert_eq!(ok.recv_state(), ST_ACTIVE);
    assert_eq!(BroadReceiver::open(0, 6, 1 << 20).err(), Some(OpenError::BadQueueDepth));
    // A mapping too small for the state block is refused before its depth is looked at.
    assert_eq!(BroadReceiver::open(0, 6, SIZE_SEND_STATE - 1).err(), Some(OpenError::MapTooSmall));
    assert_eq!(BroadReceiver::open(0, 1 << 21, usize::MAX).err(), Some(OpenError::BadQueueDepth));
    assert_eq!(
        BroadReceiver::open(0, 8, SIZE_SEND_STATE + 8 * SIZE_HEADER - 1).err(),
        Some(OpenError::MapTooSmall)
    );
    assert_eq!(OpenError::MapTooSmall.message(), "memory map from sender is too small for buffer and state");
}

#[test]
fn broad_receiver_advances_and_wakes() {
    let mut r = BroadReceiver::open(3, 4, SIZE_SEND_STATE + 4 * SIZE_HEADER).unwrap();
    assert!(!r.advance(5, ST_ACTIVE));
    assert_eq!(r.head(), 4);
    assert!(r.advance(5, ST_WAITING));
    assert_eq!(r.head(), 5);
    assert!(r.is_closed(ST_CLOSED));
    assert!(!r.is_closed(ST_ACTIVE));
    r.close();
    assert_eq!(r.recv_state(), ST_CLOSED);
    assert_eq!(r.head(), 5);
}

#[test]
fn sender_lists_peers() {
    let mut s = Sender::new();
    assert!(s.peers().is_empty());
    let a = PeerCred { uid: 1, gid: 2, pid: 3 };
    let b = PeerCred { uid: 4, gid: 5, pid: 0 };
    s.add_peer(a);
    s.add_peer(b);
    assert_eq!(s.peers(), vec![a, b]);
    let c = PeerCred { uid: 7, gid: 8, pid: 9 };
    s.add_peer(c);
    assert_eq!(s.retain_open(&vec![ST_ACTIVE, ST_CLOSED, ST_WAITING]), vec![true, false, true]);
    assert_eq!(s.peers(), vec![a, c]);
    assert_eq!(s.retain_open(&vec![ST_CLOSED, ST_CLOSED]), vec![false, false]);
    assert!(s.peers().is_empty());
}

#[test]
fn receiver_detects_lag_and_resets() {
    let mut r = Receiver::new(10, 4);
    assert_eq!(r.head(), 10);
    assert!(!r.lagged(10));
    // Lapped without having looked yet: the lag shows.
    assert!(r.lagged(14));
    assert!(!r.lagged(13));
    assert!(r.peek(10).is_none());
    let m = r.peek(12).unwrap();
    assert_eq!(m.index(), 10);
    assert!(!m.lagged(13));
    assert!(m.lagged(14));
    assert_eq!(m.extract(&[1, 2, 3], MapRange { start: 0, end: 2 }, 13), Some(vec![1, 2]));
    r.advance(12);
    assert_eq!(r.head(), 11);
    // The sender ran a full lap ahead.
    let m = r.peek(20).unwrap();
    assert!(r.lagged(20));
    assert_eq!(r.head(), 17);
    assert_eq!(m.index(), 17);
    assert_eq!(m.extract(&[1, 2, 3], MapRange { start: 0, end: 3 }, 21), None);
    r.reset(25);
    assert!(!r.lagged(25));
    assert_eq!(r.head(), 25);
    assert!(r.peek(25).is_none());
}
