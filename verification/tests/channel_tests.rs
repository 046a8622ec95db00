use ipc_teal::channel::{PeerCred, Receiver, Sender};
use ipc_teal::layout::{SIZE_HEADER, SIZE_STATE, ST_ACTIVE, ST_CLOSED, ST_WAITING};
use ipc_teal::recv_queue::{MapRange, MemQueue};
use ipc_teal::send_queue::{MessageHeader, MutMemQueue};
use ipc_teal::server::{reserve_step, submit_outcome, Channel, ChannelError, ReserveStep};

fn cred() -> PeerCred {
    PeerCred { uid: 1000, gid: 100, pid: 42 }
}

#[test]
fn submit_outcome_follows_peer_state() {
    assert_eq!(submit_outcome(ST_ACTIVE), Ok(false));
    assert_eq!(submit_outcome(ST_WAITING), Ok(true));
    assert_eq!(submit_outcome(ST_CLOSED), Err(ChannelError::BrokenPipe));
    assert_eq!(submit_outcome(17), Ok(false));
}

#[test]
fn channel_reserve_submit_close() {
    let local = MutMemQueue::new(64, 4);
    let remote = MemQueue::from_mem(SIZE_STATE + 4 * SIZE_HEADER + 64, 4).unwrap();
    let mut c = Channel::new(local, remote);
    assert_eq!(c.try_reserve(0, 10), Some(MessageHeader { offset: 0, len: 10 }));
    assert_eq!(c.submit(8, ST_WAITING), Ok(true));
    assert_eq!(c.local.tail(), 1);
    assert_eq!(c.local.slot(0), MessageHeader { offset: 0, len: 8 });
    assert_eq!(c.try_reserve(0, 10), Some(MessageHeader { offset: 8, len: 10 }));
    // The message is written out even when the peer has gone.
    assert_eq!(c.submit(10, ST_CLOSED), Err(ChannelError::BrokenPipe));
    assert_eq!(c.local.tail(), 2);
    c.set_state(ST_WAITING);
    assert_eq!(c.local.state(), ST_WAITING);
    c.close();
    assert_eq!(c.local.state(), ST_CLOSED);
    assert_eq!(c.local.other_state(), ST_CLOSED);
}

#[test]
fn sender_allocates_writes_and_sends() {
    let mut data = vec![0u8; 32];
    let mut s = Sender::new(MutMemQueue::new(32, 2), cred());
    assert_eq!(s.peer_cred(), cred());
    let mut m = s.allocate(0, 20).unwrap();
    assert_eq!(m.as_ptr(), 0);
    assert_eq!(m.as_mut_ptr(), 0);
    assert_eq!(m.max_size(), 20);
    assert_eq!(m.len(), 0);
    assert_eq!(m.write(&mut data, &[1u8; 15]), 15);
    assert_eq!(m.write(&mut data, &[2u8; 15]), 5);
    assert_eq!(m.write(&mut data, &[3u8]), 0);
    assert_eq!(m.len(), 20);
    assert_eq!(m.max_size(), 20);
    assert_eq!(&data[..15], &[1u8; 15]);
    assert_eq!(&data[15..20], &[2u8; 5]);
    assert_eq!(&data[20..], &[0u8; 12]);
    assert_eq!(m.send(&mut s, ST_ACTIVE), Ok(false));
    assert_eq!(s.queue.tail(), 1);
    assert_eq!(s.queue.slot(0), MessageHeader { offset: 0, len: 20 });

    let mut m = s.allocate(0, 12).unwrap();
    assert_eq!(m.as_ptr(), 20);
    assert_eq!(m.write(&mut data, &[4, 5, 6, 7]), 4);
    assert_eq!(&data[20..24], &[4, 5, 6, 7]);
    assert_eq!(m.send(&mut s, ST_CLOSED), Err(ChannelError::BrokenPipe));
    assert_eq!(s.queue.slot(1), MessageHeader { offset: 20, len: 4 });
    // Two unread messages in two slots: full.
    assert!(s.allocate(0, 1).is_none());
}

#[test]
fn sender_sends_built_message_and_discards() {
    let mut data = vec![0u8; 16];
    let mut s = Sender::new(MutMemQueue::new(16, 4), cred());
    assert_eq!(s.send(0, &mut data, &[9, 8, 7], ST_WAITING), Some(Ok(true)));
    assert_eq!(&data[..3], &[9, 8, 7]);
    assert_eq!(s.queue.slot(0), MessageHeader { offset: 0, len: 3 });
    assert_eq!(s.queue.tail(), 1);
    // No room for 14 more bytes: nothing changes.
    assert_eq!(s.send(0, &mut data, &[1; 14], ST_ACTIVE), None);
    assert_eq!(s.queue.tail(), 1);
    assert_eq!(&data[3..], &[0u8; 13]);
    let mut m = s.allocate(0, 5).unwrap();
    assert_eq!(m.write(&mut data, &[5, 5]), 2);
    m.discard(&mut s);
    assert_eq!(s.queue.tail(), 2);
    // The slot is marked given up, and covers no bytes.
    let skipped = s.queue.slot(1);
    assert_eq!(skipped, MessageHeader { offset: 3, len: usize::MAX });
    assert!(skipped.is_skipped());
    assert_eq!(skipped.byte_len(), 0);
    // The next message goes where the given-up one would have been.
    assert_eq!(s.send(0, &mut data, &[6, 6, 6], ST_ACTIVE), Some(Ok(false)));
    assert_eq!(s.queue.slot(2), MessageHeader { offset: 3, len: 3 });
    assert_eq!(&data[3..6], &[6, 6, 6]);

    // A receiver of this queue skips the given-up slot and delivers the next.
    let mem_len = SIZE_STATE + 4 * SIZE_HEADER + 16;
    let r = Receiver::new(MemQueue::from_mem(mem_len, 4).unwrap(), cred());
    assert!(r.message(skipped).is_none());
    let base = SIZE_STATE + 4 * SIZE_HEADER;
    assert_eq!(
        r.message(s.queue.slot(2)).unwrap().range(),
        MapRange { start: base + 3, end: base + 6 }
    );
}

#[test]
fn receiver_copies_message_out() {
    let mem_len = SIZE_STATE + 2 * SIZE_HEADER + 8;
    let r = Receiver::new(MemQueue::from_mem(mem_len, 2).unwrap(), cred());
    assert_eq!(r.peer_cred(), cred());
    let mut mem = vec![0u8; mem_len];
    let base = SIZE_STATE + 2 * SIZE_HEADER;
    mem[base + 2] = 9;
    mem[base + 3] = 8;
    let msg = r.message(MessageHeader { offset: 2, len: 2 }).unwrap();
    assert_eq!(msg.range(), MapRange { start: base + 2, end: base + 4 });
    assert_eq!(msg.extract(&mem), vec![9, 8]);
    assert!(r.message(MessageHeader { offset: 7, len: 2 }).is_none());
}

#[test]
fn waiting_reservation_steps() {
    assert_eq!(reserve_step(false, true), ReserveStep::Done);
    assert_eq!(reserve_step(false, false), ReserveStep::WaitingThenRetry);
    assert_eq!(reserve_step(true, true), ReserveStep::ActiveThenDone);
    assert_eq!(reserve_step(true, false), ReserveStep::SleepThenRetry);
}
