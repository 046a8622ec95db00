use ipc_teal::layout::{SIZE_HEADER, SIZE_SEND_STATE, SIZE_STATE, ST_ACTIVE, ST_CLOSED, ST_WAITING};
use ipc_teal::recv_queue::{copy_range, MapRange, MemQueue, QueueError};
use ipc_teal::send_queue::{MessageHeader, MutMemQueue};

fn hdr(offset: usize, len: usize) -> MessageHeader {
    MessageHeader { offset, len }
}

#[test]
fn new_queue_rounds_depth_and_sizes_mapping() {
    let q = MutMemQueue::new(100, 3);
    assert_eq!(q.queue_depth(), 4);
    assert_eq!(q.max_len(), 100);
    assert_eq!(q.tail(), 0);
    assert_eq!(q.state(), ST_ACTIVE);
    assert_eq!(q.other_state(), ST_ACTIVE);
    assert_eq!(q.other_head(), 0);
    assert_eq!(q.mem_len(), SIZE_STATE + 4 * SIZE_HEADER + 100);
    assert_eq!(q.buf_offset(), SIZE_STATE + 4 * SIZE_HEADER);
    for i in 0..4u64 {
        assert_eq!(q.slot(i), hdr(0, 0));
    }
}

#[test]
fn setters_are_read_back() {
    let mut q = MutMemQueue::new(16, 2);
    q.set_state(ST_WAITING);
    q.set_other_state(ST_CLOSED);
    q.set_other_head(7);
    assert_eq!(q.state(), ST_WAITING);
    assert_eq!(q.other_state(), ST_CLOSED);
    assert_eq!(q.other_head(), 7);
}

#[test]
fn empty_queue_reserves_at_start() {
    let mut q = MutMemQueue::new(100, 4);
    assert_eq!(q.try_reserve(0, 30), Some(hdr(0, 30)));
    assert_eq!(q.slot(0), hdr(0, 30));
    assert_eq!(q.tail(), 0);
    assert_eq!(q.try_reserve(0, 101), None);
}

#[test]
fn reservation_after_newest_message() {
    let mut q = MutMemQueue::new(100, 4);
    q.try_reserve(0, 30).unwrap();
    q.write_message(20);
    assert_eq!(q.tail(), 1);
    assert_eq!(q.slot(0), hdr(0, 20));
    // One unread message at 0..20: the next goes right after it.
    assert_eq!(q.try_reserve(0, 50), Some(hdr(20, 50)));
    assert_eq!(q.slot(1), hdr(20, 50));
}

#[test]
fn reservation_wraps_to_start_before_oldest() {
    let mut q = MutMemQueue::new(100, 4);
    q.try_reserve(0, 40).unwrap();
    q.write_message(40);
    q.try_reserve(0, 40).unwrap();
    q.write_message(40);
    // Reader consumed the first message: live data is 40..80.
    // 30 bytes do not fit after 80, but fit before 40.
    assert_eq!(q.try_reserve(1, 30), Some(hdr(0, 30)));
    q.write_message(30);
    // Now the data wraps: oldest at 40, newest ends at 30; the gap is 30..40.
    assert_eq!(q.try_reserve(1, 11), None);
    assert_eq!(q.try_reserve(1, 10), Some(hdr(30, 10)));
}

#[test]
fn no_room_anywhere() {
    let mut q = MutMemQueue::new(100, 4);
    q.try_reserve(0, 10).unwrap();
    q.write_message(10);
    q.try_reserve(0, 80).unwrap();
    q.write_message(80);
    // Oldest message at 0: nothing before it, 10 bytes after the newest.
    assert_eq!(q.try_reserve(0, 11), None);
    assert_eq!(q.try_reserve(0, 10), Some(hdr(90, 10)));
}

#[test]
fn full_queue_refuses() {
    let mut q = MutMemQueue::new(100, 2);
    q.try_reserve(0, 1).unwrap();
    q.write_message(1);
    q.try_reserve(0, 1).unwrap();
    q.write_message(1);
    assert_eq!(q.try_reserve(0, 1), None);
    assert!(q.reserve_allowed(0));
    assert!(q.reserve_allowed(2));
    assert!(!q.reserve_allowed(3));
}

#[test]
fn reserve_allowed_rejects_bad_heads() {
    let mut q = MutMemQueue::new(100, 2);
    q.try_reserve(0, 5).unwrap();
    q.write_message(5);
    assert!(q.reserve_allowed(0));
    assert!(q.reserve_allowed(1));
    // Head past the tail.
    assert!(!q.reserve_allowed(2));
}

#[test]
fn write_message_uses_masked_slot_after_a_lap() {
    let mut q = MutMemQueue::new(10, 2);
    for i in 0..5u64 {
        assert_eq!(q.try_reserve(i, 4), Some(hdr(0, 4)));
        q.write_message(3);
        assert_eq!(q.slot(i), hdr(0, 3));
        assert_eq!(q.slot_position(i), (i % 2) as usize);
    }
    assert_eq!(q.tail(), 5);
}

#[test]
fn from_mem_checks_in_order() {
    assert_eq!(MemQueue::from_mem(SIZE_STATE - 1, 4).err(), Some(QueueError::StateTooSmall));
    assert_eq!(MemQueue::from_mem(SIZE_STATE, 3).err(), Some(QueueError::BadQueueDepth));
    assert_eq!(MemQueue::from_mem(SIZE_STATE, 1 << 21).err(), Some(QueueError::BadQueueDepth));
    assert_eq!(
        MemQueue::from_mem(SIZE_SEND_STATE + 64 * SIZE_HEADER - 1, 64).err(),
        Some(QueueError::MapTooSmall)
    );
    let q = MemQueue::from_mem(SIZE_SEND_STATE + 64 * SIZE_HEADER, 64).unwrap();
    assert_eq!(q.queue_depth(), 64);
    assert_eq!(QueueError::BadQueueDepth.message(), "queue depth isn't a valid size");
}

#[test]
fn read_locates_message_bytes() {
    let q = MemQueue::from_mem(SIZE_STATE + 4 * SIZE_HEADER + 100, 4).unwrap();
    let base = SIZE_STATE + 4 * SIZE_HEADER;
    assert_eq!(q.read(hdr(10, 20)), Some(MapRange { start: base + 10, end: base + 30 }));
    assert_eq!(q.read(hdr(90, 10)), Some(MapRange { start: base + 90, end: base + 100 }));
    assert_eq!(q.read(hdr(90, 11)), None);
    assert_eq!(q.read(hdr(usize::MAX, 1)), None);
    assert_eq!(q.read(hdr(1, usize::MAX)), None);
}

#[test]
fn slot_range_masks_and_bounds() {
    let q = MemQueue::from_mem(SIZE_STATE + 4 * SIZE_HEADER, 4).unwrap();
    assert_eq!(q.slot_index(6), 2);
    assert_eq!(
        q.slot_range(6),
        Some(MapRange { start: SIZE_STATE + 2 * SIZE_HEADER, end: SIZE_STATE + 3 * SIZE_HEADER })
    );
    // A mapping that passed the check but holds fewer slots than announced.
    let short = MemQueue::from_mem(SIZE_STATE, 16).unwrap();
    assert_eq!(short.slot_range(0), None);
}

#[test]
fn read_back_of_a_committed_message() {
    let mut w = MutMemQueue::new(64, 4);
    w.try_reserve(0, 16).unwrap();
    w.write_message(12);
    w.try_reserve(0, 16).unwrap();
    w.write_message(16);
    let r = MemQueue::from_mem(w.mem_len(), w.queue_depth()).unwrap();
    let base = w.buf_offset();
    for idx in 0..2u64 {
        let h = w.slot(idx);
        assert_eq!(r.slot_index(idx), w.slot_position(idx));
        assert_eq!(r.read(h), Some(MapRange { start: base + h.offset, end: base + h.offset + h.len }));
    }
    assert_eq!(w.slot(1), hdr(12, 16));
}

#[test]
fn reservation_does_not_overlap_unread_messages() {
    let mut q = MutMemQueue::new(50, 8);
    let mut head = 0u64;
    let mut lens = vec![];
    for round in 0..40u64 {
        let want = (round as usize * 7) % 23 + 1;
        if let Some(m) = q.try_reserve(head, want) {
            for i in head..q.tail() {
                let s = q.slot(i);
                assert!(m.offset + m.len <= s.offset || s.offset + s.len <= m.offset);
            }
            assert!(m.offset + m.len <= 50);
            q.write_message(want);
            lens.push(want);
        } else {
            head += 1;
        }
    }
}

#[test]
fn copy_range_copies() {
    let mem = [1u8, 2, 3, 4, 5];
    assert_eq!(copy_range(&mem, MapRange { start: 1, end: 4 }), vec![2, 3, 4]);
    assert_eq!(copy_range(&mem, MapRange { start: 2, end: 2 }), Vec::<u8>::new());
}

#[test]
fn ring_layout_over_many_rounds() {
    // Reader and writer interleave; every reservation stays clear of the
    // unread messages, and the reader never sees the writer lap it.
    let mut q = MutMemQueue::new(64, 4);
    let mut head = 0u64;
    for round in 0..200u64 {
        let want = (round as usize * 13) % 29 + 1;
        if round % 3 == 0 && head < q.tail() {
            head += 1;
            continue;
        }
        assert!(q.reserve_allowed(head));
        match q.try_reserve(head, want) {
            Some(m) => {
                for i in head..q.tail() {
                    let s = q.slot(i);
                    assert!(m.offset + m.len <= s.offset || s.offset + s.len <= m.offset);
                }
                q.write_message(want - (round as usize % 2).min(want));
                assert!(q.tail() - head <= 4);
            }
            None => {
                if head < q.tail() {
                    head += 1;
                }
            }
        }
    }
}

#[test]
fn zero_length_message_at_oldest_start_lets_a_reservation_overlap() {
    let mut q = MutMemQueue::new(16, 4);
    assert_eq!(q.try_reserve(0, 8), Some(hdr(0, 8)));
    q.write_message(8);
    assert_eq!(q.try_reserve(0, 4), Some(hdr(8, 4)));
    q.write_message(4);
    // The reader consumes the first message; the second one, 8..12, is unread.
    let head = 1;
    assert_eq!(q.try_reserve(head, 8), Some(hdr(0, 8)));
    q.write_message(8);
    // An empty message fits exactly where the oldest unread one starts...
    assert_eq!(q.try_reserve(head, 0), Some(hdr(8, 0)));
    q.write_message(0);
    // ...after which the queue no longer sees the data as wrapped, and hands
    // out the bytes of the unread message at 8..12.
    assert_eq!(q.try_reserve(head, 4), Some(hdr(8, 4)));
    assert_eq!(q.slot(1), hdr(8, 4));
}

#[test]
fn set_tail_is_read_back_and_changes_nothing_else() {
    let mut q = MutMemQueue::new(16, 2);
    q.set_state(ST_WAITING);
    q.set_tail(9);
    assert_eq!(q.tail(), 9);
    assert_eq!(q.state(), ST_WAITING);
    assert_eq!(q.other_state(), ST_ACTIVE);
    assert_eq!(q.other_head(), 0);
    assert_eq!(q.queue_depth(), 2);
    assert_eq!(q.max_len(), 16);
    assert_eq!(q.slot(0), hdr(0, 0));
    assert_eq!(q.slot(1), hdr(0, 0));
}

#[test]
fn empty_messages_at_the_oldest_start_keep_the_order() {
    // Unread messages that do not wrap, all empty at offset 0: a reservation
    // starting where the oldest one starts still follows the newest one.
    let mut q = MutMemQueue::new(16, 4);
    assert_eq!(q.try_reserve(0, 0), Some(hdr(0, 0)));
    q.write_message(0);
    assert_eq!(q.try_reserve(0, 5), Some(hdr(0, 5)));
    q.write_message(5);
    assert_eq!(q.try_reserve(0, 3), Some(hdr(5, 3)));
}

#[test]
fn skipped_slot_reads_as_nothing_and_takes_no_room() {
    let mut q = MutMemQueue::new(16, 4);
    assert_eq!(q.try_reserve(0, 6), Some(hdr(0, 6)));
    q.skip_message();
    assert_eq!(q.tail(), 1);
    assert_eq!(q.slot(0), hdr(0, usize::MAX));
    // The given-up slot covers no bytes: the next message may start at 0.
    assert_eq!(q.try_reserve(0, 16), Some(hdr(0, 16)));
    let r = MemQueue::from_mem(q.mem_len(), q.queue_depth()).unwrap();
    assert_eq!(r.read(hdr(0, usize::MAX)), None);
}
