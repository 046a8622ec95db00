//! The ring invariant of a sending queue: the shape that the unread
//! messages keep in the data buffer as the writer reserves and commits and
//! the reader consumes, and the proof that it keeps reservations clear of
//! unread messages.
//!
//! Each unread message starts where the previous one ends, except at most
//! once, where the messages wrap round to the start of the buffer; when they
//! do, the newest message ends no later than, and starts before, the oldest
//! one starts.

use vstd::prelude::*;
use vstd::arithmetic::power2::is_pow2;
use vstd::arithmetic::div_mod::lemma_mod_bound;
use crate::send_queue::{lemma_distinct_slots, disjoint, region, MessageHeader, SendQueueState};

verus! {

impl SendQueueState {
    /// Message `k` starts where message `k - 1` ends.
    pub open spec fn adjacent(self, k: int) -> bool {
        self.slot_header(k).offset == self.slot_header(k - 1).end()
    }

    /// The unread messages from `head` wrap at index `w`, or do not wrap if
    /// `w` is the tail: every message but the one at `w` starts where the
    /// previous one ends, and the one at `w` starts at the start of the
    /// buffer, with the newest message starting before and ending no later
    /// than where the oldest one starts.
    pub open spec fn wraps_at(self, head: int, w: int) -> bool {
        let h = self.slot_header(head);
        let t = self.slot_header(self.tail - 1);
        &&& head < w <= self.tail
        &&& forall|k: int| head < k < self.tail && k != w ==> #[trigger] self.adjacent(k)
        &&& w < self.tail ==> {
            &&& self.slot_header(w).offset == 0
            &&& t.offset < h.offset
            &&& t.end() <= h.offset
        }
    }

    /// The ring invariant for reader head `head`: the reader is at most one
    /// lap behind the writer, and the unread messages are laid out in the
    /// data buffer one after the other, wrapping at most once.
    pub open spec fn ring_inv(self, head: int) -> bool {
        &&& 0 <= head <= self.tail <= head + self.queue_depth
        &&& (self.tail == head || exists|w: int| #[trigger] self.wraps_at(head, w))
    }
}

impl SendQueueState {
    /// Whether region `m` lies where the messages from `head` to the tail
    /// may lie: when the oldest message starts after the newest one, the
    /// messages wrap round the end of the buffer and `m` lies from the
    /// oldest message's start to the end of the buffer or from the start of
    /// the buffer to the newest message's end; otherwise `m` lies between the
    /// oldest message's start and the newest message's end.
    pub open spec fn in_live_span(self, head: int, m: MessageHeader) -> bool {
        let h = self.slot_header(head);
        let t = self.slot_header(self.tail - 1);
        if h.offset > t.offset {
            m.offset >= h.offset || m.end() <= t.end()
        } else {
            h.offset <= m.offset && m.end() <= t.end()
        }
    }

    /// Layout invariant of the messages still unread when the reader's head
    /// is `head`: they all lie in the span from the oldest message to the
    /// newest one, and when that span wraps, the newest message ends before
    /// the oldest one starts.
    pub open spec fn layout_inv(self, head: int) -> bool {
        let h = self.slot_header(head);
        let t = self.slot_header(self.tail - 1);
        self.tail == head || {
            &&& h.offset > t.offset ==> t.end() <= h.offset
            &&& forall|i: int| head <= i < self.tail ==> #[trigger] self.in_live_span(head, self.slot_header(i))
        }
    }
}

/// A reservation lies inside the data buffer and shares no byte with any
/// message the reader has not consumed yet.
pub proof fn lemma_reservation_is_free(q: SendQueueState, head: int, len: usize)
    requires
        q.wf(),
        0 <= head <= q.tail <= head + q.queue_depth,
        q.layout_inv(head),
        q.reserve(head, len as int) is Some,
    ensures
        q.reserve(head, len as int).unwrap().end() <= q.buf_len,
        q.reserve(head, len as int).unwrap().len == len,
        forall|i: int|
            head <= i < q.tail ==> disjoint(q.reserve(head, len as int).unwrap(), #[trigger] q.slot_header(i)),
{
    let m = q.reserve(head, len as int).unwrap();
    let qd = q.queue_depth as int;
    assert(qd >= 1) by {
        reveal(is_pow2);
    }
    if q.tail != head {
        lemma_mod_bound(head, qd);
        lemma_mod_bound(q.tail - 1, qd);
        assert(q.slot_header(head).end() <= q.buf_len);
        assert(q.slot_header(q.tail - 1).end() <= q.buf_len);
        assert forall|i: int| head <= i < q.tail implies disjoint(m, #[trigger] q.slot_header(i)) by {
            assert(q.in_live_span(head, q.slot_header(i)));
        }
    }
}

/// Along a run of adjacent messages, starts and ends do not decrease.
proof fn lemma_run_monotone(q: SendQueueState, a: int, b: int)
    requires
        a <= b,
        forall|k: int| a < k <= b ==> #[trigger] q.adjacent(k),
    ensures
        forall|k: int|
            a <= k <= b ==> q.slot_header(a).offset <= #[trigger] q.slot_header(k).offset
                && q.slot_header(k).end() <= q.slot_header(b).end(),
    decreases b - a,
{
    if a < b {
        lemma_run_monotone(q, a, b - 1);
        assert(q.adjacent(b));
    }
}

proof fn lemma_depth_positive(q: SendQueueState)
    requires
        q.wf(),
    ensures
        q.queue_depth >= 1,
{
    reveal(is_pow2);
}

/// A reader that has caught up with the writer satisfies the ring invariant.
pub proof fn lemma_caught_up_ring(q: SendQueueState)
    requires
        q.wf(),
    ensures
        q.ring_inv(q.tail as int),
{
}

/// The ring invariant gives the layout invariant: every unread message lies
/// in the span the reservation logic treats as occupied.
pub proof fn lemma_ring_gives_layout(q: SendQueueState, head: int)
    requires
        q.wf(),
        q.ring_inv(head),
    ensures
        q.layout_inv(head),
{
    if q.tail != head {
        let w = choose|w: int| #[trigger] q.wraps_at(head, w);
        let tail = q.tail as int;
        lemma_run_monotone(q, head, w - 1);
        if w < tail {
            lemma_run_monotone(q, w, tail - 1);
        }
        if w == tail {
            assert(q.slot_header(head).offset <= q.slot_header(tail - 1).offset);
        }
        assert forall|i: int| head <= i < tail implies #[trigger] q.in_live_span(head, q.slot_header(i)) by {
            if i < w {
                assert(q.slot_header(head).offset <= q.slot_header(i).offset);
                if w == tail {
                    assert(q.slot_header(i).end() <= q.slot_header(tail - 1).end());
                }
            } else {
                assert(q.slot_header(i).end() <= q.slot_header(tail - 1).end());
            }
        }
    }
}

/// Under the ring invariant, a reservation lies inside the data buffer and
/// shares no byte with any message the reader has not consumed yet.
pub proof fn lemma_ring_reservation_is_free(q: SendQueueState, head: int, len: usize)
    requires
        q.wf(),
        q.ring_inv(head),
        q.reserve(head, len as int) is Some,
    ensures
        q.reserve(head, len as int).unwrap().end() <= q.buf_len,
        forall|i: int|
            head <= i < q.tail ==> disjoint(q.reserve(head, len as int).unwrap(), #[trigger] q.slot_header(i)),
{
    lemma_ring_gives_layout(q, head);
    lemma_reservation_is_free(q, head, len);
}

/// Writing out, after a reservation, any header at the reservation's offset
/// that covers at most the reserved bytes keeps the ring invariant, with the
/// exception stated by `lemma_commit_keeps_ring`.
proof fn lemma_finish_keeps_ring(q: SendQueueState, head: int, len: usize, n: MessageHeader)
    requires
        q.wf(),
        q.ring_inv(head),
        q.tail < u64::MAX,
        q.reserve(head, len as int) is Some,
        n.offset == q.reserve(head, len as int).unwrap().offset,
        n.data_len() <= len,
        q.tail == head || q.slot_header(head).offset <= q.slot_header(q.tail - 1).offset
            || q.reserve(head, len as int).unwrap().offset != q.slot_header(head).offset,
    ensures
        q.after_reserve(head, len as int).finish(n).ring_inv(head),
{
    lemma_depth_positive(q);
    let m = q.reserve(head, len as int).unwrap();
    let qd = q.queue_depth as int;
    let tail = q.tail as int;
    let q2 = q.after_reserve(head, len as int).finish(n);
    lemma_mod_bound(tail, qd);
    assert(q2.slot_header(tail) == n);
    assert(q2.tail == tail + 1);
    if tail == head {
        assert(q2.wraps_at(head, tail + 1));
    } else {
        let w = choose|w: int| #[trigger] q.wraps_at(head, w);
        assert forall|i: int| head <= i < tail implies #[trigger] q2.slot_header(i) == q.slot_header(i) by {
            lemma_distinct_slots(i, tail, qd);
        }
        let h = q.slot_header(head);
        let t = q.slot_header(tail - 1);
        assert(q2.slot_header(head) == h);
        assert(q2.slot_header(tail - 1) == t);
        lemma_mod_bound(head, qd);
        lemma_mod_bound(tail - 1, qd);
        assert(h.end() <= q.buf_len);
        assert(t.end() <= q.buf_len);
        lemma_run_monotone(q, head, w - 1);
        assert forall|k: int| head < k < tail && k != w implies #[trigger] q2.adjacent(k) by {
            assert(q.adjacent(k));
        }
        if w < tail {
            // The messages wrap: the new one goes in the gap after the newest.
            assert(m.offset == t.end());
            assert(q2.adjacent(tail));
            assert(q2.wraps_at(head, w));
        } else {
            assert(h.offset <= t.offset);
            if m.offset == t.end() && q.buf_len - t.end() >= len {
                assert(q2.adjacent(tail));
                assert(q2.wraps_at(head, tail + 1));
            } else {
                // The new message wraps to the start of the buffer.
                assert(m.offset == 0);
                assert(q2.wraps_at(head, tail));
            }
        }
    }
}

/// On that exception, any such header loses the ring invariant.
proof fn lemma_finish_at_oldest_breaks_ring(q: SendQueueState, head: int, len: usize, n: MessageHeader)
    requires
        q.wf(),
        q.ring_inv(head),
        q.tail < u64::MAX,
        q.reserve(head, len as int) is Some,
        n.offset == q.reserve(head, len as int).unwrap().offset,
        n.data_len() <= len,
        q.tail != head,
        q.slot_header(head).offset > q.slot_header(q.tail - 1).offset,
        q.reserve(head, len as int).unwrap().offset == q.slot_header(head).offset,
    ensures
        !q.after_reserve(head, len as int).finish(n).ring_inv(head),
{
    lemma_depth_positive(q);
    let qd = q.queue_depth as int;
    let tail = q.tail as int;
    let q2 = q.after_reserve(head, len as int).finish(n);
    let h = q.slot_header(head);
    let t = q.slot_header(tail - 1);
    let w = choose|w: int| #[trigger] q.wraps_at(head, w);
    lemma_run_monotone(q, head, w - 1);
    if w == tail {
        assert(h.offset <= t.offset);
    }
    assert(w < tail);
    lemma_mod_bound(tail, qd);
    assert forall|i: int| head <= i < tail implies #[trigger] q2.slot_header(i) == q.slot_header(i) by {
        lemma_distinct_slots(i, tail, qd);
    }
    assert(q2.slot_header(tail).offset == h.offset);
    assert(q.slot_header(w - 1).end() >= h.offset);
    assert(!q2.adjacent(w));
    if q2.ring_inv(head) {
        let w2 = choose|w2: int| #[trigger] q2.wraps_at(head, w2);
        if w2 != w {
            assert(q2.adjacent(w));
        }
        assert(q2.slot_header(q2.tail - 1) == q2.slot_header(tail));
    }
}


/// After a reservation, the tail's slot holds it, so committing or giving
/// it up writes out a header at the reservation's offset.
proof fn lemma_tail_slot_is_reservation(q: SendQueueState, head: int, len: usize)
    requires
        q.wf(),
        q.reserve(head, len as int) is Some,
    ensures
        q.after_reserve(head, len as int).slot_header(q.tail as int) == q.reserve(head, len as int).unwrap(),
{
    lemma_depth_positive(q);
    lemma_mod_bound(q.tail as int, q.queue_depth as int);
}

/// Reserving space and committing a message of at most the reserved length
/// keeps the ring invariant for the same reader head; unless the unread
/// messages wrap (the oldest starts after the newest) and the reservation,
/// then necessarily empty, starts exactly where the oldest of them starts.
pub proof fn lemma_commit_keeps_ring(q: SendQueueState, head: int, len: usize, written: usize)
    requires
        q.wf(),
        q.ring_inv(head),
        q.tail < u64::MAX,
        q.reserve(head, len as int) is Some,
        written <= len,
        q.tail == head || q.slot_header(head).offset <= q.slot_header(q.tail - 1).offset
            || q.reserve(head, len as int).unwrap().offset != q.slot_header(head).offset,
    ensures
        q.after_reserve(head, len as int).commit(written as int).ring_inv(head),
{
    lemma_tail_slot_is_reservation(q, head, len);
    let m = q.reserve(head, len as int).unwrap();
    lemma_finish_keeps_ring(q, head, len, region(m.offset as int, written as int));
}

/// Reserving space and then giving it up (marking the slot skipped) keeps
/// the ring invariant for the same reader head, with the same exception as
/// committing.
pub proof fn lemma_skip_keeps_ring(q: SendQueueState, head: int, len: usize)
    requires
        q.wf(),
        q.ring_inv(head),
        q.tail < u64::MAX,
        q.reserve(head, len as int) is Some,
        q.tail == head || q.slot_header(head).offset <= q.slot_header(q.tail - 1).offset
            || q.reserve(head, len as int).unwrap().offset != q.slot_header(head).offset,
    ensures
        q.after_reserve(head, len as int).skip().ring_inv(head),
{
    lemma_tail_slot_is_reservation(q, head, len);
    let m = q.reserve(head, len as int).unwrap();
    lemma_finish_keeps_ring(q, head, len, MessageHeader { offset: m.offset, len: usize::MAX });
}

/// The inputs that `lemma_commit_keeps_ring` leaves out are exactly those
/// on which the invariant is lost: when the unread messages wrap and the
/// reservation starts where the oldest of them starts, the committed state
/// does not satisfy the ring invariant for the same reader head.
pub proof fn lemma_commit_at_oldest_breaks_ring(q: SendQueueState, head: int, len: usize, written: usize)
    requires
        q.wf(),
        q.ring_inv(head),
        q.tail < u64::MAX,
        q.reserve(head, len as int) is Some,
        written <= len,
        q.tail != head,
        q.slot_header(head).offset > q.slot_header(q.tail - 1).offset,
        q.reserve(head, len as int).unwrap().offset == q.slot_header(head).offset,
    ensures
        !q.after_reserve(head, len as int).commit(written as int).ring_inv(head),
{
    lemma_tail_slot_is_reservation(q, head, len);
    let m = q.reserve(head, len as int).unwrap();
    lemma_finish_at_oldest_breaks_ring(q, head, len, region(m.offset as int, written as int));
}

/// Likewise for `lemma_skip_keeps_ring`: on the inputs it leaves out, giving
/// the reservation up loses the ring invariant.
pub proof fn lemma_skip_at_oldest_breaks_ring(q: SendQueueState, head: int, len: usize)
    requires
        q.wf(),
        q.ring_inv(head),
        q.tail < u64::MAX,
        q.reserve(head, len as int) is Some,
        q.tail != head,
        q.slot_header(head).offset > q.slot_header(q.tail - 1).offset,
        q.reserve(head, len as int).unwrap().offset == q.slot_header(head).offset,
    ensures
        !q.after_reserve(head, len as int).skip().ring_inv(head),
{
    lemma_tail_slot_is_reservation(q, head, len);
    let m = q.reserve(head, len as int).unwrap();
    lemma_finish_at_oldest_breaks_ring(q, head, len, MessageHeader { offset: m.offset, len: usize::MAX });
}

/// On an empty queue (the reader has caught up), every message that fits in
/// the data buffer gets room, at the start of the buffer.
pub proof fn lemma_empty_queue_has_room(q: SendQueueState, len: usize)
    requires
        q.wf(),
        len <= q.buf_len,
    ensures
        q.reserve(q.tail as int, len as int) == Some(MessageHeader { offset: 0, len }),
{
    lemma_depth_positive(q);
}

/// Under the ring invariant, with unread messages and a free slot, a
/// reservation gets room exactly when a free gap of its length exists where
/// the ring order allows the next message: when the unread messages wrap,
/// the gap between the newest one's end and the oldest one's start; when
/// they do not, the space after the newest one, or else the space before
/// the oldest one.
pub proof fn lemma_reserve_uses_free_space(q: SendQueueState, head: int, len: usize)
    requires
        q.wf(),
        q.ring_inv(head),
        head < q.tail,
        q.tail - head < q.queue_depth,
    ensures
        ({
            let h = q.slot_header(head);
            let t = q.slot_header(q.tail - 1);
            let r = q.reserve(head, len as int);
            &&& (exists|w: int| w < q.tail && #[trigger] q.wraps_at(head, w)) ==> {
                &&& (r is Some <==> t.end() + len <= h.offset)
                &&& r is Some ==> r.unwrap() == (MessageHeader { offset: t.end() as usize, len })
            }
            &&& q.wraps_at(head, q.tail as int) ==> {
                &&& (r is Some <==> (t.end() + len <= q.buf_len || len <= h.offset))
                &&& t.end() + len <= q.buf_len ==> r == Some(
                    MessageHeader { offset: t.end() as usize, len },
                )
                &&& t.end() + len > q.buf_len && len <= h.offset ==> r == Some(
                    MessageHeader { offset: 0, len },
                )
            }
        }),
{
    lemma_depth_positive(q);
    let tail = q.tail as int;
    let h = q.slot_header(head);
    let t = q.slot_header(tail - 1);
    lemma_mod_bound(head, q.queue_depth as int);
    lemma_mod_bound(tail - 1, q.queue_depth as int);
    assert(h.end() <= q.buf_len);
    assert(t.end() <= q.buf_len);
    if exists|w: int| w < q.tail && #[trigger] q.wraps_at(head, w) {
        let w = choose|w: int| w < q.tail && #[trigger] q.wraps_at(head, w);
        assert(t.offset < h.offset);
    }
    if q.wraps_at(head, tail) {
        lemma_run_monotone(q, head, tail - 1);
        assert(h.offset <= t.offset);
    }
}

/// Every reader head that satisfies the ring invariant is accepted by the
/// reservation: the head does not pass the tail, the tail is at most one lap
/// ahead, and a wrapped newest message ends before the oldest one starts.
pub proof fn lemma_ring_head_is_accepted(q: SendQueueState, head: int)
    requires
        q.wf(),
        q.ring_inv(head),
    ensures
        q.reserve_defined(head),
{
    if q.tail != head {
        let w = choose|w: int| #[trigger] q.wraps_at(head, w);
        let tail = q.tail as int;
        if w == tail {
            lemma_run_monotone(q, head, tail - 1);
        }
    }
}

/// The reader consuming its oldest unread message keeps the ring invariant.
pub proof fn lemma_consume_keeps_ring(q: SendQueueState, head: int)
    requires
        q.wf(),
        q.ring_inv(head),
        head < q.tail,
    ensures
        q.ring_inv(head + 1),
{
    if head + 1 < q.tail {
        let w = choose|w: int| #[trigger] q.wraps_at(head, w);
        let tail = q.tail as int;
        if w == head + 1 {
            assert(q.wraps_at(head + 1, tail));
        } else {
            assert(q.adjacent(head + 1));
            assert(q.wraps_at(head + 1, w));
        }
    }
}

} // verus!
