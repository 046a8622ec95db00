//! The writing side of a bidirectional queue: the message-header slots and
//! the tail pointer that the sender keeps in its own shared mapping, and the
//! reservation of space in the data buffer that follows the slots.

use vstd::prelude::*;
use vstd::arithmetic::power2::is_pow2;
use vstd::arithmetic::div_mod::*;
use crate::layout::{
    is_next_pow2, lemma_mask_is_mod, next_power_of_two, ST_ACTIVE, SIZE_HEADER, SIZE_STATE,
};

verus! {

/// Where one message lies in the data buffer: `len` bytes from `offset`.
#[derive(Clone, Copy, Debug, PartialEq, Eq, Structural)]
pub struct MessageHeader {
    pub offset: usize,
    pub len: usize,
}

impl MessageHeader {
    /// Whether the header marks a slot given up without a message: its
    /// length is `usize::MAX`, which no message can have. Readers skip it.
    pub open spec fn skipped(self) -> bool {
        self.len == usize::MAX
    }

    /// Number of data-buffer bytes the region covers: none for a skipped
    /// slot.
    pub open spec fn data_len(self) -> int {
        if self.skipped() {
            0
        } else {
            self.len as int
        }
    }

    /// One past the last byte of the region.
    pub open spec fn end(self) -> int {
        self.offset + self.data_len()
    }

    /// Whether the header marks a slot given up without a message.
    pub fn is_skipped(&self) -> (r: bool)
        ensures
            r == self.skipped(),
    {
        self.len == usize::MAX
    }

    /// Number of data-buffer bytes the region covers.
    pub fn byte_len(&self) -> (r: usize)
        ensures
            r == self.data_len(),
    {
        if self.len == usize::MAX {
            0
        } else {
            self.len
        }
    }
}

/// The header for `len` bytes at `offset`.
pub open spec fn region(offset: int, len: int) -> MessageHeader {
    MessageHeader { offset: offset as usize, len: len as usize }
}

/// Two regions of the data buffer share no byte.
pub open spec fn disjoint(a: MessageHeader, b: MessageHeader) -> bool {
    a.data_len() == 0 || b.data_len() == 0 || a.end() <= b.offset || b.end() <= a.offset
}

/// Mathematical model of a sending queue.
pub struct SendQueueState {
    /// Number of header slots, a power of two.
    pub queue_depth: nat,
    /// Size of the data buffer in bytes.
    pub buf_len: nat,
    /// Logical index of the next message to be written.
    pub tail: nat,
    /// This side's state word (`ST_ACTIVE`, `ST_WAITING` or `ST_CLOSED`).
    pub state: nat,
    /// The state word this side keeps for its peer.
    pub other_state: nat,
    /// Head pointer this side publishes for the peer's queue.
    pub other_head: nat,
    /// The header slots, indexed by logical index modulo the depth.
    pub slots: Seq<MessageHeader>,
    /// Every message committed so far, by logical index.
    pub log: Seq<MessageHeader>,
}

impl SendQueueState {
    /// The slot that logical index `i` uses.
    pub open spec fn slot(self, i: int) -> int {
        i % (self.queue_depth as int)
    }

    /// The header currently held by the slot of logical index `i`.
    pub open spec fn slot_header(self, i: int) -> MessageHeader {
        self.slots[self.slot(i)]
    }

    /// Well-formedness: the depth is a power of two, every slot describes a
    /// region inside the data buffer, the tail counts the committed
    /// messages, and the slots still hold the last `queue_depth - 1` of them.
    pub open spec fn wf(self) -> bool {
        &&& is_pow2(self.queue_depth as int)
        &&& self.queue_depth * SIZE_HEADER + SIZE_STATE + self.buf_len <= usize::MAX
        &&& self.tail <= u64::MAX
        &&& self.state <= usize::MAX
        &&& self.other_state <= usize::MAX
        &&& self.other_head <= u64::MAX
        &&& self.slots.len() == self.queue_depth
        &&& forall|j: int| 0 <= j < self.slots.len() ==> #[trigger] self.slots[j].end() <= self.buf_len
        &&& self.log.len() == self.tail
        &&& forall|i: int|
            0 <= i && self.tail - self.queue_depth < i < self.tail ==> #[trigger] self.log[i]
                == self.slot_header(i)
    }

    /// Inputs on which a reservation is defined: the head does not pass the
    /// tail, the tail is at most one lap ahead, and when the oldest message
    /// lies after the newest one in the buffer, the newest one ends before
    /// the oldest one starts.
    pub open spec fn reserve_defined(self, head: int) -> bool {
        &&& 0 <= head <= self.tail <= head + self.queue_depth
        &&& (self.tail != head && self.tail - head != self.queue_depth
            && self.slot_header(head).offset > self.slot_header(self.tail - 1).offset)
            ==> self.slot_header(self.tail - 1).end() <= self.slot_header(head).offset
    }

    /// Where a message of `len` bytes goes when the reader's head is `head`,
    /// or `None` if there is no room.
    ///
    /// A full queue has no room. An empty one takes the message at the start
    /// of the buffer. Otherwise, when the oldest message lies after the newest
    /// one, the message goes in the gap between them; when it does not, it
    /// goes after the newest message if it fits before the end of the buffer,
    /// else at the start if it fits before the oldest message.
    pub open spec fn reserve(self, head: int, len: int) -> Option<MessageHeader> {
        let qd = self.queue_depth as int;
        let tail = self.tail as int;
        if tail - head == qd {
            None
        } else if tail == head {
            if len <= self.buf_len {
                Some(region(0, len))
            } else {
                None
            }
        } else {
            let h = self.slot_header(head);
            let t = self.slot_header(tail - 1);
            if h.offset > t.offset {
                if h.offset - t.end() >= len {
                    Some(region(t.end(), len))
                } else {
                    None
                }
            } else if self.buf_len - t.end() >= len {
                Some(region(t.end(), len))
            } else if h.offset >= len {
                Some(region(0, len))
            } else {
                None
            }
        }
    }

    /// The state after recording header `m` in the tail's slot.
    pub open spec fn record(self, m: MessageHeader) -> Self {
        SendQueueState { slots: self.slots.update(self.slot(self.tail as int), m), ..self }
    }

    /// The state after a reservation attempt for `len` bytes.
    pub open spec fn after_reserve(self, head: int, len: int) -> Self {
        match self.reserve(head, len) {
            Some(m) => self.record(m),
            None => self,
        }
    }

    /// The message committed from the tail's slot with its final length.
    pub open spec fn committed(self, len: int) -> MessageHeader {
        region(self.slot_header(self.tail as int).offset as int, len)
    }

    /// The state after writing `m` out in the tail's slot and moving the
    /// tail past it.
    pub open spec fn finish(self, m: MessageHeader) -> Self {
        SendQueueState {
            slots: self.slots.update(self.slot(self.tail as int), m),
            tail: self.tail + 1,
            log: self.log.push(m),
            ..self
        }
    }

    /// The state after committing the tail's slot with `len` bytes.
    pub open spec fn commit(self, len: int) -> Self {
        self.finish(self.committed(len))
    }

    /// The tail's slot marked as given up: its offset kept, its length the
    /// skip marker.
    pub open spec fn skip_header(self) -> MessageHeader {
        MessageHeader { offset: self.slot_header(self.tail as int).offset, len: usize::MAX }
    }

    /// The state after giving the tail's slot up without a message.
    pub open spec fn skip(self) -> Self {
        self.finish(self.skip_header())
    }
}

/// Distinct logical indices less than one lap apart use distinct slots.
pub proof fn lemma_distinct_slots(i: int, j: int, qd: int)
    requires
        0 < qd,
        i < j < i + qd,
    ensures
        i % qd != j % qd,
{
    lemma_mod_equivalence(j, i, qd);
    lemma_small_mod((j - i) as nat, qd as nat);
}

/// The slot of any logical index is one of the slots, and the region it
/// describes lies inside the data buffer.
pub proof fn lemma_slot_in_range(q: SendQueueState, i: int)
    requires
        q.wf(),
    ensures
        0 <= q.slot(i) < q.queue_depth,
        q.slot_header(i).end() <= q.buf_len,
{
    assert(q.queue_depth >= 1) by {
        reveal(is_pow2);
    }
    lemma_mod_bound(i, q.queue_depth as int);
}

/// Reserving and committing never change the depth or the size of the data
/// buffer, and a granted reservation has the requested length and lies
/// inside the data buffer. (The setters change one word each: see their
/// contracts.)
pub proof fn lemma_shape_is_kept(q: SendQueueState, head: int, len: usize, written: int)
    requires
        q.wf(),
        0 <= head <= q.tail <= head + q.queue_depth,
    ensures
        q.after_reserve(head, len as int).queue_depth == q.queue_depth,
        q.after_reserve(head, len as int).buf_len == q.buf_len,
        q.commit(written).queue_depth == q.queue_depth,
        q.commit(written).buf_len == q.buf_len,
        q.reserve(head, len as int) matches Some(m) ==> m.len == len && m.len <= q.buf_len && !m.skipped()
            && m.end() <= q.buf_len,
{
    if q.tail != head {
        lemma_slot_in_range(q, head);
        lemma_slot_in_range(q, q.tail - 1);
    }
}

/// Committing with length `len` writes out a message of exactly `len` bytes
/// (an empty one for 0) at the offset the tail's slot reserved, appends it
/// to the committed messages, and moves the tail one on; giving the slot up
/// instead appends a skipped header at that offset.
pub proof fn lemma_commit_has_written_length(q: SendQueueState, len: usize)
    requires
        q.wf(),
    ensures
        q.commit(len as int).log.last() == (MessageHeader {
            offset: q.slot_header(q.tail as int).offset,
            len,
        }),
        q.commit(len as int).log.last().len == len,
        q.commit(len as int).log.drop_last() == q.log,
        q.commit(len as int).tail == q.tail + 1,
        len < usize::MAX ==> q.commit(len as int).log.last().data_len() == len,
        q.skip().log.last().offset == q.slot_header(q.tail as int).offset,
        q.skip().log.last().skipped(),
        q.skip().log.drop_last() == q.log,
        q.skip().tail == q.tail + 1,
{
    assert(q.commit(len as int).log.drop_last() =~= q.log);
    assert(q.skip().log.drop_last() =~= q.log);
}

/// The writing side of a bidirectional queue.
pub struct MutMemQueue {
    queue_depth: usize,
    buf_len: usize,
    tail: u64,
    state: usize,
    other_state: usize,
    other_head: u64,
    slots: Vec<MessageHeader>,
    log: Ghost<Seq<MessageHeader>>,
}

impl View for MutMemQueue {
    type V = SendQueueState;

    closed spec fn view(&self) -> SendQueueState {
        SendQueueState {
            queue_depth: self.queue_depth as nat,
            buf_len: self.buf_len as nat,
            tail: self.tail as nat,
            state: self.state as nat,
            other_state: self.other_state as nat,
            other_head: self.other_head as nat,
            slots: self.slots@,
            log: self.log@,
        }
    }
}

impl MutMemQueue {
    /// Well-formedness of the queue.
    pub open spec fn wf(&self) -> bool {
        self@.wf()
    }

    /// A fresh queue with a data buffer of `buf_len` bytes and `queue_depth`
    /// rounded up to a power of two: both peers active, tail and published
    /// head at zero, every slot zeroed.
    pub fn new(buf_len: usize, queue_depth: usize) -> (q: Self)
        requires
            queue_depth <= usize::MAX / 2 + 1,
            forall|p: nat|
                is_next_pow2(queue_depth as nat, p) ==> p * SIZE_HEADER + SIZE_STATE + buf_len
                    <= usize::MAX,
        ensures
            q.wf(),
            is_next_pow2(queue_depth as nat, q@.queue_depth),
            q@.buf_len == buf_len,
            q@.tail == 0,
            q@.state == ST_ACTIVE,
            q@.other_state == ST_ACTIVE,
            q@.other_head == 0,
            forall|j: int| 0 <= j < q@.slots.len() ==> #[trigger] q@.slots[j] == region(0, 0),
            q@.log == Seq::<MessageHeader>::empty(),
    {
        let qd_in = queue_depth;
        let queue_depth = next_power_of_two(queue_depth);
        proof {
            assert(is_next_pow2(qd_in as nat, queue_depth as nat));
        }
        let mut slots: Vec<MessageHeader> = Vec::new();
        let mut i: usize = 0;
        while i < queue_depth
            invariant
                i <= queue_depth,
                slots@.len() == i,
                forall|j: int| 0 <= j < i ==> #[trigger] slots@[j] == region(0, 0),
            decreases queue_depth - i,
        {
            slots.push(MessageHeader { offset: 0, len: 0 });
            i = i + 1;
        }
        MutMemQueue {
            queue_depth,
            buf_len,
            tail: 0,
            state: ST_ACTIVE,
            other_state: ST_ACTIVE,
            other_head: 0,
            slots,
            log: Ghost(Seq::empty()),
        }
    }

    /// Total size of the shared mapping: state block, header slots, data
    /// buffer.
    pub fn mem_len(&self) -> (r: usize)
        requires
            self.wf(),
        ensures
            r == SIZE_STATE + self@.queue_depth * SIZE_HEADER + self@.buf_len,
    {
        SIZE_STATE + self.queue_depth * SIZE_HEADER + self.buf_len
    }

    /// Byte offset of the data buffer within the shared mapping.
    pub fn buf_offset(&self) -> (r: usize)
        requires
            self.wf(),
        ensures
            r == SIZE_STATE + self@.queue_depth * SIZE_HEADER,
    {
        SIZE_STATE + self.queue_depth * SIZE_HEADER
    }

    /// The tail pointer.
    pub fn tail(&self) -> (r: u64)
        ensures
            r == self@.tail,
    {
        self.tail
    }

    /// The number of header slots.
    pub fn queue_depth(&self) -> (r: usize)
        ensures
            r == self@.queue_depth,
    {
        self.queue_depth
    }

    /// This side's state word.
    pub fn state(&self) -> (r: usize)
        ensures
            r == self@.state,
    {
        self.state
    }

    /// The state word this side keeps for its peer.
    pub fn other_state(&self) -> (r: usize)
        ensures
            r == self@.other_state,
    {
        self.other_state
    }

    /// The head pointer this side publishes for the peer's queue.
    pub fn other_head(&self) -> (r: u64)
        ensures
            r == self@.other_head,
    {
        self.other_head
    }

    /// Publish a new head pointer for the peer's queue.
    pub fn set_other_head(&mut self, val: u64)
        ensures
            final(self)@ == (SendQueueState { other_head: val as nat, ..old(self)@ }),
    {
        self.other_head = val;
    }

    /// Set this side's state word.
    pub fn set_state(&mut self, val: usize)
        ensures
            final(self)@ == (SendQueueState { state: val as nat, ..old(self)@ }),
    {
        self.state = val;
    }

    /// Set the state word this side keeps for its peer.
    pub fn set_other_state(&mut self, val: usize)
        ensures
            final(self)@ == (SendQueueState { other_state: val as nat, ..old(self)@ }),
    {
        self.other_state = val;
    }

    /// The maximum amount of data that can be put in a queue message: the
    /// size of the data buffer.
    pub fn max_len(&self) -> (r: usize)
        ensures
            r == self@.buf_len,
    {
        self.buf_len
    }

    /// The slot that logical index `idx` uses.
    fn slot_index(&self, idx: u64) -> (r: usize)
        requires
            self.wf(),
        ensures
            r == self@.slot(idx as int),
            r < self@.queue_depth,
    {
        let qd = self.queue_depth as u64;
        proof {
            lemma_mask_is_mod(idx, qd);
        }
        (idx & (qd - 1)) as usize
    }

    /// Record `m` in the tail's slot.
    fn record(&mut self, m: MessageHeader)
        requires
            old(self).wf(),
            m.end() <= old(self)@.buf_len,
        ensures
            final(self)@ == old(self)@.record(m),
            final(self).wf(),
    {
        let idx = self.slot_index(self.tail);
        self.slots.set(idx, m);
        proof {
            let s = self@;
            let qd = s.queue_depth as int;
            assert forall|i: int| 0 <= i && s.tail - qd < i < s.tail implies #[trigger] s.log[i] == s.slot_header(i) by {
                lemma_distinct_slots(i, s.tail as int, qd);
                assert(old(self)@.log[i] == old(self)@.slot_header(i));
            }
            assert forall|j: int| 0 <= j < s.slots.len() implies #[trigger] s.slots[j].end() <= s.buf_len by {
                if j != idx {
                    assert(old(self)@.slots[j].end() <= s.buf_len);
                }
            }
        }
    }


    /// Whether `try_reserve` accepts the reader head `head`: see
    /// `SendQueueState::reserve_defined`.
    pub fn reserve_allowed(&self, head: u64) -> (r: bool)
        requires
            self.wf(),
        ensures
            r == self@.reserve_defined(head as int),
    {
        let queue_depth = self.queue_depth as u64;
        let tail = self.tail;
        if head > tail || tail - head > queue_depth {
            return false;
        }
        if tail == head || tail - head == queue_depth {
            return true;
        }
        let h = self.slots[self.slot_index(head)];
        let t = self.slots[self.slot_index(tail - 1)];
        proof {
            assert(t.end() <= self@.buf_len);
        }
        h.offset <= t.offset || t.offset + t.byte_len() <= h.offset
    }

    /// The header held by the slot of logical index `idx`.
    pub fn slot(&self, idx: u64) -> (r: MessageHeader)
        requires
            self.wf(),
        ensures
            r == self@.slot_header(idx as int),
    {
        self.slots[self.slot_index(idx)]
    }

    /// The position of the slot of logical index `idx` among the slots.
    pub fn slot_position(&self, idx: u64) -> (r: usize)
        requires
            self.wf(),
        ensures
            r == self@.slot(idx as int),
            r < self@.queue_depth,
    {
        self.slot_index(idx)
    }

    /// Given the reader's head pointer, try to reserve `len` bytes of the
    /// data buffer for the next message and record the reservation in the
    /// tail's slot. Returns where the bytes are, or `None` if the queue is
    /// full or no gap of `len` bytes is free.
    pub fn try_reserve(&mut self, head: u64, len: usize) -> (r: Option<MessageHeader>)
        requires
            old(self).wf(),
            old(self)@.reserve_defined(head as int),
        ensures
            r == old(self)@.reserve(head as int, len as int),
            final(self)@ == old(self)@.after_reserve(head as int, len as int),
            final(self).wf(),
    {
        let queue_depth = self.queue_depth as u64;
        let tail = self.tail;
        if tail - head == queue_depth {
            return None;
        }
        if tail == head {
            // Nothing is in the buffer: the message goes at its start.
            if len <= self.buf_len {
                let m = MessageHeader { offset: 0, len };
                self.record(m);
                return Some(m);
            } else {
                return None;
            }
        }
        // Load the oldest and newest message headers.
        let head_header = self.slots[self.slot_index(head)];
        let tail_header = self.slots[self.slot_index(tail - 1)];
        let buf_len = self.buf_len;
        proof {
            assert(head_header.end() <= buf_len);
            assert(tail_header.end() <= buf_len);
        }
        if head_header.offset > tail_header.offset {
            // The free space is one gap between the newest and the oldest
            // message.
            let offset = tail_header.offset + tail_header.byte_len();
            let avail_len = head_header.offset - offset;
            if avail_len >= len {
                let m = MessageHeader { offset, len };
                self.record(m);
                Some(m)
            } else {
                None
            }
        } else {
            // The free space is split: after the newest message, and before
            // the oldest one. Try the end first.
            let end_offset = tail_header.offset + tail_header.byte_len();
            let end_len = buf_len - end_offset;
            if end_len >= len {
                let m = MessageHeader { offset: end_offset, len };
                self.record(m);
                return Some(m);
            }
            let start_len = head_header.offset;
            if start_len >= len {
                let m = MessageHeader { offset: 0, len };
                self.record(m);
                return Some(m);
            }
            None
        }
    }

    /// Set the tail pointer. Only the tail changes: a tail that does not
    /// count the committed messages leaves the queue not well-formed.
    pub fn set_tail(&mut self, val: u64)
        ensures
            final(self)@ == (SendQueueState { tail: val as nat, ..old(self)@ }),
    {
        self.tail = val;
    }

    /// Write `msg` out in the tail's slot and move the tail past it.
    fn finish(&mut self, msg: MessageHeader)
        requires
            old(self).wf(),
            old(self)@.tail < u64::MAX,
            msg.end() <= old(self)@.buf_len,
        ensures
            final(self)@ == old(self)@.finish(msg),
            final(self).wf(),
    {
        let tail = self.tail;
        let idx = self.slot_index(tail);
        self.slots.set(idx, msg);
        self.log = Ghost(self.log@.push(msg));
        self.set_tail(tail + 1);
        proof {
            let s = self@;
            let o = old(self)@;
            let qd = s.queue_depth as int;
            assert forall|i: int| 0 <= i && s.tail - qd < i < s.tail implies #[trigger] s.log[i] == s.slot_header(i) by {
                if i < o.tail {
                    lemma_distinct_slots(i, o.tail as int, qd);
                    assert(o.log[i] == o.slot_header(i));
                }
            }
            assert forall|j: int| 0 <= j < s.slots.len() implies #[trigger] s.slots[j].end() <= s.buf_len by {
                assert(o.slots[j].end() <= s.buf_len);
            }
        }
    }

    /// Write out the message in the tail's slot: fix its length to the
    /// actual `len`, which may not exceed the reserved length, and move the
    /// tail past it.
    pub fn write_message(&mut self, len: usize)
        requires
            old(self).wf(),
            old(self)@.tail < u64::MAX,
            len <= old(self)@.slot_header(old(self)@.tail as int).data_len(),
        ensures
            final(self)@ == old(self)@.commit(len as int),
            final(self).wf(),
    {
        let idx = self.slot_index(self.tail);
        proof {
            assert(self@.slots[idx as int].end() <= self@.buf_len);
        }
        let msg = MessageHeader { offset: self.slots[idx].offset, len };
        self.finish(msg);
    }

    /// Give the tail's slot up without a message: mark it skipped, keeping
    /// its offset, and move the tail past it. Readers skip such a slot.
    pub fn skip_message(&mut self)
        requires
            old(self).wf(),
            old(self)@.tail < u64::MAX,
        ensures
            final(self)@ == old(self)@.skip(),
            final(self).wf(),
    {
        let idx = self.slot_index(self.tail);
        proof {
            assert(self@.slots[idx as int].end() <= self@.buf_len);
        }
        let msg = MessageHeader { offset: self.slots[idx].offset, len: usize::MAX };
        self.finish(msg);
    }
}

} // verus!
