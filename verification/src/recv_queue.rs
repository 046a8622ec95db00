//! The reading side of a bidirectional queue: the peer's mapping seen
//! read-only, checked once when it arrives, then used to locate message
//! headers and message bytes inside it.

use vstd::prelude::*;
use vstd::arithmetic::power2::is_pow2;
use crate::layout::{
    lemma_mask_is_mod, valid_queue_depth, valid_queue_depth_spec, MAX_QUEUE_DEPTH, SIZE_HEADER,
    SIZE_SEND_STATE, SIZE_STATE,
};
use crate::send_queue::{MessageHeader, SendQueueState};

verus! {

/// Why a peer's queue mapping was refused.
#[derive(Clone, Copy, Debug, PartialEq, Eq, Structural)]
pub enum QueueError {
    /// The mapping cannot even hold the state block.
    StateTooSmall,
    /// The announced queue depth is not a power of two or is too large.
    BadQueueDepth,
    /// The mapping cannot hold the state block and the header slots.
    MapTooSmall,
}

impl QueueError {
    /// The error message for this refusal.
    pub fn message(&self) -> (r: &'static str)
        ensures
            match self {
                QueueError::StateTooSmall => r@ == "memory map from is too small for buffer and state"@,
                QueueError::BadQueueDepth => r@ == "queue depth isn't a valid size"@,
                QueueError::MapTooSmall => r@ == "memory map is too small for buffer and state"@,
            },
    {
        match self {
            QueueError::StateTooSmall => "memory map from is too small for buffer and state",
            QueueError::BadQueueDepth => "queue depth isn't a valid size",
            QueueError::MapTooSmall => "memory map is too small for buffer and state",
        }
    }
}

/// A byte range `start..end` of a mapping.
#[derive(Clone, Copy, Debug, PartialEq, Eq, Structural)]
pub struct MapRange {
    pub start: usize,
    pub end: usize,
}

/// Mathematical model of a reading queue.
pub struct RecvQueueState {
    /// Number of header slots announced by the peer.
    pub queue_depth: nat,
    /// Size of the peer's mapping in bytes.
    pub mem_len: nat,
}

impl RecvQueueState {
    /// The slot that logical index `i` uses.
    pub open spec fn slot(self, i: int) -> int {
        i % (self.queue_depth as int)
    }

    /// Byte offset of the data buffer within the mapping.
    pub open spec fn data_start(self) -> int {
        SIZE_STATE + self.queue_depth * SIZE_HEADER
    }

    /// Where the bytes of the message described by `header` lie in the
    /// mapping, or `None` if they do not lie inside it.
    pub open spec fn read(self, header: MessageHeader) -> Option<MapRange> {
        let start = header.offset + self.data_start();
        let end = start + header.len;
        if end <= self.mem_len {
            Some(MapRange { start: start as usize, end: end as usize })
        } else {
            None
        }
    }
}

/// The reading side of a bidirectional queue.
pub struct MemQueue {
    queue_depth: usize,
    mem_len: usize,
}

impl View for MemQueue {
    type V = RecvQueueState;

    closed spec fn view(&self) -> RecvQueueState {
        RecvQueueState { queue_depth: self.queue_depth as nat, mem_len: self.mem_len as nat }
    }
}

impl MemQueue {
    /// Well-formedness: the depth passed the checks of `from_mem`.
    pub open spec fn wf(&self) -> bool {
        valid_queue_depth_spec(self@.queue_depth) && self@.mem_len <= usize::MAX
    }

    /// Accept the peer's mapping of `mem_len` bytes whose state block
    /// announces `queue_depth` slots. The mapping must hold the state block,
    /// the depth must be a power of two of at most `MAX_QUEUE_DEPTH`, and the
    /// mapping must hold a sender state block and the header slots.
    ///
    /// A caller that cannot read the state block because the mapping is too
    /// small may pass any depth: the length is checked first.
    pub fn from_mem(mem_len: usize, queue_depth: usize) -> (r: Result<MemQueue, QueueError>)
        ensures
            match r {
                Ok(q) => {
                    &&& SIZE_STATE <= mem_len
                    &&& valid_queue_depth_spec(queue_depth as nat)
                    &&& SIZE_SEND_STATE + queue_depth * SIZE_HEADER <= mem_len
                    &&& q@ == RecvQueueState { queue_depth: queue_depth as nat, mem_len: mem_len as nat }
                    &&& q.wf()
                },
                Err(QueueError::StateTooSmall) => mem_len < SIZE_STATE,
                Err(QueueError::BadQueueDepth) => SIZE_STATE <= mem_len && !valid_queue_depth_spec(
                    queue_depth as nat,
                ),
                Err(QueueError::MapTooSmall) => {
                    &&& SIZE_STATE <= mem_len
                    &&& valid_queue_depth_spec(queue_depth as nat)
                    &&& mem_len < SIZE_SEND_STATE + queue_depth * SIZE_HEADER
                },
            },
    {
        if mem_len < SIZE_STATE {
            return Err(QueueError::StateTooSmall);
        }
        if !valid_queue_depth(queue_depth) {
            return Err(QueueError::BadQueueDepth);
        }
        if mem_len < SIZE_SEND_STATE + queue_depth * SIZE_HEADER {
            return Err(QueueError::MapTooSmall);
        }
        Ok(MemQueue { queue_depth, mem_len })
    }

    /// The number of header slots.
    pub fn queue_depth(&self) -> (r: usize)
        ensures
            r == self@.queue_depth,
    {
        self.queue_depth
    }

    /// The slot that logical index `idx` uses.
    pub fn slot_index(&self, idx: u64) -> (r: usize)
        requires
            self.wf(),
        ensures
            r == self@.slot(idx as int),
            r < self@.queue_depth,
    {
        let qd = self.queue_depth as u64;
        proof {
            lemma_mask_is_mod(idx, qd);
        }
        (idx & (qd - 1)) as usize
    }

    /// Where the header of logical index `idx` lies in the mapping, or `None`
    /// if that slot lies beyond the end of the mapping.
    pub fn slot_range(&self, idx: u64) -> (r: Option<MapRange>)
        requires
            self.wf(),
        ensures
            ({
                let start = SIZE_STATE + self@.slot(idx as int) * SIZE_HEADER;
                if start + SIZE_HEADER <= self@.mem_len {
                    r == Some(MapRange { start: start as usize, end: (start + SIZE_HEADER) as usize })
                } else {
                    r is None
                }
            }),
    {
        let slot = self.slot_index(idx);
        let start = SIZE_STATE + slot * SIZE_HEADER;
        if start <= self.mem_len && SIZE_HEADER <= self.mem_len - start {
            Some(MapRange { start, end: start + SIZE_HEADER })
        } else {
            None
        }
    }

    /// Where the bytes of the message described by `header` lie in the
    /// mapping, or `None` if they do not lie inside it.
    pub fn read(&self, header: MessageHeader) -> (r: Option<MapRange>)
        requires
            self.wf(),
        ensures
            r == self@.read(header),
    {
        let data_start = SIZE_STATE + self.queue_depth * SIZE_HEADER;
        if header.offset > self.mem_len || data_start > self.mem_len - header.offset {
            return None;
        }
        let start = header.offset + data_start;
        if header.len > self.mem_len - start {
            return None;
        }
        Some(MapRange { start, end: start + header.len })
    }
}

/// Copy the bytes `range` of `mem` out.
pub fn copy_range(mem: &[u8], range: MapRange) -> (r: Vec<u8>)
    requires
        range.start <= range.end <= mem@.len(),
    ensures
        r@ == mem@.subrange(range.start as int, range.end as int),
{
    let mut out: Vec<u8> = Vec::new();
    let mut i = range.start;
    while i < range.end
        invariant
            range.start <= i <= range.end <= mem@.len(),
            out@ == mem@.subrange(range.start as int, i as int),
        decreases range.end - i,
    {
        out.push(mem[i]);
        i = i + 1;
        proof {
            assert(out@ =~= mem@.subrange(range.start as int, i as int));
        }
    }
    out
}

/// The handshake accepts every queue this library builds: for a
/// well-formed sending queue whose depth is at most `MAX_QUEUE_DEPTH`
/// (every depth up to it, 1 included, that `MutMemQueue::new` rounds to),
/// the reading side's check of the mapping succeeds, keeping the depth and
/// the mapping's length.
pub proof fn lemma_own_queue_passes_check(q: SendQueueState)
    requires
        q.wf(),
        q.queue_depth <= MAX_QUEUE_DEPTH,
    ensures
        valid_queue_depth_spec(q.queue_depth),
        SIZE_STATE <= SIZE_STATE + q.queue_depth * SIZE_HEADER + q.buf_len,
        SIZE_SEND_STATE + q.queue_depth * SIZE_HEADER <= SIZE_STATE + q.queue_depth * SIZE_HEADER
            + q.buf_len,
{
}

/// Reading back what was written: when the reader's queue has the writer's
/// depth and the writer's mapping, then for every message the writer has
/// committed and not yet lapped, the slot the reader consults holds exactly
/// the committed header, and the bytes the reader locates for it are exactly
/// the ones the writer reserved in its data buffer; a slot given up without
/// a message locates no bytes at all.
pub proof fn lemma_read_back(q: SendQueueState, r: RecvQueueState, i: int)
    requires
        q.wf(),
        r.queue_depth == q.queue_depth,
        r.mem_len == SIZE_STATE + q.queue_depth * SIZE_HEADER + q.buf_len,
        0 <= i < q.tail,
        q.tail - q.queue_depth < i,
    ensures
        q.slots[r.slot(i)] == q.log[i],
        !q.log[i].skipped() ==> r.read(q.log[i]) == Some(
            MapRange {
                start: (r.data_start() + q.log[i].offset) as usize,
                end: (r.data_start() + q.log[i].end()) as usize,
            },
        ),
        q.log[i].skipped() ==> r.read(q.log[i]) is None,
{
    let qd = q.queue_depth as int;
    assert(qd >= 1) by {
        vstd::arithmetic::power2::lemma2_to64();
        reveal(is_pow2);
    }
    vstd::arithmetic::div_mod::lemma_mod_bound(i, qd);
    assert(q.log[i] == q.slot_header(i));
    assert(q.slots[q.slot(i)].end() <= q.buf_len);
}

} // verus!
