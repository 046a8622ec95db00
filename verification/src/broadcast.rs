//! Broadcasting: the layout of the broadcaster's shared mapping, and a
//! receiver's head pointer and its checks on the broadcaster's mapping.

use vstd::prelude::*;
use vstd::arithmetic::power2::is_pow2;
use crate::layout::{
    is_next_pow2, next_power_of_two, valid_queue_depth, valid_queue_depth_spec, MAX_QUEUE_DEPTH,
    SIZE_HEADER,
    SIZE_SEND_STATE, ST_ACTIVE, ST_CLOSED, ST_WAITING,
};

verus! {

/// The broadcasting side's bookkeeping: the shape of its mapping and the
/// occupied part of its data buffer.
pub struct Broadcaster {
    queue_depth: usize,
    buf_size: usize,
    buf_head: usize,
    buf_tail: usize,
    tail: u64,
    send_state: usize,
}

/// Model of a broadcaster.
pub struct BroadcasterView {
    pub queue_depth: nat,
    pub buf_size: nat,
    pub buf_head: nat,
    pub buf_tail: nat,
    /// The tail pointer published in the state block.
    pub tail: nat,
    /// The state word published in the state block.
    pub send_state: nat,
}

impl View for Broadcaster {
    type V = BroadcasterView;

    closed spec fn view(&self) -> BroadcasterView {
        BroadcasterView {
            queue_depth: self.queue_depth as nat,
            buf_size: self.buf_size as nat,
            buf_head: self.buf_head as nat,
            buf_tail: self.buf_tail as nat,
            tail: self.tail as nat,
            send_state: self.send_state as nat,
        }
    }
}

impl Broadcaster {
    /// A broadcaster with a data buffer of `buf_size` bytes and
    /// `queue_depth` rounded up to a power of two, its buffer empty, its
    /// tail at zero and its state word `ST_ACTIVE`.
    pub fn new(buf_size: usize, queue_depth: usize) -> (b: Self)
        requires
            queue_depth <= usize::MAX / 2 + 1,
            forall|p: nat|
                is_next_pow2(queue_depth as nat, p) ==> SIZE_SEND_STATE + p * SIZE_HEADER + buf_size
                    <= usize::MAX,
        ensures
            is_next_pow2(queue_depth as nat, b@.queue_depth),
            b@.buf_size == buf_size,
            b@.buf_head == 0,
            b@.buf_tail == 0,
            b@.tail == 0,
            b@.send_state == ST_ACTIVE,
            SIZE_SEND_STATE + b@.queue_depth * SIZE_HEADER + b@.buf_size <= usize::MAX,
    {
        let qd_in = queue_depth;
        let queue_depth = next_power_of_two(queue_depth);
        proof {
            assert(is_next_pow2(qd_in as nat, queue_depth as nat));
        }
        Broadcaster { queue_depth, buf_size, buf_head: 0, buf_tail: 0, tail: 0, send_state: ST_ACTIVE }
    }

    /// Size of the shared mapping: sender state block, header slots, data
    /// buffer.
    pub fn file_len(&self) -> (r: usize)
        requires
            SIZE_SEND_STATE + self@.queue_depth * SIZE_HEADER + self@.buf_size <= usize::MAX,
        ensures
            r == SIZE_SEND_STATE + self@.queue_depth * SIZE_HEADER + self@.buf_size,
    {
        SIZE_SEND_STATE + self.queue_depth * SIZE_HEADER + self.buf_size
    }

    /// The number of header slots.
    pub fn queue_depth(&self) -> (r: usize)
        ensures
            r == self@.queue_depth,
    {
        self.queue_depth
    }

    /// Start of the occupied part of the data buffer.
    pub fn buf_head(&self) -> (r: usize)
        ensures
            r == self@.buf_head,
    {
        self.buf_head
    }

    /// End of the occupied part of the data buffer.
    pub fn buf_tail(&self) -> (r: usize)
        ensures
            r == self@.buf_tail,
    {
        self.buf_tail
    }

    /// The tail pointer to publish.
    pub fn tail(&self) -> (r: u64)
        ensures
            r == self@.tail,
    {
        self.tail
    }

    /// The state word to publish.
    pub fn send_state(&self) -> (r: usize)
        ensures
            r == self@.send_state,
    {
        self.send_state
    }

    /// Close the broadcaster: its state word becomes `ST_CLOSED`.
    pub fn close(&mut self)
        ensures
            final(self)@ == (BroadcasterView { send_state: ST_CLOSED as nat, ..old(self)@ }),
    {
        self.send_state = ST_CLOSED;
    }
}

/// A receiver can join every broadcaster this library lays out: when the
/// broadcaster's depth (a power of two) is at most `MAX_QUEUE_DEPTH`, the
/// receiver's check of the broadcaster's mapping succeeds.
pub proof fn lemma_broadcaster_passes_open(b: BroadcasterView)
    requires
        is_pow2(b.queue_depth as int),
        b.queue_depth <= MAX_QUEUE_DEPTH,
        SIZE_SEND_STATE + b.queue_depth * SIZE_HEADER + b.buf_size <= usize::MAX,
    ensures
        valid_queue_depth_spec(b.queue_depth),
        SIZE_SEND_STATE <= SIZE_SEND_STATE + b.queue_depth * SIZE_HEADER + b.buf_size,
        SIZE_SEND_STATE + b.queue_depth * SIZE_HEADER <= SIZE_SEND_STATE + b.queue_depth * SIZE_HEADER
            + b.buf_size,
{
}

/// Why a broadcaster's mapping was refused.
#[derive(Clone, Copy, Debug, PartialEq, Eq, Structural)]
pub enum OpenError {
    /// The announced queue depth is not a power of two or is too large.
    BadQueueDepth,
    /// The mapping cannot hold the sender state block and the header slots.
    MapTooSmall,
}

impl OpenError {
    /// The error message for this refusal.
    pub fn message(&self) -> (r: &'static str)
        ensures
            match self {
                OpenError::BadQueueDepth => r@ == "sent queue depth isn't a valid size"@,
                OpenError::MapTooSmall => r@ == "memory map from sender is too small for buffer and state"@,
            },
    {
        match self {
            OpenError::BadQueueDepth => "sent queue depth isn't a valid size",
            OpenError::MapTooSmall => "memory map from sender is too small for buffer and state",
        }
    }
}

/// A broadcast receiver's position in the broadcaster's queue.
pub struct BroadReceiver {
    head: u64,
    queue_depth: usize,
    recv_state: usize,
}

impl BroadReceiver {
    /// The receiver's head pointer: the next message it will read.
    pub closed spec fn spec_head(&self) -> nat {
        self.head as nat
    }

    /// The broadcaster's queue depth.
    pub closed spec fn spec_queue_depth(&self) -> nat {
        self.queue_depth as nat
    }

    /// The state word the receiver publishes.
    pub closed spec fn spec_recv_state(&self) -> nat {
        self.recv_state as nat
    }

    /// Join a broadcaster whose mapping is `send_len` bytes long and whose
    /// state block announces `queue_depth` slots and tail `sender_tail`: the
    /// receiver starts at the broadcaster's tail, so it receives messages
    /// going forward, and publishes `ST_ACTIVE`. The mapping must hold the
    /// sender state block, the depth must be a power of two of at most
    /// `MAX_QUEUE_DEPTH`, and the mapping must hold the header slots.
    ///
    /// A caller that cannot read the state block because the mapping is too
    /// small may pass any tail and depth: the length is checked first.
    pub fn open(sender_tail: u64, queue_depth: usize, send_len: usize) -> (r: Result<
        BroadReceiver,
        OpenError,
    >)
        ensures
            match r {
                Ok(b) => {
                    &&& SIZE_SEND_STATE <= send_len
                    &&& valid_queue_depth_spec(queue_depth as nat)
                    &&& SIZE_SEND_STATE + queue_depth * SIZE_HEADER <= send_len
                    &&& b.spec_head() == sender_tail
                    &&& b.spec_queue_depth() == queue_depth
                    &&& b.spec_recv_state() == ST_ACTIVE
                },
                Err(OpenError::BadQueueDepth) => SIZE_SEND_STATE <= send_len
                    && !valid_queue_depth_spec(queue_depth as nat),
                Err(OpenError::MapTooSmall) => {
                    ||| send_len < SIZE_SEND_STATE
                    ||| valid_queue_depth_spec(queue_depth as nat) && send_len < SIZE_SEND_STATE
                        + queue_depth * SIZE_HEADER
                },
            },
    {
        if send_len < SIZE_SEND_STATE {
            return Err(OpenError::MapTooSmall);
        }
        if !valid_queue_depth(queue_depth) {
            return Err(OpenError::BadQueueDepth);
        }
        if send_len < SIZE_SEND_STATE + queue_depth * SIZE_HEADER {
            return Err(OpenError::MapTooSmall);
        }
        Ok(BroadReceiver { head: sender_tail, queue_depth, recv_state: ST_ACTIVE })
    }

    /// The head pointer.
    pub fn head(&self) -> (r: u64)
        ensures
            r == self.spec_head(),
    {
        self.head
    }

    /// The broadcaster's queue depth.
    pub fn queue_depth(&self) -> (r: usize)
        ensures
            r == self.spec_queue_depth(),
    {
        self.queue_depth
    }

    /// The state word the receiver publishes.
    pub fn recv_state(&self) -> (r: usize)
        ensures
            r == self.spec_recv_state(),
    {
        self.recv_state
    }

    /// Close the receiver: its state word becomes `ST_CLOSED`.
    pub fn close(&mut self)
        ensures
            final(self).spec_recv_state() == ST_CLOSED,
            final(self).spec_head() == old(self).spec_head(),
            final(self).spec_queue_depth() == old(self).spec_queue_depth(),
    {
        self.recv_state = ST_CLOSED;
    }

    /// Whether the broadcaster has closed, given the state word it
    /// published.
    pub fn is_closed(&self, send_state: usize) -> (r: bool)
        ensures
            r == (send_state == ST_CLOSED),
    {
        send_state == ST_CLOSED
    }

    /// Advance past one message, given the broadcaster's tail pointer and
    /// state word. The head never passes the tail. Returns whether the
    /// broadcaster is waiting and must be woken.
    pub fn advance(&mut self, tail: u64, send_state: usize) -> (wake: bool)
        requires
            old(self).spec_head() < tail,
        ensures
            final(self).spec_head() == old(self).spec_head() + 1,
            final(self).spec_head() <= tail,
            final(self).spec_queue_depth() == old(self).spec_queue_depth(),
            final(self).spec_recv_state() == old(self).spec_recv_state(),
            wake == (send_state == ST_WAITING),
    {
        self.head = self.head + 1;
        send_state == ST_WAITING
    }
}

} // verus!
