//! An open bidirectional channel: this side's writable queue and the peer's
//! read-only queue, and the decisions taken when a message is submitted and
//! when the channel is closed.

use vstd::prelude::*;
use crate::layout::{ST_CLOSED, ST_WAITING};
use crate::recv_queue::MemQueue;
use crate::send_queue::{MessageHeader, MutMemQueue, SendQueueState};

verus! {

/// Why a submission failed.
#[derive(Clone, Copy, Debug, PartialEq, Eq, Structural)]
pub enum ChannelError {
    /// The other end has closed the channel.
    BrokenPipe,
}

/// What follows a submission, given the state word the peer published:
/// an error if the peer has closed, else whether the peer is waiting and
/// must be woken with a packet.
pub open spec fn submit_outcome_spec(other_state: usize) -> Result<bool, ChannelError> {
    if other_state == ST_CLOSED {
        Err(ChannelError::BrokenPipe)
    } else {
        Ok(other_state == ST_WAITING)
    }
}

/// What follows a submission, given the state word the peer published.
pub fn submit_outcome(other_state: usize) -> (r: Result<bool, ChannelError>)
    ensures
        r == submit_outcome_spec(other_state),
{
    match other_state {
        ST_CLOSED => Err(ChannelError::BrokenPipe),
        ST_WAITING => Ok(true),
        _ => Ok(false),
    }
}

/// What a reservation that waits for room does after an attempt.
#[derive(Clone, Copy, Debug, PartialEq, Eq, Structural)]
pub enum ReserveStep {
    /// The space is reserved; nothing else to do.
    Done,
    /// The space is reserved; publish `ST_ACTIVE` again.
    ActiveThenDone,
    /// No room: publish `ST_WAITING`, so the receiver wakes this side, and
    /// try once more.
    WaitingThenRetry,
    /// Still no room: sleep until woken, publish `ST_ACTIVE`, then start over.
    SleepThenRetry,
}

/// The next step of a waiting reservation, given whether this side has
/// already published `ST_WAITING` and whether the attempt just made got
/// room.
pub open spec fn reserve_step_spec(waiting: bool, reserved: bool) -> ReserveStep {
    if reserved {
        if waiting {
            ReserveStep::ActiveThenDone
        } else {
            ReserveStep::Done
        }
    } else if waiting {
        ReserveStep::SleepThenRetry
    } else {
        ReserveStep::WaitingThenRetry
    }
}

/// The next step of a waiting reservation.
pub fn reserve_step(waiting: bool, reserved: bool) -> (r: ReserveStep)
    ensures
        r == reserve_step_spec(waiting, reserved),
{
    if reserved {
        if waiting {
            ReserveStep::ActiveThenDone
        } else {
            ReserveStep::Done
        }
    } else if waiting {
        ReserveStep::SleepThenRetry
    } else {
        ReserveStep::WaitingThenRetry
    }
}

/// An open bidirectional channel.
pub struct Channel {
    /// This side's queue, written here and read by the peer.
    pub local: MutMemQueue,
    /// The peer's queue, read here.
    pub remote: MemQueue,
}

impl Channel {
    /// Well-formedness of both queues.
    pub open spec fn wf(&self) -> bool {
        self.local.wf() && self.remote.wf()
    }

    /// A channel over the two queues.
    pub fn new(local: MutMemQueue, remote: MemQueue) -> (c: Self)
        requires
            local.wf(),
            remote.wf(),
        ensures
            c.wf(),
            c.local@ == local@,
            c.remote@ == remote@,
    {
        Channel { local, remote }
    }

    /// Try to get space for the next message, given the head pointer the
    /// peer published for this side's queue. The final message may be
    /// shorter.
    pub fn try_reserve(&mut self, head: u64, len: usize) -> (r: Option<MessageHeader>)
        requires
            old(self).wf(),
            old(self).local@.reserve_defined(head as int),
        ensures
            final(self).wf(),
            r == old(self).local@.reserve(head as int, len as int),
            final(self).local@ == old(self).local@.after_reserve(head as int, len as int),
            final(self).remote@ == old(self).remote@,
    {
        self.local.try_reserve(head, len)
    }

    /// Submit the reserved message with its final length `len`, then decide
    /// from the state word the peer published what follows: `BrokenPipe` if
    /// the peer has closed, else whether it must be woken. The message is
    /// written out either way.
    pub fn submit(&mut self, len: usize, other_state: usize) -> (r: Result<bool, ChannelError>)
        requires
            old(self).wf(),
            old(self).local@.tail < u64::MAX,
            len <= old(self).local@.slot_header(old(self).local@.tail as int).data_len(),
        ensures
            final(self).wf(),
            final(self).local@ == old(self).local@.commit(len as int),
            final(self).remote@ == old(self).remote@,
            r == submit_outcome_spec(other_state),
    {
        self.local.write_message(len);
        submit_outcome(other_state)
    }

    /// Mark this side as waiting for room, or active again.
    pub fn set_state(&mut self, val: usize)
        ensures
            final(self).local@ == (SendQueueState { state: val as nat, ..old(self).local@ }),
            final(self).remote@ == old(self).remote@,
            old(self).wf() ==> final(self).wf(),
    {
        self.local.set_state(val);
    }

    /// Close the channel: both state words this side publishes become
    /// `ST_CLOSED`.
    pub fn close(&mut self)
        ensures
            final(self).local@ == (SendQueueState {
                state: ST_CLOSED as nat,
                other_state: ST_CLOSED as nat,
                ..old(self).local@
            }),
            final(self).remote@ == old(self).remote@,
            old(self).wf() ==> final(self).wf(),
    {
        self.local.set_state(ST_CLOSED);
        self.local.set_other_state(ST_CLOSED);
    }
}

} // verus!
