//! The message-level interface of a bidirectional channel: a sender that
//! allocates room for a message, fills it and sends it, and a receiver that
//! locates a message in the peer's mapping and copies it out.

use vstd::prelude::*;
use crate::recv_queue::{copy_range, MapRange, MemQueue};
use crate::send_queue::{lemma_shape_is_kept, lemma_slot_in_range, MessageHeader, MutMemQueue};
use crate::server::{submit_outcome, submit_outcome_spec, ChannelError};

verus! {

/// Credentials of the process at the other end of a socket.
#[derive(Clone, Copy, Debug, PartialEq, Eq, Structural)]
pub struct PeerCred {
    pub uid: u32,
    pub gid: u32,
    /// Process ID, 0 where the platform does not report one.
    pub pid: i32,
}

/// The sending half of a bidirectional channel.
pub struct Sender {
    /// The queue this side writes.
    pub queue: MutMemQueue,
    /// Credentials of the receiver, as seen when the channel was opened.
    pub peer: PeerCred,
}

/// Model of a message being built.
pub struct SendMessageView {
    /// Where the allocation lies in the data buffer, and its size.
    pub header: MessageHeader,
    /// Logical index the message will have.
    pub index: nat,
    /// Bytes written into the allocation so far.
    pub len: nat,
    /// The bytes written so far, in order; byte `i` lies at data-buffer
    /// offset `header.offset + i`.
    pub content: Seq<u8>,
}

impl SendMessageView {
    /// The bytes written so far fit the allocation and are counted by `len`.
    pub open spec fn wf(self) -> bool {
        &&& !self.header.skipped()
        &&& self.len <= self.header.len
        &&& self.content.len() == self.len
    }

    /// Data-buffer offset where the next written byte goes.
    pub open spec fn cursor(self) -> int {
        self.header.offset + self.len
    }
}

/// `after` is `before` with `bytes` stored from offset `start` on.
pub open spec fn stored_at(before: Seq<u8>, after: Seq<u8>, start: int, bytes: Seq<u8>) -> bool {
    &&& after.len() == before.len()
    &&& forall|i: int|
        0 <= i < after.len() ==> #[trigger] after[i] == (if start <= i < start + bytes.len() {
            bytes[i - start]
        } else {
            before[i]
        })
}

/// Space allocated in the data buffer for a message being built.
pub struct SendMessage {
    header: MessageHeader,
    index: u64,
    len: usize,
    content: Ghost<Seq<u8>>,
}

impl View for SendMessage {
    type V = SendMessageView;

    closed spec fn view(&self) -> SendMessageView {
        SendMessageView {
            header: self.header,
            index: self.index as nat,
            len: self.len as nat,
            content: self.content@,
        }
    }
}

impl Sender {
    /// A sender writing `queue` to a receiver with credentials `peer`.
    pub fn new(queue: MutMemQueue, peer: PeerCred) -> (s: Self)
        requires
            queue.wf(),
        ensures
            s.queue@ == queue@,
            s.peer == peer,
    {
        Sender { queue, peer }
    }

    /// Allocate space for a new message of at most `max_len` bytes, given
    /// the head pointer the receiver published. `None` if there is no room
    /// now.
    pub fn allocate(&mut self, head: u64, max_len: usize) -> (r: Option<SendMessage>)
        requires
            old(self).queue.wf(),
            old(self).queue@.reserve_defined(head as int),
        ensures
            final(self).queue.wf(),
            final(self).queue@ == old(self).queue@.after_reserve(head as int, max_len as int),
            final(self).peer == old(self).peer,
            match r {
                Some(m) => {
                    &&& old(self).queue@.reserve(head as int, max_len as int) == Some(m@.header)
                    &&& m@.header.len == max_len
                    &&& m@.index == old(self).queue@.tail
                    &&& m@.len == 0
                    &&& m@.content == Seq::<u8>::empty()
                    &&& m@.wf()
                },
                None => old(self).queue@.reserve(head as int, max_len as int) is None,
            },
    {
        let index = self.queue.tail();
        proof {
            lemma_shape_is_kept(self.queue@, head as int, max_len, 0);
        }
        match self.queue.try_reserve(head, max_len) {
            Some(header) => Some(SendMessage { header, index, len: 0, content: Ghost(Seq::empty()) }),
            None => None,
        }
    }

    /// Send `message`, already built, given the head pointer the receiver
    /// published and `data`, the data buffer: reserve room for it, copy it
    /// there and commit it, then decide from the state word the receiver
    /// published what follows (see `submit_outcome`). `None`, with nothing
    /// changed, if there is no room now.
    pub fn send(&mut self, head: u64, data: &mut [u8], message: &[u8], other_state: usize) -> (r:
        Option<Result<bool, ChannelError>>)
        requires
            old(self).queue.wf(),
            old(self).queue@.reserve_defined(head as int),
            old(self).queue@.tail < u64::MAX,
            old(self).queue@.buf_len <= old(data)@.len(),
        ensures
            final(self).queue.wf(),
            final(self).peer == old(self).peer,
            match old(self).queue@.reserve(head as int, message@.len() as int) {
                Some(m) => {
                    &&& final(self).queue@ == old(self).queue@.record(m).commit(message@.len() as int)
                    &&& stored_at(old(data)@, final(data)@, m.offset as int, message@)
                    &&& r == Some(submit_outcome_spec(other_state))
                },
                None => {
                    &&& final(self).queue@ == old(self).queue@
                    &&& final(data)@ == old(data)@
                    &&& r is None
                },
            },
    {
        match self.allocate(head, message.len()) {
            None => None,
            Some(mut m) => {
                proof {
                    lemma_slot_in_range(self.queue@, self.queue@.tail as int);
                }
                let taken = m.write(data, message);
                proof {
                    assert(message@.take(taken as int) =~= message@);
                }
                Some(m.send(self, other_state))
            },
        }
    }

    /// The credentials of the receiver.
    pub fn peer_cred(&self) -> (r: PeerCred)
        ensures
            r == self.peer,
    {
        self.peer
    }
}

impl SendMessage {
    /// Offset of the allocated space within the data buffer.
    pub fn as_ptr(&self) -> (r: usize)
        ensures
            r == self@.header.offset,
    {
        self.header.offset
    }

    /// Offset of the allocated space within the data buffer, for writing.
    pub fn as_mut_ptr(&mut self) -> (r: usize)
        ensures
            r == old(self)@.header.offset,
            final(self)@ == old(self)@,
    {
        self.header.offset
    }

    /// Maximum size that this message allocation can hold.
    pub fn max_size(&self) -> (r: usize)
        ensures
            r == self@.header.len,
    {
        self.header.len
    }

    /// Current size of the message being built in this allocation.
    pub fn len(&self) -> (r: usize)
        ensures
            r == self@.len,
    {
        self.len
    }

    /// Append the bytes of `buf` to the message, as many as fit, storing
    /// them in `data`, the data buffer, at `as_ptr() + len()`: returns how
    /// many were taken. The message's bytes so far stay at `as_ptr()` on,
    /// in order.
    pub fn write(&mut self, data: &mut [u8], buf: &[u8]) -> (r: usize)
        requires
            old(self)@.wf(),
            old(self)@.header.end() <= old(data)@.len(),
        ensures
            r == (if buf@.len() <= old(self)@.header.len - old(self)@.len {
                buf@.len() as int
            } else {
                old(self)@.header.len - old(self)@.len
            }),
            final(self)@ == (SendMessageView {
                len: (old(self)@.len + r) as nat,
                content: old(self)@.content + buf@.take(r as int),
                ..old(self)@
            }),
            final(self)@.wf(),
            stored_at(old(data)@, final(data)@, old(self)@.cursor(), buf@.take(r as int)),
            old(data)@.subrange(old(self)@.header.offset as int, old(self)@.cursor())
                == old(self)@.content ==> final(data)@.subrange(
                final(self)@.header.offset as int,
                final(self)@.cursor(),
            ) == final(self)@.content,
    {
        let room = self.header.len - self.len;
        let taken = if buf.len() <= room {
            buf.len()
        } else {
            room
        };
        let data_len = data.len();
        let start = self.header.offset + self.len;
        let mut j: usize = 0;
        while j < taken
            invariant
                data_len == data@.len(),
                j <= taken <= buf@.len(),
                start + taken <= data@.len(),
                data@.len() == old(data)@.len(),
                forall|i: int|
                    0 <= i < data@.len() ==> #[trigger] data@[i] == (if start <= i < start + j {
                        buf@[i - start]
                    } else {
                        old(data)@[i]
                    }),
            decreases taken - j,
        {
            data[start + j] = buf[j];
            j = j + 1;
        }
        self.len = self.len + taken;
        self.content = Ghost(self.content@ + buf@.take(taken as int));
        proof {
            let o = old(self)@;
            let f = self@;
            if old(data)@.subrange(o.header.offset as int, o.cursor()) == o.content {
                assert forall|i: int| 0 <= i < f.len implies #[trigger] data@.subrange(
                    f.header.offset as int,
                    f.cursor(),
                )[i] == f.content[i] by {
                    if i < o.len {
                        assert(old(data)@.subrange(o.header.offset as int, o.cursor())[i] == o.content[i]);
                    }
                }
                assert(data@.subrange(f.header.offset as int, f.cursor()) =~= f.content);
            }
        }
        taken
    }

    /// Send the message through `sender`, whose tail slot holds this
    /// allocation: commit it with the length written so far, then decide
    /// from the state word the receiver published what follows (see
    /// `submit_outcome`).
    pub fn send(self, sender: &mut Sender, other_state: usize) -> (r: Result<bool, ChannelError>)
        requires
            old(sender).queue.wf(),
            old(sender).queue@.tail == self@.index,
            old(sender).queue@.tail < u64::MAX,
            old(sender).queue@.slot_header(self@.index as int) == self@.header,
            self@.wf(),
        ensures
            final(sender).queue.wf(),
            final(sender).queue@ == old(sender).queue@.commit(self@.len as int),
            final(sender).peer == old(sender).peer,
            r == submit_outcome_spec(other_state),
    {
        sender.queue.write_message(self.len);
        submit_outcome(other_state)
    }

    /// Give the allocation up: its slot is marked skipped, so that readers
    /// pass over it and none of its bytes is ever delivered, and the tail
    /// moves past it.
    pub fn discard(self, sender: &mut Sender)
        requires
            old(sender).queue.wf(),
            old(sender).queue@.tail == self@.index,
            old(sender).queue@.tail < u64::MAX,
            old(sender).queue@.slot_header(self@.index as int) == self@.header,
        ensures
            final(sender).queue.wf(),
            final(sender).queue@ == old(sender).queue@.skip(),
            final(sender).queue@.log.last() == (MessageHeader { offset: self@.header.offset, len: usize::MAX }),
            final(sender).queue@.log.last().skipped(),
            final(sender).peer == old(sender).peer,
    {
        sender.queue.skip_message();
    }
}

/// The receiving half of a bidirectional channel.
pub struct Receiver {
    /// The peer's queue, read here.
    pub queue: MemQueue,
    /// Credentials of the sender, as seen when the channel was opened.
    pub peer: PeerCred,
}

/// A received message that has not been copied out of the shared mapping.
pub struct RecvMessage {
    range: MapRange,
}

impl RecvMessage {
    /// Where the message lies in the mapping.
    pub closed spec fn spec_range(&self) -> MapRange {
        self.range
    }

    /// Where the message lies in the mapping.
    pub fn range(&self) -> (r: MapRange)
        ensures
            r == self.spec_range(),
    {
        self.range
    }

    /// Copy the message out of `mem`, the peer's mapping.
    pub fn extract(self, mem: &[u8]) -> (r: Vec<u8>)
        requires
            self.spec_range().start <= self.spec_range().end <= mem@.len(),
        ensures
            r@ == mem@.subrange(self.spec_range().start as int, self.spec_range().end as int),
    {
        copy_range(mem, self.range)
    }
}

impl Receiver {
    /// A receiver reading `queue` from a sender with credentials `peer`.
    pub fn new(queue: MemQueue, peer: PeerCred) -> (r: Self)
        requires
            queue.wf(),
        ensures
            r.queue@ == queue@,
            r.peer == peer,
    {
        Receiver { queue, peer }
    }

    /// The message described by `header`, or `None` if its bytes do not lie
    /// inside the peer's mapping; in particular `None` for a slot the sender
    /// gave up, which readers skip.
    pub fn message(&self, header: MessageHeader) -> (r: Option<RecvMessage>)
        requires
            self.queue.wf(),
        ensures
            match r {
                Some(m) => {
                    &&& self.queue@.read(header) == Some(m.spec_range())
                    &&& m.spec_range().start <= m.spec_range().end <= self.queue@.mem_len
                },
                None => self.queue@.read(header) is None,
            },
            header.skipped() ==> r is None,
    {
        match self.queue.read(header) {
            Some(range) => Some(RecvMessage { range }),
            None => None,
        }
    }

    /// The credentials of the sender.
    pub fn peer_cred(&self) -> (r: PeerCred)
        ensures
            r == self.peer,
    {
        self.peer
    }
}

} // verus!
