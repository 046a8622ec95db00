//! The message-level interface of a broadcast channel: the sender's list of
//! attached receivers, and a receiver that never holds the sender up but
//! notices when the sender has lapped it and can catch up.
//!
//! A message with logical index `i` lives in slot `i % queue_depth`; once
//! the sender's tail reaches `i + queue_depth`, that slot is being reused,
//! and a receiver still on message `i` has lagged.

use vstd::prelude::*;
use crate::channel::PeerCred;
use crate::layout::ST_CLOSED;
use crate::send_queue::lemma_distinct_slots;
use crate::recv_queue::{copy_range, MapRange};

verus! {

/// Whether the sender, at tail `tail`, has lapped the message with index
/// `index` in a queue of `queue_depth` slots.
pub open spec fn lapped(index: nat, tail: nat, queue_depth: nat) -> bool {
    tail >= index + queue_depth
}

/// The peers whose published state word is not `ST_CLOSED`, in order.
pub open spec fn open_peers(peers: Seq<PeerCred>, states: Seq<usize>) -> Seq<PeerCred>
    decreases peers.len(),
{
    if peers.len() == 0 {
        Seq::empty()
    } else {
        let kept = open_peers(peers.drop_last(), states.drop_last());
        if states.last() == ST_CLOSED {
            kept
        } else {
            kept.push(peers.last())
        }
    }
}

/// The peers paired, index by index, with the state words they published.
pub open spec fn paired(peers: Seq<PeerCred>, states: Seq<usize>) -> Seq<(PeerCred, usize)> {
    Seq::new(peers.len(), |i: int| (peers[i], states[i]))
}

/// The receivers still listed are exactly those whose own state word (at
/// the same index) is not `ST_CLOSED`, in their original order.
pub proof fn lemma_open_peers_keeps_open(peers: Seq<PeerCred>, states: Seq<usize>)
    requires
        peers.len() == states.len(),
    ensures
        open_peers(peers, states) == paired(peers, states).filter(
            |x: (PeerCred, usize)| x.1 != ST_CLOSED,
        ).map_values(|x: (PeerCred, usize)| x.0),
    decreases peers.len(),
{
    let pred = |x: (PeerCred, usize)| x.1 != ST_CLOSED;
    let first = |x: (PeerCred, usize)| x.0;
    reveal(Seq::filter);
    if peers.len() > 0 {
        lemma_open_peers_keeps_open(peers.drop_last(), states.drop_last());
        let z = paired(peers, states);
        assert(z.drop_last() =~= paired(peers.drop_last(), states.drop_last()));
        let rest = z.drop_last().filter(pred);
        if states.last() == ST_CLOSED {
            assert(z.filter(pred) == rest);
        } else {
            assert(z.filter(pred) == rest.push(z.last()));
            assert(rest.push(z.last()).map_values(first) =~= rest.map_values(first).push(peers.last()));
        }
    } else {
        assert(paired(peers, states).filter(pred).map_values(first) =~= Seq::<PeerCred>::empty());
    }
}

/// A message has been lapped exactly when the sender has reached a later
/// index that uses the same slot: at tail `tail`, some index after `index`
/// and no later than `tail` (the tail's own slot is being written) shares
/// its slot.
pub proof fn lemma_lap_is_slot_reuse(index: nat, tail: nat, queue_depth: nat)
    requires
        queue_depth >= 1,
    ensures
        lapped(index, tail, queue_depth) <==> exists|j: int|
            index < j <= tail && #[trigger] (j % (queue_depth as int)) == (index as int) % (
            queue_depth as int),
{
    let qd = queue_depth as int;
    if lapped(index, tail, queue_depth) {
        let j = index + qd;
        vstd::arithmetic::div_mod::lemma_mod_add_multiples_vanish(index as int, qd);
        assert(j % qd == (index as int) % qd);
    }
    if exists|j: int| index < j <= tail && #[trigger] (j % qd) == (index as int) % qd {
        let j = choose|j: int| index < j <= tail && #[trigger] (j % qd) == (index as int) % qd;
        if j < index + qd {
            lemma_distinct_slots(index as int, j, qd);
        }
    }
}

/// Once the sender has lapped a message, it stays lapped as the tail grows.
pub proof fn lemma_lap_is_permanent(index: nat, tail: nat, later: nat, queue_depth: nat)
    requires
        tail <= later,
        lapped(index, tail, queue_depth),
    ensures
        lapped(index, later, queue_depth),
{
}

/// The broadcasting half: who is listening.
pub struct Sender {
    peers: Vec<PeerCred>,
}

impl Sender {
    /// The attached receivers' credentials, in the order they attached.
    pub closed spec fn spec_peers(&self) -> Seq<PeerCred> {
        self.peers@
    }

    /// A sender with no receiver attached.
    pub fn new() -> (s: Self)
        ensures
            s.spec_peers() == Seq::<PeerCred>::empty(),
    {
        Sender { peers: Vec::new() }
    }

    /// Record a receiver that has attached.
    pub fn add_peer(&mut self, peer: PeerCred)
        ensures
            final(self).spec_peers() == old(self).spec_peers().push(peer),
    {
        self.peers.push(peer);
    }

    /// Drop the receivers that have detached, given the state word each
    /// attached receiver published, in the same order: those whose word is
    /// `ST_CLOSED` leave the list. Returns, for each receiver, whether it
    /// stays.
    pub fn retain_open(&mut self, states: &Vec<usize>) -> (kept: Vec<bool>)
        requires
            states@.len() == old(self).spec_peers().len(),
        ensures
            final(self).spec_peers() == open_peers(old(self).spec_peers(), states@),
            kept@.len() == states@.len(),
            forall|i: int| 0 <= i < kept@.len() ==> #[trigger] kept@[i] == (states@[i] != ST_CLOSED),
    {
        let mut peers: Vec<PeerCred> = Vec::new();
        let mut kept: Vec<bool> = Vec::new();
        let mut i: usize = 0;
        while i < states.len()
            invariant
                states@.len() == self.peers@.len(),
                i <= states@.len(),
                peers@ == open_peers(self.peers@.take(i as int), states@.take(i as int)),
                kept@.len() == i,
                forall|k: int| 0 <= k < i ==> #[trigger] kept@[k] == (states@[k] != ST_CLOSED),
            decreases states@.len() - i,
        {
            proof {
                assert(self.peers@.take(i as int + 1).drop_last() =~= self.peers@.take(i as int));
                assert(states@.take(i as int + 1).drop_last() =~= states@.take(i as int));
            }
            let open = states[i] != ST_CLOSED;
            if open {
                peers.push(self.peers[i]);
            }
            kept.push(open);
            i = i + 1;
        }
        proof {
            assert(self.peers@.take(i as int) =~= self.peers@);
            assert(states@.take(i as int) =~= states@);
        }
        self.peers = peers;
        kept
    }

    /// The credentials of all attached receivers.
    pub fn peers(&self) -> (r: Vec<PeerCred>)
        ensures
            r@ == self.spec_peers(),
    {
        let mut out: Vec<PeerCred> = Vec::new();
        let mut i: usize = 0;
        while i < self.peers.len()
            invariant
                i <= self.peers@.len(),
                out@ == self.peers@.take(i as int),
            decreases self.peers@.len() - i,
        {
            out.push(self.peers[i]);
            i = i + 1;
            proof {
                assert(out@ =~= self.peers@.take(i as int));
            }
        }
        proof {
            assert(self.peers@.take(i as int) =~= self.peers@);
        }
        out
    }
}

/// Model of a broadcast receiver.
pub struct ReceiverView {
    /// The next message to read.
    pub head: nat,
    /// The sender's queue depth.
    pub queue_depth: nat,
    /// Whether a lag has happened since the last reset.
    pub lagged: bool,
}

/// The receiving half of a broadcast channel.
pub struct Receiver {
    head: u64,
    queue_depth: usize,
    lagged: bool,
}

impl View for Receiver {
    type V = ReceiverView;

    closed spec fn view(&self) -> ReceiverView {
        ReceiverView { head: self.head as nat, queue_depth: self.queue_depth as nat, lagged: self.lagged }
    }
}

/// A message that has not been copied out of the shared mapping yet.
pub struct RecvMessage {
    index: u64,
    queue_depth: usize,
}

impl RecvMessage {
    /// The message's logical index.
    pub closed spec fn spec_index(&self) -> nat {
        self.index as nat
    }

    /// The sender's queue depth.
    pub closed spec fn spec_queue_depth(&self) -> nat {
        self.queue_depth as nat
    }

    /// The message's logical index.
    pub fn index(&self) -> (r: u64)
        ensures
            r == self.spec_index(),
    {
        self.index
    }

    /// Whether the sender, now at tail `tail`, has overwritten (lapped) this
    /// message.
    pub fn lagged(&self, tail: u64) -> (r: bool)
        ensures
            r == lapped(self.spec_index(), tail as nat, self.spec_queue_depth()),
    {
        tail >= self.index && tail - self.index >= self.queue_depth as u64
    }

    /// Copy the bytes `range` of `mem` out, failing if the sender, at tail
    /// `tail` once the bytes were read, has lapped this message.
    pub fn extract(self, mem: &[u8], range: MapRange, tail: u64) -> (r: Option<Vec<u8>>)
        requires
            range.start <= range.end <= mem@.len(),
        ensures
            match r {
                Some(v) => {
                    &&& !lapped(self.spec_index(), tail as nat, self.spec_queue_depth())
                    &&& v@ == mem@.subrange(range.start as int, range.end as int)
                },
                None => lapped(self.spec_index(), tail as nat, self.spec_queue_depth()),
            },
    {
        if self.lagged(tail) {
            return None;
        }
        Some(copy_range(mem, range))
    }
}

impl Receiver {
    /// A receiver joining a sender whose tail is `tail` and whose queue has
    /// `queue_depth` slots: it receives messages going forward.
    pub fn new(tail: u64, queue_depth: usize) -> (r: Self)
        requires
            queue_depth >= 1,
        ensures
            r@ == (ReceiverView { head: tail as nat, queue_depth: queue_depth as nat, lagged: false }),
    {
        Receiver { head: tail, queue_depth, lagged: false }
    }

    /// Whether a lag has happened since the last reset, given the sender's
    /// tail `tail`: one was already recorded, or the sender has now lapped
    /// the next message to read.
    pub fn lagged(&self, tail: u64) -> (r: bool)
        ensures
            r == (self@.lagged || lapped(self@.head, tail as nat, self@.queue_depth)),
    {
        self.lagged || (tail >= self.head && tail - self.head >= self.queue_depth as u64)
    }

    /// The next message to read.
    pub fn head(&self) -> (r: u64)
        ensures
            r == self@.head,
    {
        self.head
    }

    /// Reset the receiver: consume every pending message, catching up with
    /// the sender's tail `tail`, and clear the lag indication.
    pub fn reset(&mut self, tail: u64)
        requires
            old(self)@.head <= tail,
        ensures
            final(self)@ == (ReceiverView { head: tail as nat, lagged: false, ..old(self)@ }),
    {
        self.head = tail;
        self.lagged = false;
    }

    /// The next message, given the sender's tail `tail`, or `None` if there
    /// is none. If the sender has lapped the head, the lag is recorded and
    /// the head skips to the oldest message whose slot is not being reused.
    pub fn peek(&mut self, tail: u64) -> (r: Option<RecvMessage>)
        requires
            old(self)@.head <= tail,
            old(self)@.queue_depth >= 1,
        ensures
            final(self)@.queue_depth == old(self)@.queue_depth,
            final(self)@.lagged == (old(self)@.lagged || lapped(
                old(self)@.head,
                tail as nat,
                old(self)@.queue_depth,
            )),
            final(self)@.head == (if lapped(old(self)@.head, tail as nat, old(self)@.queue_depth) {
                tail - old(self)@.queue_depth + 1
            } else {
                old(self)@.head as int
            }),
            final(self)@.head <= tail,
            match r {
                Some(m) => {
                    &&& final(self)@.head < tail
                    &&& m.spec_index() == final(self)@.head
                    &&& m.spec_queue_depth() == old(self)@.queue_depth
                    &&& !lapped(m.spec_index(), tail as nat, m.spec_queue_depth())
                },
                None => final(self)@.head == tail,
            },
    {
        let qd = self.queue_depth as u64;
        if tail - self.head >= qd {
            self.lagged = true;
            self.head = tail - qd + 1;
        }
        if self.head == tail {
            None
        } else {
            Some(RecvMessage { index: self.head, queue_depth: self.queue_depth })
        }
    }

    /// Move past the message just read.
    pub fn advance(&mut self, tail: u64)
        requires
            old(self)@.head < tail,
        ensures
            final(self)@ == (ReceiverView { head: old(self)@.head + 1, ..old(self)@ }),
    {
        self.head = self.head + 1;
    }
}

} // verus!
