//! The checks made while two processes exchange the file descriptors of
//! their shared memory: exactly one descriptor must arrive, alone, with no
//! data, for a file carrying the expected seals and of a sensible size.

use vstd::prelude::*;
use crate::layout::{MAX_RECV_STATE_FILE, SIZE_RECV_STATE};

verus! {

/// The seals every shared-memory file carries: no further seals, no
/// shrinking, no growing, and no new writable mappings
/// (`F_SEAL_SEAL | F_SEAL_SHRINK | F_SEAL_GROW | F_SEAL_FUTURE_WRITE`).
pub const SEALS_BITS: u32 = 23;

/// Bit set of `memfile`'s `Seal::FutureWrite | Seal::Grow | Seal::Shrink |
/// Seal::Seal`.
///
/// Calls memfile's `BitOr` on `Seal`/`Seals` and `Seals::bits`; the contract
/// claims that the result is the union of the Linux values of the four
/// seals (1, 2, 4 and 16), as libc defines them and memfile keeps them.
#[verifier::external_body]
fn memfile_seal_bits() -> (bits: u32)
    ensures
        bits == SEALS_BITS,
{
    (memfile::Seal::FutureWrite | memfile::Seal::Grow | memfile::Seal::Shrink
        | memfile::Seal::Seal).bits()
}

/// The bit set of the seals every shared-memory file must carry.
pub fn seals() -> (bits: u32)
    ensures
        bits == SEALS_BITS,
{
    memfile_seal_bits()
}

/// Whether a file's seal bits are exactly the expected ones.
pub fn seals_match(bits: u32) -> (r: bool)
    ensures
        r == (bits == SEALS_BITS),
{
    bits == seals()
}

/// One control message received beside a socket packet.
pub enum ControlMessage {
    /// A message carrying file descriptors (their raw numbers).
    FileDescriptors(Vec<i32>),
    /// Any other kind of control message.
    Other,
}

/// The file descriptors a control message carries.
pub open spec fn message_fds(m: ControlMessage) -> Seq<i32> {
    match m {
        ControlMessage::FileDescriptors(v) => v@,
        ControlMessage::Other => Seq::empty(),
    }
}

/// All file descriptors of a list of control messages, in order.
pub open spec fn all_fds(msgs: Seq<ControlMessage>) -> Seq<i32>
    decreases msgs.len(),
{
    if msgs.len() == 0 {
        Seq::empty()
    } else {
        all_fds(msgs.drop_last()) + message_fds(msgs.last())
    }
}

/// Whether some control message is not a file-descriptor message.
pub open spec fn has_other(msgs: Seq<ControlMessage>) -> bool {
    exists|i: int| 0 <= i < msgs.len() && #[trigger] msgs[i] is Other
}

/// The first element of a sequence, if any.
pub open spec fn first_of(s: Seq<i32>) -> Option<i32> {
    if s.len() == 0 {
        None
    } else {
        Some(s[0])
    }
}

/// The descriptors of a list of control messages are those of its first
/// part followed by those of the rest; a descriptor message contributes its
/// descriptors and any other message none.
pub proof fn lemma_all_fds_concat(a: Seq<ControlMessage>, b: Seq<ControlMessage>)
    ensures
        all_fds(a + b) == all_fds(a) + all_fds(b),
        all_fds(Seq::<ControlMessage>::empty()) == Seq::<i32>::empty(),
        forall|m: ControlMessage| #[trigger] all_fds(seq![m]) == message_fds(m),
        has_other(a + b) == (has_other(a) || has_other(b)),
    decreases b.len(),
{
    assert forall|m: ControlMessage| #[trigger] all_fds(seq![m]) == message_fds(m) by {
        assert(seq![m].drop_last() =~= Seq::<ControlMessage>::empty());
        assert(all_fds(Seq::<ControlMessage>::empty()) == Seq::<i32>::empty());
        assert(seq![m].last() == m);
        assert(all_fds(seq![m]) == all_fds(seq![m].drop_last()) + message_fds(m));
        assert(Seq::<i32>::empty() + message_fds(m) =~= message_fds(m));
    }
    if b.len() == 0 {
        assert(a + b =~= a);
        assert(all_fds(a) + Seq::<i32>::empty() =~= all_fds(a));
    } else {
        lemma_all_fds_concat(a, b.drop_last());
        assert((a + b).drop_last() =~= a + b.drop_last());
        assert((a + b).last() == b.last());
        assert(all_fds(a) + all_fds(b) =~= all_fds(a) + all_fds(b.drop_last()) + message_fds(b.last()));
    }
    if has_other(a + b) {
        let k = choose|k: int| 0 <= k < (a + b).len() && #[trigger] (a + b)[k] is Other;
        if k < a.len() {
            assert(a[k] is Other);
        } else {
            assert(b[k - a.len()] is Other);
        }
    }
    if has_other(a) {
        let k = choose|k: int| 0 <= k < a.len() && #[trigger] a[k] is Other;
        assert((a + b)[k] is Other);
    }
    if has_other(b) {
        let k = choose|k: int| 0 <= k < b.len() && #[trigger] b[k] is Other;
        assert((a + b)[a.len() + k] is Other);
    }
}

/// Whether a list of control messages carries exactly one file descriptor
/// and nothing else.
pub open spec fn single_fd(msgs: Seq<ControlMessage>) -> bool {
    all_fds(msgs).len() == 1 && !has_other(msgs)
}

/// Why a received descriptor was refused.
#[derive(Clone, Copy, Debug, PartialEq, Eq, Structural)]
pub enum HandshakeError {
    /// The control messages did not carry exactly one descriptor alone.
    InvalidData,
    /// The packet carrying the descriptor also carried data.
    NonZeroRead,
    /// The file did not carry the expected seals.
    BadSeals,
}

impl HandshakeError {
    /// The error message for this refusal.
    pub fn message(&self) -> (r: &'static str)
        ensures
            match self {
                HandshakeError::InvalidData => r@ == "invalid data"@,
                HandshakeError::NonZeroRead => r@ == "non-zero read data on FD ipc message"@,
                HandshakeError::BadSeals => r@ == "seals weren't set up as expected"@,
            },
    {
        match self {
            HandshakeError::InvalidData => "invalid data",
            HandshakeError::NonZeroRead => "non-zero read data on FD ipc message",
            HandshakeError::BadSeals => "seals weren't set up as expected",
        }
    }
}

/// Pick the one file descriptor out of the control messages of a packet.
/// Every message is examined, so that the caller can close every descriptor
/// that arrived; the result is the descriptor to keep, if exactly one
/// arrived and no other kind of message came with it.
pub fn fd_from_ancillary(messages: &Vec<ControlMessage>) -> (r: Result<i32, HandshakeError>)
    ensures
        match r {
            Ok(fd) => single_fd(messages@) && fd == all_fds(messages@)[0],
            Err(e) => !single_fd(messages@) && e == HandshakeError::InvalidData,
        },
{
    let mut fd: Option<i32> = None;
    let mut err = false;
    let mut i: usize = 0;
    while i < messages.len()
        invariant
            i <= messages@.len(),
            fd == first_of(all_fds(messages@.take(i as int))),
            err == (all_fds(messages@.take(i as int)).len() >= 2 || has_other(messages@.take(i as int))),
        decreases messages@.len() - i,
    {
        let ghost before = messages@.take(i as int);
        proof {
            assert(messages@.take(i as int + 1).drop_last() =~= before);
            assert(messages@.take(i as int + 1).last() == messages@[i as int]);
        }
        match &messages[i] {
            ControlMessage::FileDescriptors(fds) => {
                let mut j: usize = 0;
                while j < fds.len()
                    invariant
                        j <= fds@.len(),
                        fd == first_of(all_fds(before) + fds@.take(j as int)),
                        err == ((all_fds(before) + fds@.take(j as int)).len() >= 2 || has_other(
                            before,
                        )),
                    decreases fds@.len() - j,
                {
                    proof {
                        assert(fds@.take(j as int + 1) =~= fds@.take(j as int).push(fds@[j as int]));
                        assert(all_fds(before) + fds@.take(j as int + 1) =~= (all_fds(before)
                            + fds@.take(j as int)).push(fds@[j as int]));
                    }
                    if fd.is_none() {
                        fd = Some(fds[j]);
                    } else {
                        err = true;
                    }
                    j = j + 1;
                }
                proof {
                    assert(fds@.take(j as int) =~= fds@);
                    let after = messages@.take(i as int + 1);
                    assert(has_other(after) == has_other(before)) by {
                        if has_other(after) {
                            let k = choose|k: int| 0 <= k < after.len() && #[trigger] after[k] is Other;
                            assert(k < before.len());
                            assert(before[k] is Other);
                        }
                        if has_other(before) {
                            let k = choose|k: int| 0 <= k < before.len() && #[trigger] before[k] is Other;
                            assert(after[k] is Other);
                        }
                    }
                }
            },
            ControlMessage::Other => {
                err = true;
                proof {
                    let after = messages@.take(i as int + 1);
                    assert(after[i as int] is Other);
                    assert(all_fds(after) =~= all_fds(before));
                }
            },
        }
        i = i + 1;
    }
    proof {
        assert(messages@.take(i as int) =~= messages@);
    }
    match fd {
        None => Err(HandshakeError::InvalidData),
        Some(fd) => {
            if err {
                Err(HandshakeError::InvalidData)
            } else {
                Ok(fd)
            }
        },
    }
}

/// Check the packet that carries a peer's shared-memory descriptor: its
/// control messages must carry exactly one descriptor alone, then the packet
/// must carry no data. Returns the descriptor to keep.
pub fn check_fd_message(read_size: usize, messages: &Vec<ControlMessage>) -> (r: Result<
    i32,
    HandshakeError,
>)
    ensures
        match r {
            Ok(fd) => single_fd(messages@) && read_size == 0 && fd == all_fds(messages@)[0],
            Err(HandshakeError::InvalidData) => !single_fd(messages@),
            Err(HandshakeError::NonZeroRead) => single_fd(messages@) && read_size != 0,
            Err(HandshakeError::BadSeals) => false,
        },
{
    let fd = match fd_from_ancillary(messages) {
        Ok(fd) => fd,
        Err(e) => return Err(e),
    };
    if read_size != 0 {
        return Err(HandshakeError::NonZeroRead);
    }
    Ok(fd)
}

/// Check the seals of a received shared-memory file.
pub fn check_seals(bits: u32) -> (r: Result<(), HandshakeError>)
    ensures
        r is Ok <==> bits == SEALS_BITS,
        r is Err ==> r == Err::<(), HandshakeError>(HandshakeError::BadSeals),
{
    if !seals_match(bits) {
        return Err(HandshakeError::BadSeals);
    }
    Ok(())
}

/// Check a broadcast receiver's reply packet: it must carry no data, then
/// exactly one descriptor alone. Returns the descriptor to keep; every
/// refusal is `InvalidData`.
pub fn check_receiver_reply(read_size: usize, messages: &Vec<ControlMessage>) -> (r: Result<
    i32,
    HandshakeError,
>)
    ensures
        match r {
            Ok(fd) => read_size == 0 && single_fd(messages@) && fd == all_fds(messages@)[0],
            Err(e) => e == HandshakeError::InvalidData && (read_size != 0 || !single_fd(messages@)),
        },
{
    if read_size != 0 {
        return Err(HandshakeError::InvalidData);
    }
    fd_from_ancillary(messages)
}

/// Check a broadcast receiver's state file before mapping it: it must carry
/// the expected seals and be no larger than `MAX_RECV_STATE_FILE` bytes.
pub fn check_receiver_file(seal_bits: u32, file_len: u64) -> (r: Result<(), HandshakeError>)
    ensures
        r is Ok <==> (seal_bits == SEALS_BITS && file_len <= MAX_RECV_STATE_FILE),
        r is Err ==> r == Err::<(), HandshakeError>(HandshakeError::InvalidData),
{
    if !seals_match(seal_bits) {
        return Err(HandshakeError::InvalidData);
    }
    if file_len > MAX_RECV_STATE_FILE {
        return Err(HandshakeError::InvalidData);
    }
    Ok(())
}

/// Check the mapping of a broadcast receiver's state file: it must hold the
/// receiver's state block.
pub fn check_receiver_map(map_len: usize) -> (r: Result<(), HandshakeError>)
    ensures
        r is Ok <==> map_len >= SIZE_RECV_STATE,
        r is Err ==> r == Err::<(), HandshakeError>(HandshakeError::InvalidData),
{
    if map_len < SIZE_RECV_STATE {
        return Err(HandshakeError::InvalidData);
    }
    Ok(())
}

} // verus!
