//! Constants of the shared-memory layout, queue-depth rules, and the
//! arithmetic on power-of-two queue depths that the ring buffers rely on.

use vstd::prelude::*;
use vstd::arithmetic::power::pow;
use vstd::arithmetic::power2::*;
use vstd::bits::*;

verus! {

/// The peer is running normally.
pub const ST_ACTIVE: usize = 0;
/// The peer is about to sleep and wants a wake-up packet.
pub const ST_WAITING: usize = 1;
/// The peer has hung up.
pub const ST_CLOSED: usize = 2;

/// Wake-up packet byte sent to a waiting sender.
pub const WAKE_SEND: u8 = 0;
/// Wake-up packet byte sent to a waiting receiver.
pub const WAKE_RECV: u8 = 1;

/// Size of the state block at the start of a bidirectional queue mapping:
/// five cache-padded (128-byte) words.
pub const SIZE_STATE: usize = 640;
/// Size of a broadcast receiver's state block: two cache-padded words.
pub const SIZE_RECV_STATE: usize = 256;
/// Size of a broadcast sender's state block: the queue depth followed by two
/// cache-padded words.
pub const SIZE_SEND_STATE: usize = 384;
/// Size of one message header slot: an offset and a length, both 64-bit.
pub const SIZE_HEADER: usize = 16;

/// Largest queue depth a peer may announce.
pub const MAX_QUEUE_DEPTH: usize = 1048576;

/// Largest size a broadcast receiver's state file may have.
pub const MAX_RECV_STATE_FILE: u64 = 65536;

/// `p` is the smallest power of two that is at least `n`.
pub open spec fn is_next_pow2(n: nat, p: nat) -> bool {
    &&& is_pow2(p as int)
    &&& n <= p
    &&& (p == 1 || p / 2 < n)
}

/// A queue depth a peer may announce: a power of two no larger than
/// `MAX_QUEUE_DEPTH`.
pub open spec fn valid_queue_depth_spec(qd: nat) -> bool {
    is_pow2(qd as int) && qd <= MAX_QUEUE_DEPTH
}

proof fn lemma_pow2_step(n: int)
    requires
        n >= 2,
        n % 2 == 0,
    ensures
        is_pow2(n) == is_pow2(n / 2),
{
    reveal(is_pow2);
}

proof fn lemma_pow2_odd(n: int)
    requires
        n >= 1,
        n % 2 != 0,
    ensures
        is_pow2(n) == (n == 1),
{
    reveal(is_pow2);
}

proof fn lemma_pow2_double(p: int)
    requires
        is_pow2(p),
    ensures
        is_pow2(2 * p),
{
    reveal(is_pow2);
    assert((2 * p) / 2 == p);
}

proof fn lemma_pow2_one()
    ensures
        is_pow2(1),
{
    reveal(is_pow2);
}

/// Whether `n` is a power of two.
pub fn is_power_of_two(n: usize) -> (r: bool)
    ensures
        r == is_pow2(n as int),
{
    if n == 0 {
        proof {
            reveal(is_pow2);
        }
        return false;
    }
    let mut m = n;
    while m % 2 == 0
        invariant
            m > 0,
            is_pow2(m as int) == is_pow2(n as int),
        decreases m,
    {
        proof {
            lemma_pow2_step(m as int);
        }
        m = m / 2;
    }
    proof {
        lemma_pow2_odd(m as int);
    }
    m == 1
}

/// The smallest power of two that is at least `n` (1 for 0).
pub fn next_power_of_two(n: usize) -> (p: usize)
    requires
        n <= usize::MAX / 2 + 1,
    ensures
        is_next_pow2(n as nat, p as nat),
{
    let mut p: usize = 1;
    proof {
        lemma_pow2_one();
    }
    while p < n
        invariant
            n <= usize::MAX / 2 + 1,
            1 <= p,
            is_pow2(p as int),
            p == 1 || p / 2 < n,
        decreases usize::MAX - p,
    {
        proof {
            lemma_pow2_double(p as int);
        }
        p = p * 2;
    }
    p
}

/// Every power of two up to `MAX_QUEUE_DEPTH`, 1 included, is an acceptable
/// queue depth, and so is the depth any requested depth up to
/// `MAX_QUEUE_DEPTH` is rounded to.
pub proof fn lemma_small_pow2_is_valid(n: nat, p: nat)
    requires
        n <= MAX_QUEUE_DEPTH,
        is_next_pow2(n, p),
    ensures
        valid_queue_depth_spec(p),
        valid_queue_depth_spec(1),
        forall|q: nat| is_pow2(q as int) && q <= MAX_QUEUE_DEPTH ==> valid_queue_depth_spec(q),
        forall|q: nat|
            valid_queue_depth_spec(q) ==> is_pow2(q as int) && 1 <= q <= MAX_QUEUE_DEPTH,
{
    assert forall|q: nat| valid_queue_depth_spec(q) implies is_pow2(q as int) && 1 <= q <= MAX_QUEUE_DEPTH by {
        reveal(is_pow2);
    }
    lemma_pow2_one();
    if p > MAX_QUEUE_DEPTH {
        // p is 2^k with k > 20, so p / 2 >= 2^20 >= n: not the smallest.
        lemma_pow2_exponent(p);
        let k = log2(p);
        lemma2_to64();
        if k <= 20 {
            if k < 20 {
                lemma_pow2_strictly_increases(k, 20);
            }
        } else {
            if k > 21 {
                lemma_pow2_strictly_increases(21, k);
            }
        }
    }
}

/// Whether a queue depth announced by a peer is acceptable: a power of two
/// no larger than `MAX_QUEUE_DEPTH`.
pub fn valid_queue_depth(qd: usize) -> (r: bool)
    ensures
        r == valid_queue_depth_spec(qd as nat),
{
    is_power_of_two(qd) && qd <= MAX_QUEUE_DEPTH
}

/// Exponent of a power of two.
pub open spec fn log2(n: nat) -> nat
    decreases n,
{
    if n <= 1 {
        0
    } else {
        1 + log2(n / 2)
    }
}

proof fn lemma_log2_pow2(n: nat)
    requires
        is_pow2(n as int),
    ensures
        pow2(log2(n)) == n,
    decreases n,
{
    reveal(is_pow2);
    if n == 1 {
        lemma2_to64();
    } else {
        lemma_log2_pow2(n / 2);
        lemma_pow2_unfold(log2(n));
    }
}

/// A power of two below 2^64 has an exponent below 64.
pub proof fn lemma_pow2_exponent(n: nat)
    requires
        is_pow2(n as int),
        n <= u64::MAX,
    ensures
        pow2(log2(n)) == n,
        log2(n) < 64,
{
    lemma_log2_pow2(n);
    if log2(n) >= 64 {
        lemma2_to64();
        if log2(n) > 64 {
            lemma_pow2_strictly_increases(64, log2(n));
        }
    }
}

/// For a power-of-two `qd`, masking with `qd - 1` is reduction modulo `qd`.
pub proof fn lemma_mask_is_mod(x: u64, qd: u64)
    requires
        is_pow2(qd as int),
    ensures
        qd >= 1,
        x & ((qd - 1) as u64) == x % qd,
        (x & ((qd - 1) as u64)) < qd,
{
    lemma_pow2_exponent(qd as nat);
    let k = log2(qd as nat);
    lemma_pow2_pos(k);
    lemma_u64_low_bits_mask_is_mod(x, k);
}

} // verus!
