//! Sequence-number arithmetic modulo 2^32 (RFC 793 section 3.3, RFC 1323).
//!
//! TCP sequence numbers live in a finite ring; `a` counts as earlier than `b`
//! when `a` is more than half the ring away from `b` going backwards. All
//! window and acknowledgment checks of the engine reduce to this one order.

use vstd::prelude::*;

verus! {

/// 2^32, the size of the sequence-number ring.
pub const SEQ_MOD: u64 = 0x1_0000_0000;

/// 2^31, half the ring.
pub const SEQ_HALF: u64 = 0x8000_0000;

/// `(a - b) mod 2^32` as a mathematical integer in `[0, 2^32)`.
pub open spec fn seq_sub(a: u32, b: u32) -> int {
    if a >= b {
        a - b
    } else {
        a - b + SEQ_MOD
    }
}

/// `a` lies strictly earlier than `b` in the half-ring order:
/// `(a - b) mod 2^32 > 2^31`.
pub open spec fn seq_lt(a: u32, b: u32) -> bool {
    seq_sub(a, b) > SEQ_HALF as int
}

/// `x` lies strictly between `s` and `e` in the ring.
pub open spec fn seq_between(s: u32, x: u32, e: u32) -> bool {
    seq_lt(s, x) && seq_lt(x, e)
}

/// `a` moved `k` steps forward around the ring.
pub open spec fn seq_add(a: u32, k: u32) -> u32 {
    if a + k > 0xFFFF_FFFFu32 {
        (a + k - SEQ_MOD) as u32
    } else {
        (a + k) as u32
    }
}

/// The sequence number one before `a` in the ring.
pub open spec fn seq_dec(a: u32) -> u32 {
    if a == 0 {
        0xFFFF_FFFFu32
    } else {
        (a - 1) as u32
    }
}

/// Half-ring comparison of two sequence numbers.
pub fn wrapping_lt(lhs: u32, rhs: u32) -> (r: bool)
    ensures
        r == seq_lt(lhs, rhs),
{
    lhs.wrapping_sub(rhs) > 0x8000_0000u32
}

/// Strict open-interval membership in the ring: `start < x < end`.
pub fn is_between_wrapped(start: u32, x: u32, end: u32) -> (r: bool)
    ensures
        r == seq_between(start, x, end),
{
    wrapping_lt(start, x) && wrapping_lt(x, end)
}

/// `seq_between` is by definition the conjunction of the two half-ring
/// comparisons.
pub proof fn lemma_between_is_two_lts(s: u32, x: u32, e: u32)
    ensures
        seq_between(s, x, e) == (seq_lt(s, x) && seq_lt(x, e)),
{
}

/// No point lies strictly between a point and itself: the interval
/// `(s, s)` is empty at its own endpoint.
pub proof fn lemma_between_self_empty(s: u32)
    ensures
        !seq_between(s, s, s),
{
    assert(seq_sub(s, s) == 0);
}

/// Advancing the left edge to an in-range acknowledgment brings it closer
/// to `nxt`: when the unacknowledged span is under half the ring and
/// `una < ack <= nxt`, the new span is no larger.
pub proof fn lemma_ack_advance_bound(una: u32, ack: u32, nxt: u32, bound: int)
    requires
        seq_sub(nxt, una) <= bound,
        0 <= bound < SEQ_HALF,
        seq_between(una, ack, seq_add(nxt, 1)),
    ensures
        seq_sub(nxt, ack) <= seq_sub(nxt, una),
{
}

} // verus!
