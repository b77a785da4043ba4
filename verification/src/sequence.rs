//! Send and receive sequence spaces (RFC 793 section 3.2).

use vstd::prelude::*;

use crate::seqnum::{seq_lt, seq_sub, SEQ_HALF};

verus! {

/// Send sequence space.
///
/// - `iss`: initial send sequence number.
/// - `una`: oldest unacknowledged sequence number.
/// - `nxt`: next sequence number to send.
/// - `wnd`: the send window.
/// - `urgent`: send urgent pointer.
/// - `wl1`: segment sequence number of the last window update.
/// - `wl2`: segment acknowledgment number of the last window update.
#[derive(Clone, Copy, Debug, Default, PartialEq, Eq, Structural)]
pub struct SendSequenceSpace {
    pub iss: u32,
    pub una: u32,
    pub nxt: u32,
    pub wnd: u16,
    pub urgent: u16,
    pub wl1: u32,
    pub wl2: u32,
}

impl SendSequenceSpace {
    /// The unacknowledged span never outruns the window plus the one
    /// sequence slot a SYN or FIN may occupy, and so stays far inside half
    /// the ring.
    pub open spec fn wf(self) -> bool {
        seq_sub(self.nxt, self.una) <= self.wnd + 1
    }

    /// In a well-formed space the left edge, moved one back, is strictly
    /// earlier than `nxt`: `una` and `nxt` stay within one half-turn.
    pub proof fn lemma_una_before_nxt(self)
        requires
            self.wf(),
        ensures
            seq_lt((self.una as u32).wrapping_sub(1), self.nxt),
    {
        assert(seq_sub(self.una.wrapping_sub(1), self.nxt) > SEQ_HALF as int);
    }
}

/// Receive sequence space.
///
/// - `irs`: initial receive sequence number.
/// - `nxt`: next sequence number expected.
/// - `wnd`: the advertised receive window.
/// - `urgent`: receive urgent pointer.
#[derive(Clone, Copy, Debug, Default, PartialEq, Eq, Structural)]
pub struct ReceiveSequenceSpace {
    pub irs: u32,
    pub nxt: u32,
    pub wnd: u16,
    pub urgent: u16,
}

} // verus!
