//! Parsed incoming segments and staged outgoing segments, as plain values.
//!
//! The engine never touches wire bytes directly: the codec boundary in
//! [`crate::wire`] turns a received IPv4 frame into a [`TcpSegment`] and an
//! outgoing [`SegmentOut`] back into a frame.

use vstd::prelude::*;

verus! {

/// One received TCP segment, with the addresses it arrived with.
/// `src` is the peer, `dst` the local endpoint.
#[derive(Debug)]
pub struct TcpSegment {
    pub src_ip: u32,
    pub src_port: u16,
    pub dst_ip: u32,
    pub dst_port: u16,
    pub seq: u32,
    pub ack_no: u32,
    pub wnd: u16,
    pub urgent_ptr: u16,
    pub syn: bool,
    pub ack: bool,
    pub fin: bool,
    pub rst: bool,
    pub payload: Vec<u8>,
}

/// One staged outgoing TCP segment. `src` is the local endpoint, `dst` the
/// peer.
#[derive(Debug)]
pub struct SegmentOut {
    pub src_ip: u32,
    pub src_port: u16,
    pub dst_ip: u32,
    pub dst_port: u16,
    pub ttl: u8,
    pub seq: u32,
    pub ack_no: u32,
    pub wnd: u16,
    pub syn: bool,
    pub ack: bool,
    pub fin: bool,
    pub rst: bool,
    pub payload: Vec<u8>,
}

/// Sequence slots the segment occupies: its payload plus one for SYN and one
/// for FIN.
pub open spec fn spec_seg_len(payload_len: int, syn: bool, fin: bool) -> int {
    payload_len + (if syn {
        1int
    } else {
        0int
    }) + (if fin {
        1int
    } else {
        0int
    })
}

} // verus!
