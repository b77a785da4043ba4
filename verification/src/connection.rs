//! The per-connection TCP protocol engine.
//!
//! A [`Connection`] owns the send and receive sequence spaces, the
//! retransmission queue (`unacked`), the in-order received bytes awaiting the
//! reader (`ingress`), the send-time records feeding the round-trip
//! estimator, and cached reply header templates. Every transition —
//! accepting a SYN, processing a segment, a timer tick, closing — is a pure
//! state step that returns the segments to put on the wire; each executable
//! method is pinned to a specification function describing that step
//! exactly.

use vstd::prelude::*;

use std::collections::VecDeque;

use crate::seqnum::{
    is_between_wrapped, seq_add, seq_between, seq_dec, seq_lt, seq_sub, wrapping_lt,
};
use crate::segment::{SegmentOut, TcpSegment};
use crate::sequence::{ReceiveSequenceSpace, SendSequenceSpace};
use crate::state::{Available, State};
use crate::timers::{
    first_at_or_after, keys_sorted, purged, sat_sub, spec_record, srtt_after, times_bounded,
    Timers, TIME_MAX_MICROS,
};
use crate::TcpError;

verus! {

broadcast use vstd::std_specs::vecdeque::group_vec_dequeue_axioms;

/// Interface MTU: the largest frame this endpoint emits.
pub const MTU: usize = 1500;

/// Time-to-live of emitted frames.
pub const TTL: u8 = 64;

/// Initial send sequence number (deterministic in this engine).
pub const ISS: u32 = 0;

/// The window this endpoint advertises.
pub const WINDOW_SIZE: u16 = 10;

/// Cap on the bytes a writer may queue in `unacked`.
pub const SEND_QUEUE_SIZE: usize = 1024;

/// Payload budget per segment: the MTU minus the two emitted headers.
pub const MSS_BUDGET: usize = MTU - 40;

/// The four-tuple a connection is keyed by: `src` is the peer as observed on
/// arrival, `dst` the local endpoint; each side an IPv4 address and a port.
#[derive(Debug, Clone, Copy, Hash, PartialEq, Eq, Structural)]
pub struct Tcp4Tuple {
    pub src_ip: u32,
    pub src_port: u16,
    pub dst_ip: u32,
    pub dst_port: u16,
}

/// Cached IPv4 reply-header fields: addresses already swapped for replies.
#[derive(Debug, Clone, Copy, PartialEq, Eq, Structural)]
pub struct Ipv4Template {
    pub src_ip: u32,
    pub dst_ip: u32,
    pub ttl: u8,
}

/// Cached TCP reply-header fields. `syn`, `fin` and `rst` are transient:
/// staged just before a segment is emitted and cleared by the emission.
#[derive(Debug, Clone, Copy, PartialEq, Eq, Structural)]
pub struct TcpTemplate {
    pub src_port: u16,
    pub dst_port: u16,
    pub wnd: u16,
    pub syn: bool,
    pub ack: bool,
    pub fin: bool,
    pub rst: bool,
}

/// The mathematical state of a connection: every queue as a sequence.
#[verifier::ext_equal]
pub ghost struct ConnState {
    pub state: State,
    pub send: SendSequenceSpace,
    pub receive: ReceiveSequenceSpace,
    pub send_times: Seq<(u32, u64)>,
    pub srtt: u64,
    pub ip: Ipv4Template,
    pub tcp: TcpTemplate,
    pub ingress: Seq<u8>,
    pub unacked: Seq<u8>,
    pub closed: bool,
    pub closed_at: Option<u32>,
}

/// The view of one staged outgoing segment.
#[verifier::ext_equal]
pub ghost struct SegOutView {
    pub src_ip: u32,
    pub src_port: u16,
    pub dst_ip: u32,
    pub dst_port: u16,
    pub ttl: u8,
    pub seq: u32,
    pub ack_no: u32,
    pub wnd: u16,
    pub syn: bool,
    pub ack: bool,
    pub fin: bool,
    pub rst: bool,
    pub payload: Seq<u8>,
}

impl View for SegmentOut {
    type V = SegOutView;

    open spec fn view(&self) -> SegOutView {
        SegOutView {
            src_ip: self.src_ip,
            src_port: self.src_port,
            dst_ip: self.dst_ip,
            dst_port: self.dst_port,
            ttl: self.ttl,
            seq: self.seq,
            ack_no: self.ack_no,
            wnd: self.wnd,
            syn: self.syn,
            ack: self.ack,
            fin: self.fin,
            rst: self.rst,
            payload: self.payload@,
        }
    }
}

/// The view of one parsed incoming segment.
#[verifier::ext_equal]
pub ghost struct SegInView {
    pub src_ip: u32,
    pub src_port: u16,
    pub dst_ip: u32,
    pub dst_port: u16,
    pub seq: u32,
    pub ack_no: u32,
    pub wnd: u16,
    pub urgent_ptr: u16,
    pub syn: bool,
    pub ack: bool,
    pub fin: bool,
    pub rst: bool,
    pub payload: Seq<u8>,
}

impl View for TcpSegment {
    type V = SegInView;

    open spec fn view(&self) -> SegInView {
        SegInView {
            src_ip: self.src_ip,
            src_port: self.src_port,
            dst_ip: self.dst_ip,
            dst_port: self.dst_port,
            seq: self.seq,
            ack_no: self.ack_no,
            wnd: self.wnd,
            urgent_ptr: self.urgent_ptr,
            syn: self.syn,
            ack: self.ack,
            fin: self.fin,
            rst: self.rst,
            payload: self.payload@,
        }
    }
}

/// What processing one segment produced: the segments to put on the wire in
/// order, the wakeups now warranted, and — since one bad packet never kills
/// the engine — a fault for the caller to log rather than an interruption.
#[derive(Debug)]
pub struct PacketOutcome {
    pub replies: Vec<SegmentOut>,
    pub available: Available,
    pub fault: Option<TcpError>,
}

/// One TCP connection.
#[derive(Debug)]
pub struct Connection {
    pub state: State,
    pub send: SendSequenceSpace,
    pub receive: ReceiveSequenceSpace,
    pub timers: Timers,
    pub ip: Ipv4Template,
    pub tcp: TcpTemplate,
    /// In-order received bytes awaiting the reader.
    pub ingress: VecDeque<u8>,
    /// Bytes produced by the writer: a prefix is in flight, the rest unsent.
    pub unacked: VecDeque<u8>,
    /// The writer has shut down its side.
    pub closed: bool,
    /// Sequence number of our FIN, once assigned.
    pub closed_at: Option<u32>,
}

impl View for Connection {
    type V = ConnState;

    open spec fn view(&self) -> ConnState {
        ConnState {
            state: self.state,
            send: self.send,
            receive: self.receive,
            send_times: self.timers.send_times@,
            srtt: self.timers.srtt,
            ip: self.ip,
            tcp: self.tcp,
            ingress: self.ingress@,
            unacked: self.unacked@,
            closed: self.closed,
            closed_at: self.closed_at,
        }
    }
}

impl ConnState {
    /// The transient header flags are clear between transitions.
    pub open spec fn tpl_at_rest(self) -> bool {
        !self.tcp.syn && !self.tcp.fin && !self.tcp.rst
    }

    /// Well-formedness that holds even while an emission is staged: the
    /// unacknowledged span stays within the window plus the one slot a SYN
    /// or FIN occupies, timers are sorted and bounded, and the write queue
    /// respects its cap.
    pub open spec fn wf_core(self) -> bool {
        &&& seq_sub(self.send.nxt, self.send.una) <= self.send.wnd + 1
        &&& keys_sorted(self.send_times)
        &&& times_bounded(self.send_times, TIME_MAX_MICROS)
        &&& self.srtt <= TIME_MAX_MICROS
        &&& self.unacked.len() <= SEND_QUEUE_SIZE
    }

    /// Full well-formedness between transitions.
    pub open spec fn wf(self) -> bool {
        self.wf_core() && self.tpl_at_rest()
    }

    /// Sequence slots a staged emission would consume besides its payload.
    pub open spec fn staged_flag_slots(self) -> int {
        (if self.tcp.syn {
            1int
        } else {
            0int
        }) + (if self.tcp.fin {
            1int
        } else {
            0int
        })
    }
}

/// The state and emitted segment of one segment write: the payload is the
/// part of `unacked` that starts `seq - send.una` bytes in (zero bytes when
/// `seq` addresses the slot just past a recorded FIN), clipped to `limit`,
/// to what the queue holds, and to the MSS budget; `send.nxt` moves forward
/// to the end of the emission if that is an advance; the send time is
/// recorded; the transient flags are consumed.
pub open spec fn spec_write_segment(c: ConnState, seq: u32, limit: int, now: u64) -> (
    ConnState,
    SegOutView,
) {
    let fin_follow = c.closed_at matches Some(f) && seq == seq_add(f, 1);
    let offset = if fin_follow {
        0int
    } else {
        seq_sub(seq, c.send.una)
    };
    let lim = if fin_follow {
        0int
    } else {
        limit
    };
    let avail = if offset <= c.unacked.len() {
        c.unacked.len() - offset
    } else {
        0int
    };
    let max_data = vstd::math::min(lim, avail);
    let n = vstd::math::min(max_data, MSS_BUDGET as int);
    let payload = if n <= 0 {
        Seq::<u8>::empty()
    } else {
        c.unacked.subrange(offset, offset + n)
    };
    let next_seq = seq_add(seq, (payload.len() + c.staged_flag_slots()) as u32);
    let nxt2 = if seq_lt(c.send.nxt, next_seq) {
        next_seq
    } else {
        c.send.nxt
    };
    let out = SegOutView {
        src_ip: c.ip.src_ip,
        src_port: c.tcp.src_port,
        dst_ip: c.ip.dst_ip,
        dst_port: c.tcp.dst_port,
        ttl: c.ip.ttl,
        seq: seq,
        ack_no: c.receive.nxt,
        wnd: c.tcp.wnd,
        syn: c.tcp.syn,
        ack: c.tcp.ack,
        fin: c.tcp.fin,
        rst: c.tcp.rst,
        payload: payload,
    };
    let c2 = ConnState {
        send: SendSequenceSpace { nxt: nxt2, ..c.send },
        send_times: spec_record(c.send_times, seq, now),
        tcp: TcpTemplate { syn: false, fin: false, rst: false, ..c.tcp },
        ..c
    };
    (c2, out)
}

/// The connection a SYN on a listening port creates, together with the
/// SYN+ACK it answers with: the receive space starts one past the peer's
/// sequence number, the send space at this endpoint's initial number, and
/// the reply templates carry the addresses swapped.
pub open spec fn spec_accept(seg: SegInView, now: u64) -> Result<(ConnState, SegOutView), TcpError> {
    if !seg.syn {
        Err(TcpError::UnexpectedSegment)
    } else {
        let receive = ReceiveSequenceSpace {
            irs: seg.seq,
            nxt: seq_add(seg.seq, 1),
            wnd: seg.wnd,
            urgent: seg.urgent_ptr,
        };
        let send = SendSequenceSpace {
            iss: ISS,
            una: ISS,
            nxt: ISS,
            wnd: WINDOW_SIZE,
            urgent: 0,
            wl1: seg.seq,
            wl2: seq_add(ISS, WINDOW_SIZE as u32),
        };
        let c = ConnState {
            state: State::SynReceived,
            send: send,
            receive: receive,
            send_times: Seq::empty(),
            srtt: crate::timers::SRTT_INITIAL_MICROS,
            ip: Ipv4Template { src_ip: seg.dst_ip, dst_ip: seg.src_ip, ttl: TTL },
            tcp: TcpTemplate {
                src_port: seg.dst_port,
                dst_port: seg.src_port,
                wnd: WINDOW_SIZE,
                syn: true,
                ack: true,
                fin: false,
                rst: false,
            },
            ingress: Seq::empty(),
            unacked: Seq::empty(),
            closed: false,
            closed_at: None,
        };
        Ok(spec_write_segment(c, ISS, 0, now))
    }
}

/// Largest payload a segment handed to the engine may carry: an IPv4 frame
/// cannot hold more.
pub const MAX_SEGMENT_PAYLOAD: usize = 65535;

/// What a processed segment newly offers blocked callers.
pub open spec fn spec_avail(c: ConnState) -> Available {
    Available { read: c.state is TimeWait || c.ingress.len() > 0, write: false }
}

/// Segment acceptability (RFC 793 section 3.3): the segment must overlap
/// the receive window, where a segment's length counts its SYN and FIN.
pub open spec fn spec_seg_acceptable(c: ConnState, seg: SegInView) -> bool {
    let slen = crate::segment::spec_seg_len(seg.payload.len() as int, seg.syn, seg.fin);
    let wend = seq_add(c.receive.nxt, c.receive.wnd as u32);
    if slen == 0 {
        if c.receive.wnd == 0 {
            seg.seq == c.receive.nxt
        } else {
            seq_between(seq_dec(c.receive.nxt), seg.seq, wend)
        }
    } else {
        if c.receive.wnd == 0 {
            false
        } else {
            seq_between(seq_dec(c.receive.nxt), seg.seq, wend) || seq_between(
                seq_dec(c.receive.nxt),
                seq_add(seg.seq, (slen - 1) as u32),
                wend,
            )
        }
    }
}

/// An acceptable acknowledgment moves the left edge: `una < ack <= nxt`.
pub open spec fn spec_ack_in_range(c: ConnState, ack_no: u32) -> bool {
    seq_between(c.send.una, ack_no, seq_add(c.send.nxt, 1))
}

/// The acknowledgment stage: in a synchronized state with an acceptable
/// acknowledgment, the newly covered prefix of `unacked` is dropped (the
/// still-unacknowledged SYN claims one slot when `una` sits at `iss`), the
/// settled send times are purged into the round-trip estimator, and `una`
/// advances to the acknowledgment.
pub open spec fn spec_ack_advance(c: ConnState, seg: SegInView, now: u64) -> ConnState {
    if (c.state is Established || c.state is FinWait1 || c.state is FinWait2)
        && spec_ack_in_range(c, seg.ack_no) {
        if c.unacked.len() > 0 {
            let data_start = if c.send.una == c.send.iss {
                seq_add(c.send.una, 1)
            } else {
                c.send.una
            };
            let drained = vstd::math::min(
                seq_sub(seg.ack_no, data_start),
                c.unacked.len() as int,
            );
            ConnState {
                send: SendSequenceSpace { una: seg.ack_no, ..c.send },
                unacked: c.unacked.skip(drained),
                send_times: purged(c.send_times, c.send.una, seg.ack_no),
                srtt: srtt_after(c.srtt, c.send_times, c.send.una, seg.ack_no, now),
                ..c
            }
        } else {
            ConnState { send: SendSequenceSpace { una: seg.ack_no, ..c.send }, ..c }
        }
    } else {
        c
    }
}

/// The payload stage: in a data-accepting state the bytes past the already
/// received prefix go to `ingress` and the expected sequence number moves
/// past the segment's payload; an offset beyond the payload (a retransmitted
/// FIN whose slot was already absorbed) is treated as zero. A bare
/// acknowledgment answers the segment.
pub open spec fn spec_deliver(c: ConnState, seg: SegInView, now: u64) -> (
    ConnState,
    Seq<SegOutView>,
) {
    if seg.payload.len() > 0 && c.state.spec_accepts_data() {
        let off0 = seq_sub(c.receive.nxt, seg.seq);
        let off = if off0 > seg.payload.len() {
            0int
        } else {
            off0
        };
        let c1 = ConnState {
            ingress: c.ingress + seg.payload.skip(off),
            receive: ReceiveSequenceSpace {
                nxt: seq_add(seg.seq, seg.payload.len() as u32),
                ..c.receive
            },
            ..c
        };
        let stepped = spec_write_segment(c1, c1.send.nxt, 0, now);
        (stepped.0, seq![stepped.1])
    } else {
        (c, Seq::empty())
    }
}

/// One incoming segment, end to end (RFC 793 section 3.9, the subset this
/// engine implements).
///
/// An unacceptable segment is answered with a bare acknowledgment and
/// changes nothing else. A segment without ACK completes the peer half of
/// the handshake when it carries a SYN. Otherwise the acknowledgment stage
/// runs (a `SynReceived` connection whose own SYN is covered becomes
/// `Established`; a `FinWait1` connection whose FIN is covered becomes
/// `FinWait2`), then the payload stage, and finally a FIN moves a
/// `FinWait2` connection to `TimeWait`, absorbing one sequence slot and
/// answering with an acknowledgment. A FIN in any other state is an
/// unsupported transition: processing stops there and the fault is
/// reported.
pub open spec fn spec_on_packet(c: ConnState, seg: SegInView, now: u64) -> (
    ConnState,
    Seq<SegOutView>,
    Available,
    Option<TcpError>,
) {
    if !spec_seg_acceptable(c, seg) {
        let stepped = spec_write_segment(c, c.send.nxt, 0, now);
        (stepped.0, seq![stepped.1], spec_avail(stepped.0), None)
    } else if !seg.ack {
        let c1 = if seg.syn {
            ConnState {
                receive: ReceiveSequenceSpace { nxt: seq_add(seg.seq, 1), ..c.receive },
                ..c
            }
        } else {
            c
        };
        (c1, Seq::empty(), spec_avail(c1), None)
    } else {
        let c1 = if c.state is SynReceived && seq_between(
            seq_dec(c.send.una),
            seg.ack_no,
            seq_add(c.send.nxt, 1),
        ) {
            ConnState { state: State::Established, ..c }
        } else {
            c
        };
        let c2 = spec_ack_advance(c1, seg, now);
        let c3 = if c2.state is FinWait1 && (c2.closed_at matches Some(f) && c2.send.una
            == seq_add(f, 1)) {
            ConnState { state: State::FinWait2, ..c2 }
        } else {
            c2
        };
        let delivered = spec_deliver(c3, seg, now);
        let c4 = delivered.0;
        if seg.fin {
            if c4.state is FinWait2 {
                let c5 = ConnState {
                    receive: ReceiveSequenceSpace {
                        nxt: seq_add(c4.receive.nxt, 1),
                        ..c4.receive
                    },
                    ..c4
                };
                let stepped = spec_write_segment(c5, c5.send.nxt, 0, now);
                let c6 = ConnState { state: State::TimeWait, ..stepped.0 };
                (c6, delivered.1 + seq![stepped.1], spec_avail(c6), None)
            } else {
                (c4, delivered.1, spec_avail(c4), Some(TcpError::UnsupportedSegment))
            }
        } else {
            (c4, delivered.1, spec_avail(c4), None)
        }
    }
}

/// The retransmission decision and emission of one timer tick.
///
/// Nothing happens once our FIN is acknowledged (`FinWait2`, `TimeWait`).
/// Otherwise, when the oldest unacknowledged segment has waited longer than
/// one second and longer than one and a half times the smoothed round trip,
/// the window's worth of the queue is retransmitted from `send.una`, with
/// the FIN staged again when it fits after the data. Else new data is sent
/// from `send.nxt` within the window; a FIN is staged, and its sequence
/// number recorded, when the writer has closed and the window leaves room
/// after the data. The emission length is finally clipped so the
/// unacknowledged span never outruns the window and its one flag slot.
pub open spec fn spec_on_timer(c: ConnState, now: u64) -> (ConnState, Option<SegOutView>) {
    if c.state is FinWait2 || c.state is TimeWait {
        (c, None)
    } else {
        let fin_base = match c.closed_at {
            Some(f) => f,
            None => c.send.nxt,
        };
        let unacked_cnt = seq_sub(fin_base, c.send.una);
        let unsent = if c.unacked.len() >= unacked_cnt {
            c.unacked.len() - unacked_cnt
        } else {
            0int
        };
        let retransmit = match first_at_or_after(c.send_times, c.send.una) {
            Some(e) => sat_sub(now, e.1) > 1_000_000 && 2 * sat_sub(now, e.1) > 3 * c.srtt,
            None => false,
        };
        if retransmit {
            let resend = vstd::math::min(c.unacked.len() as int, c.send.wnd as int);
            let c1 = if resend < c.send.wnd && c.closed_at is Some {
                ConnState { tcp: TcpTemplate { fin: true, ..c.tcp }, ..c }
            } else {
                c
            };
            let stepped = spec_write_segment(c1, c.send.una, resend, now);
            (stepped.0, Some(stepped.1))
        } else {
            if unsent == 0 && !c.closed {
                (c, None)
            } else {
                let allowed = if c.send.wnd >= unacked_cnt {
                    c.send.wnd - unacked_cnt
                } else {
                    0int
                };
                if allowed == 0 {
                    (c, None)
                } else {
                    let send_len = vstd::math::min(unsent, allowed);
                    let stage_fin = send_len < allowed && c.closed && c.closed_at is None;
                    let c1 = if stage_fin {
                        ConnState {
                            tcp: TcpTemplate { fin: true, ..c.tcp },
                            closed_at: Some(seq_add(c.send.nxt, c.unacked.len() as u32)),
                            ..c
                        }
                    } else {
                        c
                    };
                    let head = seq_sub(c.send.nxt, c.send.una) + (if c1.tcp.fin {
                        1int
                    } else {
                        0int
                    });
                    let room = if c.send.wnd + 1 >= head {
                        c.send.wnd + 1 - head
                    } else {
                        0int
                    };
                    let clipped = vstd::math::min(send_len, room);
                    let stepped = spec_write_segment(c1, c.send.nxt, clipped, now);
                    (stepped.0, Some(stepped.1))
                }
            }
        }
    }
}

/// The state after a close: the writer side is marked shut, and a
/// connection still in its handshake or established moves to `FinWait1`.
/// Only `TimeWait` refuses.
pub open spec fn spec_close(c: ConnState) -> (ConnState, Result<(), TcpError>) {
    let c1 = ConnState { closed: true, ..c };
    match c.state {
        State::SynReceived | State::Established => (
            ConnState { state: State::FinWait1, ..c1 },
            Ok(()),
        ),
        State::FinWait1 | State::FinWait2 => (c1, Ok(())),
        State::TimeWait => (c1, Err(TcpError::NotConnected)),
    }
}

impl Connection {
    /// The peer has closed its side: every state after its FIN was absorbed.
    pub fn is_recv_closed(&self) -> (r: bool)
        ensures
            r == (self.state is TimeWait),
    {
        matches!(self.state, State::TimeWait)
    }

    /// What this connection newly offers its blocked callers: reading is
    /// possible when data waits in `ingress` or the receive side is closed.
    pub fn availability(&self) -> (a: Available)
        ensures
            a.read == (self.state is TimeWait || self@.ingress.len() > 0),
            !a.write,
    {
        Available { read: self.is_recv_closed() || self.ingress.len() > 0, write: false }
    }

    /// Stage and emit one segment: the exact step of
    /// [`spec_write_segment`].
    #[verifier::rlimit(60)]
    pub fn write_segment(&mut self, seq: u32, limit: usize, now: u64) -> (out: SegmentOut)
        requires
            old(self)@.wf_core(),
            now <= TIME_MAX_MICROS,
            seq_sub(seq, old(self)@.send.una) + limit + old(self)@.staged_flag_slots() <= old(
                self,
            )@.send.wnd + 1,
        ensures
            final(self)@ == spec_write_segment(old(self)@, seq, limit as int, now).0,
            out@ == spec_write_segment(old(self)@, seq, limit as int, now).1,
            final(self)@.wf_core(),
            final(self)@.tpl_at_rest(),
            final(self).state == old(self).state,
    {
        let ghost c0 = self@;
        let mut lim = limit;
        let mut offset_wide = seq.wrapping_sub(self.send.una) as usize;
        if let Some(closed_at) = self.closed_at {
            if seq == closed_at.wrapping_add(1) {
                // Addressing the slot after our FIN: nothing of the queue
                // may be read.
                offset_wide = 0;
                lim = 0;
            }
        }
        let ghost fin_follow = c0.closed_at matches Some(f) && seq == seq_add(f, 1);
        proof {
            assert(offset_wide == if fin_follow {
                0int
            } else {
                seq_sub(seq, c0.send.una)
            });
        }
        let avail: usize = if offset_wide <= self.unacked.len() {
            self.unacked.len() - offset_wide
        } else {
            0
        };
        let max_data: usize = if lim < avail {
            lim
        } else {
            avail
        };
        let n: usize = if max_data < MSS_BUDGET {
            max_data
        } else {
            MSS_BUDGET
        };
        let mut payload: Vec<u8> = Vec::new();
        let mut j: usize = 0;
        while j < n
            invariant
                0 <= j <= n,
                n == 0 || n + offset_wide <= self.unacked@.len(),
                self.unacked@.len() == self.unacked.len(),
                self.unacked@ == c0.unacked,
                n > 0 ==> payload@ == c0.unacked.subrange(offset_wide as int, offset_wide + j),
                n == 0 ==> payload@ == Seq::<u8>::empty(),
            decreases n - j,
        {
            proof {
                assert(offset_wide + j < self.unacked@.len());
            }
            payload.push(self.unacked[offset_wide + j]);
            proof {
                assert(payload@ =~= c0.unacked.subrange(offset_wide as int, offset_wide + j + 1));
            }
            j = j + 1;
        }
        let ghost spec_payload = spec_write_segment(c0, seq, limit as int, now).1.payload;
        proof {
            if n == 0 {
                assert(payload@ =~= Seq::<u8>::empty());
                assert(payload@ =~= spec_payload);
            }
            assert(payload@ == spec_payload);
        }
        let syn_flag = self.tcp.syn;
        let fin_flag = self.tcp.fin;
        let rst_flag = self.tcp.rst;
        let mut next_seq = seq.wrapping_add(payload.len() as u32);
        if self.tcp.syn {
            next_seq = next_seq.wrapping_add(1);
            self.tcp.syn = false;
        }
        if self.tcp.fin {
            next_seq = next_seq.wrapping_add(1);
            self.tcp.fin = false;
        }
        self.tcp.rst = false;
        proof {
            assert(next_seq == seq_add(seq, (spec_payload.len() + c0.staged_flag_slots()) as u32));
        }
        if wrapping_lt(self.send.nxt, next_seq) {
            self.send.nxt = next_seq;
        }
        self.timers.record_send(seq, now);
        let out = SegmentOut {
            src_ip: self.ip.src_ip,
            src_port: self.tcp.src_port,
            dst_ip: self.ip.dst_ip,
            dst_port: self.tcp.dst_port,
            ttl: self.ip.ttl,
            seq: seq,
            ack_no: self.receive.nxt,
            wnd: self.tcp.wnd,
            syn: syn_flag,
            ack: self.tcp.ack,
            fin: fin_flag,
            rst: rst_flag,
            payload,
        };
        proof {
            assert(self@ =~= spec_write_segment(c0, seq, limit as int, now).0);
            assert(out@ =~= spec_write_segment(c0, seq, limit as int, now).1);
            assert(seq_sub(self@.send.nxt, self@.send.una) <= self@.send.wnd + 1);
        }
        out
    }

    /// Accept a fresh SYN on a listening port: the exact step of
    /// [`spec_accept`]. Fails with `UnexpectedSegment` when the segment has
    /// no SYN flag; the connection is then not created.
    pub fn accept(seg: &TcpSegment, now: u64) -> (r: Result<(Connection, SegmentOut), TcpError>)
        requires
            now <= TIME_MAX_MICROS,
        ensures
            match r {
                Ok(pair) => {
                    &&& spec_accept(seg@, now) matches Ok(sp)
                    &&& pair.0@ == sp.0
                    &&& pair.1@ == sp.1
                    &&& pair.0@.wf()
                },
                Err(e) => spec_accept(seg@, now) == Err::<(ConnState, SegOutView), TcpError>(e),
            },
    {
        if !seg.syn {
            return Err(TcpError::UnexpectedSegment);
        }
        let receive = ReceiveSequenceSpace {
            irs: seg.seq,
            nxt: seg.seq.wrapping_add(1),
            wnd: seg.wnd,
            urgent: seg.urgent_ptr,
        };
        let iss = ISS;
        let send = SendSequenceSpace {
            iss,
            una: iss,
            nxt: iss,
            wnd: WINDOW_SIZE,
            urgent: 0,
            wl1: seg.seq,
            wl2: iss.wrapping_add(WINDOW_SIZE as u32),
        };
        let mut conn = Connection {
            state: State::SynReceived,
            send,
            receive,
            timers: Timers::new(),
            ip: Ipv4Template { src_ip: seg.dst_ip, dst_ip: seg.src_ip, ttl: TTL },
            tcp: TcpTemplate {
                src_port: seg.dst_port,
                dst_port: seg.src_port,
                wnd: WINDOW_SIZE,
                syn: true,
                ack: true,
                fin: false,
                rst: false,
            },
            ingress: VecDeque::new(),
            unacked: VecDeque::new(),
            closed: false,
            closed_at: None,
        };
        let syn_ack = conn.write_segment(iss, 0, now);
        Ok((conn, syn_ack))
    }

    /// Shut the writer side: the exact step of [`spec_close`]. The FIN
    /// itself is emitted by a later timer tick.
    pub fn close(&mut self) -> (r: Result<(), TcpError>)
        requires
            old(self)@.wf(),
        ensures
            final(self)@ == spec_close(old(self)@).0,
            r == spec_close(old(self)@).1,
            final(self)@.wf(),
    {
        self.closed = true;
        match self.state {
            State::SynReceived | State::Established => {
                self.state = State::FinWait1;
                Ok(())
            },
            State::FinWait1 | State::FinWait2 => Ok(()),
            State::TimeWait => Err(TcpError::NotConnected),
        }
    }

    /// One timer tick: decide between retransmitting, sending new data (and
    /// possibly our FIN), or staying idle. The exact step of
    /// [`spec_on_timer`].
    #[verifier::rlimit(60)]
    pub fn on_timer(&mut self, now: u64) -> (out: Option<SegmentOut>)
        requires
            old(self)@.wf(),
            now <= TIME_MAX_MICROS,
        ensures
            final(self)@ == spec_on_timer(old(self)@, now).0,
            match out {
                Some(seg) => spec_on_timer(old(self)@, now).1 == Some(seg@),
                None => spec_on_timer(old(self)@, now).1 is None,
            },
            final(self)@.wf(),
    {
        let ghost c0 = self@;
        if matches!(self.state, State::FinWait2 | State::TimeWait) {
            // Our FIN is acknowledged; nothing to (re)transmit.
            return None;
        }
        let fin_base = match self.closed_at {
            Some(f) => f,
            None => self.send.nxt,
        };
        let unacked_cnt: u32 = fin_base.wrapping_sub(self.send.una);
        let unsent: usize = if self.unacked.len() >= unacked_cnt as usize {
            self.unacked.len() - unacked_cnt as usize
        } else {
            0
        };
        let retransmit = match self.timers.first_unacked_send(self.send.una) {
            Some(sent_at) => {
                let waited = now.saturating_sub(sent_at);
                waited > 1_000_000 && 2 * waited > 3 * self.timers.srtt
            },
            None => false,
        };
        if retransmit {
            let resend: usize = if self.unacked.len() < self.send.wnd as usize {
                self.unacked.len()
            } else {
                self.send.wnd as usize
            };
            if resend < self.send.wnd as usize && self.closed_at.is_some() {
                // The FIN fits after the retransmitted data: announce it
                // again.
                self.tcp.fin = true;
            }
            let una = self.send.una;
            let seg = self.write_segment(una, resend, now);
            Some(seg)
        } else {
            if unsent == 0 && !self.closed {
                return None;
            }
            let allowed: u32 = if self.send.wnd as u32 >= unacked_cnt {
                self.send.wnd as u32 - unacked_cnt
            } else {
                0
            };
            if allowed == 0 {
                return None;
            }
            let send_len: usize = if unsent < allowed as usize {
                unsent
            } else {
                allowed as usize
            };
            if send_len < allowed as usize && self.closed && self.closed_at.is_none() {
                // All queued data fits: the FIN takes the slot right after
                // it.
                self.tcp.fin = true;
                self.closed_at = Some(self.send.nxt.wrapping_add(self.unacked.len() as u32));
            }
            let head: u32 = self.send.nxt.wrapping_sub(self.send.una) + (if self.tcp.fin {
                1
            } else {
                0
            });
            let room: u32 = if self.send.wnd as u32 + 1 >= head {
                self.send.wnd as u32 + 1 - head
            } else {
                0
            };
            let clipped: usize = if send_len < room as usize {
                send_len
            } else {
                room as usize
            };
            let nxt = self.send.nxt;
            let seg = self.write_segment(nxt, clipped, now);
            Some(seg)
        }
    }

    /// The acknowledgment stage of segment processing: the exact step of
    /// [`spec_ack_advance`].
    #[verifier::rlimit(60)]
    fn ack_advance(&mut self, seg: &TcpSegment, now: u64)
        requires
            old(self)@.wf(),
            now <= TIME_MAX_MICROS,
        ensures
            final(self)@ == spec_ack_advance(old(self)@, seg@, now),
            final(self)@.wf(),
            final(self).state == old(self).state,
    {
        let ghost c1 = self@;
        let ack = seg.ack_no;
        if matches!(self.state, State::Established | State::FinWait1 | State::FinWait2) {
            if is_between_wrapped(self.send.una, ack, self.send.nxt.wrapping_add(1)) {
                proof {
                    crate::seqnum::lemma_ack_advance_bound(
                        c1.send.una,
                        ack,
                        c1.send.nxt,
                        c1.send.wnd + 1,
                    );
                }
                if self.unacked.len() > 0 {
                    // Drop the newly covered prefix of the queue; the
                    // still-unacknowledged SYN claims one sequence slot.
                    let data_start = if self.send.una == self.send.iss {
                        self.send.una.wrapping_add(1)
                    } else {
                        self.send.una
                    };
                    let acked_len = ack.wrapping_sub(data_start) as usize;
                    let drained: usize = if acked_len < self.unacked.len() {
                        acked_len
                    } else {
                        self.unacked.len()
                    };
                    let ghost q0 = self.unacked@;
                    let ghost cpre = self@;
                    let mut k: usize = 0;
                    while k < drained
                        invariant
                            0 <= k <= drained,
                            drained <= q0.len(),
                            self.unacked@ == q0.skip(k as int),
                            self@ =~= (ConnState { unacked: q0.skip(k as int), ..cpre }),
                        decreases drained - k,
                    {
                        proof {
                            assert(q0.skip(k as int).len() == q0.len() - k);
                            assert(q0.skip(k as int).skip(1) =~= q0.skip(k + 1));
                        }
                        self.unacked.pop_front();
                        k = k + 1;
                    }
                    let una = self.send.una;
                    self.timers.purge_acked(una, ack, now);
                    self.send.una = ack;
                    proof {
                        assert(self@ =~= spec_ack_advance(c1, seg@, now));
                    }
                } else {
                    self.send.una = ack;
                    proof {
                        assert(self@ =~= spec_ack_advance(c1, seg@, now));
                    }
                }
            }
        }
    }

    /// The payload stage of segment processing: the exact step of
    /// [`spec_deliver`], returning the acknowledgment it answers with.
    #[verifier::rlimit(60)]
    fn deliver_payload(&mut self, seg: &TcpSegment, now: u64) -> (reply: Option<SegmentOut>)
        requires
            old(self)@.wf(),
            now <= TIME_MAX_MICROS,
            seg.payload@.len() <= MAX_SEGMENT_PAYLOAD,
        ensures
            final(self)@ == spec_deliver(old(self)@, seg@, now).0,
            match reply {
                Some(s) => spec_deliver(old(self)@, seg@, now).1 == seq![s@],
                None => spec_deliver(old(self)@, seg@, now).1 == Seq::<SegOutView>::empty(),
            },
            final(self)@.wf(),
            final(self).state == old(self).state,
    {
        let ghost c3 = self@;
        if seg.payload.len() > 0 && self.state.accepts_data() {
            let seq = seg.seq;
            let mut data_off = self.receive.nxt.wrapping_sub(seq) as usize;
            if data_off > seg.payload.len() {
                // A retransmitted segment whose FIN slot we already
                // absorbed: nothing of it is beyond us.
                data_off = 0;
            }
            let ghost in0 = self.ingress@;
            let ghost cpre = self@;
            let mut j: usize = data_off;
            while j < seg.payload.len()
                invariant
                    data_off <= j <= seg.payload@.len(),
                    self.ingress@ == in0 + seg.payload@.subrange(data_off as int, j as int),
                    self@ =~= (ConnState {
                        ingress: in0 + seg.payload@.subrange(data_off as int, j as int),
                        ..cpre
                    }),
                decreases seg.payload@.len() - j,
            {
                self.ingress.push_back(seg.payload[j]);
                proof {
                    assert(self.ingress@ =~= in0 + seg.payload@.subrange(data_off as int, j + 1));
                }
                j = j + 1;
            }
            proof {
                assert(seg.payload@.subrange(data_off as int, seg.payload@.len() as int)
                    =~= seg.payload@.skip(data_off as int));
            }
            self.receive.nxt = seq.wrapping_add(seg.payload.len() as u32);
            // Acknowledge what was taken.
            let nxt = self.send.nxt;
            let reply = self.write_segment(nxt, 0, now);
            proof {
                assert(self@ == spec_deliver(c3, seg@, now).0);
            }
            Some(reply)
        } else {
            None
        }
    }

    /// Drive the state machine for one incoming segment: the exact step of
    /// [`spec_on_packet`].
    #[verifier::rlimit(100)]
    #[verifier::loop_isolation(false)]
    pub fn on_packet(&mut self, seg: &TcpSegment, now: u64) -> (out: PacketOutcome)
        requires
            old(self)@.wf(),
            now <= TIME_MAX_MICROS,
            seg.payload@.len() <= MAX_SEGMENT_PAYLOAD,
        ensures
            final(self)@ == spec_on_packet(old(self)@, seg@, now).0,
            out.replies@.map_values(|s: SegmentOut| s@) == spec_on_packet(old(self)@, seg@, now).1,
            out.available == spec_on_packet(old(self)@, seg@, now).2,
            out.fault == spec_on_packet(old(self)@, seg@, now).3,
            final(self)@.wf(),
    {
        let ghost c0 = self@;
        let seq = seg.seq;
        let mut slen: u32 = seg.payload.len() as u32;
        if seg.syn {
            slen = slen + 1;
        }
        if seg.fin {
            slen = slen + 1;
        }
        // Acceptability (RFC 793 section 3.3): the segment must overlap the
        // receive window.
        let wend = self.receive.nxt.wrapping_add(self.receive.wnd as u32);
        let okay: bool = if slen == 0 {
            if self.receive.wnd == 0 {
                seq == self.receive.nxt
            } else {
                is_between_wrapped(self.receive.nxt.wrapping_sub(1), seq, wend)
            }
        } else if self.receive.wnd == 0 {
            false
        } else {
            is_between_wrapped(self.receive.nxt.wrapping_sub(1), seq, wend) || is_between_wrapped(
                self.receive.nxt.wrapping_sub(1),
                seq.wrapping_add(slen - 1),
                wend,
            )
        };
        proof {
            assert(okay == spec_seg_acceptable(c0, seg@));
        }
        if !okay {
            // Unacceptable: answer with a bare acknowledgment and change
            // nothing else.
            let nxt = self.send.nxt;
            let reply = self.write_segment(nxt, 0, now);
            let available = self.availability();
            let mut replies: Vec<SegmentOut> = Vec::new();
            replies.push(reply);
            proof {
                assert(replies@.map_values(|s: SegmentOut| s@) =~= seq![
                    spec_on_packet(c0, seg@, now).1[0],
                ]);
                assert(replies@.map_values(|s: SegmentOut| s@) =~= spec_on_packet(
                    c0,
                    seg@,
                    now,
                ).1);
            }
            return PacketOutcome { replies, available, fault: None };
        }
        if !seg.ack {
            if seg.syn {
                // The SYN of the initial handshake: note where the peer's
                // numbering starts.
                self.receive.nxt = seq.wrapping_add(1);
            }
            let available = self.availability();
            let replies: Vec<SegmentOut> = Vec::new();
            proof {
                assert(replies@.map_values(|s: SegmentOut| s@) =~= Seq::<SegOutView>::empty());
            }
            return PacketOutcome { replies, available, fault: None };
        }
        let ack = seg.ack_no;
        if matches!(self.state, State::SynReceived) {
            if is_between_wrapped(
                self.send.una.wrapping_sub(1),
                ack,
                self.send.nxt.wrapping_add(1),
            ) {
                // The acknowledgment covers our SYN.
                self.state = State::Established;
            }
        }
        let ghost c1 = self@;
        proof {
            assert(c1 == if c0.state is SynReceived && seq_between(
                seq_dec(c0.send.una),
                seg@.ack_no,
                seq_add(c0.send.nxt, 1),
            ) {
                ConnState { state: State::Established, ..c0 }
            } else {
                c0
            });
        }
        self.ack_advance(seg, now);
        let ghost c2 = self@;
        proof {
            assert(c2 == spec_ack_advance(c1, seg@, now));
        }
        if matches!(self.state, State::FinWait1) {
            if let Some(closed_at) = self.closed_at {
                if self.send.una == closed_at.wrapping_add(1) {
                    // The peer has acknowledged our FIN.
                    self.state = State::FinWait2;
                }
            }
        }
        let ghost c3 = self@;
        let mut replies: Vec<SegmentOut> = Vec::new();
        let delivered = self.deliver_payload(seg, now);
        if let Some(reply) = delivered {
            replies.push(reply);
        }
        let ghost c4 = self@;
        let ghost outs1 = replies@.map_values(|s: SegmentOut| s@);
        proof {
            assert(c4 == spec_deliver(c3, seg@, now).0);
            assert(outs1 =~= spec_deliver(c3, seg@, now).1);
        }
        if seg.fin {
            if matches!(self.state, State::FinWait2) {
                // The peer's FIN consumes one sequence slot; acknowledge it
                // and wait out the connection.
                self.receive.nxt = self.receive.nxt.wrapping_add(1);
                let nxt = self.send.nxt;
                let reply = self.write_segment(nxt, 0, now);
                replies.push(reply);
                self.state = State::TimeWait;
                let available = self.availability();
                proof {
                    assert(replies@.map_values(|s: SegmentOut| s@) =~= outs1 + seq![
                        spec_on_packet(c0, seg@, now).1.last(),
                    ]);
                    assert(replies@.map_values(|s: SegmentOut| s@) =~= spec_on_packet(
                        c0,
                        seg@,
                        now,
                    ).1);
                    assert(self@ =~= spec_on_packet(c0, seg@, now).0);
                }
                return PacketOutcome { replies, available, fault: None };
            } else {
                // Passive close is not implemented in this engine.
                let available = self.availability();
                return PacketOutcome {
                    replies,
                    available,
                    fault: Some(TcpError::UnsupportedSegment),
                };
            }
        }
        let available = self.availability();
        PacketOutcome { replies, available, fault: None }
    }

    /// Emit a reset for this connection (a stub: sequence bookkeeping for
    /// resets is not implemented). The staged RST flag rides one segment at
    /// `send.nxt` and is cleared by the emission.
    pub fn send_rst(&mut self, now: u64) -> (out: SegmentOut)
        requires
            old(self)@.wf(),
            now <= TIME_MAX_MICROS,
        ensures
            final(self)@ == spec_write_segment(
                ConnState { tcp: TcpTemplate { rst: true, ..old(self)@.tcp }, ..old(self)@ },
                old(self)@.send.nxt,
                0,
                now,
            ).0,
            out@ == spec_write_segment(
                ConnState { tcp: TcpTemplate { rst: true, ..old(self)@.tcp }, ..old(self)@ },
                old(self)@.send.nxt,
                0,
                now,
            ).1,
            final(self)@.wf(),
    {
        self.tcp.rst = true;
        self.write_segment(self.send.nxt, 0, now)
    }
}

} // verus!
