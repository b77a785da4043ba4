//! The engine's laws: properties of the transition relations, stated over
//! the specification functions that every executable method is pinned to.

use vstd::prelude::*;

use crate::connection::{
    spec_ack_advance, spec_ack_in_range, spec_deliver, spec_on_packet, spec_on_timer,
    spec_seg_acceptable, spec_write_segment, ConnState, SegInView, MAX_SEGMENT_PAYLOAD,
    MSS_BUDGET,
};
use crate::seqnum::{seq_add, seq_dec, seq_lt, seq_sub, SEQ_HALF};
use crate::timers::{first_at_or_after, sat_sub, TIME_MAX_MICROS};

verus! {

/// Law: the send-space edges stay within one half-turn of the ring. In
/// every well-formed state — and every transition ends in one, by the
/// `ensures` of each method — the left edge moved one back is strictly
/// earlier than `send.nxt`, so `send.una` and `send.nxt` (and `closed_at`,
/// which `send.nxt` passes when the FIN is emitted) never spread past half
/// the sequence space.
pub proof fn lemma_send_edges_half_turn(c: ConnState)
    requires
        c.wf_core(),
    ensures
        seq_lt(seq_dec(c.send.una), c.send.nxt),
{
    assert(seq_sub(seq_dec(c.send.una), c.send.nxt) > SEQ_HALF as int);
}

/// Law: a segment write never touches the byte queues — retransmission can
/// only shrink through acknowledgments.
pub proof fn lemma_write_segment_keeps_queues(c: ConnState, seq: u32, limit: int, now: u64)
    ensures
        spec_write_segment(c, seq, limit, now).0.unacked == c.unacked,
        spec_write_segment(c, seq, limit, now).0.ingress == c.ingress,
{
}

/// Law: a timer tick never touches the byte queues either.
pub proof fn lemma_on_timer_keeps_queues(c: ConnState, now: u64)
    ensures
        spec_on_timer(c, now).0.unacked == c.unacked,
        spec_on_timer(c, now).0.ingress == c.ingress,
{
}

/// Law: the retransmission queue drains exactly with the advance of the
/// left edge. When an acceptable acknowledgment lands on a connection
/// whose SYN is already acknowledged, and the acknowledgment stays within
/// the queued data, the queue loses precisely its acknowledged prefix: the
/// drop in `unacked.len()` equals the advance of `send.una`, and the
/// remaining bytes are the untouched suffix.
pub proof fn lemma_unacked_drains_with_una(c: ConnState, seg: SegInView, now: u64)
    requires
        c.wf(),
        c.state is Established || c.state is FinWait1 || c.state is FinWait2,
        spec_ack_in_range(c, seg.ack_no),
        c.send.una != c.send.iss,
        seq_sub(seg.ack_no, c.send.una) <= c.unacked.len(),
        c.unacked.len() > 0,
    ensures
        spec_ack_advance(c, seg, now).unacked == c.unacked.skip(seq_sub(seg.ack_no, c.send.una)),
        c.unacked.len() - spec_ack_advance(c, seg, now).unacked.len() == seq_sub(
            spec_ack_advance(c, seg, now).send.una,
            c.send.una,
        ),
{
    let adv = seq_sub(seg.ack_no, c.send.una);
    assert(spec_ack_advance(c, seg, now).unacked =~= c.unacked.skip(adv));
}

/// Law: an acknowledgment outside the acceptable range leaves the
/// retransmission queue and the left edge alone.
pub proof fn lemma_unacked_stable_without_ack(c: ConnState, seg: SegInView, now: u64)
    requires
        !spec_ack_in_range(c, seg.ack_no),
    ensures
        spec_ack_advance(c, seg, now).unacked == c.unacked,
        spec_ack_advance(c, seg, now).send.una == c.send.una,
{
}

/// Law: once the peer acknowledges our FIN, the connection stands in
/// `FinWait2`. A segment that carries the acknowledgment of the recorded
/// FIN slot — and no FIN of its own — moves a closing connection out of
/// `FinWait1`.
pub proof fn lemma_fin_acked_reaches_fin_wait2(c: ConnState, seg: SegInView, now: u64)
    requires
        c.wf(),
        c.state is FinWait1,
        c.closed_at matches Some(f) && seg.ack_no == seq_add(f, 1),
        spec_seg_acceptable(c, seg),
        spec_ack_in_range(c, seg.ack_no),
        seg.ack,
        !seg.fin,
    ensures
        spec_on_packet(c, seg, now).0.state is FinWait2,
        spec_on_packet(c, seg, now).3 is None,
{
}

/// Law: after our FIN is acknowledged, the peer's own FIN ends the
/// connection in `TimeWait`, its sequence slot absorbed and acknowledged.
pub proof fn lemma_peer_fin_reaches_time_wait(c: ConnState, seg: SegInView, now: u64)
    requires
        c.wf(),
        c.state is FinWait2,
        spec_seg_acceptable(c, seg),
        seg.ack,
        seg.fin,
        seg.payload.len() == 0,
    ensures
        spec_on_packet(c, seg, now).0.state is TimeWait,
        spec_on_packet(c, seg, now).0.receive.nxt == seq_add(c.receive.nxt, 1),
        spec_on_packet(c, seg, now).3 is None,
{
}

/// Law: in-order delivery is exact, and each stream position is filled by
/// exactly one accepted segment. A data segment that starts at or before
/// the expected byte appends precisely its bytes past the expected mark,
/// each landing at the position its sequence number names; `receive.nxt`
/// then stands one past the last delivered byte, so the bytes this segment
/// delivered can never be delivered again — every later delivery starts at
/// the advanced mark.
pub proof fn lemma_delivery_exact(c: ConnState, seg: SegInView, now: u64)
    requires
        c.state.spec_accepts_data(),
        0 < seg.payload.len() <= MAX_SEGMENT_PAYLOAD,
        seq_sub(c.receive.nxt, seg.seq) <= seg.payload.len(),
    ensures
        ({
            let off = seq_sub(c.receive.nxt, seg.seq);
            let stepped = spec_deliver(c, seg, now);
            &&& stepped.0.ingress == c.ingress + seg.payload.skip(off)
            &&& stepped.0.receive.nxt == seq_add(seg.seq, seg.payload.len() as u32)
            &&& forall|idx: int|
                0 <= idx < seg.payload.len() - off ==> #[trigger] stepped.0.ingress[c.ingress.len()
                    + idx] == seg.payload[off + idx]
            &&& seq_sub(stepped.0.receive.nxt, c.receive.nxt) == seg.payload.len() - off
        }),
{
    let off = seq_sub(c.receive.nxt, seg.seq);
    let stepped = spec_deliver(c, seg, now);
    assert(stepped.0.ingress == c.ingress + seg.payload.skip(off));
    assert forall|idx: int|
        0 <= idx < seg.payload.len() - off implies #[trigger] stepped.0.ingress[c.ingress.len()
        + idx] == seg.payload[off + idx] by {
        assert(seg.payload.skip(off)[idx] == seg.payload[off + idx]);
    }
}

/// Law: two successive in-order deliveries fill disjoint, adjacent spans
/// of the stream: the bytes arrive in the queue as one concatenation, in
/// arrival order, with nothing repeated and nothing reordered.
pub proof fn lemma_deliveries_adjacent(
    c: ConnState,
    s1: SegInView,
    s2: SegInView,
    now1: u64,
    now2: u64,
)
    requires
        c.state.spec_accepts_data(),
        0 < s1.payload.len() <= MAX_SEGMENT_PAYLOAD,
        seq_sub(c.receive.nxt, s1.seq) <= s1.payload.len(),
        now1 <= TIME_MAX_MICROS,
        ({
            let c1 = spec_deliver(c, s1, now1).0;
            &&& 0 < s2.payload.len() <= MAX_SEGMENT_PAYLOAD
            &&& seq_sub(c1.receive.nxt, s2.seq) <= s2.payload.len()
        }),
    ensures
        ({
            let off1 = seq_sub(c.receive.nxt, s1.seq);
            let c1 = spec_deliver(c, s1, now1).0;
            let off2 = seq_sub(c1.receive.nxt, s2.seq);
            let c2 = spec_deliver(c1, s2, now2).0;
            c2.ingress == c.ingress + s1.payload.skip(off1) + s2.payload.skip(off2)
        }),
{
    let c1 = spec_deliver(c, s1, now1).0;
    lemma_delivery_exact(c, s1, now1);
    assert(c1.state == c.state);
    lemma_delivery_exact(c1, s2, now2);
}

/// The connection after a whole run of segments, each taken by the payload
/// stage in turn.
pub open spec fn spec_deliver_all(c: ConnState, segs: Seq<SegInView>, now: u64) -> ConnState
    decreases segs.len(),
{
    if segs.len() == 0 {
        c
    } else {
        spec_deliver_all(spec_deliver(c, segs[0], now).0, segs.skip(1), now)
    }
}

/// Every segment of the run carries data, fits an IPv4 frame, and starts
/// at or before the byte its receiver expects at that point.
pub open spec fn spec_in_order_run(c: ConnState, segs: Seq<SegInView>, now: u64) -> bool
    decreases segs.len(),
{
    segs.len() == 0 || {
        &&& 0 < segs[0].payload.len() <= MAX_SEGMENT_PAYLOAD
        &&& seq_sub(c.receive.nxt, segs[0].seq) <= segs[0].payload.len()
        &&& spec_in_order_run(spec_deliver(c, segs[0], now).0, segs.skip(1), now)
    }
}

/// The byte stream an in-order run carries: each segment's bytes past the
/// expected mark, concatenated in arrival order.
pub open spec fn spec_run_stream(c: ConnState, segs: Seq<SegInView>, now: u64) -> Seq<u8>
    decreases segs.len(),
{
    if segs.len() == 0 {
        Seq::empty()
    } else {
        segs[0].payload.skip(seq_sub(c.receive.nxt, segs[0].seq)) + spec_run_stream(
            spec_deliver(c, segs[0], now).0,
            segs.skip(1),
            now,
        )
    }
}

/// Law: over any in-order run of segments, the ingress queue grows by
/// exactly the run's stream — every byte delivered once, in order, with
/// nothing lost, repeated or reordered. Together with the exact contracts
/// of the write path (the queued bytes are what the writer handed in, and
/// each emitted payload is the addressed part of that queue) this is the
/// round trip: what one endpoint writes is what the other one reads.
pub proof fn lemma_run_delivers_stream(c: ConnState, segs: Seq<SegInView>, now: u64)
    requires
        c.state.spec_accepts_data(),
        spec_in_order_run(c, segs, now),
    ensures
        spec_deliver_all(c, segs, now).ingress == c.ingress + spec_run_stream(c, segs, now),
    decreases segs.len(),
{
    if segs.len() == 0 {
        assert(c.ingress + Seq::<u8>::empty() =~= c.ingress);
    } else {
        let first = segs[0];
        let suffix = first.payload.skip(seq_sub(c.receive.nxt, first.seq));
        let c1 = spec_deliver(c, first, now).0;
        lemma_delivery_exact(c, first, now);
        assert(c1.state == c.state);
        lemma_run_delivers_stream(c1, segs.skip(1), now);
        assert((c.ingress + suffix) + spec_run_stream(c1, segs.skip(1), now) =~= c.ingress + (
        suffix + spec_run_stream(c1, segs.skip(1), now)));
    }
}

/// Law: writing and then consuming yields the identical byte stream, one
/// segment at a time. The payload a segment write emits is exactly the
/// addressed part of the sender's queue, and a peer expecting precisely
/// that segment appends exactly those bytes to its ingress queue; chained
/// over in-order segments (see [`lemma_deliveries_adjacent`]) the reader
/// sees the written bytes unchanged and in order.
pub proof fn lemma_round_trip_segment(
    sender: ConnState,
    receiver: ConnState,
    seg: SegInView,
    seq: u32,
    limit: int,
    now: u64,
    now2: u64,
)
    requires
        sender.wf_core(),
        !(sender.closed_at matches Some(f) && seq == seq_add(f, 1)),
        receiver.wf(),
        receiver.state.spec_accepts_data(),
        seg.seq == spec_write_segment(sender, seq, limit, now).1.seq,
        seg.payload == spec_write_segment(sender, seq, limit, now).1.payload,
        0 < seg.payload.len() <= MAX_SEGMENT_PAYLOAD,
        receiver.receive.nxt == seq,
    ensures
        ({
            let off = seq_sub(seq, sender.send.una);
            let n = seg.payload.len() as int;
            &&& seg.payload == sender.unacked.subrange(off, off + n)
            &&& spec_deliver(receiver, seg, now2).0.ingress == receiver.ingress
                + sender.unacked.subrange(off, off + n)
        }),
{
    let off = seq_sub(seq, sender.send.una);
    let out = spec_write_segment(sender, seq, limit, now).1;
    assert(seg.payload == sender.unacked.subrange(off, off + seg.payload.len()));
    assert(seq_sub(receiver.receive.nxt, seg.seq) == 0);
    assert(spec_deliver(receiver, seg, now2).0.ingress == receiver.ingress + seg.payload.skip(0));
    assert(seg.payload.skip(0) =~= seg.payload);
}

/// Law: a timer tick that transmits new data picks up exactly where the
/// in-flight bytes end. With no retransmission due and room in the window,
/// the emitted segment starts at `send.nxt` and carries the queued bytes
/// just past the ones already sent — the sender walks the written stream
/// in order, without skipping and without repeating.
pub proof fn lemma_timer_emits_next_bytes(c: ConnState, now: u64)
    requires
        c.wf(),
        !(c.state is FinWait2 || c.state is TimeWait),
        c.closed_at is None,
        !(match first_at_or_after(c.send_times, c.send.una) {
            Some(e) => sat_sub(now, e.1) > 1_000_000 && 2 * sat_sub(now, e.1) > 3 * c.srtt,
            None => false,
        }),
        seq_sub(c.send.nxt, c.send.una) < c.send.wnd,
        c.unacked.len() > seq_sub(c.send.nxt, c.send.una),
    ensures
        ({
            let cnt = seq_sub(c.send.nxt, c.send.una);
            let k = vstd::math::min(
                vstd::math::min(c.unacked.len() - cnt, c.send.wnd - cnt),
                MSS_BUDGET as int,
            );
            let out = spec_on_timer(c, now).1;
            &&& out matches Some(o)
            &&& out.unwrap().seq == c.send.nxt
            &&& out.unwrap().payload == c.unacked.subrange(cnt, cnt + k)
        }),
{
}

/// Law: a retransmission resends the oldest unacknowledged bytes. When the
/// wait exceeds both one second and one and a half round trips, the emitted
/// segment starts at `send.una` and carries the front of the queue, up to
/// the window and the segment budget.
pub proof fn lemma_retransmit_resends_oldest(c: ConnState, now: u64)
    requires
        c.wf(),
        !(c.state is FinWait2 || c.state is TimeWait),
        match first_at_or_after(c.send_times, c.send.una) {
            Some(e) => sat_sub(now, e.1) > 1_000_000 && 2 * sat_sub(now, e.1) > 3 * c.srtt,
            None => false,
        },
        !(c.closed_at matches Some(f) && c.send.una == seq_add(f, 1)),
    ensures
        ({
            let resend = vstd::math::min(c.unacked.len() as int, c.send.wnd as int);
            let k = vstd::math::min(resend, MSS_BUDGET as int);
            let out = spec_on_timer(c, now).1;
            &&& out matches Some(o)
            &&& out.unwrap().seq == c.send.una
            &&& out.unwrap().payload == c.unacked.subrange(0, k)
            &&& out.unwrap().fin == (resend < c.send.wnd && c.closed_at is Some)
        }),
{
}

/// Law: the accept backlog is first-in first-out. Dispatching queues each
/// fresh connection at the back of its port's backlog and an accept takes
/// from the front, so two handshakes queued in order are handed out in
/// that same order.
pub proof fn lemma_backlog_fifo(
    backlog: Seq<crate::connection::Tcp4Tuple>,
    q1: crate::connection::Tcp4Tuple,
    q2: crate::connection::Tcp4Tuple,
)
    ensures
        ({
            let b = backlog.push(q1).push(q2);
            &&& b.len() == backlog.len() + 2
            &&& backlog.len() == 0 ==> b[0] == q1 && b.skip(1)[0] == q2
        }),
{
    let b = backlog.push(q1).push(q2);
    if backlog.len() == 0 {
        assert(b[0] == q1);
        assert(b.skip(1)[0] == b[1]);
    }
}

} // verus!
