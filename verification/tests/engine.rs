//! Connection-level scenarios: handshake, data delivery, windowing,
//! acknowledgment bookkeeping, close handshake and retransmission timing.

use tcprs::connection::Connection;
use tcprs::segment::TcpSegment;
use tcprs::state::State;
use tcprs::TcpError;

const PEER_IP: u32 = u32::from_be_bytes([10, 0, 0, 2]);
const LOCAL_IP: u32 = u32::from_be_bytes([10, 0, 0, 1]);
const PEER_PORT: u16 = 7777;
const LOCAL_PORT: u16 = 6000;

fn seg(seq: u32, ack_no: u32, wnd: u16, syn: bool, ack: bool, fin: bool, payload: &[u8]) -> TcpSegment {
    TcpSegment {
        src_ip: PEER_IP,
        src_port: PEER_PORT,
        dst_ip: LOCAL_IP,
        dst_port: LOCAL_PORT,
        seq,
        ack_no,
        wnd,
        urgent_ptr: 0,
        syn,
        ack,
        fin,
        rst: false,
        payload: payload.to_vec(),
    }
}

/// Three-way handshake: SYN in, SYN+ACK out, ACK in, Established.
#[test]
fn three_way_handshake() {
    let syn = seg(1000, 0, 4096, true, false, false, b"");
    let (mut conn, syn_ack) = Connection::accept(&syn, 0).unwrap();
    assert!(matches!(conn.state, State::SynReceived));
    assert_eq!(syn_ack.seq, 0);
    assert_eq!(syn_ack.ack_no, 1001);
    assert_eq!(syn_ack.wnd, 10);
    assert!(syn_ack.syn && syn_ack.ack && !syn_ack.fin);
    assert!(syn_ack.payload.is_empty());
    // The reply template carries the addresses swapped.
    assert_eq!(syn_ack.src_ip, LOCAL_IP);
    assert_eq!(syn_ack.dst_ip, PEER_IP);
    assert_eq!(syn_ack.src_port, LOCAL_PORT);
    assert_eq!(syn_ack.dst_port, PEER_PORT);

    let ack = seg(1001, 1, 4096, false, true, false, b"");
    let out = conn.on_packet(&ack, 1);
    assert!(matches!(conn.state, State::Established));
    assert_eq!(conn.send.una, 1);
    assert_eq!(conn.receive.nxt, 1001);
    assert!(out.replies.is_empty());
    assert!(out.fault.is_none());
}

/// Data delivery: the payload lands in ingress, the expected sequence
/// number moves past it, and a bare acknowledgment answers.
#[test]
fn data_delivery() {
    let syn = seg(1000, 0, 4096, true, false, false, b"");
    let (mut conn, _) = Connection::accept(&syn, 0).unwrap();
    conn.on_packet(&seg(1001, 1, 4096, false, true, false, b""), 1);

    let out = conn.on_packet(&seg(1001, 1, 4096, false, true, false, b"hi"), 2);
    let received: Vec<u8> = conn.ingress.iter().copied().collect();
    assert_eq!(received, b"hi");
    assert_eq!(conn.receive.nxt, 1003);
    assert_eq!(out.replies.len(), 1);
    assert_eq!(out.replies[0].ack_no, 1003);
    assert!(out.replies[0].payload.is_empty());
    assert!(out.available.read);
    assert!(out.fault.is_none());
}

/// An out-of-window segment is answered with a bare acknowledgment and
/// leaves the ingress queue alone.
#[test]
fn out_of_window_segment() {
    // A peer window of 10 keeps the receive window small.
    let syn = seg(1000, 0, 10, true, false, false, b"");
    let (mut conn, _) = Connection::accept(&syn, 0).unwrap();
    conn.on_packet(&seg(1001, 1, 10, false, true, false, b""), 1);
    conn.on_packet(&seg(1001, 1, 10, false, true, false, b"hi"), 2);
    assert_eq!(conn.receive.nxt, 1003);

    let before: Vec<u8> = conn.ingress.iter().copied().collect();
    let out = conn.on_packet(&seg(2000, 1, 10, false, true, false, b"x"), 3);
    let after: Vec<u8> = conn.ingress.iter().copied().collect();
    assert_eq!(before, after);
    assert_eq!(out.replies.len(), 1);
    assert_eq!(out.replies[0].seq, 1);
    assert_eq!(out.replies[0].ack_no, 1003);
    assert!(out.replies[0].payload.is_empty());
    assert!(out.fault.is_none());
}

/// Writing data, emitting it on a tick, and getting it acknowledged drains
/// the retransmission queue and records one round-trip sample.
#[test]
fn write_then_ack_drains_unacked() {
    let syn = seg(1000, 0, 4096, true, false, false, b"");
    let (mut conn, _) = Connection::accept(&syn, 0).unwrap();
    conn.on_packet(&seg(1001, 1, 4096, false, true, false, b""), 1);

    conn.unacked.extend(b"hello".iter().copied());
    let emitted = conn.on_timer(1_000_000).expect("new data should go out");
    assert_eq!(emitted.seq, 1);
    assert_eq!(emitted.payload, b"hello".to_vec());
    assert_eq!(conn.send.nxt, 6);

    let out = conn.on_packet(&seg(1001, 6, 4096, false, true, false, b""), 1_500_000);
    assert!(out.fault.is_none());
    assert_eq!(conn.send.una, 6);
    assert!(conn.unacked.is_empty());
    // One sample: srtt = (4 * 60s + 0.5s) / 5 in microseconds.
    assert_eq!(conn.timers.srtt, (4 * 60_000_000 + 500_000) / 5);
    // The handshake's record at sequence zero is below the window and stays.
    assert_eq!(conn.timers.send_times.len(), 1);
    assert_eq!(conn.timers.send_times[0].0, 0);
}

/// Active close: FIN out on a tick, the peer's acknowledgment reaches
/// FinWait2, the peer's FIN reaches TimeWait.
#[test]
fn active_close_handshake() {
    let syn = seg(1000, 0, 10, true, false, false, b"");
    let (mut conn, _) = Connection::accept(&syn, 0).unwrap();
    conn.on_packet(&seg(1001, 1, 10, false, true, false, b""), 1);
    conn.on_packet(&seg(1001, 1, 10, false, true, false, b"hi"), 2);

    conn.close().unwrap();
    assert!(matches!(conn.state, State::FinWait1));

    let fin = conn.on_timer(3).expect("the FIN should go out");
    assert!(fin.fin);
    assert_eq!(fin.seq, 1);
    assert!(fin.payload.is_empty());
    assert_eq!(conn.closed_at, Some(1));
    assert_eq!(conn.send.nxt, 2);

    let out = conn.on_packet(&seg(1003, 2, 10, false, true, false, b""), 4);
    assert!(out.fault.is_none());
    assert!(matches!(conn.state, State::FinWait2));

    let out = conn.on_packet(&seg(1003, 2, 10, false, true, true, b""), 5);
    assert!(out.fault.is_none());
    assert!(matches!(conn.state, State::TimeWait));
    assert_eq!(conn.receive.nxt, 1004);
    assert_eq!(out.replies.len(), 1);
    assert_eq!(out.replies[0].ack_no, 1004);
    assert!(out.available.read);
}

/// The retransmission guard: a segment is resent only after more than one
/// second and more than one and a half times the smoothed round trip.
#[test]
fn retransmit_guard_boundaries() {
    let syn = seg(1000, 0, 4096, true, false, false, b"");
    let (mut conn, _) = Connection::accept(&syn, 0).unwrap();
    conn.on_packet(&seg(1001, 1, 4096, false, true, false, b""), 1);

    conn.unacked.extend(b"abc".iter().copied());
    let first = conn.on_timer(1_000_000).expect("data goes out");
    assert_eq!(first.payload, b"abc".to_vec());

    // With the initial one-minute estimate, eighty seconds of waiting do
    // not pass the one-and-a-half-srtt guard (the bar is ninety seconds).
    assert!(conn.on_timer(81_000_000).is_none());

    // Ninety-five seconds do.
    let resent = conn.on_timer(96_000_000).expect("retransmission");
    assert_eq!(resent.seq, 1);
    assert_eq!(resent.payload, b"abc".to_vec());
}

/// Once a fast acknowledgment has pulled the estimate down, the guard sits
/// at the one-second floor.
#[test]
fn retransmit_after_fast_ack() {
    let syn = seg(1000, 0, 4096, true, false, false, b"");
    let (mut conn, _) = Connection::accept(&syn, 0).unwrap();
    conn.on_packet(&seg(1001, 1, 4096, false, true, false, b""), 1);

    conn.timers.srtt = 400_000; // a fast link: 0.4 s
    conn.unacked.extend(b"abc".iter().copied());
    conn.on_timer(1_000_000).expect("data goes out");

    // 0.9 s of waiting fails the one-second floor.
    assert!(conn.on_timer(1_900_000).is_none());
    // 1.5 s passes both bars (1 s, and 0.6 s = 1.5 * srtt).
    let resent = conn.on_timer(2_500_000).expect("retransmission");
    assert_eq!(resent.payload, b"abc".to_vec());
}

/// A FIN in a state without passive-close support is reported as a fault,
/// not processed.
#[test]
fn fin_in_established_is_unsupported() {
    let syn = seg(1000, 0, 4096, true, false, false, b"");
    let (mut conn, _) = Connection::accept(&syn, 0).unwrap();
    conn.on_packet(&seg(1001, 1, 4096, false, true, false, b""), 1);

    let out = conn.on_packet(&seg(1001, 1, 4096, false, true, true, b""), 2);
    assert_eq!(out.fault, Some(TcpError::UnsupportedSegment));
    assert!(matches!(conn.state, State::Established));
}

/// A first segment without SYN creates no connection.
#[test]
fn accept_requires_syn() {
    let not_syn = seg(1000, 0, 4096, false, true, false, b"");
    match Connection::accept(&not_syn, 0) {
        Err(TcpError::UnexpectedSegment) => {}
        other => panic!("expected UnexpectedSegment, got {:?}", other.map(|_| ())),
    }
}

/// A partially retransmitted segment delivers only its unseen suffix.
#[test]
fn overlapping_segment_delivers_suffix() {
    let syn = seg(1000, 0, 4096, true, false, false, b"");
    let (mut conn, _) = Connection::accept(&syn, 0).unwrap();
    conn.on_packet(&seg(1001, 1, 4096, false, true, false, b""), 1);
    conn.on_packet(&seg(1001, 1, 4096, false, true, false, b"hi"), 2);
    assert_eq!(conn.receive.nxt, 1003);

    // The peer repeats the two known bytes and adds two new ones.
    let out = conn.on_packet(&seg(1001, 1, 4096, false, true, false, b"hiXY"), 3);
    assert!(out.fault.is_none());
    let received: Vec<u8> = conn.ingress.iter().copied().collect();
    assert_eq!(received, b"hiXY");
    assert_eq!(conn.receive.nxt, 1005);
}

/// The sequence spaces work across the 2^32 wrap: a handshake whose
/// initial receive number sits at the top of the ring still delivers data
/// in order.
#[test]
fn handshake_across_sequence_wrap() {
    let irs = u32::MAX - 1;
    let syn = seg(irs, 0, 4096, true, false, false, b"");
    let (mut conn, syn_ack) = Connection::accept(&syn, 0).unwrap();
    assert_eq!(syn_ack.ack_no, irs.wrapping_add(1)); // u32::MAX
    assert_eq!(conn.receive.nxt, u32::MAX);

    conn.on_packet(&seg(u32::MAX, 1, 4096, false, true, false, b""), 1);
    assert!(matches!(conn.state, State::Established));

    // Four bytes starting at u32::MAX wrap the ring.
    let out = conn.on_packet(&seg(u32::MAX, 1, 4096, false, true, false, b"wrap"), 2);
    assert!(out.fault.is_none());
    let received: Vec<u8> = conn.ingress.iter().copied().collect();
    assert_eq!(received, b"wrap");
    assert_eq!(conn.receive.nxt, 3); // u32::MAX + 4, wrapped
}

/// With a zero receive window only a bare segment at exactly the expected
/// number is acceptable.
#[test]
fn zero_window_acceptability() {
    let syn = seg(1000, 0, 0, true, false, false, b"");
    let (mut conn, _) = Connection::accept(&syn, 0).unwrap();
    assert_eq!(conn.receive.wnd, 0);
    conn.on_packet(&seg(1001, 1, 0, false, true, false, b""), 1);
    assert!(matches!(conn.state, State::Established));

    // A data segment is never acceptable against a zero window: the
    // endpoint answers with a bare acknowledgment and takes nothing.
    let out = conn.on_packet(&seg(1001, 1, 0, false, true, false, b"x"), 2);
    assert!(conn.ingress.is_empty());
    assert_eq!(out.replies.len(), 1);
    assert_eq!(out.replies[0].ack_no, 1001);

    // A bare segment off the expected number is unacceptable too.
    let out = conn.on_packet(&seg(1002, 1, 0, false, true, false, b""), 3);
    assert_eq!(out.replies.len(), 1);
    assert!(out.replies[0].payload.is_empty());
}

/// A timed-out FIN is announced again by the retransmission path.
#[test]
fn fin_is_retransmitted() {
    let syn = seg(1000, 0, 10, true, false, false, b"");
    let (mut conn, _) = Connection::accept(&syn, 0).unwrap();
    conn.on_packet(&seg(1001, 1, 10, false, true, false, b""), 1);
    conn.close().unwrap();

    let fin = conn.on_timer(1_000_000).expect("the FIN goes out");
    assert!(fin.fin);
    assert_eq!(conn.closed_at, Some(1));

    // No acknowledgment arrives; after the guard the FIN goes out again,
    // from the left edge, with the recorded sequence number unchanged.
    let again = conn.on_timer(120_000_000).expect("retransmission");
    assert!(again.fin);
    assert_eq!(again.seq, 1);
    assert_eq!(conn.closed_at, Some(1));
}

/// The send-space edges stay within one half turn of the ring through a
/// whole exchange: `una - 1` is strictly earlier than `nxt` after every
/// transition.
#[test]
fn send_edges_stay_within_half_turn() {
    let check = |conn: &Connection| {
        assert!(tcprs::seqnum::wrapping_lt(conn.send.una.wrapping_sub(1), conn.send.nxt));
    };
    let syn = seg(1000, 0, 4096, true, false, false, b"");
    let (mut conn, _) = Connection::accept(&syn, 0).unwrap();
    check(&conn);
    conn.on_packet(&seg(1001, 1, 4096, false, true, false, b""), 1);
    check(&conn);
    conn.unacked.extend(b"0123456789abcdef".iter().copied());
    conn.on_timer(1_000_000);
    check(&conn);
    conn.on_packet(&seg(1001, 11, 4096, false, true, false, b""), 1_500_000);
    check(&conn);
    conn.close().unwrap();
    conn.on_timer(2_000_000);
    check(&conn);
}

/// Close in TimeWait refuses with NotConnected.
#[test]
fn close_in_time_wait_refuses() {
    let syn = seg(1000, 0, 10, true, false, false, b"");
    let (mut conn, _) = Connection::accept(&syn, 0).unwrap();
    conn.on_packet(&seg(1001, 1, 10, false, true, false, b""), 1);
    conn.close().unwrap();
    conn.on_timer(2);
    conn.on_packet(&seg(1001, 2, 10, false, true, false, b""), 3);
    assert!(matches!(conn.state, State::FinWait2));
    conn.on_packet(&seg(1001, 2, 10, false, true, true, b""), 4);
    assert!(matches!(conn.state, State::TimeWait));
    assert_eq!(conn.close(), Err(TcpError::NotConnected));
}
