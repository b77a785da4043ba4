//! Manager-level behavior: binding, accept order, stream reads and writes,
//! and the error taxonomy of the blocking API.

use tcprs::connection::{Tcp4Tuple, SEND_QUEUE_SIZE};
use tcprs::manager::{ConnectionManager, ReadResult};
use tcprs::segment::TcpSegment;
use tcprs::TcpError;

const LOCAL_IP: u32 = u32::from_be_bytes([10, 0, 0, 1]);
const LOCAL_PORT: u16 = 6000;

fn seg_from(
    peer_ip: u32,
    peer_port: u16,
    seq: u32,
    ack_no: u32,
    syn: bool,
    ack: bool,
    payload: &[u8],
) -> TcpSegment {
    TcpSegment {
        src_ip: peer_ip,
        src_port: peer_port,
        dst_ip: LOCAL_IP,
        dst_port: LOCAL_PORT,
        seq,
        ack_no,
        wnd: 4096,
        urgent_ptr: 0,
        syn,
        ack,
        fin: false,
        rst: false,
        payload: payload.to_vec(),
    }
}

fn peer(n: u8) -> u32 {
    u32::from_be_bytes([10, 0, 0, n])
}

/// Binding a port twice refuses with AddrInUse.
#[test]
fn bind_twice_refuses() {
    let mut mgr = ConnectionManager::new();
    assert!(mgr.bind(LOCAL_PORT).is_ok());
    assert_eq!(mgr.bind(LOCAL_PORT), Err(TcpError::AddrInUse));
    assert!(mgr.bind(LOCAL_PORT + 1).is_ok());
}

/// Accept is first-in first-out: two handshakes queued in order come out
/// in that order.
#[test]
fn accept_is_fifo() {
    let mut mgr = ConnectionManager::new();
    mgr.bind(LOCAL_PORT).unwrap();

    let d1 = mgr.on_segment(&seg_from(peer(2), 40_001, 1000, 0, true, false, b""), 0);
    assert!(d1.wake_pending);
    assert_eq!(d1.replies.len(), 1);
    let d2 = mgr.on_segment(&seg_from(peer(3), 40_002, 2000, 0, true, false, b""), 1);
    assert!(d2.wake_pending);

    let first = mgr.accept_pop(LOCAL_PORT).unwrap().expect("first connection");
    let second = mgr.accept_pop(LOCAL_PORT).unwrap().expect("second connection");
    assert_eq!(
        first,
        Tcp4Tuple { src_ip: peer(2), src_port: 40_001, dst_ip: LOCAL_IP, dst_port: LOCAL_PORT }
    );
    assert_eq!(
        second,
        Tcp4Tuple { src_ip: peer(3), src_port: 40_002, dst_ip: LOCAL_IP, dst_port: LOCAL_PORT }
    );
    assert_eq!(mgr.accept_pop(LOCAL_PORT), Ok(None));
}

/// An accept on a port that is not listening fails with BrokenPipe.
#[test]
fn accept_on_unbound_port_refuses() {
    let mut mgr = ConnectionManager::new();
    assert_eq!(mgr.accept_pop(LOCAL_PORT), Err(TcpError::BrokenPipe));
}

/// A segment for an unknown four-tuple on an unbound port is dropped.
#[test]
fn stray_segment_is_dropped() {
    let mut mgr = ConnectionManager::new();
    let d = mgr.on_segment(&seg_from(peer(2), 40_001, 1000, 0, true, false, b""), 0);
    assert!(d.replies.is_empty());
    assert!(!d.wake_pending && !d.wake_receive);
    assert!(d.fault.is_none());
    assert!(mgr.connections.is_empty());
}

/// A non-SYN first segment is reported as a fault and creates nothing.
#[test]
fn non_syn_first_segment_faults() {
    let mut mgr = ConnectionManager::new();
    mgr.bind(LOCAL_PORT).unwrap();
    let d = mgr.on_segment(&seg_from(peer(2), 40_001, 1000, 0, false, true, b""), 0);
    assert_eq!(d.fault, Some(TcpError::UnexpectedSegment));
    assert!(mgr.connections.is_empty());
}

fn establish(mgr: &mut ConnectionManager, ip: u32, port: u16) -> Tcp4Tuple {
    mgr.on_segment(&seg_from(ip, port, 1000, 0, true, false, b""), 0);
    let quad = mgr.accept_pop(LOCAL_PORT).unwrap().unwrap();
    mgr.on_segment(&seg_from(ip, port, 1001, 1, false, true, b""), 1);
    quad
}

/// Writing N bytes and consuming the emitted segments on the peer side
/// yields the identical byte stream.
#[test]
fn written_bytes_round_trip() {
    let mut mgr = ConnectionManager::new();
    mgr.bind(LOCAL_PORT).unwrap();
    let quad = establish(&mut mgr, peer(2), 40_001);

    let message = b"the quick brown fox";
    assert_eq!(mgr.write_stream(&quad, message), Ok(message.len()));

    // The ten-byte send window lets the first tick emit ten bytes; after
    // the peer acknowledges them, the next tick emits the rest.
    let first = mgr.on_tick(1_000_000);
    assert_eq!(first.len(), 1);
    assert_eq!(first[0].seq, 1);
    assert_eq!(first[0].payload.len(), 10);

    mgr.on_segment(&seg_from(peer(2), 40_001, 1001, 11, false, true, b""), 1_100_000);
    let second = mgr.on_tick(1_200_000);
    assert_eq!(second.len(), 1);
    assert_eq!(second[0].seq, 11);
    assert_eq!(second[0].payload.len(), 9);

    // The peer reassembles in sequence order from the emitted segments.
    let mut stream: Vec<u8> = Vec::new();
    stream.extend_from_slice(&first[0].payload);
    stream.extend_from_slice(&second[0].payload);
    assert_eq!(stream, message.to_vec());
}

/// Reading drains the ingress queue from the front, keeping byte order.
#[test]
fn read_stream_in_order() {
    let mut mgr = ConnectionManager::new();
    mgr.bind(LOCAL_PORT).unwrap();
    let quad = establish(&mut mgr, peer(2), 40_001);

    let d = mgr.on_segment(&seg_from(peer(2), 40_001, 1001, 1, false, true, b"hello world"), 2);
    assert!(d.wake_receive);

    match mgr.read_stream(&quad, 5).unwrap() {
        ReadResult::Data(v) => assert_eq!(v, b"hello".to_vec()),
        other => panic!("expected data, got {:?}", other),
    }
    match mgr.read_stream(&quad, 100).unwrap() {
        ReadResult::Data(v) => assert_eq!(v, b" world".to_vec()),
        other => panic!("expected data, got {:?}", other),
    }
    match mgr.read_stream(&quad, 100).unwrap() {
        ReadResult::WouldWait => {}
        other => panic!("expected a wait, got {:?}", other),
    }
}

/// Stream operations on an unknown four-tuple fail with BrokenPipe.
#[test]
fn stream_operations_on_unknown_quad() {
    let mut mgr = ConnectionManager::new();
    let quad = Tcp4Tuple { src_ip: peer(9), src_port: 1, dst_ip: LOCAL_IP, dst_port: 2 };
    assert_eq!(mgr.read_stream(&quad, 10), Err(TcpError::BrokenPipe));
    assert_eq!(mgr.write_stream(&quad, b"x"), Err(TcpError::BrokenPipe));
    assert_eq!(mgr.flush_stream(&quad), Err(TcpError::BrokenPipe));
    assert_eq!(mgr.shutdown_stream(&quad), Err(TcpError::BrokenPipe));
}

/// The send queue cap: a full queue refuses with WouldBlock, a partial
/// write takes what fits.
#[test]
fn write_respects_send_queue_cap() {
    let mut mgr = ConnectionManager::new();
    mgr.bind(LOCAL_PORT).unwrap();
    let quad = establish(&mut mgr, peer(2), 40_001);

    let big = vec![7u8; SEND_QUEUE_SIZE - 3];
    assert_eq!(mgr.write_stream(&quad, &big), Ok(SEND_QUEUE_SIZE - 3));
    // Only three bytes of room are left.
    assert_eq!(mgr.write_stream(&quad, b"abcdef"), Ok(3));
    // The queue is now full.
    assert_eq!(mgr.write_stream(&quad, b"x"), Err(TcpError::WouldBlock));
}

/// Flush succeeds only with nothing outstanding.
#[test]
fn flush_reports_outstanding_data() {
    let mut mgr = ConnectionManager::new();
    mgr.bind(LOCAL_PORT).unwrap();
    let quad = establish(&mut mgr, peer(2), 40_001);

    assert_eq!(mgr.flush_stream(&quad), Ok(()));
    mgr.write_stream(&quad, b"pending").unwrap();
    assert_eq!(mgr.flush_stream(&quad), Err(TcpError::WouldBlock));
}

/// The full close story through the manager: shutdown, FIN on a tick, the
/// peer's acknowledgment and FIN, and a read that reports end of stream.
#[test]
fn shutdown_and_eof() {
    let mut mgr = ConnectionManager::new();
    mgr.bind(LOCAL_PORT).unwrap();
    let quad = establish(&mut mgr, peer(2), 40_001);

    assert_eq!(mgr.shutdown_stream(&quad), Ok(()));
    let outs = mgr.on_tick(2);
    assert_eq!(outs.len(), 1);
    assert!(outs[0].fin);
    assert_eq!(outs[0].seq, 1);

    // The peer acknowledges the FIN, then sends its own.
    mgr.on_segment(&seg_from(peer(2), 40_001, 1001, 2, false, true, b""), 3);
    let mut fin = seg_from(peer(2), 40_001, 1001, 2, false, true, b"");
    fin.fin = true;
    let d = mgr.on_segment(&fin, 4);
    assert!(d.fault.is_none());
    assert!(d.wake_receive);

    match mgr.read_stream(&quad, 100).unwrap() {
        ReadResult::Eof => {}
        other => panic!("expected end of stream, got {:?}", other),
    }
}

/// Unbinding hands back the queued four-tuples and deregisters the port.
#[test]
fn unbind_returns_backlog() {
    let mut mgr = ConnectionManager::new();
    mgr.bind(LOCAL_PORT).unwrap();
    mgr.on_segment(&seg_from(peer(2), 40_001, 1000, 0, true, false, b""), 0);

    let backlog = mgr.unbind(LOCAL_PORT).expect("the port was bound");
    assert_eq!(backlog.len(), 1);
    assert_eq!(backlog[0].src_ip, peer(2));
    assert!(mgr.unbind(LOCAL_PORT).is_none());
    assert_eq!(mgr.accept_pop(LOCAL_PORT), Err(TcpError::BrokenPipe));
}

/// A timer tick sweeps every connection in table order.
#[test]
fn tick_sweeps_all_connections() {
    let mut mgr = ConnectionManager::new();
    mgr.bind(LOCAL_PORT).unwrap();
    let q1 = establish(&mut mgr, peer(2), 40_001);
    let q2 = establish(&mut mgr, peer(3), 40_002);

    mgr.write_stream(&q1, b"one").unwrap();
    mgr.write_stream(&q2, b"two").unwrap();
    let outs = mgr.on_tick(1_000_000);
    assert_eq!(outs.len(), 2);
    assert_eq!(outs[0].payload, b"one".to_vec());
    assert_eq!(outs[0].dst_ip, peer(2));
    assert_eq!(outs[1].payload, b"two".to_vec());
    assert_eq!(outs[1].dst_ip, peer(3));
}

/// The default manager is the empty table.
#[test]
fn default_manager_is_empty() {
    let mgr = ConnectionManager::default();
    assert!(mgr.connections.is_empty());
    assert!(mgr.pending.is_empty());
    assert!(!mgr.terminate);
}

/// The terminate flag is plain state for the callers.
#[test]
fn terminate_flag() {
    let mut mgr = ConnectionManager::new();
    assert!(!mgr.terminate);
    mgr.set_terminate();
    assert!(mgr.terminate);
}
