//! Unit-level checks: ring arithmetic, the send-time map, states, and the
//! error texts.

use tcprs::manager::TcpState;
use tcprs::segment::TcpSegment;
use tcprs::seqnum::{is_between_wrapped, wrapping_lt};
use tcprs::state::{Available, State};
use tcprs::timers::Timers;
use tcprs::TcpError;

/// The half-ring order at its boundaries.
#[test]
fn wrapping_lt_boundaries() {
    assert!(wrapping_lt(0, 1));
    assert!(wrapping_lt(u32::MAX, 0));
    assert!(!wrapping_lt(1, 0));
    assert!(!wrapping_lt(5, 5));
    // A point just under half the ring away is still later.
    assert!(wrapping_lt(0, 0x7FFF_FFFF));
    // The antipodal point and beyond are not later.
    assert!(!wrapping_lt(0, 0x8000_0000));
    assert!(!wrapping_lt(0, 0x8000_0001));
}

/// The strict interval: endpoints are excluded, and a point is never
/// between itself and itself.
#[test]
fn between_wrapped_examples() {
    assert!(is_between_wrapped(10, 11, 20));
    assert!(!is_between_wrapped(10, 10, 20));
    assert!(!is_between_wrapped(10, 20, 20));
    assert!(!is_between_wrapped(7, 7, 7));
    // Wrapping around zero.
    assert!(is_between_wrapped(u32::MAX - 1, u32::MAX, 3));
    assert!(is_between_wrapped(u32::MAX - 1, 1, 3));
}

/// Recording sends keeps the map sorted and overwrites per key; the first
/// unacknowledged send is found in plain key order.
#[test]
fn timers_record_and_lookup() {
    let mut t = Timers::new();
    assert_eq!(t.srtt, 60_000_000);
    t.record_send(10, 100);
    t.record_send(5, 200);
    t.record_send(20, 300);
    t.record_send(10, 400); // overwrite
    let keys: Vec<u32> = t.send_times.iter().map(|e| e.0).collect();
    assert_eq!(keys, vec![5, 10, 20]);
    assert_eq!(t.first_unacked_send(6), Some(400));
    assert_eq!(t.first_unacked_send(21), None);
    assert_eq!(t.first_unacked_send(0), Some(200));
}

/// Purging acknowledged entries samples each settled round trip, oldest
/// key first, with weight four fifths on the old estimate.
#[test]
fn timers_purge_samples_in_order() {
    let mut t = Timers::new();
    t.record_send(1, 1_000_000);
    t.record_send(6, 2_000_000);
    t.record_send(11, 3_000_000);
    // The advance from 1 to 11 settles keys 1 and 6 but not 11.
    t.purge_acked(1, 11, 4_000_000);
    let keys: Vec<u32> = t.send_times.iter().map(|e| e.0).collect();
    assert_eq!(keys, vec![11]);
    // First sample: rtt 3s over the initial minute; second: rtt 2s.
    let s1 = (4u64 * 60_000_000 + 3_000_000) / 5;
    let s2 = (4u64 * s1 + 2_000_000) / 5;
    assert_eq!(t.srtt, s2);
}

/// Only `Established` counts as synchronized here.
#[test]
fn state_is_sync() {
    assert!(State::Established.is_sync());
    assert!(!State::SynReceived.is_sync());
    assert!(!State::FinWait1.is_sync());
    assert!(!State::FinWait2.is_sync());
    assert!(!State::TimeWait.is_sync());
    assert!(matches!(State::default(), State::SynReceived));
}

/// The availability record starts empty.
#[test]
fn available_default_is_empty() {
    let a = Available::default();
    assert!(!a.read && !a.write);
}

/// The observer reduces a segment to its log summary.
#[test]
fn tcp_state_observer() {
    let mut obs = TcpState::default();
    let seg = TcpSegment {
        src_ip: 0x0A00_0002,
        src_port: 40_000,
        dst_ip: 0x0A00_0001,
        dst_port: 6000,
        seq: 1,
        ack_no: 2,
        wnd: 3,
        urgent_ptr: 0,
        syn: false,
        ack: true,
        fin: false,
        rst: false,
        payload: b"abc".to_vec(),
    };
    let (len, quad) = obs.on_packet(&seg);
    assert_eq!(len, 3);
    assert_eq!(quad.src_ip, 0x0A00_0002);
    assert_eq!(quad.src_port, 40_000);
    assert_eq!(quad.dst_ip, 0x0A00_0001);
    assert_eq!(quad.dst_port, 6000);
}

/// Each error names itself.
#[test]
fn error_messages() {
    assert_eq!(TcpError::AddrInUse.message(), "port in use");
    assert_eq!(TcpError::BrokenPipe.message(), "connection closed");
    assert_eq!(TcpError::WouldBlock.message(), "operation would block");
    assert_eq!(TcpError::NotConnected.message(), "already closing");
    assert_eq!(TcpError::UnexpectedSegment.message(), "expected SYN");
    assert_eq!(TcpError::UnsupportedSegment.message(), "unsupported transition");
}
