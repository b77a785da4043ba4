//! The codec boundary: IPv4 and TCP header parsing and serialization.
//!
//! The wire formats are handled by the `etherparse` crate; each call into it
//! sits behind one trusted function here. What a parse returns, and what
//! bytes a serialization produces, are functions of the inputs alone; the
//! uninterpreted functions `ipv4_parse`, `tcp_parse` and `frame_bytes` name
//! those results, and every contract upstream speaks in terms of them.

use vstd::prelude::*;
use vstd::slice::slice_to_vec;

use etherparse::{IpNumber, Ipv4Header, Ipv4HeaderSlice, TcpHeader, TcpHeaderSlice};

use crate::segment::{SegmentOut, TcpSegment};

verus! {

/// Protocol number of TCP in an IPv4 header (RFC 791).
pub const IP_PROTO_TCP: u8 = 6;

/// Fixed length of the IPv4 and TCP headers this endpoint emits: neither
/// carries options.
pub const EMITTED_HEADERS_LEN: usize = 40;

/// Largest payload the serializer accepts: with both emitted headers the
/// total must fit the 16-bit IPv4 length field.
pub const MAX_ENCODED_PAYLOAD: usize = 65495;

/// What an IPv4 header parse yields: the addresses, the protocol of the
/// carried data, and how many bytes the header (with options) occupies.
#[derive(Debug, Clone, Copy, PartialEq, Eq, Structural)]
pub struct Ipv4Info {
    pub src_ip: u32,
    pub dst_ip: u32,
    pub protocol: u8,
    pub header_len: usize,
}

/// What a TCP header parse yields.
#[derive(Debug, Clone, Copy, PartialEq, Eq, Structural)]
pub struct TcpInfo {
    pub src_port: u16,
    pub dst_port: u16,
    pub seq: u32,
    pub ack_no: u32,
    pub wnd: u16,
    pub urgent_ptr: u16,
    pub syn: bool,
    pub ack: bool,
    pub fin: bool,
    pub rst: bool,
    pub header_len: usize,
}

/// The result of parsing `b` as an IPv4 header, `None` when `b` does not
/// start with a valid one.
pub uninterp spec fn ipv4_parse(b: Seq<u8>) -> Option<Ipv4Info>;

/// The result of parsing `b` as a TCP header, `None` when `b` does not start
/// with a valid one.
pub uninterp spec fn tcp_parse(b: Seq<u8>) -> Option<TcpInfo>;

/// The serialized IPv4+TCP frame for the given header fields and payload,
/// checksummed over the IPv4 pseudo-header.
pub uninterp spec fn frame_bytes(
    src_ip: u32,
    dst_ip: u32,
    ttl: u8,
    src_port: u16,
    dst_port: u16,
    seq: u32,
    ack_no: u32,
    wnd: u16,
    syn: bool,
    ack: bool,
    fin: bool,
    rst: bool,
    payload: Seq<u8>,
) -> Seq<u8>;

/// Relies on `etherparse::Ipv4HeaderSlice::from_slice`: the result is a
/// function of the bytes alone, and a parsed header is at least 20 bytes
/// long and never longer than the input. The `protocol`, `source` and
/// `destination` accessors of the validated slice read fixed header fields.
#[verifier::external_body]
fn parse_ipv4(buf: &[u8]) -> (r: Option<Ipv4Info>)
    ensures
        r == ipv4_parse(buf@),
        r matches Some(info) ==> 20 <= info.header_len <= buf@.len(),
{
    let ip = Ipv4HeaderSlice::from_slice(buf).ok()?;
    Some(Ipv4Info {
        src_ip: u32::from_be_bytes(ip.source()),
        dst_ip: u32::from_be_bytes(ip.destination()),
        protocol: ip.protocol().0,
        header_len: ip.slice().len(),
    })
}

/// Relies on `etherparse::TcpHeaderSlice::from_slice`: the result is a
/// function of the bytes alone, and a parsed header is at least 20 bytes
/// long and never longer than the input. The accessors of the validated
/// slice read fixed header fields and flag bits.
#[verifier::external_body]
fn parse_tcp(buf: &[u8]) -> (r: Option<TcpInfo>)
    ensures
        r == tcp_parse(buf@),
        r matches Some(info) ==> 20 <= info.header_len <= buf@.len(),
{
    let t = TcpHeaderSlice::from_slice(buf).ok()?;
    Some(TcpInfo {
        src_port: t.source_port(), dst_port: t.destination_port(),
        seq: t.sequence_number(), ack_no: t.acknowledgment_number(),
        wnd: t.window_size(), urgent_ptr: t.urgent_pointer(),
        syn: t.syn(), ack: t.ack(), fin: t.fin(), rst: t.rst(),
        header_len: t.slice().len(),
    })
}

/// Relies on `etherparse::TcpHeader::new`, `etherparse::Ipv4Header::new`,
/// `TcpHeader::calc_checksum_ipv4` and the two `write` methods: for a
/// payload within `MAX_ENCODED_PAYLOAD` none of them fails, the emitted
/// headers carry no options and so take 20 bytes each (`Ipv4Header::write`
/// fills in the IPv4 header checksum itself), and the frame is a function
/// of the fields and payload alone.
#[verifier::external_body]
fn encode_ipv4_tcp(seg: &SegmentOut) -> (r: Vec<u8>)
    requires
        seg.payload@.len() <= MAX_ENCODED_PAYLOAD,
    ensures
        r@ == frame_bytes(
            seg.src_ip,
            seg.dst_ip,
            seg.ttl,
            seg.src_port,
            seg.dst_port,
            seg.seq,
            seg.ack_no,
            seg.wnd,
            seg.syn,
            seg.ack,
            seg.fin,
            seg.rst,
            seg.payload@,
        ),
        r@.len() == EMITTED_HEADERS_LEN + seg.payload@.len(),
{
    let p = &seg.payload;
    let mut t = TcpHeader::new(seg.src_port, seg.dst_port, seg.seq, seg.wnd);
    t.acknowledgment_number = seg.ack_no;
    (t.syn, t.ack, t.fin, t.rst) = (seg.syn, seg.ack, seg.fin, seg.rst);
    let ip = Ipv4Header::new((t.header_len() + p.len()) as u16, seg.ttl,
        IpNumber::TCP, seg.src_ip.to_be_bytes(), seg.dst_ip.to_be_bytes()).unwrap();
    t.checksum = t.calc_checksum_ipv4(&ip, p).unwrap();
    let mut frame: Vec<u8> = Vec::new();
    ip.write(&mut frame).unwrap();
    t.write(&mut frame).unwrap();
    frame.extend_from_slice(p);
    frame
}

impl SegmentOut {
    /// The wire frame for this segment, or `None` when the payload is too
    /// large for the 16-bit IPv4 length field.
    pub fn to_frame(&self) -> (r: Option<Vec<u8>>)
        ensures
            self.payload@.len() <= MAX_ENCODED_PAYLOAD ==> (r matches Some(f) && f@ == frame_bytes(
                self.src_ip,
                self.dst_ip,
                self.ttl,
                self.src_port,
                self.dst_port,
                self.seq,
                self.ack_no,
                self.wnd,
                self.syn,
                self.ack,
                self.fin,
                self.rst,
                self.payload@,
            ) && f@.len() == EMITTED_HEADERS_LEN + self.payload@.len()),
            self.payload@.len() > MAX_ENCODED_PAYLOAD ==> r is None,
    {
        if self.payload.len() <= MAX_ENCODED_PAYLOAD {
            Some(encode_ipv4_tcp(self))
        } else {
            None
        }
    }
}

/// Parse one received frame into a TCP segment: an IPv4 version check, the
/// IPv4 header, the protocol check, the TCP header, and the payload bytes
/// after both headers.
pub fn parse_frame(buf: &[u8]) -> (r: Option<TcpSegment>)
    ensures
        match r {
            Some(seg) => {
                &&& buf@.len() > 0 && buf@[0] >> 4 == 4
                &&& ipv4_parse(buf@) matches Some(ip)
                &&& ipv4_parse(buf@).unwrap().protocol == IP_PROTO_TCP
                &&& tcp_parse(buf@.skip(ipv4_parse(buf@).unwrap().header_len as int)) matches Some(
                    tcp,
                )
                &&& {
                    let ip = ipv4_parse(buf@).unwrap();
                    let tcp = tcp_parse(buf@.skip(ip.header_len as int)).unwrap();
                    &&& seg.src_ip == ip.src_ip
                    &&& seg.dst_ip == ip.dst_ip
                    &&& seg.src_port == tcp.src_port
                    &&& seg.dst_port == tcp.dst_port
                    &&& seg.seq == tcp.seq
                    &&& seg.ack_no == tcp.ack_no
                    &&& seg.wnd == tcp.wnd
                    &&& seg.urgent_ptr == tcp.urgent_ptr
                    &&& seg.syn == tcp.syn
                    &&& seg.ack == tcp.ack
                    &&& seg.fin == tcp.fin
                    &&& seg.rst == tcp.rst
                    &&& seg.payload@ == buf@.skip(ip.header_len + tcp.header_len)
                    &&& seg.payload@.len() <= buf@.len()
                }
            },
            None => {
                ||| buf@.len() == 0
                ||| buf@[0] >> 4 != 4
                ||| ipv4_parse(buf@) is None
                ||| ipv4_parse(buf@).unwrap().protocol != IP_PROTO_TCP
                ||| tcp_parse(buf@.skip(ipv4_parse(buf@).unwrap().header_len as int)) is None
            },
        },
{
    if buf.len() == 0 {
        return None;
    }
    if buf[0] >> 4 != 4 {
        return None;
    }
    let ip = match parse_ipv4(buf) {
        Some(ip) => ip,
        None => {
            return None;
        },
    };
    if ip.protocol != IP_PROTO_TCP {
        return None;
    }
    let tcp_raw: &[u8] = &buf[ip.header_len..buf.len()];
    let tcp = match parse_tcp(tcp_raw) {
        Some(tcp) => tcp,
        None => {
            return None;
        },
    };
    let data_off = ip.header_len + tcp.header_len;
    let payload: Vec<u8> = slice_to_vec(&buf[data_off..buf.len()]);
    proof {
        assert(buf@.subrange(ip.header_len as int, buf@.len() as int) == buf@.skip(
            ip.header_len as int,
        ));
        assert(buf@.subrange(data_off as int, buf@.len() as int) =~= buf@.skip(
            ip.header_len as int,
        ).skip(tcp.header_len as int));
        assert(buf@.skip(ip.header_len as int).skip(tcp.header_len as int) =~= buf@.skip(
            ip.header_len + tcp.header_len,
        ));
    }
    Some(
        TcpSegment {
            src_ip: ip.src_ip,
            src_port: tcp.src_port,
            dst_ip: ip.dst_ip,
            dst_port: tcp.dst_port,
            seq: tcp.seq,
            ack_no: tcp.ack_no,
            wnd: tcp.wnd,
            urgent_ptr: tcp.urgent_ptr,
            syn: tcp.syn,
            ack: tcp.ack,
            fin: tcp.fin,
            rst: tcp.rst,
            payload,
        },
    )
}

} // verus!
