//! The shared connection table: demultiplexing by four-tuple, listener
//! backlogs per port, and the state steps behind the blocking calls.
//!
//! One manager sits behind the process-wide lock; the packet reader hands it
//! parsed segments, timer ticks drive retransmission, and the API calls
//! (bind, accept, read, write, flush, shutdown) run their decision logic
//! here and leave the waiting to the caller: a result that asks for patience
//! names the condition variable story without owning it.

use vstd::prelude::*;

use crate::connection::{
    spec_accept, spec_close, spec_on_packet, spec_on_timer, ConnState, Connection, SegOutView,
    Tcp4Tuple, MAX_SEGMENT_PAYLOAD, SEND_QUEUE_SIZE,
};
use crate::segment::{SegmentOut, TcpSegment};
use crate::timers::TIME_MAX_MICROS;
use crate::TcpError;

verus! {

broadcast use vstd::std_specs::vec::group_vec_axioms;

/// First index whose key equals `k`, or the length when there is none.
pub open spec fn key_index_of<K, V>(s: Seq<(K, V)>, k: K) -> int
    decreases s.len(),
{
    if s.len() == 0 {
        0
    } else if s[0].0 == k {
        0
    } else {
        1 + key_index_of(s.skip(1), k)
    }
}

/// `key_index_of` is the first matching index.
pub proof fn lemma_key_index_of<K, V>(s: Seq<(K, V)>, k: K)
    ensures
        0 <= key_index_of(s, k) <= s.len(),
        key_index_of(s, k) < s.len() ==> s[key_index_of(s, k)].0 == k,
        forall|m: int| 0 <= m < key_index_of(s, k) ==> (#[trigger] s[m]).0 != k,
    decreases s.len(),
{
    if s.len() > 0 && s[0].0 != k {
        lemma_key_index_of(s.skip(1), k);
        assert forall|m: int| 0 <= m < key_index_of(s, k) implies (#[trigger] s[m]).0 != k by {
            if m > 0 {
                assert(s.skip(1)[m - 1] == s[m]);
            }
        }
        if key_index_of(s, k) < s.len() {
            assert(s.skip(1)[key_index_of(s, k) - 1] == s[key_index_of(s, k)]);
        }
    }
}

/// The four-tuple a segment arrived under: the peer as `src`, the local
/// endpoint as `dst`.
pub open spec fn spec_quad(s: crate::connection::SegInView) -> Tcp4Tuple {
    Tcp4Tuple { src_ip: s.src_ip, src_port: s.src_port, dst_ip: s.dst_ip, dst_port: s.dst_port }
}

/// Segments emitted by one timer sweep over a connection table, in table
/// order.
pub open spec fn spec_tick_outs(s: Seq<(Tcp4Tuple, Connection)>, now: u64) -> Seq<SegOutView>
    decreases s.len(),
{
    if s.len() == 0 {
        Seq::empty()
    } else {
        spec_tick_outs(s.drop_last(), now) + (match spec_on_timer(s.last().1@, now).1 {
            Some(o) => seq![o],
            None => Seq::empty(),
        })
    }
}

/// What handling one segment produced: wire replies, which condition
/// variables deserve a wakeup, and a fault for the log.
#[derive(Debug)]
pub struct SegmentDisposition {
    pub replies: Vec<SegmentOut>,
    pub wake_pending: bool,
    pub wake_receive: bool,
    pub fault: Option<TcpError>,
}

/// What a read attempt found.
#[derive(Debug, PartialEq, Eq)]
pub enum ReadResult {
    /// Bytes drained from the front of the ingress queue.
    Data(Vec<u8>),
    /// The peer closed and everything was consumed: end of stream.
    Eof,
    /// Nothing yet: the caller should wait for the receive wakeup.
    WouldWait,
}

/// A minimal observer of parsed segments, kept from the engine's earliest
/// stage: it reduces a segment to what a diagnostic logger prints — the
/// payload size and the four-tuple. It holds no protocol state.
#[derive(Debug, Default)]
pub struct TcpState {}

impl TcpState {
    /// The log summary for one observed segment: its payload length and
    /// the four-tuple it travelled under.
    pub fn on_packet(&mut self, seg: &TcpSegment) -> (r: (usize, Tcp4Tuple))
        ensures
            r.0 == seg.payload@.len(),
            r.1 == spec_quad(seg@),
    {
        (
            seg.payload.len(),
            Tcp4Tuple {
                src_ip: seg.src_ip,
                src_port: seg.src_port,
                dst_ip: seg.dst_ip,
                dst_port: seg.dst_port,
            },
        )
    }
}

/// The table of live connections and listening ports.
pub struct ConnectionManager {
    /// Connections keyed by four-tuple; keys are unique.
    pub connections: Vec<(Tcp4Tuple, Connection)>,
    /// Listening ports, each with the FIFO backlog of accepted four-tuples
    /// not yet handed to an `accept` caller; ports are unique.
    pub pending: Vec<(u16, Vec<Tcp4Tuple>)>,
    /// The interface is shutting down.
    pub terminate: bool,
}

impl ConnectionManager {
    /// Keys and ports unique; every connection well-formed.
    pub open spec fn wf(self) -> bool {
        &&& forall|i: int, j: int|
            0 <= i < j < self.connections@.len() ==> (#[trigger] self.connections@[i]).0 != (
            #[trigger] self.connections@[j]).0
        &&& forall|i: int, j: int|
            0 <= i < j < self.pending@.len() ==> (#[trigger] self.pending@[i]).0 != (
            #[trigger] self.pending@[j]).0
        &&& forall|i: int|
            0 <= i < self.connections@.len() ==> (#[trigger] self.connections@[i]).1@.wf()
    }

    /// An empty table.
    pub fn new() -> (m: ConnectionManager)
        ensures
            m.wf(),
            m.connections@.len() == 0,
            m.pending@.len() == 0,
            !m.terminate,
    {
        ConnectionManager { connections: Vec::new(), pending: Vec::new(), terminate: false }
    }

    /// Index of the connection for `quad`, if any.
    fn conn_pos(&self, quad: &Tcp4Tuple) -> (r: Option<usize>)
        ensures
            match r {
                Some(i) => i as int == key_index_of(self.connections@, *quad) && i
                    < self.connections@.len(),
                None => key_index_of(self.connections@, *quad) == self.connections@.len(),
            },
    {
        let ghost s = self.connections@;
        let mut i: usize = 0;
        while i < self.connections.len()
            invariant
                0 <= i <= s.len(),
                self.connections@ == s,
                forall|m: int| 0 <= m < i ==> (#[trigger] s[m]).0 != *quad,
            decreases s.len() - i,
        {
            if self.connections[i].0 == *quad {
                proof {
                    lemma_key_index_of(s, *quad);
                    let p = key_index_of(s, *quad);
                    if p < i {
                        assert(s[p].0 != *quad);
                        assert(false);
                    }
                    if i < p {
                        assert(s[i as int].0 != *quad);
                        assert(false);
                    }
                    assert(p == i as int);
                }
                return Some(i);
            }
            i = i + 1;
        }
        proof {
            lemma_key_index_of(s, *quad);
            let p = key_index_of(s, *quad);
            if p < s.len() {
                assert(s[p].0 != *quad);
                assert(false);
            }
        }
        None
    }

    /// Index of the backlog entry for `port`, if the port is listening.
    fn port_pos(&self, port: u16) -> (r: Option<usize>)
        ensures
            match r {
                Some(i) => i as int == key_index_of(self.pending@, port) && i
                    < self.pending@.len(),
                None => key_index_of(self.pending@, port) == self.pending@.len(),
            },
    {
        let ghost s = self.pending@;
        let mut i: usize = 0;
        while i < self.pending.len()
            invariant
                0 <= i <= s.len(),
                self.pending@ == s,
                forall|m: int| 0 <= m < i ==> (#[trigger] s[m]).0 != port,
            decreases s.len() - i,
        {
            if self.pending[i].0 == port {
                proof {
                    lemma_key_index_of(s, port);
                    let p = key_index_of(s, port);
                    if p < i {
                        assert(s[p].0 != port);
                        assert(false);
                    }
                    if i < p {
                        assert(s[i as int].0 != port);
                        assert(false);
                    }
                    assert(p == i as int);
                }
                return Some(i);
            }
            i = i + 1;
        }
        proof {
            lemma_key_index_of(s, port);
            let p = key_index_of(s, port);
            if p < s.len() {
                assert(s[p].0 != port);
                assert(false);
            }
        }
        None
    }

    /// Reserve a port for listening. Fails with `AddrInUse` when it is
    /// already reserved; nothing changes then.
    pub fn bind(&mut self, port: u16) -> (r: Result<(), TcpError>)
        requires
            old(self).wf(),
        ensures
            final(self).wf(),
            final(self).connections@ == old(self).connections@,
            final(self).terminate == old(self).terminate,
            key_index_of(old(self).pending@, port) < old(self).pending@.len() ==> {
                &&& r == Err::<(), TcpError>(TcpError::AddrInUse)
                &&& final(self).pending@ == old(self).pending@
            },
            key_index_of(old(self).pending@, port) >= old(self).pending@.len() ==> {
                &&& r == Ok::<(), TcpError>(())
                &&& final(self).pending@.len() == old(self).pending@.len() + 1
                &&& final(self).pending@.last().0 == port
                &&& final(self).pending@.last().1@ == Seq::<Tcp4Tuple>::empty()
                &&& final(self).pending@.take(old(self).pending@.len() as int) == old(
                    self,
                ).pending@
            },
    {
        proof {
            lemma_key_index_of(self.pending@, port);
        }
        if self.port_pos(port).is_some() {
            return Err(TcpError::AddrInUse);
        }
        let backlog: Vec<Tcp4Tuple> = Vec::new();
        self.pending.push((port, backlog));
        proof {
            let s0 = old(self).pending@;
            let s1 = self.pending@;
            assert(s1.take(s0.len() as int) =~= s0);
            assert forall|i: int, j: int|
                0 <= i < j < s1.len() implies (#[trigger] s1[i]).0 != (#[trigger] s1[j]).0 by {
                if j == s1.len() - 1 {
                    assert(s1[i] == s0[i]);
                    lemma_key_index_of(s0, port);
                }
            }
        }
        Ok(())
    }

    /// Release a listening port, handing back the four-tuples still queued
    /// on its backlog; `None` when the port was not listening.
    pub fn unbind(&mut self, port: u16) -> (r: Option<Vec<Tcp4Tuple>>)
        requires
            old(self).wf(),
        ensures
            final(self).wf(),
            final(self).connections@ == old(self).connections@,
            final(self).terminate == old(self).terminate,
            ({
                let pi = key_index_of(old(self).pending@, port);
                if pi < old(self).pending@.len() {
                    &&& r matches Some(backlog)
                    &&& r.unwrap()@ == old(self).pending@[pi].1@
                    &&& final(self).pending@ == old(self).pending@.remove(pi)
                } else {
                    &&& r is None
                    &&& final(self).pending@ == old(self).pending@
                }
            }),
    {
        proof {
            lemma_key_index_of(self.pending@, port);
        }
        match self.port_pos(port) {
            Some(pi) => {
                let entry = self.pending.remove(pi);
                proof {
                    assert(entry == old(self).pending@[pi as int]);
                    let s0 = old(self).pending@;
                    let s1 = self.pending@;
                    assert forall|i: int, j: int|
                        0 <= i < j < s1.len() implies (#[trigger] s1[i]).0 != (
                    #[trigger] s1[j]).0 by {
                        let fi = if i < pi {
                            i
                        } else {
                            i + 1
                        };
                        let fj = if j < pi {
                            j
                        } else {
                            j + 1
                        };
                        assert(s1[i] == s0[fi] && s1[j] == s0[fj]);
                    }
                }
                Some(entry.1)
            },
            None => None,
        }
    }

    /// Pop the oldest pending connection on `port` for an accept caller:
    /// `Ok(None)` asks the caller to wait; a deregistered port fails with
    /// `BrokenPipe`.
    pub fn accept_pop(&mut self, port: u16) -> (r: Result<Option<Tcp4Tuple>, TcpError>)
        requires
            old(self).wf(),
        ensures
            final(self).wf(),
            final(self).connections@ == old(self).connections@,
            final(self).terminate == old(self).terminate,
            ({
                let pi = key_index_of(old(self).pending@, port);
                if pi >= old(self).pending@.len() {
                    &&& r == Err::<Option<Tcp4Tuple>, TcpError>(TcpError::BrokenPipe)
                    &&& final(self).pending@ == old(self).pending@
                } else if old(self).pending@[pi].1@.len() == 0 {
                    &&& r == Ok::<Option<Tcp4Tuple>, TcpError>(None)
                    &&& final(self).pending@ == old(self).pending@
                } else {
                    &&& r == Ok::<Option<Tcp4Tuple>, TcpError>(
                        Some(old(self).pending@[pi].1@[0]),
                    )
                    &&& final(self).pending@.len() == old(self).pending@.len()
                    &&& final(self).pending@[pi].0 == port
                    &&& final(self).pending@[pi].1@ == old(self).pending@[pi].1@.skip(1)
                    &&& forall|m: int|
                        0 <= m < old(self).pending@.len() && m != pi
                            ==> final(self).pending@[m] == old(self).pending@[m]
                }
            }),
    {
        proof {
            lemma_key_index_of(self.pending@, port);
        }
        let pi = match self.port_pos(port) {
            Some(pi) => pi,
            None => {
                return Err(TcpError::BrokenPipe);
            },
        };
        let ghost s0 = self.pending@;
        if self.pending[pi].1.len() == 0 {
            return Ok(None);
        }
        let mut entry = self.pending.remove(pi);
        let quad = entry.1.remove(0);
        self.pending.insert(pi, entry);
        proof {
            let s1 = self.pending@;
            assert(entry.1@ =~= s0[pi as int].1@.skip(1));
            assert forall|m: int| 0 <= m < s0.len() && m != pi implies s1[m] == s0[m] by {}
            assert forall|i: int, j: int|
                0 <= i < j < s1.len() implies (#[trigger] s1[i]).0 != (#[trigger] s1[j]).0 by {
                assert(s1[i].0 == s0[i].0 && s1[j].0 == s0[j].0);
            }
            assert(quad == s0[pi as int].1@[0]);
        }
        Ok(Some(quad))
    }

    /// Queue bytes for sending on the stream keyed by `quad`: up to the
    /// remaining room of the send queue is appended to `unacked`; a full
    /// queue refuses with `WouldBlock` (this engine does not block
    /// writers), a missing connection with `BrokenPipe`.
    pub fn write_stream(&mut self, quad: &Tcp4Tuple, data: &[u8]) -> (r: Result<usize, TcpError>)
        requires
            old(self).wf(),
        ensures
            final(self).wf(),
            final(self).pending@ == old(self).pending@,
            final(self).terminate == old(self).terminate,
            ({
                let ci = key_index_of(old(self).connections@, *quad);
                if ci >= old(self).connections@.len() {
                    &&& r == Err::<usize, TcpError>(TcpError::BrokenPipe)
                    &&& final(self).connections@ == old(self).connections@
                } else if old(self).connections@[ci].1@.unacked.len() >= SEND_QUEUE_SIZE {
                    &&& r == Err::<usize, TcpError>(TcpError::WouldBlock)
                    &&& final(self).connections@ == old(self).connections@
                } else {
                    let n = vstd::math::min(
                        data@.len() as int,
                        SEND_QUEUE_SIZE - old(self).connections@[ci].1@.unacked.len(),
                    );
                    &&& r == Ok::<usize, TcpError>(n as usize)
                    &&& final(self).connections@.len() == old(self).connections@.len()
                    &&& final(self).connections@[ci].0 == *quad
                    &&& final(self).connections@[ci].1@ == (ConnState {
                        unacked: old(self).connections@[ci].1@.unacked + data@.take(n),
                        ..old(self).connections@[ci].1@
                    })
                    &&& forall|m: int|
                        0 <= m < old(self).connections@.len() && m != ci
                            ==> final(self).connections@[m] == old(self).connections@[m]
                }
            }),
    {
        proof {
            lemma_key_index_of(self.connections@, *quad);
        }
        let ci = match self.conn_pos(quad) {
            Some(ci) => ci,
            None => {
                return Err(TcpError::BrokenPipe);
            },
        };
        let ghost s0 = self.connections@;
        let mut entry = self.connections.remove(ci);
        if entry.1.unacked.len() >= SEND_QUEUE_SIZE {
            self.connections.insert(ci, entry);
            proof {
                assert(self.connections@ =~= s0);
            }
            return Err(TcpError::WouldBlock);
        }
        let room = SEND_QUEUE_SIZE - entry.1.unacked.len();
        let n: usize = if data.len() < room {
            data.len()
        } else {
            room
        };
        let ghost u0 = entry.1.unacked@;
        let mut j: usize = 0;
        while j < n
            invariant
                0 <= j <= n,
                n <= data@.len(),
                entry.1.unacked@ == u0 + data@.take(j as int),
                entry.1@ == (ConnState { unacked: u0 + data@.take(j as int), ..s0[ci as int].1@ }),
                entry.0 == s0[ci as int].0,
            decreases n - j,
        {
            entry.1.unacked.push_back(data[j]);
            proof {
                assert(entry.1.unacked@ =~= u0 + data@.take(j + 1));
            }
            j = j + 1;
        }
        self.connections.insert(ci, entry);
        proof {
            let s1 = self.connections@;
            assert(s1 =~= s0.update(ci as int, entry));
            assert(u0.len() + n <= SEND_QUEUE_SIZE);
            assert forall|m: int| 0 <= m < s0.len() && m != ci implies s1[m] == s0[m] by {}
            assert forall|i: int, j2: int|
                0 <= i < j2 < s1.len() implies (#[trigger] s1[i]).0 != (#[trigger] s1[j2]).0 by {
                assert(s1[i].0 == s0[i].0 && s1[j2].0 == s0[j2].0);
            }
            assert forall|i: int| 0 <= i < s1.len() implies (#[trigger] s1[i]).1@.wf() by {
                if i != ci {
                    assert(s1[i] == s0[i]);
                }
            }
        }
        Ok(n)
    }

    /// Drain up to `max` bytes from the front of the stream's ingress
    /// queue. An exhausted queue means end of stream once the peer has
    /// closed, and patience otherwise; a missing connection fails with
    /// `BrokenPipe`.
    pub fn read_stream(&mut self, quad: &Tcp4Tuple, max: usize) -> (r: Result<
        ReadResult,
        TcpError,
    >)
        requires
            old(self).wf(),
        ensures
            final(self).wf(),
            final(self).pending@ == old(self).pending@,
            final(self).terminate == old(self).terminate,
            ({
                let ci = key_index_of(old(self).connections@, *quad);
                if ci >= old(self).connections@.len() {
                    &&& r == Err::<ReadResult, TcpError>(TcpError::BrokenPipe)
                    &&& final(self).connections@ == old(self).connections@
                } else {
                    let c = old(self).connections@[ci].1@;
                    if c.ingress.len() == 0 && c.state is TimeWait {
                        &&& r matches Ok(rr)
                        &&& (r matches Ok(rr) ==> rr is Eof)
                        &&& final(self).connections@ == old(self).connections@
                    } else if c.ingress.len() == 0 {
                        &&& r matches Ok(rr)
                        &&& (r matches Ok(rr) ==> rr is WouldWait)
                        &&& final(self).connections@ == old(self).connections@
                    } else {
                        let n = vstd::math::min(max as int, c.ingress.len() as int);
                        &&& r matches Ok(rr)
                        &&& (r matches Ok(rr) ==> rr matches ReadResult::Data(v) && v@
                            == c.ingress.take(n))
                        &&& final(self).connections@.len() == old(self).connections@.len()
                        &&& final(self).connections@[ci].0 == *quad
                        &&& final(self).connections@[ci].1@ == (ConnState {
                            ingress: c.ingress.skip(n),
                            ..c
                        })
                        &&& forall|m: int|
                            0 <= m < old(self).connections@.len() && m != ci
                                ==> final(self).connections@[m] == old(self).connections@[m]
                    }
                }
            }),
    {
        proof {
            lemma_key_index_of(self.connections@, *quad);
        }
        let ci = match self.conn_pos(quad) {
            Some(ci) => ci,
            None => {
                return Err(TcpError::BrokenPipe);
            },
        };
        let ghost s0 = self.connections@;
        let mut entry = self.connections.remove(ci);
        if entry.1.ingress.len() == 0 {
            let closed = entry.1.is_recv_closed();
            self.connections.insert(ci, entry);
            proof {
                assert(self.connections@ =~= s0);
            }
            if closed {
                return Ok(ReadResult::Eof);
            }
            return Ok(ReadResult::WouldWait);
        }
        let n: usize = if max < entry.1.ingress.len() {
            max
        } else {
            entry.1.ingress.len()
        };
        let ghost q0 = entry.1.ingress@;
        let mut taken: Vec<u8> = Vec::new();
        let mut j: usize = 0;
        while j < n
            invariant
                0 <= j <= n,
                n <= q0.len(),
                taken@ == q0.take(j as int),
                entry.1.ingress@ == q0.skip(j as int),
                entry.1@ == (ConnState { ingress: q0.skip(j as int), ..s0[ci as int].1@ }),
                entry.0 == s0[ci as int].0,
            decreases n - j,
        {
            proof {
                assert(q0.skip(j as int)[0] == q0[j as int]);
                assert(q0.skip(j as int).skip(1) =~= q0.skip(j + 1));
            }
            let b = entry.1.ingress.pop_front();
            match b {
                Some(b) => {
                    taken.push(b);
                },
                None => {
                    proof {
                        assert(false);
                    }
                },
            }
            proof {
                assert(taken@ =~= q0.take(j + 1));
            }
            j = j + 1;
        }
        self.connections.insert(ci, entry);
        proof {
            let s1 = self.connections@;
            assert(s1 =~= s0.update(ci as int, entry));
            assert forall|m: int| 0 <= m < s0.len() && m != ci implies s1[m] == s0[m] by {}
            assert forall|i: int, j2: int|
                0 <= i < j2 < s1.len() implies (#[trigger] s1[i]).0 != (#[trigger] s1[j2]).0 by {
                assert(s1[i].0 == s0[i].0 && s1[j2].0 == s0[j2].0);
            }
            assert forall|i: int| 0 <= i < s1.len() implies (#[trigger] s1[i]).1@.wf() by {
                if i != ci {
                    assert(s1[i] == s0[i]);
                }
            }
        }
        Ok(ReadResult::Data(taken))
    }

    /// Succeed only when nothing queued for sending is outstanding; a
    /// missing connection fails with `BrokenPipe`.
    pub fn flush_stream(&self, quad: &Tcp4Tuple) -> (r: Result<(), TcpError>)
        ensures
            ({
                let ci = key_index_of(self.connections@, *quad);
                if ci >= self.connections@.len() {
                    r == Err::<(), TcpError>(TcpError::BrokenPipe)
                } else if self.connections@[ci].1@.unacked.len() == 0 {
                    r == Ok::<(), TcpError>(())
                } else {
                    r == Err::<(), TcpError>(TcpError::WouldBlock)
                }
            }),
    {
        proof {
            lemma_key_index_of(self.connections@, *quad);
        }
        let ci = match self.conn_pos(quad) {
            Some(ci) => ci,
            None => {
                return Err(TcpError::BrokenPipe);
            },
        };
        if self.connections[ci].1.unacked.len() == 0 {
            Ok(())
        } else {
            Err(TcpError::WouldBlock)
        }
    }

    /// Shut down the write side of the stream: the connection's close step.
    /// A missing connection fails with `BrokenPipe`.
    pub fn shutdown_stream(&mut self, quad: &Tcp4Tuple) -> (r: Result<(), TcpError>)
        requires
            old(self).wf(),
        ensures
            final(self).wf(),
            final(self).pending@ == old(self).pending@,
            final(self).terminate == old(self).terminate,
            ({
                let ci = key_index_of(old(self).connections@, *quad);
                if ci >= old(self).connections@.len() {
                    &&& r == Err::<(), TcpError>(TcpError::BrokenPipe)
                    &&& final(self).connections@ == old(self).connections@
                } else {
                    let c = old(self).connections@[ci].1@;
                    &&& r == spec_close(c).1
                    &&& final(self).connections@.len() == old(self).connections@.len()
                    &&& final(self).connections@[ci].0 == *quad
                    &&& final(self).connections@[ci].1@ == spec_close(c).0
                    &&& forall|m: int|
                        0 <= m < old(self).connections@.len() && m != ci
                            ==> final(self).connections@[m] == old(self).connections@[m]
                }
            }),
    {
        proof {
            lemma_key_index_of(self.connections@, *quad);
        }
        let ci = match self.conn_pos(quad) {
            Some(ci) => ci,
            None => {
                return Err(TcpError::BrokenPipe);
            },
        };
        let ghost s0 = self.connections@;
        let mut entry = self.connections.remove(ci);
        let r = entry.1.close();
        self.connections.insert(ci, entry);
        proof {
            let s1 = self.connections@;
            assert(s1 =~= s0.update(ci as int, entry));
            assert forall|m: int| 0 <= m < s0.len() && m != ci implies s1[m] == s0[m] by {}
            assert forall|i: int, j2: int|
                0 <= i < j2 < s1.len() implies (#[trigger] s1[i]).0 != (#[trigger] s1[j2]).0 by {
                assert(s1[i].0 == s0[i].0 && s1[j2].0 == s0[j2].0);
            }
            assert forall|i: int| 0 <= i < s1.len() implies (#[trigger] s1[i]).1@.wf() by {
                if i != ci {
                    assert(s1[i] == s0[i]);
                }
            }
        }
        r
    }

    /// Dispatch one parsed segment.
    ///
    /// A segment whose four-tuple matches a live connection is handed to
    /// that connection's packet step, and the receive wakeup follows what
    /// it made available. A segment for a fresh four-tuple on a listening
    /// port creates a connection, queues it on the port's backlog and asks
    /// for the pending wakeup. Anything else is dropped. An oversized
    /// payload — impossible in an IPv4 frame — is dropped too. Faults are
    /// reported for the log, never raised: one bad packet does not kill
    /// the engine.
    #[verifier::rlimit(60)]
    pub fn on_segment(&mut self, seg: &TcpSegment, now: u64) -> (d: SegmentDisposition)
        requires
            old(self).wf(),
            now <= TIME_MAX_MICROS,
        ensures
            final(self).wf(),
            final(self).terminate == old(self).terminate,
            ({
                let q = spec_quad(seg@);
                let ci = key_index_of(old(self).connections@, q);
                if seg.payload@.len() > MAX_SEGMENT_PAYLOAD {
                    &&& final(self).connections@ == old(self).connections@
                    &&& final(self).pending@ == old(self).pending@
                    &&& d.replies@.len() == 0
                    &&& !d.wake_pending
                    &&& !d.wake_receive
                    &&& d.fault is None
                } else if ci < old(self).connections@.len() {
                    let step = spec_on_packet(old(self).connections@[ci].1@, seg@, now);
                    &&& final(self).connections@.len() == old(self).connections@.len()
                    &&& final(self).connections@[ci].0 == q
                    &&& final(self).connections@[ci].1@ == step.0
                    &&& forall|m: int|
                        0 <= m < old(self).connections@.len() && m != ci
                            ==> final(self).connections@[m] == old(self).connections@[m]
                    &&& final(self).pending@ == old(self).pending@
                    &&& d.replies@.map_values(|s: SegmentOut| s@) == step.1
                    &&& !d.wake_pending
                    &&& d.wake_receive == step.2.read
                    &&& d.fault == step.3
                } else {
                    let pi = key_index_of(old(self).pending@, seg.dst_port);
                    if pi < old(self).pending@.len() {
                        match spec_accept(seg@, now) {
                            Ok(pair) => {
                                &&& final(self).connections@.len() == old(
                                    self,
                                ).connections@.len() + 1
                                &&& final(self).connections@.take(
                                    old(self).connections@.len() as int,
                                ) == old(self).connections@
                                &&& final(self).connections@.last().0 == q
                                &&& final(self).connections@.last().1@ == pair.0
                                &&& final(self).pending@.len() == old(self).pending@.len()
                                &&& final(self).pending@[pi].0 == seg.dst_port
                                &&& final(self).pending@[pi].1@ == old(self).pending@[pi].1@.push(
                                    q,
                                )
                                &&& forall|m: int|
                                    0 <= m < old(self).pending@.len() && m != pi
                                        ==> final(self).pending@[m] == old(self).pending@[m]
                                &&& d.replies@.map_values(|s: SegmentOut| s@) == seq![pair.1]
                                &&& d.wake_pending
                                &&& !d.wake_receive
                                &&& d.fault is None
                            },
                            Err(e) => {
                                &&& final(self).connections@ == old(self).connections@
                                &&& final(self).pending@ == old(self).pending@
                                &&& d.replies@.len() == 0
                                &&& !d.wake_pending
                                &&& !d.wake_receive
                                &&& d.fault == Some(e)
                            },
                        }
                    } else {
                        &&& final(self).connections@ == old(self).connections@
                        &&& final(self).pending@ == old(self).pending@
                        &&& d.replies@.len() == 0
                        &&& !d.wake_pending
                        &&& !d.wake_receive
                        &&& d.fault is None
                    }
                }
            }),
    {
        if seg.payload.len() > MAX_SEGMENT_PAYLOAD {
            return SegmentDisposition {
                replies: Vec::new(),
                wake_pending: false,
                wake_receive: false,
                fault: None,
            };
        }
        let quad = Tcp4Tuple {
            src_ip: seg.src_ip,
            src_port: seg.src_port,
            dst_ip: seg.dst_ip,
            dst_port: seg.dst_port,
        };
        proof {
            lemma_key_index_of(self.connections@, quad);
            lemma_key_index_of(self.pending@, seg.dst_port);
        }
        let ghost s0 = self.connections@;
        match self.conn_pos(&quad) {
            Some(ci) => {
                let mut entry = self.connections.remove(ci);
                let outcome = entry.1.on_packet(seg, now);
                self.connections.insert(ci, entry);
                proof {
                    let s1 = self.connections@;
                    assert(s1 =~= s0.update(ci as int, entry));
                    assert forall|i: int, j2: int|
                        0 <= i < j2 < s1.len() implies (#[trigger] s1[i]).0 != (
                    #[trigger] s1[j2]).0 by {
                        assert(s1[i].0 == s0[i].0 && s1[j2].0 == s0[j2].0);
                    }
                    assert forall|i: int| 0 <= i < s1.len() implies (#[trigger] s1[i]).1@.wf() by {
                        if i != ci {
                            assert(s1[i] == s0[i]);
                        }
                    }
                }
                SegmentDisposition {
                    replies: outcome.replies,
                    wake_pending: false,
                    wake_receive: outcome.available.read,
                    fault: outcome.fault,
                }
            },
            None => {
                let pi = match self.port_pos(seg.dst_port) {
                    Some(pi) => pi,
                    None => {
                        // No listener: the segment is silently dropped.
                        return SegmentDisposition {
                            replies: Vec::new(),
                            wake_pending: false,
                            wake_receive: false,
                            fault: None,
                        };
                    },
                };
                match Connection::accept(seg, now) {
                    Ok((conn, syn_ack)) => {
                        let ghost p0 = self.pending@;
                        self.connections.push((quad, conn));
                        let mut entry = self.pending.remove(pi);
                        entry.1.push(quad);
                        self.pending.insert(pi, entry);
                        let mut replies: Vec<SegmentOut> = Vec::new();
                        replies.push(syn_ack);
                        proof {
                            let s1 = self.connections@;
                            assert(s1.take(s0.len() as int) =~= s0);
                            assert forall|i: int, j2: int|
                                0 <= i < j2 < s1.len() implies (#[trigger] s1[i]).0 != (
                            #[trigger] s1[j2]).0 by {
                                if j2 == s1.len() - 1 {
                                    assert(s1[i] == s0[i]);
                                    assert(s0[i].0 != quad);
                                }
                            }
                            assert forall|i: int|
                                0 <= i < s1.len() implies (#[trigger] s1[i]).1@.wf() by {
                                if i < s1.len() - 1 {
                                    assert(s1[i] == s0[i]);
                                }
                            }
                            let p1 = self.pending@;
                            assert(p1 =~= p0.update(pi as int, entry));
                            assert forall|i: int, j2: int|
                                0 <= i < j2 < p1.len() implies (#[trigger] p1[i]).0 != (
                            #[trigger] p1[j2]).0 by {
                                assert(p1[i].0 == p0[i].0 && p1[j2].0 == p0[j2].0);
                            }
                            assert(replies@.map_values(|s: SegmentOut| s@) =~= seq![syn_ack@]);
                        }
                        SegmentDisposition {
                            replies,
                            wake_pending: true,
                            wake_receive: false,
                            fault: None,
                        }
                    },
                    Err(e) => SegmentDisposition {
                        replies: Vec::new(),
                        wake_pending: false,
                        wake_receive: false,
                        fault: Some(e),
                    },
                }
            },
        }
    }

    /// One timer tick over every connection: each takes its retransmission
    /// decision, and the emitted segments come back in table order.
    pub fn on_tick(&mut self, now: u64) -> (outs: Vec<SegmentOut>)
        requires
            old(self).wf(),
            now <= TIME_MAX_MICROS,
        ensures
            final(self).wf(),
            final(self).pending@ == old(self).pending@,
            final(self).terminate == old(self).terminate,
            final(self).connections@.len() == old(self).connections@.len(),
            forall|i: int|
                0 <= i < old(self).connections@.len()
                    ==> (#[trigger] final(self).connections@[i]).0 == old(self).connections@[i].0
                    && final(self).connections@[i].1@ == spec_on_timer(
                    old(self).connections@[i].1@,
                    now,
                ).0,
            outs@.map_values(|s: SegmentOut| s@) == spec_tick_outs(old(self).connections@, now),
    {
        let ghost s0 = self.connections@;
        let mut outs: Vec<SegmentOut> = Vec::new();
        let mut i: usize = 0;
        proof {
            assert(s0.take(0) =~= Seq::<(Tcp4Tuple, Connection)>::empty());
        }
        while i < self.connections.len()
            invariant
                0 <= i <= s0.len(),
                self.connections@.len() == s0.len(),
                now <= TIME_MAX_MICROS,
                forall|j: int| i <= j < s0.len() ==> self.connections@[j] == s0[j],
                forall|j: int|
                    0 <= j < i ==> (#[trigger] self.connections@[j]).0 == s0[j].0 && self
                        .connections@[j].1@ == spec_on_timer(s0[j].1@, now).0 && self
                        .connections@[j].1@.wf(),
                forall|a: int, b: int|
                    0 <= a < b < s0.len() ==> (#[trigger] s0[a]).0 != (#[trigger] s0[b]).0,
                forall|j: int| 0 <= j < s0.len() ==> (#[trigger] s0[j]).1@.wf(),
                outs@.map_values(|s: SegmentOut| s@) == spec_tick_outs(s0.take(i as int), now),
                self.pending@ == old(self).pending@,
                self.terminate == old(self).terminate,
            decreases s0.len() - i,
        {
            let ghost spre = self.connections@;
            let mut entry = self.connections.remove(i);
            proof {
                assert(entry == s0[i as int]);
                assert(entry.1@.wf());
            }
            let emitted = entry.1.on_timer(now);
            self.connections.insert(i, entry);
            proof {
                assert(self.connections@ =~= spre.update(i as int, entry));
                assert(s0.take(i + 1).drop_last() =~= s0.take(i as int));
                assert(s0.take(i + 1).last() == s0[i as int]);
            }
            if let Some(seg) = emitted {
                outs.push(seg);
                proof {
                    assert(outs@.map_values(|s: SegmentOut| s@) =~= spec_tick_outs(
                        s0.take(i as int),
                        now,
                    ) + seq![seg@]);
                }
            } else {
                proof {
                    assert(spec_tick_outs(s0.take(i + 1), now) =~= spec_tick_outs(
                        s0.take(i as int),
                        now,
                    ));
                }
            }
            i = i + 1;
        }
        proof {
            assert(s0.take(s0.len() as int) =~= s0);
            let s1 = self.connections@;
            assert forall|a: int, b: int|
                0 <= a < b < s1.len() implies (#[trigger] s1[a]).0 != (#[trigger] s1[b]).0 by {
                assert(s1[a].0 == s0[a].0 && s1[b].0 == s0[b].0);
            }
        }
        outs
    }

    /// Flag every caller to shut down.
    pub fn set_terminate(&mut self)
        requires
            old(self).wf(),
        ensures
            final(self).wf(),
            final(self).terminate,
            final(self).connections@ == old(self).connections@,
            final(self).pending@ == old(self).pending@,
    {
        self.terminate = true;
    }
}

impl Default for ConnectionManager {
    /// Same as [`ConnectionManager::new`].
    fn default() -> (m: Self)
        ensures
            m.wf(),
            m.connections@.len() == 0,
            m.pending@.len() == 0,
            !m.terminate,
    {
        ConnectionManager::new()
    }
}

} // verus!
