//! A userspace TCP (IPv4) endpoint for a layer-3 TUN interface.
//!
//! The crate holds the protocol engine: sequence-number arithmetic under
//! 32-bit wrap, the per-connection state machine with its retransmission
//! queue and round-trip estimator, and the connection table that demultiplexes
//! incoming segments by their four-tuple. Frame I/O, locking and thread
//! wakeups live outside the library; its functions take parsed segments and a
//! clock reading, and return the segments to emit.

use vstd::prelude::*;

pub mod connection;
pub mod laws;
pub mod manager;
pub mod seqnum;
pub mod sequence;
pub mod state;
pub mod segment;
pub mod timers;
pub mod wire;

verus! {

/// The error taxonomy of the public API.
#[derive(Debug, Clone, Copy, PartialEq, Eq, Structural)]
pub enum TcpError {
    /// A bind on a port that is already registered.
    AddrInUse,
    /// An operation on a stream whose connection is gone, or whose listening
    /// port was deregistered.
    BrokenPipe,
    /// The write buffer is full, or a flush found outstanding data.
    WouldBlock,
    /// A close on a connection that is already past closing.
    NotConnected,
    /// The first segment on a new four-tuple is not a SYN; no connection is
    /// created.
    UnexpectedSegment,
    /// The segment asks for a transition this engine does not implement
    /// (a peer FIN outside `FinWait2`).
    UnsupportedSegment,
}

impl TcpError {
    /// A short description, in the manner of `std::io::Error` texts.
    pub fn message(&self) -> (r: &'static str)
        ensures
            r@ == self.spec_message(),
    {
        match self {
            TcpError::AddrInUse => "port in use",
            TcpError::BrokenPipe => "connection closed",
            TcpError::WouldBlock => "operation would block",
            TcpError::NotConnected => "already closing",
            TcpError::UnexpectedSegment => "expected SYN",
            TcpError::UnsupportedSegment => "unsupported transition",
        }
    }

    /// The text [`TcpError::message`] returns.
    pub open spec fn spec_message(self) -> Seq<char> {
        match self {
            TcpError::AddrInUse => "port in use"@,
            TcpError::BrokenPipe => "connection closed"@,
            TcpError::WouldBlock => "operation would block"@,
            TcpError::NotConnected => "already closing"@,
            TcpError::UnexpectedSegment => "expected SYN"@,
            TcpError::UnsupportedSegment => "unsupported transition"@,
        }
    }
}

} // verus!
