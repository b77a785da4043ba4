//! Connection states (RFC 793 section 3.2) and the wakeup summary that packet
//! processing reports to the blocking callers.

use vstd::prelude::*;

verus! {

/// The states a connection passes through in this engine. The passive-open
/// side accepts a SYN in `SynReceived`, reaches `Established` once its own
/// SYN+ACK is acknowledged, and closes actively through `FinWait1`,
/// `FinWait2` and `TimeWait`. Passive-close states (`CloseWait`, `LastAck`,
/// `Closing`) are not supported.
#[derive(Clone, Copy, Debug, PartialEq, Eq, Structural)]
pub enum State {
    SynReceived,
    Established,
    FinWait1,
    FinWait2,
    TimeWait,
}

impl State {
    /// The connection has completed the handshake and carries data.
    pub fn is_sync(&self) -> (r: bool)
        ensures
            r == (*self is Established),
    {
        matches!(self, State::Established)
    }

    /// States in which an arriving in-window payload is queued for the
    /// reader.
    pub open spec fn spec_accepts_data(self) -> bool {
        self is Established || self is FinWait1 || self is FinWait2
    }

    /// Executable form of [`State::spec_accepts_data`].
    pub fn accepts_data(&self) -> (r: bool)
        ensures
            r == self.spec_accepts_data(),
    {
        matches!(self, State::Established | State::FinWait1 | State::FinWait2)
    }
}

impl Default for State {
    /// A connection starts out waiting for its SYN+ACK to be acknowledged.
    fn default() -> (r: Self)
        ensures
            r is SynReceived,
    {
        State::SynReceived
    }
}

/// What a processed segment made newly possible for blocked callers: readable
/// data (or end of stream), and room to write. Write wakeups are not yet
/// reported.
#[derive(Clone, Copy, Debug, PartialEq, Eq, Structural, Default)]
pub struct Available {
    pub read: bool,
    pub write: bool,
}

} // verus!
