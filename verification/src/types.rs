//! The vocabulary of the connection layer: identifiers, stream promises,
//! multiplexed events, and the error taxonomy.
use vstd::prelude::*;

verus! {

/// Process-unique connection id, assigned at accept time by a strictly
/// increasing counter and never reused within a process lifetime.
pub type Cid = u64;

/// Outbound budget, in payload bytes per flush call.
pub type Bandwidth = u64;

/// A set of delivery promises attached to a stream at open time, one bit per
/// promise.
pub type Promises = u8;

/// Events on the stream are delivered in the order they were sent.
pub const PROMISES_ORDERED: Promises = 1;

/// The stream's events are either all delivered or the connection dies.
pub const PROMISES_CONSISTENCY: Promises = 2;

/// Every event on the stream reaches the peer.
pub const PROMISES_GUARANTEED_DELIVERY: Promises = 4;

/// Payloads on the stream may be compressed on the wire.
pub const PROMISES_COMPRESSED: Promises = 8;

/// Identity of a participant, negotiated during the handshake and opaque to
/// the transport layer.
#[derive(Clone, Copy, PartialEq, Eq, Structural, Debug, Hash)]
pub struct Pid {
    pub id: u128,
}

impl Pid {
    pub fn new(id: u128) -> (p: Pid)
        ensures
            p.id == id,
    {
        Pid { id }
    }
}

/// Identifier of one logical multiplexed stream within a connection; assigned
/// by the opener, unique within the connection's lifetime.
#[derive(Clone, Copy, PartialEq, Eq, Structural, Debug, Hash)]
pub struct Sid {
    pub id: u64,
}

impl Sid {
    pub fn new(id: u64) -> (s: Sid)
        ensures
            s.id == id,
    {
        Sid { id }
    }

    pub fn get_u64(&self) -> (id: u64)
        ensures
            id == self.id,
    {
        self.id
    }
}

/// The unit of multiplexed traffic between the two halves of a connection.
///
/// Events carrying the same stream id are delivered in send order; events on
/// different stream ids have no ordering guarantee relative to each other.
#[derive(Clone, Debug, PartialEq, Eq)]
pub enum ProtocolEvent {
    /// Open a logical stream. Lower `prio` values drain first at flush time;
    /// `guaranteed_bandwidth` is a hint, not an enforced reservation.
    OpenStream { sid: Sid, prio: u8, promises: Promises, guaranteed_bandwidth: Bandwidth },
    /// Close one logical stream.
    CloseStream { sid: Sid },
    /// Tear the whole connection down.
    Shutdown,
    /// One payload on an open stream.
    Message { sid: Sid, data: Vec<u8> },
}

/// The mathematical shape of a protocol event: what `ProtocolEvent` is,
/// with the payload as a byte sequence.
#[verifier::ext_equal]
pub enum EventV {
    OpenStream { sid: Sid, prio: u8, promises: Promises, guaranteed_bandwidth: Bandwidth },
    CloseStream { sid: Sid },
    Shutdown,
    Message { sid: Sid, data: Seq<u8> },
}

impl View for ProtocolEvent {
    type V = EventV;

    open spec fn view(&self) -> EventV {
        match self {
            ProtocolEvent::OpenStream { sid, prio, promises, guaranteed_bandwidth } => {
                EventV::OpenStream {
                    sid: *sid,
                    prio: *prio,
                    promises: *promises,
                    guaranteed_bandwidth: *guaranteed_bandwidth,
                }
            },
            ProtocolEvent::CloseStream { sid } => EventV::CloseStream { sid: *sid },
            ProtocolEvent::Shutdown => EventV::Shutdown,
            ProtocolEvent::Message { sid, data } => EventV::Message { sid: *sid, data: data@ },
        }
    }
}

impl EventV {
    /// The stream an event belongs to, if it is stream-scoped.
    pub open spec fn sid_of(self) -> Option<Sid> {
        match self {
            EventV::OpenStream { sid, .. } => Some(sid),
            EventV::CloseStream { sid } => Some(sid),
            EventV::Shutdown => None,
            EventV::Message { sid, .. } => Some(sid),
        }
    }
}

/// The single terminal error for send/recv after the handshake: the transport
/// is gone.  A clean peer shutdown and a peer crash are indistinguishable at
/// this layer.
#[derive(Clone, Copy, PartialEq, Eq, Structural, Debug)]
pub enum ProtocolError {
    Closed,
}

/// Failure to establish a connection.
#[derive(Clone, Copy, PartialEq, Eq, Structural, Debug)]
pub enum ConnectError {
    /// The underlying transport failed to establish.
    Io,
    /// No in-process listener is registered under the target address.
    NotListening,
}

/// Failure of the handshake.
#[derive(Clone, Copy, PartialEq, Eq, Structural, Debug)]
pub enum InitError {
    /// The transport died mid-handshake.
    Closed,
    /// Version mismatch between the two participants.
    Incompatible,
    /// The peer stayed silent past the driver's bound.  The core state
    /// machines never time out on their own; a driver that enforces a bound
    /// reports it with this value.
    Timeout,
}

/// Failure to bind a listener; fatal to that listener only.
#[derive(Clone, Copy, PartialEq, Eq, Structural, Debug)]
pub enum ListenError {
    Io,
}

} // verus!
