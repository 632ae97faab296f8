//! The protocol facade: one handshake/send/recv/flush surface over the
//! closed set of transport variants.
//!
//! A connection is bound to exactly one variant — stream-socket or
//! in-process channel — at construction and keeps it for life.  After the
//! handshake the facade splits, once and irreversibly, into an independently
//! owned send half and receive half; the consumed facade value cannot be
//! used again, which the move semantics of `split` enforce.
use crate::frame::{
    encode_frames, frames_bytes, frames_view, valid_frame, valid_frames, Frame, FrameV,
};
use crate::handshake::{HandshakeResult, InitMachine, InitPhase};
use crate::recv::{RecvState, RecvStateV};
use crate::send::{send_model, SendState, SendStateV};
use crate::types::{Bandwidth, InitError, Pid, ProtocolError, ProtocolEvent};
use vstd::prelude::*;

verus! {

/// The injected metrics handle a connection is constructed with, keyed by
/// the connection it belongs to.  Metrics themselves are out of scope here;
/// the facade only carries the handle.
pub struct ProtocolMetricCache {
    pub name: String,
}

impl ProtocolMetricCache {
    pub fn new(name: String) -> (r: ProtocolMetricCache)
        ensures
            r.name@ == name@,
    {
        ProtocolMetricCache { name }
    }
}

/// The transport-independent state both variants share: the two halves and
/// the handshake machine, once started.
pub struct ProtocolPair {
    pub send: SendState,
    pub recv: RecvState,
    pub init: Option<InitMachine>,
    pub metrics: ProtocolMetricCache,
}

impl ProtocolPair {
    /// A fresh, open, un-handshaken pair.
    pub fn new(metrics: ProtocolMetricCache) -> (r: ProtocolPair)
        ensures
            r.send@.wf(),
            r.send@.streams.len() == 0,
            r.send@.outbox.len() == 0,
            !r.send@.closed,
            r.recv@.inbox.len() == 0,
            r.recv@.init_inbox.len() == 0,
            r.recv@.wire.len() == 0,
            !r.recv@.closed,
            r.init is None,
    {
        ProtocolPair { send: SendState::new(), recv: RecvState::new(), init: None, metrics }
    }

    /// Begin the handshake; the initiator's opening frame goes straight to
    /// the send half's outbox.
    pub fn initialize_start(&mut self, initiator: bool, local_pid: Pid, secret: u128)
        requires
            old(self).send@.wf(),
        ensures
            final(self).send@.wf(),
            final(self).init matches Some(m) && m.initiator == initiator && m.local_pid == local_pid
                && m.secret == secret,
            initiator ==> (final(self).init matches Some(m) && m.phase == InitPhase::AwaitAccept)
                && final(self).send@.outbox == old(self).send@.outbox.push(
                FrameV::Hello { version: crate::handshake::PROTOCOL_VERSION, pid: local_pid.id, secret },
            ),
            !initiator ==> (final(self).init matches Some(m) && m.phase == InitPhase::AwaitHello)
                && final(self).send@.outbox == old(self).send@.outbox,
            final(self).send@.streams == old(self).send@.streams,
            final(self).send@.closed == old(self).send@.closed,
            final(self).recv@ == old(self).recv@,
    {
        let (machine, out) = InitMachine::start(initiator, local_pid, secret);
        self.init = Some(machine);
        match out {
            Some(f) => {
                self.send.push_frame(f);
            },
            None => {},
        }
    }

    /// Advance the handshake by at most one frame from the peer.
    ///
    /// Consumes the oldest pending handshake frame, if any, feeds it to the
    /// machine, and queues whatever the machine answers on the send half.
    /// Returns the handshake outcome once the machine finishes,
    /// `Err(Closed)` when the transport died with nothing left to read, and
    /// `None` while waiting — the caller yields and tries again, so neither
    /// side ever blocks the other.
    pub fn initialize_step(&mut self) -> (r: Option<Result<HandshakeResult, InitError>>)
        requires
            old(self).send@.wf(),
            old(self).init is Some,
        ensures
            final(self).send@.wf(),
            final(self).init is Some,
            final(self).send@.streams == old(self).send@.streams,
            final(self).send@.closed == old(self).send@.closed,
            final(self).recv@.inbox == old(self).recv@.inbox,
            final(self).recv@.wire == old(self).recv@.wire,
            final(self).recv@.closed == old(self).recv@.closed,
            old(self).recv@.init_inbox.len() == 0 ==> {
                &&& final(self).recv@.init_inbox == old(self).recv@.init_inbox
                &&& final(self).send@.outbox == old(self).send@.outbox
                &&& final(self).init == old(self).init
                &&& r == (if old(self).recv@.closed {
                    Some(Err::<HandshakeResult, InitError>(InitError::Closed))
                } else {
                    None::<Result<HandshakeResult, InitError>>
                })
            },
            old(self).recv@.init_inbox.len() > 0 ==> ({
                let st = crate::handshake::machine_step(
                    old(self).init.unwrap(),
                    old(self).recv@.init_inbox[0],
                );
                &&& final(self).recv@.init_inbox == old(self).recv@.init_inbox.skip(1)
                &&& final(self).init == Some(st.m)
                &&& r == st.outcome
                &&& final(self).send@.outbox == (match st.out {
                    Some(g) => old(self).send@.outbox.push(g),
                    None => old(self).send@.outbox,
                })
            }),
    {
        if self.recv.init_inbox.len() == 0 {
            if self.recv.closed {
                return Some(Err(InitError::Closed));
            }
            return None;
        }
        let f = self.recv.init_inbox.remove(0);
        proof {
            assert(f@ == old(self).recv@.init_inbox[0]);
            assert(self.recv@.init_inbox =~= old(self).recv@.init_inbox.skip(1));
        }
        let ghost fv = f@;
        let (out, outcome) = match &mut self.init {
            Some(machine) => machine.on_frame(f),
            None => (None, None),
        };
        proof {
            crate::handshake::lemma_machine_step_out_valid(old(self).init.unwrap(), fv);
        }
        match out {
            Some(g) => {
                self.send.push_frame(g);
            },
            None => {},
        }
        outcome
    }
}

/// One connection, bound to its transport variant for life.
pub enum Protocols {
    /// Over a byte-oriented stream socket.
    Tcp(ProtocolPair),
    /// Over an in-process message channel.
    Mpsc(ProtocolPair),
}

impl Protocols {
    /// The variant-independent state.
    pub open spec fn pair(self) -> ProtocolPair {
        match self {
            Protocols::Tcp(p) => p,
            Protocols::Mpsc(p) => p,
        }
    }

    /// A fresh connection over a stream socket; the driver owns the socket
    /// and shuttles bytes.
    pub fn new_tcp(metrics: ProtocolMetricCache) -> (r: Protocols)
        ensures
            r is Tcp,
            r.pair().send@.wf(),
            r.pair().send@.streams.len() == 0,
            r.pair().send@.outbox.len() == 0,
            !r.pair().send@.closed,
            r.pair().recv@.inbox.len() == 0,
            r.pair().recv@.init_inbox.len() == 0,
            r.pair().recv@.wire.len() == 0,
            !r.pair().recv@.closed,
            r.pair().init is None,
    {
        Protocols::Tcp(ProtocolPair::new(metrics))
    }

    /// A fresh connection over an in-process channel; the driver owns the
    /// channel pair and shuttles frames.
    pub fn new_mpsc(metrics: ProtocolMetricCache) -> (r: Protocols)
        ensures
            r is Mpsc,
            r.pair().send@.wf(),
            r.pair().send@.streams.len() == 0,
            r.pair().send@.outbox.len() == 0,
            !r.pair().send@.closed,
            r.pair().recv@.inbox.len() == 0,
            r.pair().recv@.init_inbox.len() == 0,
            r.pair().recv@.wire.len() == 0,
            !r.pair().recv@.closed,
            r.pair().init is None,
    {
        Protocols::Mpsc(ProtocolPair::new(metrics))
    }

    /// Begin the handshake on this connection; see
    /// `ProtocolPair::initialize_start`.
    pub fn initialize_start(&mut self, initiator: bool, local_pid: Pid, secret: u128)
        requires
            old(self).pair().send@.wf(),
        ensures
            (*final(self)) is Tcp <==> (*old(self)) is Tcp,
            final(self).pair().send@.wf(),
            final(self).pair().init matches Some(m) && m.initiator == initiator && m.local_pid
                == local_pid && m.secret == secret,
            initiator ==> final(self).pair().send@.outbox == old(self).pair().send@.outbox.push(
                FrameV::Hello {
                    version: crate::handshake::PROTOCOL_VERSION,
                    pid: local_pid.id,
                    secret,
                },
            ),
            !initiator ==> final(self).pair().send@.outbox == old(self).pair().send@.outbox,
            final(self).pair().send@.streams == old(self).pair().send@.streams,
            final(self).pair().send@.closed == old(self).pair().send@.closed,
            final(self).pair().recv@ == old(self).pair().recv@,
    {
        match self {
            Protocols::Tcp(p) => p.initialize_start(initiator, local_pid, secret),
            Protocols::Mpsc(p) => p.initialize_start(initiator, local_pid, secret),
        }
    }

    /// Advance the handshake by at most one pending frame; see
    /// `ProtocolPair::initialize_step`.
    pub fn initialize_step(&mut self) -> (r: Option<Result<HandshakeResult, InitError>>)
        requires
            old(self).pair().send@.wf(),
            old(self).pair().init is Some,
        ensures
            (*final(self)) is Tcp <==> (*old(self)) is Tcp,
            final(self).pair().send@.wf(),
            final(self).pair().init is Some,
            final(self).pair().send@.streams == old(self).pair().send@.streams,
            final(self).pair().send@.closed == old(self).pair().send@.closed,
            final(self).pair().recv@.inbox == old(self).pair().recv@.inbox,
            final(self).pair().recv@.wire == old(self).pair().recv@.wire,
            final(self).pair().recv@.closed == old(self).pair().recv@.closed,
            old(self).pair().recv@.init_inbox.len() == 0 ==> {
                &&& final(self).pair().recv@.init_inbox == old(self).pair().recv@.init_inbox
                &&& final(self).pair().send@.outbox == old(self).pair().send@.outbox
                &&& final(self).pair().init == old(self).pair().init
                &&& r == (if old(self).pair().recv@.closed {
                    Some(Err::<HandshakeResult, InitError>(InitError::Closed))
                } else {
                    None::<Result<HandshakeResult, InitError>>
                })
            },
            old(self).pair().recv@.init_inbox.len() > 0 ==> ({
                let st = crate::handshake::machine_step(
                    old(self).pair().init.unwrap(),
                    old(self).pair().recv@.init_inbox[0],
                );
                &&& final(self).pair().recv@.init_inbox == old(
                    self,
                ).pair().recv@.init_inbox.skip(1)
                &&& final(self).pair().init == Some(st.m)
                &&& r == st.outcome
                &&& final(self).pair().send@.outbox == (match st.out {
                    Some(g) => old(self).pair().send@.outbox.push(g),
                    None => old(self).pair().send@.outbox,
                })
            }),
    {
        match self {
            Protocols::Tcp(p) => p.initialize_step(),
            Protocols::Mpsc(p) => p.initialize_step(),
        }
    }

    /// Split into independently owned halves.  This consumes the facade:
    /// a connection is split at most once, and the halves cannot re-merge.
    pub fn split(self) -> (r: (SendProtocols, RecvProtocols))
        ensures
            self is Tcp ==> r.0 is Tcp && r.1 is Tcp,
            self is Mpsc ==> r.0 is Mpsc && r.1 is Mpsc,
            r.0.inner() == self.pair().send,
            r.1.inner() == self.pair().recv,
    {
        match self {
            Protocols::Tcp(p) => (SendProtocols::Tcp(p.send), RecvProtocols::Tcp(p.recv)),
            Protocols::Mpsc(p) => (SendProtocols::Mpsc(p.send), RecvProtocols::Mpsc(p.recv)),
        }
    }
}

/// The send half of a split connection, still bound to its variant.
pub enum SendProtocols {
    Tcp(SendState),
    Mpsc(SendState),
}

impl SendProtocols {
    /// The variant-independent send state.
    pub open spec fn inner(self) -> SendState {
        match self {
            SendProtocols::Tcp(s) => s,
            SendProtocols::Mpsc(s) => s,
        }
    }

    /// Accept one outbound event; see `SendState::send`.  `Ok` means the
    /// event was taken; the caller owes a well-formed event (`event_valid`).
    pub fn send(&mut self, event: ProtocolEvent) -> (r: Result<(), ProtocolError>)
        requires
            old(self).inner()@.wf(),
            crate::send::event_valid(old(self).inner()@.streams, event@),
            event@ matches crate::types::EventV::Message { data, .. } ==> data.len() <= u32::MAX,
        ensures
            (*final(self)) is Tcp <==> (*old(self)) is Tcp,
            final(self).inner()@.wf(),
            old(self).inner()@.closed ==> r == Err::<(), ProtocolError>(ProtocolError::Closed)
                && final(self).inner()@ == old(self).inner()@,
            !old(self).inner()@.closed ==> r == Ok::<(), ProtocolError>(())
                && final(self).inner()@ == send_model(old(self).inner()@, event@),
            event@ matches crate::types::EventV::Message { sid, data } ==> (old(
                self,
            ).inner()@.closed || final(self).inner()@.streams[crate::send::find_stream(
                old(self).inner()@.streams,
                sid.id,
            )].queued == old(self).inner()@.streams[crate::send::find_stream(
                old(self).inner()@.streams,
                sid.id,
            )].queued.push(data)),
    {
        match self {
            SendProtocols::Tcp(s) => s.send(event),
            SendProtocols::Mpsc(s) => s.send(event),
        }
    }

    /// Apply an event the paired receive half saw; see
    /// `SendState::notify_from_recv`.
    pub fn notify_from_recv(&mut self, event: ProtocolEvent)
        requires
            old(self).inner()@.wf(),
            event@ matches crate::types::EventV::Message { data, .. } ==> data.len() <= u32::MAX,
        ensures
            (*final(self)) is Tcp <==> (*old(self)) is Tcp,
            final(self).inner()@.wf(),
            old(self).inner()@.closed ==> final(self).inner()@ == old(self).inner()@,
            !old(self).inner()@.closed ==> final(self).inner()@ == send_model(
                old(self).inner()@,
                event@,
            ),
    {
        match self {
            SendProtocols::Tcp(s) => s.notify_from_recv(event),
            SendProtocols::Mpsc(s) => s.notify_from_recv(event),
        }
    }

    /// Drain payloads within the budget, in drain order (priority first,
    /// guaranteed-bandwidth hint as tiebreak); see `SendState::flush`.
    /// What is reported consumed never exceeds `bandwidth`.
    pub fn flush(&mut self, bandwidth: Bandwidth, dt_millis: u64) -> (r: Result<
        Bandwidth,
        ProtocolError,
    >)
        requires
            old(self).inner()@.wf(),
        ensures
            (*final(self)) is Tcp <==> (*old(self)) is Tcp,
            final(self).inner()@.wf(),
            r matches Ok(consumed) ==> consumed <= bandwidth,
            old(self).inner()@.closed ==> r == Err::<Bandwidth, ProtocolError>(
                ProtocolError::Closed,
            ) && final(self).inner()@ == old(self).inner()@,
            !old(self).inner()@.closed ==> ({
                let m = crate::send::flush_model(old(self).inner()@.streams, bandwidth as int);
                &&& r == Ok::<Bandwidth, ProtocolError>((m.2 as u64))
                &&& final(self).inner()@.streams == m.1
                &&& final(self).inner()@.outbox == old(self).inner()@.outbox + m.0
                &&& !final(self).inner()@.closed
            }),
    {
        match self {
            SendProtocols::Tcp(s) => s.flush(bandwidth, dt_millis),
            SendProtocols::Mpsc(s) => s.flush(bandwidth, dt_millis),
        }
    }

    /// Move every pending frame out for the transport driver.
    pub fn take_outgoing(&mut self) -> (r: Vec<Frame>)
        ensures
            (*final(self)) is Tcp <==> (*old(self)) is Tcp,
            frames_view(r@) == old(self).inner()@.outbox,
            final(self).inner()@.outbox == Seq::<FrameV>::empty(),
            final(self).inner()@.streams == old(self).inner()@.streams,
            final(self).inner()@.closed == old(self).inner()@.closed,
            old(self).inner()@.wf() ==> final(self).inner()@.wf() && valid_frames(frames_view(r@)),
    {
        match self {
            SendProtocols::Tcp(s) => s.take_outgoing(),
            SendProtocols::Mpsc(s) => s.take_outgoing(),
        }
    }

    /// Move every pending frame out, already encoded for a byte transport.
    pub fn take_outgoing_bytes(&mut self) -> (r: Vec<u8>)
        requires
            old(self).inner()@.wf(),
        ensures
            (*final(self)) is Tcp <==> (*old(self)) is Tcp,
            r@ == frames_bytes(old(self).inner()@.outbox),
            final(self).inner()@.outbox == Seq::<FrameV>::empty(),
            final(self).inner()@.streams == old(self).inner()@.streams,
            final(self).inner()@.closed == old(self).inner()@.closed,
            final(self).inner()@.wf(),
    {
        let frames = self.take_outgoing();
        let mut out: Vec<u8> = Vec::new();
        encode_frames(&frames, &mut out);
        proof {
            assert(out@ =~= frames_bytes(frames_view(frames@)));
        }
        out
    }

    /// The driver saw the transport die.
    pub fn mark_closed(&mut self)
        ensures
            (*final(self)) is Tcp <==> (*old(self)) is Tcp,
            final(self).inner()@.streams == old(self).inner()@.streams,
            final(self).inner()@.outbox == old(self).inner()@.outbox,
            final(self).inner()@.closed,
            old(self).inner()@.wf() ==> final(self).inner()@.wf(),
    {
        match self {
            SendProtocols::Tcp(s) => s.mark_closed(),
            SendProtocols::Mpsc(s) => s.mark_closed(),
        }
    }
}

/// The receive half of a split connection, still bound to its variant.
pub enum RecvProtocols {
    Tcp(RecvState),
    Mpsc(RecvState),
}

impl RecvProtocols {
    /// The variant-independent receive state.
    pub open spec fn inner(self) -> RecvState {
        match self {
            RecvProtocols::Tcp(r) => r,
            RecvProtocols::Mpsc(r) => r,
        }
    }

    /// Feed one chunk of transport bytes; see `RecvState::on_chunk`.
    pub fn on_chunk(&mut self, chunk: &[u8])
        ensures
            (*final(self)) is Tcp <==> (*old(self)) is Tcp,
            ({
                let d = crate::frame::spec_decode_all(old(self).inner()@.wire + chunk@);
                &&& final(self).inner()@.wire == d.1
                &&& final(self).inner()@.inbox == old(self).inner()@.inbox
                    + crate::recv::events_of_frames(d.0)
                &&& final(self).inner()@.init_inbox == old(self).inner()@.init_inbox
                    + crate::recv::init_frames_of(d.0)
                &&& final(self).inner()@.closed == old(self).inner()@.closed
            }),
    {
        match self {
            RecvProtocols::Tcp(r) => r.on_chunk(chunk),
            RecvProtocols::Mpsc(r) => r.on_chunk(chunk),
        }
    }

    /// Feed one already-framed unit; see `RecvState::on_frame`.
    pub fn on_frame(&mut self, f: Frame)
        ensures
            (*final(self)) is Tcp <==> (*old(self)) is Tcp,
            final(self).inner()@.wire == old(self).inner()@.wire,
            final(self).inner()@.closed == old(self).inner()@.closed,
            crate::recv::frame_event(f@) matches Some(e) ==> final(self).inner()@.inbox == old(
                self,
            ).inner()@.inbox.push(e) && final(self).inner()@.init_inbox == old(
                self,
            ).inner()@.init_inbox,
            crate::recv::frame_event(f@) is None ==> final(self).inner()@.inbox == old(
                self,
            ).inner()@.inbox && final(self).inner()@.init_inbox == old(
                self,
            ).inner()@.init_inbox.push(f@),
    {
        match self {
            RecvProtocols::Tcp(r) => r.on_frame(f),
            RecvProtocols::Mpsc(r) => r.on_frame(f),
        }
    }

    /// Hand out the next buffered event; see `RecvState::recv`.  Buffered
    /// events survive transport closure: `Closed` only surfaces once the
    /// inbox is drained.
    pub fn recv(&mut self) -> (r: Result<Option<ProtocolEvent>, ProtocolError>)
        ensures
            (*final(self)) is Tcp <==> (*old(self)) is Tcp,
            final(self).inner()@.wire == old(self).inner()@.wire,
            final(self).inner()@.init_inbox == old(self).inner()@.init_inbox,
            final(self).inner()@.closed == old(self).inner()@.closed,
            old(self).inner()@.inbox.len() > 0 ==> (r matches Ok(Some(e)) && e@ == old(
                self,
            ).inner()@.inbox[0]) && final(self).inner()@.inbox == old(self).inner()@.inbox.skip(1),
            old(self).inner()@.inbox.len() == 0 ==> final(self).inner()@.inbox == old(
                self,
            ).inner()@.inbox,
            old(self).inner()@.inbox.len() == 0 && old(self).inner()@.closed ==> r == Err::<
                Option<ProtocolEvent>,
                ProtocolError,
            >(ProtocolError::Closed),
            old(self).inner()@.inbox.len() == 0 && !old(self).inner()@.closed ==> r == Ok::<
                Option<ProtocolEvent>,
                ProtocolError,
            >(None),
    {
        match self {
            RecvProtocols::Tcp(r) => r.recv(),
            RecvProtocols::Mpsc(r) => r.recv(),
        }
    }

    /// The driver saw the transport close; buffered events stay readable.
    pub fn mark_closed(&mut self)
        ensures
            (*final(self)) is Tcp <==> (*old(self)) is Tcp,
            final(self).inner()@.wire == old(self).inner()@.wire,
            final(self).inner()@.inbox == old(self).inner()@.inbox,
            final(self).inner()@.init_inbox == old(self).inner()@.init_inbox,
            final(self).inner()@.closed,
    {
        match self {
            RecvProtocols::Tcp(r) => r.mark_closed(),
            RecvProtocols::Mpsc(r) => r.mark_closed(),
        }
    }
}

} // verus!
