//! The handshake: two independently progressing state machines that
//! negotiate peer identity and a shared secret before multiplexed traffic
//! begins.
//!
//! Exactly one side is the initiator, fixed by connection direction.  The
//! initiator opens with a `Hello` carrying its protocol version, identity
//! and proposed secret; the responder answers a matching version with an
//! `Accept` carrying its own identity, the accepted secret and the stream id
//! offset granted to the initiator, and answers a mismatch with a `Reject`.
//! Because each side only reacts to what has arrived, the two `initialize`
//! calls may start in either order without deadlock.
use crate::frame::{Frame, FrameV};
use crate::types::{InitError, Pid, Sid};
use vstd::prelude::*;

verus! {

/// The protocol version spoken by this crate; both sides must match.
pub const PROTOCOL_VERSION: u64 = 6;

/// First stream id the initiator may open; stream ids it allocates step by
/// two, so the two sides never collide.
pub const STREAM_ID_OFFSET1: u64 = 1;

/// First stream id the responder may open.
pub const STREAM_ID_OFFSET2: u64 = 2;

/// What a finished handshake established: the peer's identity, this side's
/// first stream id, and the agreed secret.
#[derive(Clone, Copy, PartialEq, Eq, Structural, Debug)]
pub struct HandshakeResult {
    pub pid: Pid,
    pub sid: Sid,
    pub secret: u128,
}

/// Where one side of the handshake stands.
#[derive(Clone, Copy, PartialEq, Eq, Structural, Debug)]
pub enum InitPhase {
    /// Initiator: `Hello` sent, waiting for the answer.
    AwaitAccept,
    /// Responder: waiting for the opener.
    AwaitHello,
    /// Finished successfully.
    Done,
    /// Finished in failure; the connection is dead.
    Failed,
}

/// One side of the handshake.
#[derive(Clone, Copy, PartialEq, Eq, Structural, Debug)]
pub struct InitMachine {
    pub phase: InitPhase,
    pub initiator: bool,
    pub local_pid: Pid,
    pub secret: u128,
}

/// What one side sends back, where it lands, and what it concludes after
/// one frame from the peer.
#[verifier::ext_equal]
pub struct StepOut {
    pub m: InitMachine,
    pub out: Option<FrameV>,
    pub outcome: Option<Result<HandshakeResult, InitError>>,
}

/// The handshake transition: what `InitMachine::on_frame` does.
pub open spec fn machine_step(m: InitMachine, f: FrameV) -> StepOut {
    match m.phase {
        InitPhase::AwaitAccept => match f {
            FrameV::Accept { pid, secret, initial_sid } => StepOut {
                m: InitMachine { phase: InitPhase::Done, ..m },
                out: None,
                outcome: Some(
                    Ok(
                        HandshakeResult {
                            pid: Pid { id: pid },
                            sid: Sid { id: initial_sid },
                            secret,
                        },
                    ),
                ),
            },
            _ => StepOut {
                m: InitMachine { phase: InitPhase::Failed, ..m },
                out: None,
                outcome: Some(Err(InitError::Incompatible)),
            },
        },
        InitPhase::AwaitHello => match f {
            FrameV::Hello { version, pid, secret } => {
                if version == PROTOCOL_VERSION {
                    StepOut {
                        m: InitMachine { phase: InitPhase::Done, ..m },
                        out: Some(
                            FrameV::Accept {
                                pid: m.local_pid.id,
                                secret,
                                initial_sid: STREAM_ID_OFFSET1,
                            },
                        ),
                        outcome: Some(
                            Ok(
                                HandshakeResult {
                                    pid: Pid { id: pid },
                                    sid: Sid { id: STREAM_ID_OFFSET2 },
                                    secret,
                                },
                            ),
                        ),
                    }
                } else {
                    StepOut {
                        m: InitMachine { phase: InitPhase::Failed, ..m },
                        out: Some(FrameV::Reject),
                        outcome: Some(Err(InitError::Incompatible)),
                    }
                }
            },
            _ => StepOut {
                m: InitMachine { phase: InitPhase::Failed, ..m },
                out: None,
                outcome: Some(Err(InitError::Incompatible)),
            },
        },
        InitPhase::Done => StepOut { m, out: None, outcome: None },
        InitPhase::Failed => StepOut { m, out: None, outcome: None },
    }
}

/// Whatever frame the machine answers with can go on the wire.
pub proof fn lemma_machine_step_out_valid(m: InitMachine, f: FrameV)
    ensures
        machine_step(m, f).out matches Some(g) ==> crate::frame::valid_frame(g),
{
}

impl InitMachine {
    /// Start the handshake on one side.  The initiator's opening `Hello` is
    /// returned for the transport; the responder sends nothing yet.
    pub fn start(initiator: bool, local_pid: Pid, secret: u128) -> (r: (InitMachine, Option<Frame>))
        ensures
            r.0.initiator == initiator,
            r.0.local_pid == local_pid,
            r.0.secret == secret,
            initiator ==> r.0.phase == InitPhase::AwaitAccept && (r.1 matches Some(f) && f@
                == FrameV::Hello {
                version: PROTOCOL_VERSION,
                pid: local_pid.id,
                secret,
            }),
            !initiator ==> r.0.phase == InitPhase::AwaitHello && r.1 is None,
    {
        if initiator {
            (
                InitMachine { phase: InitPhase::AwaitAccept, initiator, local_pid, secret },
                Some(
                    Frame::Hello { version: PROTOCOL_VERSION, pid: local_pid.id, secret },
                ),
            )
        } else {
            (InitMachine { phase: InitPhase::AwaitHello, initiator, local_pid, secret }, None)
        }
    }

    /// React to one handshake frame from the peer: possibly a frame to send
    /// back, and the outcome once this side is finished.
    ///
    /// The initiator accepts an `Accept` (taking the responder's identity,
    /// the granted stream id and the accepted secret) and fails on a
    /// `Reject` or anything unexpected.  The responder accepts a `Hello`
    /// with a matching version, answering with its `Accept` and keeping the
    /// initiator's proposed secret as the agreed one; a version mismatch is
    /// answered with `Reject`.  Every failure is `Incompatible`: a transport
    /// death is the driver's to report, and no timeout is enforced here.
    pub fn on_frame(&mut self, f: Frame) -> (r: (
        Option<Frame>,
        Option<Result<HandshakeResult, InitError>>,
    ))
        ensures
            ({
                let st = machine_step(*old(self), f@);
                &&& *final(self) == st.m
                &&& crate::frame::opt_frame_view(r.0) == st.out
                &&& r.1 == st.outcome
            }),
    {
        match self.phase {
            InitPhase::AwaitAccept => {
                match f {
                    Frame::Accept { pid, secret, initial_sid } => {
                        self.phase = InitPhase::Done;
                        (
                            None,
                            Some(
                                Ok(
                                    HandshakeResult {
                                        pid: Pid { id: pid },
                                        sid: Sid { id: initial_sid },
                                        secret,
                                    },
                                ),
                            ),
                        )
                    },
                    _ => {
                        self.phase = InitPhase::Failed;
                        (None, Some(Err(InitError::Incompatible)))
                    },
                }
            },
            InitPhase::AwaitHello => {
                match f {
                    Frame::Hello { version, pid, secret } => {
                        if version == PROTOCOL_VERSION {
                            self.phase = InitPhase::Done;
                            (
                                Some(
                                    Frame::Accept {
                                        pid: self.local_pid.id,
                                        secret,
                                        initial_sid: STREAM_ID_OFFSET1,
                                    },
                                ),
                                Some(
                                    Ok(
                                        HandshakeResult {
                                            pid: Pid { id: pid },
                                            sid: Sid { id: STREAM_ID_OFFSET2 },
                                            secret,
                                        },
                                    ),
                                ),
                            )
                        } else {
                            self.phase = InitPhase::Failed;
                            (Some(Frame::Reject), Some(Err(InitError::Incompatible)))
                        }
                    },
                    _ => {
                        self.phase = InitPhase::Failed;
                        (None, Some(Err(InitError::Incompatible)))
                    },
                }
            },
            InitPhase::Done => (None, None),
            InitPhase::Failed => (None, None),
        }
    }
}

} // verus!
