//! The receive half of a connection: reassembles wire bytes into frames and
//! hands events out in arrival order.
//!
//! A driver feeds whatever the transport produced — byte chunks cut at
//! arbitrary boundaries for a stream socket, whole frames for the in-process
//! channel — and marks the half closed when the transport reports closure.
//! `recv` keeps returning buffered events after that: closure only surfaces
//! once everything that arrived has been handed out.
use crate::frame::{spec_decode_all, Frame, FrameV};
use crate::types::{EventV, ProtocolError, ProtocolEvent, Sid};
use vstd::prelude::*;

verus! {

/// The event a post-handshake frame carries, if any; handshake frames carry
/// none.
pub open spec fn frame_event(f: FrameV) -> Option<EventV> {
    match f {
        FrameV::OpenStream { sid, prio, promises, guaranteed_bandwidth } => Some(
            EventV::OpenStream { sid: Sid { id: sid }, prio, promises, guaranteed_bandwidth },
        ),
        FrameV::CloseStream { sid } => Some(EventV::CloseStream { sid: Sid { id: sid } }),
        FrameV::Message { sid, data } => Some(EventV::Message { sid: Sid { id: sid }, data }),
        FrameV::Shutdown => Some(EventV::Shutdown),
        _ => None,
    }
}

/// The events a frame sequence carries, in order.
pub open spec fn events_of_frames(fs: Seq<FrameV>) -> Seq<EventV>
    decreases fs.len(),
{
    if fs.len() == 0 {
        Seq::empty()
    } else {
        match frame_event(fs[0]) {
            Some(e) => seq![e] + events_of_frames(fs.skip(1)),
            None => events_of_frames(fs.skip(1)),
        }
    }
}

/// The handshake frames of a frame sequence, in order.
pub open spec fn init_frames_of(fs: Seq<FrameV>) -> Seq<FrameV>
    decreases fs.len(),
{
    if fs.len() == 0 {
        Seq::empty()
    } else {
        match frame_event(fs[0]) {
            Some(_) => init_frames_of(fs.skip(1)),
            None => seq![fs[0]] + init_frames_of(fs.skip(1)),
        }
    }
}

/// The view of a `recv` result.
pub open spec fn recv_result_view(r: Result<Option<ProtocolEvent>, ProtocolError>) -> Result<
    Option<EventV>,
    ProtocolError,
> {
    match r {
        Ok(Some(e)) => Ok(Some(e@)),
        Ok(None) => Ok(None),
        Err(e) => Err(e),
    }
}

/// The `recv` transition: what one `recv` call does and returns.
pub open spec fn recv_model(rv: RecvStateV) -> (RecvStateV, Result<Option<EventV>, ProtocolError>) {
    if rv.inbox.len() > 0 {
        (RecvStateV { inbox: rv.inbox.skip(1), ..rv }, Ok(Some(rv.inbox[0])))
    } else if rv.closed {
        (rv, Err(ProtocolError::Closed))
    } else {
        (rv, Ok(None))
    }
}

/// The transport-independent core of a receive half.
pub struct RecvState {
    /// Bytes that arrived but do not yet form a complete frame.
    pub wire: Vec<u8>,
    /// Decoded events ready for `recv`, oldest first.
    pub inbox: Vec<ProtocolEvent>,
    /// Handshake frames, routed to the handshake state machine instead of
    /// `recv`.
    pub init_inbox: Vec<Frame>,
    /// The transport reported closure; already-buffered data stays
    /// readable.
    pub closed: bool,
}

/// The mathematical shape of a receive half.
#[verifier::ext_equal]
pub struct RecvStateV {
    pub wire: Seq<u8>,
    pub inbox: Seq<EventV>,
    pub init_inbox: Seq<FrameV>,
    pub closed: bool,
}

impl View for RecvState {
    type V = RecvStateV;

    open spec fn view(&self) -> RecvStateV {
        RecvStateV {
            wire: self.wire@,
            inbox: self.inbox@.map_values(|e: ProtocolEvent| e@),
            init_inbox: self.init_inbox@.map_values(|f: Frame| f@),
            closed: self.closed,
        }
    }
}

impl RecvState {
    /// A fresh receive half with nothing buffered.
    pub fn new() -> (r: RecvState)
        ensures
            r@.wire == Seq::<u8>::empty(),
            r@.inbox == Seq::<EventV>::empty(),
            r@.init_inbox == Seq::<FrameV>::empty(),
            !r@.closed,
    {
        let r = RecvState { wire: Vec::new(), inbox: Vec::new(), init_inbox: Vec::new(), closed: false };
        proof {
            assert(r@.inbox =~= Seq::<EventV>::empty());
            assert(r@.init_inbox =~= Seq::<FrameV>::empty());
        }
        r
    }

    /// Feed one already-framed unit from an in-process transport.
    pub fn on_frame(&mut self, f: Frame)
        ensures
            final(self)@.wire == old(self)@.wire,
            final(self)@.closed == old(self)@.closed,
            frame_event(f@) matches Some(e) ==> final(self)@.inbox == old(self)@.inbox.push(e)
                && final(self)@.init_inbox == old(self)@.init_inbox,
            frame_event(f@) is None ==> final(self)@.inbox == old(self)@.inbox
                && final(self)@.init_inbox == old(self)@.init_inbox.push(f@),
    {
        let ghost fv = f@;
        match f {
            Frame::OpenStream { sid, prio, promises, guaranteed_bandwidth } => {
                self.inbox.push(
                    ProtocolEvent::OpenStream {
                        sid: Sid { id: sid },
                        prio,
                        promises,
                        guaranteed_bandwidth,
                    },
                );
                proof {
                    assert(self@.inbox =~= old(self)@.inbox.push(
                        EventV::OpenStream {
                            sid: Sid { id: sid },
                            prio,
                            promises,
                            guaranteed_bandwidth,
                        },
                    ));
                }
            },
            Frame::CloseStream { sid } => {
                self.inbox.push(ProtocolEvent::CloseStream { sid: Sid { id: sid } });
                proof {
                    assert(self@.inbox =~= old(self)@.inbox.push(
                        EventV::CloseStream { sid: Sid { id: sid } },
                    ));
                }
            },
            Frame::Message { sid, data } => {
                let ghost dv = data@;
                self.inbox.push(ProtocolEvent::Message { sid: Sid { id: sid }, data });
                proof {
                    assert(self@.inbox =~= old(self)@.inbox.push(
                        EventV::Message { sid: Sid { id: sid }, data: dv },
                    ));
                }
            },
            Frame::Shutdown => {
                self.inbox.push(ProtocolEvent::Shutdown);
                proof {
                    assert(self@.inbox =~= old(self)@.inbox.push(EventV::Shutdown));
                }
            },
            _ => {
                self.init_inbox.push(f);
                proof {
                    assert(self@.init_inbox =~= old(self)@.init_inbox.push(fv));
                }
            },
        }
    }

    /// Feed one chunk of transport bytes, cut wherever the transport cut it:
    /// every frame completed by the chunk is decoded, in order, and its
    /// event (or handshake frame) queued; a trailing partial frame waits for
    /// the next chunk.
    #[verifier::loop_isolation(false)]
    pub fn on_chunk(&mut self, chunk: &[u8])
        ensures
            ({
                let d = spec_decode_all(old(self)@.wire + chunk@);
                &&& final(self)@.wire == d.1
                &&& final(self)@.inbox == old(self)@.inbox + events_of_frames(d.0)
                &&& final(self)@.init_inbox == old(self)@.init_inbox + init_frames_of(d.0)
                &&& final(self)@.closed == old(self)@.closed
            }),
    {
        let mut arrived = vstd::slice::slice_to_vec(chunk);
        self.wire.append(&mut arrived);
        let mut frames = crate::frame::drain_frames(&mut self.wire);
        let ghost fsv = crate::frame::frames_view(frames@);
        let ghost inbox0 = self@.inbox;
        let ghost init0 = self@.init_inbox;
        proof {
            assert(inbox0 + events_of_frames(fsv) =~= self@.inbox + events_of_frames(
                crate::frame::frames_view(frames@),
            ));
            assert(init0 + init_frames_of(fsv) =~= self@.init_inbox + init_frames_of(
                crate::frame::frames_view(frames@),
            ));
        }
        while frames.len() > 0
            invariant
                inbox0 + events_of_frames(fsv) == self@.inbox + events_of_frames(
                    crate::frame::frames_view(frames@),
                ),
                init0 + init_frames_of(fsv) == self@.init_inbox + init_frames_of(
                    crate::frame::frames_view(frames@),
                ),
                self@.wire == spec_decode_all(old(self)@.wire + chunk@).1,
                self@.closed == old(self)@.closed,
            decreases frames@.len(),
        {
            let ghost rem_pre = crate::frame::frames_view(frames@);
            let ghost before = self@;
            let f = frames.remove(0);
            proof {
                assert(f@ == rem_pre[0]);
                assert(crate::frame::frames_view(frames@) =~= rem_pre.skip(1));
            }
            self.on_frame(f);
            proof {
                match frame_event(rem_pre[0]) {
                    Some(e) => {
                        assert(before.inbox + (seq![e] + events_of_frames(rem_pre.skip(1)))
                            =~= before.inbox.push(e) + events_of_frames(rem_pre.skip(1)));
                    },
                    None => {
                        assert(before.init_inbox + (seq![rem_pre[0]] + init_frames_of(
                            rem_pre.skip(1),
                        )) =~= before.init_inbox.push(rem_pre[0]) + init_frames_of(
                            rem_pre.skip(1),
                        ));
                    },
                }
            }
        }
        proof {
            assert(crate::frame::frames_view(frames@).len() == 0);
            assert(events_of_frames(crate::frame::frames_view(frames@))
                =~= Seq::<EventV>::empty());
            assert(init_frames_of(crate::frame::frames_view(frames@))
                =~= Seq::<FrameV>::empty());
            assert(self@.inbox =~= inbox0 + events_of_frames(fsv));
            assert(self@.init_inbox =~= init0 + init_frames_of(fsv));
        }
    }

    /// Hand out the next buffered event.
    ///
    /// Returns the oldest event while one is buffered, `Ok(None)` while the
    /// transport is alive but nothing has arrived, and `Closed` only when
    /// the transport is gone *and* everything buffered has been handed out:
    /// a dropped peer cannot make buffered data unreadable.
    pub fn recv(&mut self) -> (r: Result<Option<ProtocolEvent>, ProtocolError>)
        ensures
            final(self)@ == recv_model(old(self)@).0,
            recv_result_view(r) == recv_model(old(self)@).1,
            final(self)@.wire == old(self)@.wire,
            final(self)@.init_inbox == old(self)@.init_inbox,
            final(self)@.closed == old(self)@.closed,
            old(self)@.inbox.len() > 0 ==> (r matches Ok(Some(e)) && e@ == old(self)@.inbox[0])
                && final(self)@.inbox == old(self)@.inbox.skip(1),
            old(self)@.inbox.len() == 0 ==> final(self)@.inbox == old(self)@.inbox,
            old(self)@.inbox.len() == 0 && old(self)@.closed ==> r == Err::<
                Option<ProtocolEvent>,
                ProtocolError,
            >(ProtocolError::Closed),
            old(self)@.inbox.len() == 0 && !old(self)@.closed ==> r == Ok::<
                Option<ProtocolEvent>,
                ProtocolError,
            >(None),
    {
        if self.inbox.len() > 0 {
            let e = self.inbox.remove(0);
            proof {
                assert(final(self)@.inbox =~= old(self)@.inbox.skip(1));
            }
            Ok(Some(e))
        } else if self.closed {
            Err(ProtocolError::Closed)
        } else {
            Ok(None)
        }
    }

    /// Take the pending handshake frames, oldest first, for the handshake
    /// state machine.
    pub fn take_init_frames(&mut self) -> (r: Vec<Frame>)
        ensures
            crate::frame::frames_view(r@) == old(self)@.init_inbox,
            final(self)@.init_inbox == Seq::<FrameV>::empty(),
            final(self)@.wire == old(self)@.wire,
            final(self)@.inbox == old(self)@.inbox,
            final(self)@.closed == old(self)@.closed,
    {
        let mut v: Vec<Frame> = Vec::new();
        core::mem::swap(&mut self.init_inbox, &mut v);
        proof {
            assert(self@.init_inbox =~= Seq::<FrameV>::empty());
        }
        v
    }

    /// The driver saw the transport close; buffered events stay readable.
    pub fn mark_closed(&mut self)
        ensures
            final(self)@.wire == old(self)@.wire,
            final(self)@.inbox == old(self)@.inbox,
            final(self)@.init_inbox == old(self)@.init_inbox,
            final(self)@.closed,
    {
        self.closed = true;
    }
}

} // verus!
