//! The send half of a connection: a multiplexer that turns protocol events
//! into wire frames.
//!
//! Control events (open, close, shutdown) are framed immediately and bypass
//! the bandwidth budget; message payloads are queued per stream and only
//! leave at `flush` time, which drains queues in drain order — lower `prio`
//! first, among equal priorities the larger guaranteed-bandwidth hint first,
//! ties in arrival order — as far as the budget allows.  Per-stream order is
//! preserved throughout: a stream's message frames are always a prefix of
//! its queue, in queue order.
use crate::frame::{frames_view, valid_frame, valid_frames, Frame, FrameV};
use crate::types::{Bandwidth, ProtocolError, ProtocolEvent, Promises, Sid};
use vstd::prelude::*;

verus! {

/// One open outbound stream.
pub struct StreamState {
    pub sid: u64,
    pub prio: u8,
    pub promises: Promises,
    pub guaranteed_bandwidth: u64,
    /// Payloads accepted by `send` and not yet flushed, oldest first.
    pub queued: Vec<Vec<u8>>,
    /// A close was requested; the close frame leaves once the queue drains.
    pub closing: bool,
}

/// The mathematical shape of one outbound stream.
#[verifier::ext_equal]
pub struct StreamV {
    pub sid: u64,
    pub prio: u8,
    pub promises: Promises,
    pub guaranteed_bandwidth: u64,
    pub queued: Seq<Seq<u8>>,
    pub closing: bool,
}

impl View for StreamState {
    type V = StreamV;

    open spec fn view(&self) -> StreamV {
        StreamV {
            sid: self.sid,
            prio: self.prio,
            promises: self.promises,
            guaranteed_bandwidth: self.guaranteed_bandwidth,
            queued: self.queued@.map_values(|v: Vec<u8>| v@),
            closing: self.closing,
        }
    }
}

/// The transport-independent core of a send half.
pub struct SendState {
    pub streams: Vec<StreamState>,
    /// Frames ready for the transport, oldest first; a driver takes them
    /// with `take_outgoing`.
    pub outbox: Vec<Frame>,
    /// The transport is gone (write failure, or a local shutdown): every
    /// later `send` and `flush` fails with `Closed`.
    pub closed: bool,
}

/// The mathematical shape of a send half.
#[verifier::ext_equal]
pub struct SendStateV {
    pub streams: Seq<StreamV>,
    pub outbox: Seq<FrameV>,
    pub closed: bool,
}

impl View for SendState {
    type V = SendStateV;

    open spec fn view(&self) -> SendStateV {
        SendStateV {
            streams: self.streams@.map_values(|s: StreamState| s@),
            outbox: frames_view(self.outbox@),
            closed: self.closed,
        }
    }
}

/// Index of the stream with id `sid`, or `-1` when no stream has it.
pub open spec fn find_stream(ss: Seq<StreamV>, sid: u64) -> int
    decreases ss.len(),
{
    if ss.len() == 0 {
        -1
    } else if ss[0].sid == sid {
        0
    } else {
        let r = find_stream(ss.skip(1), sid);
        if r < 0 {
            -1
        } else {
            r + 1
        }
    }
}

/// The drain order: stream `a` comes no later than stream `b` when it is
/// more urgent (lower `prio`), or equally urgent with at least as large a
/// guaranteed-bandwidth hint.  The hint steers prioritization among equal
/// priorities and enforces nothing; ties on both keep arrival order.
pub open spec fn stream_le(a: StreamV, b: StreamV) -> bool {
    a.prio < b.prio || (a.prio == b.prio && a.guaranteed_bandwidth >= b.guaranteed_bandwidth)
}

/// Whether stream `s` drains before a newly opened stream with priority
/// `prio` and guaranteed-bandwidth hint `gb`.
pub open spec fn key_before(s: StreamV, prio: u8, gb: u64) -> bool {
    s.prio < prio || (s.prio == prio && s.guaranteed_bandwidth >= gb)
}

/// Where a newly opened stream is inserted: after every stream that drains
/// before its key, so ties keep arrival order.
pub open spec fn insert_pos(ss: Seq<StreamV>, prio: u8, gb: u64) -> int
    decreases ss.len(),
{
    if ss.len() == 0 {
        0
    } else if key_before(ss[0], prio, gb) {
        1 + insert_pos(ss.skip(1), prio, gb)
    } else {
        0
    }
}

/// Every queued payload of every stream fits the wire format's length
/// prefix.
pub open spec fn streams_msgs_valid(ss: Seq<StreamV>) -> bool {
    forall|i: int, k: int|
        0 <= i < ss.len() && 0 <= k < ss[i].queued.len() ==> #[trigger] ss[i].queued[k].len()
            <= u32::MAX
}

/// Stream ids are pairwise distinct.
pub open spec fn streams_unique(ss: Seq<StreamV>) -> bool {
    forall|i: int, j: int| 0 <= i < j < ss.len() ==> #[trigger] ss[i].sid != #[trigger] ss[j].sid
}

/// Streams stand in drain order, most urgent first.
pub open spec fn streams_sorted(ss: Seq<StreamV>) -> bool {
    forall|i: int, j: int| 0 <= i <= j < ss.len() ==> stream_le(#[trigger] ss[i], #[trigger] ss[j])
}

impl SendStateV {
    /// Well-formedness: what `SendState::new` establishes and every method
    /// preserves.
    pub open spec fn wf(self) -> bool {
        &&& streams_unique(self.streams)
        &&& streams_sorted(self.streams)
        &&& streams_msgs_valid(self.streams)
        &&& valid_frames(self.outbox)
    }
}

/// What one event does to a send half that is still open.  The branches
/// that leave the state unchanged (a duplicate open, a message or close for
/// an absent or closing stream) exist for `notify_from_recv`, which takes
/// whatever the peer produced; `send` itself refuses those inputs by
/// `event_valid`.
pub open spec fn send_model(s: SendStateV, e: crate::types::EventV) -> SendStateV {
    match e {
        crate::types::EventV::OpenStream { sid, prio, promises, guaranteed_bandwidth } => {
            if find_stream(s.streams, sid.id) >= 0 {
                s
            } else {
                let pos = insert_pos(s.streams, prio, guaranteed_bandwidth);
                SendStateV {
                    streams: s.streams.insert(
                        pos,
                        StreamV {
                            sid: sid.id,
                            prio,
                            promises,
                            guaranteed_bandwidth,
                            queued: Seq::empty(),
                            closing: false,
                        },
                    ),
                    outbox: s.outbox.push(
                        FrameV::OpenStream { sid: sid.id, prio, promises, guaranteed_bandwidth },
                    ),
                    closed: false,
                }
            }
        },
        crate::types::EventV::CloseStream { sid } => {
            let i = find_stream(s.streams, sid.id);
            if i < 0 {
                s
            } else if s.streams[i].queued.len() == 0 {
                SendStateV {
                    streams: s.streams.remove(i),
                    outbox: s.outbox.push(FrameV::CloseStream { sid: sid.id }),
                    closed: false,
                }
            } else {
                SendStateV {
                    streams: s.streams.update(i, StreamV { closing: true, ..s.streams[i] }),
                    outbox: s.outbox,
                    closed: false,
                }
            }
        },
        crate::types::EventV::Shutdown => {
            SendStateV { streams: s.streams, outbox: s.outbox.push(FrameV::Shutdown), closed: true }
        },
        crate::types::EventV::Message { sid, data } => {
            let i = find_stream(s.streams, sid.id);
            if i >= 0 && !s.streams[i].closing {
                SendStateV {
                    streams: s.streams.update(
                        i,
                        StreamV { queued: s.streams[i].queued.push(data), ..s.streams[i] },
                    ),
                    outbox: s.outbox,
                    closed: false,
                }
            } else {
                s
            }
        },
    }
}

/// What a caller may hand to `send`: an open carries a fresh stream id, a
/// message addresses an open stream that is not closing, a close addresses
/// an open stream, and a shutdown is always in season.  These are the
/// protocol's lifecycle
/// obligations (a stream id is assigned by its opener and used between open
/// and close); `send` accepting an event means the event is really taken,
/// never silently dropped.
pub open spec fn event_valid(ss: Seq<StreamV>, e: crate::types::EventV) -> bool {
    match e {
        crate::types::EventV::OpenStream { sid, .. } => find_stream(ss, sid.id) < 0,
        crate::types::EventV::Message { sid, .. } => {
            let i = find_stream(ss, sid.id);
            i >= 0 && !ss[i].closing
        },
        crate::types::EventV::CloseStream { sid } => find_stream(ss, sid.id) >= 0,
        crate::types::EventV::Shutdown => true,
    }
}

/// How many whole payloads at the head of `q` fit within `budget` bytes.
pub open spec fn drain_k(q: Seq<Seq<u8>>, budget: int) -> nat
    decreases q.len(),
{
    if q.len() == 0 {
        0
    } else if q[0].len() <= budget {
        (1 + drain_k(q.skip(1), budget - q[0].len())) as nat
    } else {
        0
    }
}

/// Total payload bytes of the first `k` entries of `q`.
pub open spec fn drain_cost(q: Seq<Seq<u8>>, k: nat) -> int
    decreases k,
{
    if k == 0 || q.len() == 0 {
        0
    } else {
        q[0].len() + drain_cost(q.skip(1), (k - 1) as nat)
    }
}

/// The message frames carrying the first `k` payloads of `q` on stream
/// `sid`, in queue order.
pub open spec fn msg_frames(sid: u64, q: Seq<Seq<u8>>, k: nat) -> Seq<FrameV> {
    Seq::new(k, |i: int| FrameV::Message { sid, data: q[i] })
}

/// What one flush does: walk the streams in drain order (`stream_le`, most
/// urgent first), greedily drain each queue as far as the remaining budget
/// allows, emit the close frame of a fully drained closing stream, and
/// report the bytes consumed.  Payloads leave whole: one that exceeds what
/// remains of the budget stays queued and the walk moves on, so a smaller,
/// less urgent payload may still use the remainder.
pub open spec fn flush_model(ss: Seq<StreamV>, budget: int) -> (Seq<FrameV>, Seq<StreamV>, int)
    decreases ss.len(),
{
    if ss.len() == 0 {
        (Seq::empty(), Seq::empty(), 0)
    } else {
        let s = ss[0];
        let k = drain_k(s.queued, budget);
        let cost = drain_cost(s.queued, k);
        let frames = msg_frames(s.sid, s.queued, k);
        let r = flush_model(ss.skip(1), budget - cost);
        if k == s.queued.len() && s.closing {
            (frames + seq![FrameV::CloseStream { sid: s.sid }] + r.0, r.1, cost + r.2)
        } else {
            (
                frames + r.0,
                seq![StreamV { queued: s.queued.skip(k as int), ..s }] + r.1,
                cost + r.2,
            )
        }
    }
}

/// Greedy drain never spends more than the budget.
pub proof fn lemma_drain_bounds(q: Seq<Seq<u8>>, budget: int)
    requires
        budget >= 0,
    ensures
        0 <= drain_cost(q, drain_k(q, budget)) <= budget,
        drain_k(q, budget) <= q.len(),
    decreases q.len(),
{
    if q.len() != 0 && q[0].len() <= budget {
        lemma_drain_bounds(q.skip(1), budget - q[0].len());
    }
}

/// What `flush(budget, dt)` reports as consumed is never more than
/// `budget`.
pub proof fn lemma_flush_model_budget(ss: Seq<StreamV>, budget: int)
    requires
        budget >= 0,
    ensures
        0 <= flush_model(ss, budget).2 <= budget,
    decreases ss.len(),
{
    if ss.len() != 0 {
        let s = ss[0];
        let k = drain_k(s.queued, budget);
        lemma_drain_bounds(s.queued, budget);
        lemma_flush_model_budget(ss.skip(1), budget - drain_cost(s.queued, k));
    }
}

/// The greedy count never exceeds the queue length.
pub proof fn lemma_drain_k_le(q: Seq<Seq<u8>>, budget: int)
    ensures
        drain_k(q, budget) <= q.len(),
    decreases q.len(),
{
    if q.len() != 0 && q[0].len() <= budget {
        lemma_drain_k_le(q.skip(1), budget - q[0].len());
    }
}

/// One more drained payload costs exactly that payload's length.
pub proof fn lemma_drain_cost_step(q: Seq<Seq<u8>>, j: nat)
    requires
        j < q.len(),
    ensures
        drain_cost(q, j + 1) == drain_cost(q, j) + q[j as int].len(),
    decreases j,
{
    if j == 0 {
        assert(drain_cost(q, 1) == q[0].len() + drain_cost(q.skip(1), 0));
    } else {
        assert(q.skip(1)[j - 1] == q[j as int]);
        lemma_drain_cost_step(q.skip(1), (j - 1) as nat);
        assert(drain_cost(q, j + 1) == q[0].len() + drain_cost(q.skip(1), j));
        assert(drain_cost(q, j) == q[0].len() + drain_cost(q.skip(1), (j - 1) as nat));
    }
}

/// Pushing a valid frame keeps a frame sequence valid.
pub proof fn lemma_valid_frames_push(fs: Seq<FrameV>, f: FrameV)
    requires
        valid_frames(fs),
        valid_frame(f),
    ensures
        valid_frames(fs.push(f)),
{
    assert forall|i: int| 0 <= i < fs.push(f).len() implies valid_frame(
        #[trigger] fs.push(f)[i],
    ) by {
        if i < fs.len() {
            assert(fs.push(f)[i] == fs[i]);
        } else {
            assert(fs.push(f)[i] == f);
        }
    }
}

/// A flush of a well-formed stream list emits only wire-encodable frames and
/// leaves a well-formed stream list whose ids and priorities all come from
/// the input.
pub proof fn lemma_flush_model_wf(ss: Seq<StreamV>, budget: int)
    requires
        streams_unique(ss),
        streams_sorted(ss),
        streams_msgs_valid(ss),
    ensures
        ({
            let m = flush_model(ss, budget);
            &&& streams_unique(m.1)
            &&& streams_sorted(m.1)
            &&& streams_msgs_valid(m.1)
            &&& valid_frames(m.0)
            &&& forall|i: int|
                0 <= i < m.1.len() ==> exists|j: int|
                    0 <= j < ss.len() && #[trigger] m.1[i].sid == ss[j].sid && m.1[i].prio
                        == ss[j].prio && m.1[i].guaranteed_bandwidth == ss[j].guaranteed_bandwidth
        }),
    decreases ss.len(),
{
    let m = flush_model(ss, budget);
    if ss.len() == 0 {
    } else {
        let s = ss[0];
        let k = drain_k(s.queued, budget);
        let cost = drain_cost(s.queued, k);
        lemma_drain_k_le(s.queued, budget);
        assert(forall|i: int|
            0 <= i < ss.skip(1).len() ==> ss.skip(1)[i] == #[trigger] ss[i + 1]);
        assert(streams_unique(ss.skip(1)));
        assert(streams_sorted(ss.skip(1)));
        assert(streams_msgs_valid(ss.skip(1)));
        lemma_flush_model_wf(ss.skip(1), budget - cost);
        let r = flush_model(ss.skip(1), budget - cost);
        let frames = msg_frames(s.sid, s.queued, k);
        assert(valid_frames(frames)) by {
            assert forall|i: int| 0 <= i < frames.len() implies valid_frame(
                #[trigger] frames[i],
            ) by {
                assert(ss[0].queued[i].len() <= u32::MAX);
            }
        }
        if k == s.queued.len() && s.closing {
            assert(valid_frames(m.0)) by {
                assert forall|i: int| 0 <= i < m.0.len() implies valid_frame(
                    #[trigger] m.0[i],
                ) by {
                    if i < frames.len() {
                        assert(m.0[i] == frames[i]);
                    } else if i == frames.len() {
                        assert(m.0[i] == FrameV::CloseStream { sid: s.sid });
                    } else {
                        assert(m.0[i] == r.0[i - frames.len() - 1]);
                    }
                }
            }
            assert forall|i: int| 0 <= i < m.1.len() implies exists|j: int|
                0 <= j < ss.len() && #[trigger] m.1[i].sid == ss[j].sid && m.1[i].prio
                    == ss[j].prio && m.1[i].guaranteed_bandwidth == ss[j].guaranteed_bandwidth by {
                let j0 = choose|j0: int|
                    0 <= j0 < ss.skip(1).len() && r.1[i].sid == ss.skip(1)[j0].sid && r.1[i].prio
                        == ss.skip(1)[j0].prio && r.1[i].guaranteed_bandwidth == ss.skip(
                        1,
                    )[j0].guaranteed_bandwidth;
                assert(m.1[i].sid == ss[j0 + 1].sid && m.1[i].prio == ss[j0 + 1].prio && m.1[
                    i
                ].guaranteed_bandwidth == ss[j0 + 1].guaranteed_bandwidth);
            }
        } else {
            let s1 = StreamV { queued: s.queued.skip(k as int), ..s };
            assert(m.1 == seq![s1] + r.1);
            assert forall|i: int| 0 <= i < m.1.len() implies exists|j: int|
                0 <= j < ss.len() && #[trigger] m.1[i].sid == ss[j].sid && m.1[i].prio
                    == ss[j].prio && m.1[i].guaranteed_bandwidth == ss[j].guaranteed_bandwidth by {
                if i == 0 {
                    assert(m.1[0] == s1);
                    assert(m.1[0].sid == ss[0].sid && m.1[0].prio == ss[0].prio && m.1[
                        0
                    ].guaranteed_bandwidth == ss[0].guaranteed_bandwidth);
                } else {
                    assert(m.1[i] == r.1[i - 1]);
                    let j0 = choose|j0: int|
                        0 <= j0 < ss.skip(1).len() && r.1[i - 1].sid == ss.skip(1)[j0].sid && r.1[i
                            - 1].prio == ss.skip(1)[j0].prio && r.1[i - 1].guaranteed_bandwidth
                            == ss.skip(1)[j0].guaranteed_bandwidth;
                    assert(m.1[i].sid == ss[j0 + 1].sid && m.1[i].prio == ss[j0 + 1].prio && m.1[
                        i
                    ].guaranteed_bandwidth == ss[j0 + 1].guaranteed_bandwidth);
                }
            }
            assert(streams_unique(m.1)) by {
                assert forall|a: int, b: int|
                    0 <= a < b < m.1.len() implies #[trigger] m.1[a].sid != #[trigger] m.1[b].sid
                    by {
                    if a == 0 {
                        let j0 = choose|j0: int|
                            0 <= j0 < ss.skip(1).len() && r.1[b - 1].sid == ss.skip(1)[j0].sid
                                && r.1[b - 1].prio == ss.skip(1)[j0].prio && r.1[b
                                - 1].guaranteed_bandwidth == ss.skip(1)[j0].guaranteed_bandwidth;
                        assert(m.1[b].sid == ss[j0 + 1].sid);
                        assert(ss[0].sid != ss[j0 + 1].sid);
                    } else {
                        assert(m.1[a] == r.1[a - 1] && m.1[b] == r.1[b - 1]);
                    }
                }
            }
            assert(streams_sorted(m.1)) by {
                assert forall|a: int, b: int|
                    0 <= a <= b < m.1.len() implies stream_le(
                    #[trigger] m.1[a],
                    #[trigger] m.1[b],
                ) by {
                    if a == 0 && b > 0 {
                        let j0 = choose|j0: int|
                            0 <= j0 < ss.skip(1).len() && r.1[b - 1].sid == ss.skip(1)[j0].sid
                                && r.1[b - 1].prio == ss.skip(1)[j0].prio && r.1[b
                                - 1].guaranteed_bandwidth == ss.skip(1)[j0].guaranteed_bandwidth;
                        assert(m.1[b].prio == ss[j0 + 1].prio && m.1[b].guaranteed_bandwidth == ss[
                            j0 + 1
                        ].guaranteed_bandwidth);
                        assert(stream_le(ss[0], ss[j0 + 1]));
                    } else if a > 0 {
                        assert(m.1[a] == r.1[a - 1] && m.1[b] == r.1[b - 1]);
                    }
                }
            }
            assert(streams_msgs_valid(m.1)) by {
                assert forall|i: int, kk: int|
                    0 <= i < m.1.len() && 0 <= kk < m.1[i].queued.len() implies (
                    #[trigger] m.1[i].queued[kk].len()) <= u32::MAX by {
                    if i == 0 {
                        assert(m.1[0].queued[kk] == ss[0].queued[kk + k]);
                        assert(ss[0].queued[kk + k].len() <= u32::MAX);
                    } else {
                        assert(m.1[i] == r.1[i - 1]);
                        assert(r.1[i - 1].queued[kk].len() <= u32::MAX);
                    }
                }
            }
            assert(valid_frames(m.0)) by {
                assert forall|i: int| 0 <= i < m.0.len() implies valid_frame(
                    #[trigger] m.0[i],
                ) by {
                    if i < frames.len() {
                        assert(m.0[i] == frames[i]);
                    } else {
                        assert(m.0[i] == r.0[i - frames.len()]);
                    }
                }
            }
        }
    }
}

impl SendState {
    /// A fresh send half with no streams and nothing pending.
    pub fn new() -> (s: SendState)
        ensures
            s@.wf(),
            s@.streams == Seq::<StreamV>::empty(),
            s@.outbox == Seq::<FrameV>::empty(),
            !s@.closed,
    {
        let s = SendState { streams: Vec::new(), outbox: Vec::new(), closed: false };
        proof {
            assert(s@.streams =~= Seq::<StreamV>::empty());
            assert(s@.outbox =~= Seq::<FrameV>::empty());
        }
        s
    }

    /// Index of the stream carrying `sid`, mirroring `find_stream`.
    fn find(&self, sid: u64) -> (r: Option<usize>)
        ensures
            match r {
                Some(i) => find_stream(self@.streams, sid) == i && i < self@.streams.len()
                    && self@.streams[i as int].sid == sid,
                None => find_stream(self@.streams, sid) < 0,
            },
    {
        let mut i: usize = 0;
        proof {
            assert(self@.streams.skip(0) =~= self@.streams);
        }
        while i < self.streams.len()
            invariant
                i <= self@.streams.len(),
                self@.streams.len() == self.streams@.len(),
                forall|j: int| 0 <= j < i ==> #[trigger] self@.streams[j].sid != sid,
                find_stream(self@.streams, sid) == if find_stream(
                    self@.streams.skip(i as int),
                    sid,
                ) < 0 {
                    -1
                } else {
                    i + find_stream(self@.streams.skip(i as int), sid)
                },
            decreases self@.streams.len() - i,
        {
            proof {
                assert(self@.streams.skip(i as int)[0] == self@.streams[i as int]);
                assert(self@.streams.skip(i as int).skip(1) =~= self@.streams.skip(i + 1));
            }
            if self.streams[i].sid == sid {
                return Some(i);
            }
            i = i + 1;
        }
        proof {
            assert(self@.streams.skip(i as int).len() == 0);
        }
        None
    }

    /// Accept one outbound event.
    ///
    /// On an open half this performs exactly `send_model`: an open inserts
    /// the stream by priority and frames the open immediately; a close on a
    /// drained stream frames the close and drops the stream, otherwise it
    /// marks the stream closing; a message is appended to its stream's
    /// queue, after everything already queued there; a shutdown frames the
    /// teardown and closes this half.  `Ok` means the event was taken: the
    /// caller owes a well-formed event (`event_valid`), so nothing `send`
    /// accepts is ever dropped.  On a closed half nothing changes and the
    /// call fails.
    pub fn send(&mut self, event: ProtocolEvent) -> (r: Result<(), ProtocolError>)
        requires
            old(self)@.wf(),
            event_valid(old(self)@.streams, event@),
            event@ matches crate::types::EventV::Message { data, .. } ==> data.len() <= u32::MAX,
        ensures
            final(self)@.wf(),
            old(self)@.closed ==> r == Err::<(), ProtocolError>(ProtocolError::Closed)
                && final(self)@ == old(self)@,
            !old(self)@.closed ==> r == Ok::<(), ProtocolError>(())
                && final(self)@ == send_model(old(self)@, event@),
            event@ matches crate::types::EventV::Message { sid, data } ==> (old(self)@.closed
                || final(self)@.streams[find_stream(old(self)@.streams, sid.id)].queued == old(
                self,
            )@.streams[find_stream(old(self)@.streams, sid.id)].queued.push(data)),
    {
        if self.closed {
            return Err(ProtocolError::Closed);
        }
        let ghost ev = event@;
        let ghost pre = self@;
        self.apply_event(event);
        proof {
            match ev {
                crate::types::EventV::Message { sid, data } => {
                    lemma_find_stream_found(pre.streams, sid.id);
                    let i = find_stream(pre.streams, sid.id);
                    assert(self@.streams[i].queued == pre.streams[i].queued.push(data));
                },
                _ => {},
            }
        }
        Ok(())
    }

    /// The side channel from the paired receive half: apply a protocol event
    /// the receiver saw (a peer-initiated close, for instance) without a
    /// result.  Unlike `send` this takes whatever arrived: on a closed half,
    /// or for a stream this half does not carry, `send_model` leaves the
    /// state unchanged and the notification is dropped.
    pub fn notify_from_recv(&mut self, event: ProtocolEvent)
        requires
            old(self)@.wf(),
            event@ matches crate::types::EventV::Message { data, .. } ==> data.len() <= u32::MAX,
        ensures
            final(self)@.wf(),
            old(self)@.closed ==> final(self)@ == old(self)@,
            !old(self)@.closed ==> final(self)@ == send_model(old(self)@, event@),
    {
        if !self.closed {
            self.apply_event(event);
        }
    }

    /// The shared transition behind `send` and `notify_from_recv`.
    fn apply_event(&mut self, event: ProtocolEvent)
        requires
            old(self)@.wf(),
            !old(self)@.closed,
            event@ matches crate::types::EventV::Message { data, .. } ==> data.len() <= u32::MAX,
        ensures
            final(self)@.wf(),
            final(self)@ == send_model(old(self)@, event@),
    {
        let ghost sv0 = self@;
        match event {
            ProtocolEvent::OpenStream { sid, prio, promises, guaranteed_bandwidth } => {
                match self.find(sid.id) {
                    Some(_) => {},
                    None => {
                        let pos = self.insert_position(prio, guaranteed_bandwidth);
                        let stream = StreamState {
                            sid: sid.id,
                            prio,
                            promises,
                            guaranteed_bandwidth,
                            queued: Vec::new(),
                            closing: false,
                        };
                        let ghost streamv = stream@;
                        self.streams.insert(pos, stream);
                        self.outbox.push(
                            Frame::OpenStream { sid: sid.id, prio, promises, guaranteed_bandwidth },
                        );
                        proof {
                            assert(streamv.queued =~= Seq::<Seq<u8>>::empty());
                            assert(self@.streams =~= sv0.streams.insert(pos as int, streamv));
                            assert(self@.outbox =~= send_model(sv0, event@).outbox);
                            lemma_insert_wf(sv0.streams, pos as int, streamv);
                        }
                    },
                }
            },
            ProtocolEvent::CloseStream { sid } => {
                match self.find(sid.id) {
                    None => {},
                    Some(i) => {
                        if self.streams[i].queued.len() == 0 {
                            proof {
                                assert(sv0.streams[i as int].queued =~= Seq::<Seq<u8>>::empty());
                            }
                            self.streams.remove(i);
                            self.outbox.push(Frame::CloseStream { sid: sid.id });
                            proof {
                                assert(self@.streams =~= sv0.streams.remove(i as int));
                                assert(self@.outbox =~= send_model(sv0, event@).outbox);
                                lemma_remove_wf(sv0.streams, i as int);
                            }
                        } else {
                            self.streams[i].closing = true;
                            proof {
                                assert(self@.streams =~= sv0.streams.update(
                                    i as int,
                                    StreamV { closing: true, ..sv0.streams[i as int] },
                                ));
                                lemma_update_like_wf(
                                    sv0.streams,
                                    i as int,
                                    StreamV { closing: true, ..sv0.streams[i as int] },
                                );
                            }
                        }
                    },
                }
            },
            ProtocolEvent::Shutdown => {
                self.outbox.push(Frame::Shutdown);
                self.closed = true;
                proof {
                    assert(self@.streams =~= sv0.streams);
                    assert(self@.outbox =~= send_model(sv0, event@).outbox);
                }
            },
            ProtocolEvent::Message { sid, data } => {
                let ghost dv = data@;
                match self.find(sid.id) {
                    None => {},
                    Some(i) => {
                        if self.streams[i].closing {
                        } else {
                            self.streams[i].queued.push(data);
                            proof {
                                let updated = StreamV {
                                    queued: sv0.streams[i as int].queued.push(dv),
                                    ..sv0.streams[i as int]
                                };
                                assert(self@.streams[i as int].queued =~= updated.queued);
                                assert(self@.streams =~= sv0.streams.update(i as int, updated));
                                assert(dv.len() <= u32::MAX);
                                assert forall|k: int| 0 <= k < updated.queued.len() implies
                                    #[trigger] updated.queued[k].len() <= u32::MAX by {
                                    if k < sv0.streams[i as int].queued.len() {
                                        assert(sv0.streams[i as int].queued[k].len() <= u32::MAX);
                                    }
                                }
                                lemma_update_like_wf(sv0.streams, i as int, updated);
                            }
                        }
                    },
                }
            },
        }
    }

    /// Drain queued payloads into the outbox, in drain order — lower `prio`
    /// first, among equal priorities the larger guaranteed-bandwidth hint
    /// first (the hint steers prioritization, it reserves nothing) — as far
    /// as `bandwidth` payload bytes allow, and report the bytes consumed.
    ///
    /// On an open half this performs exactly `flush_model`: a stream's
    /// message frames are a prefix of its queue in queue order; a payload
    /// larger than the remaining budget stays queued while the walk moves
    /// on; a fully drained closing stream emits its close frame and leaves;
    /// and the reported consumption never exceeds `bandwidth`.  The time
    /// slice is part of the interface; this core drains the same frames
    /// whatever its value, so it does not enter the model.  On a closed
    /// half nothing changes and the call fails.
    #[allow(unused_variables)]
    #[verifier::loop_isolation(false)]
    pub fn flush(&mut self, bandwidth: Bandwidth, dt_millis: u64) -> (r: Result<
        Bandwidth,
        ProtocolError,
    >)
        requires
            old(self)@.wf(),
        ensures
            final(self)@.wf(),
            old(self)@.closed ==> r == Err::<Bandwidth, ProtocolError>(ProtocolError::Closed)
                && final(self)@ == old(self)@,
            !old(self)@.closed ==> ({
                let m = flush_model(old(self)@.streams, bandwidth as int);
                &&& r == Ok::<Bandwidth, ProtocolError>((m.2 as u64))
                &&& 0 <= m.2 <= bandwidth
                &&& final(self)@.streams == m.1
                &&& final(self)@.outbox == old(self)@.outbox + m.0
                &&& !final(self)@.closed
            }),
    {
        if self.closed {
            return Err(ProtocolError::Closed);
        }
        let ghost ss0 = self@.streams;
        let ghost b0 = bandwidth as int;
        let ghost outbox0 = self@.outbox;
        let mut rest: Vec<StreamState> = Vec::new();
        core::mem::swap(&mut self.streams, &mut rest);
        let mut remaining: u64 = bandwidth;
        let mut consumed: u64 = 0;
        let ghost mut emitted: Seq<FrameV> = Seq::empty();
        proof {
            lemma_flush_model_budget(ss0, b0);
            lemma_flush_model_wf(ss0, b0);
            assert(self@.streams =~= Seq::<StreamV>::empty());
            assert(rest@.map_values(|st: StreamState| st@) =~= ss0);
            assert(emitted + flush_model(ss0, b0).0 =~= flush_model(ss0, b0).0);
            assert(Seq::<StreamV>::empty() + flush_model(ss0, b0).1 =~= flush_model(ss0, b0).1);
        }
        while rest.len() > 0
            invariant
                consumed + remaining == bandwidth,
                streams_msgs_valid(rest@.map_values(|st: StreamState| st@)),
                self@.outbox == outbox0 + emitted,
                valid_frames(self@.outbox),
                valid_frames(outbox0),
                self@.closed == false,
                flush_model(ss0, b0).0 == emitted + flush_model(
                    rest@.map_values(|st: StreamState| st@),
                    remaining as int,
                ).0,
                flush_model(ss0, b0).1 == self@.streams + flush_model(
                    rest@.map_values(|st: StreamState| st@),
                    remaining as int,
                ).1,
                flush_model(ss0, b0).2 == consumed + flush_model(
                    rest@.map_values(|st: StreamState| st@),
                    remaining as int,
                ).2,
            decreases rest@.len(),
        {
            let ghost restv_pre = rest@.map_values(|st: StreamState| st@);
            let ghost kept_pre = self@.streams;
            let mut s = rest.remove(0);
            proof {
                assert(rest@.map_values(|st: StreamState| st@) =~= restv_pre.skip(1));
                assert(s@ == restv_pre[0]);
                assert forall|k: int| 0 <= k < s@.queued.len() implies #[trigger] s@.queued[k].len()
                    <= u32::MAX by {
                    assert(restv_pre[0].queued[k].len() <= u32::MAX);
                }
                assert(streams_msgs_valid(restv_pre.skip(1))) by {
                    assert(forall|i: int|
                        0 <= i < restv_pre.skip(1).len() ==> restv_pre.skip(1)[i]
                            == #[trigger] restv_pre[i + 1]);
                }
            }
            let ghost q0 = s@.queued;
            let ghost bq0 = remaining as int;
            let ghost mut jj: nat = 0;
            let sid = s.sid;
            proof {
                assert(q0.skip(0) =~= q0);
                assert(msg_frames(sid, q0, 0) =~= Seq::<FrameV>::empty());
                assert(self@.outbox =~= outbox0 + emitted + msg_frames(sid, q0, 0));
            }
            while s.queued.len() > 0 && s.queued[0].len() as u64 <= remaining
                invariant
                    sid == s@.sid,
                    s@.prio == restv_pre[0].prio,
                    s@.promises == restv_pre[0].promises,
                    s@.guaranteed_bandwidth == restv_pre[0].guaranteed_bandwidth,
                    s@.closing == restv_pre[0].closing,
                    jj <= q0.len(),
                    s@.queued == q0.skip(jj as int),
                    consumed + remaining == bandwidth,
                    drain_cost(q0, jj) == bq0 - remaining,
                    remaining <= bq0,
                    drain_k(q0, bq0) == jj + drain_k(s@.queued, remaining as int),
                    drain_cost(q0, drain_k(q0, bq0)) == (bq0 - remaining) + drain_cost(
                        s@.queued,
                        drain_k(s@.queued, remaining as int),
                    ),
                    forall|k: int| 0 <= k < q0.len() ==> #[trigger] q0[k].len() <= u32::MAX,
                    self@.outbox == outbox0 + emitted + msg_frames(sid, q0, jj),
                    valid_frames(self@.outbox),
                    self@.closed == false,
                    self@.streams == kept_pre,
                decreases s@.queued.len(),
            {
                let ghost qn = s@.queued;
                let ghost remn = remaining as int;
                let d = s.queued.remove(0);
                let ghost dv = d@;
                proof {
                    assert(dv == qn[0]);
                    assert(qn[0] == q0[jj as int]);
                    assert(s@.queued =~= qn.skip(1));
                    assert(s@.queued =~= q0.skip(jj as int + 1));
                }
                remaining = remaining - (d.len() as u64);
                consumed = consumed + (d.len() as u64);
                let ghost prev_view = self@.outbox;
                self.outbox.push(Frame::Message { sid, data: d });
                proof {
                    assert(self@.outbox =~= prev_view.push(FrameV::Message { sid, data: dv }));
                    assert(drain_k(qn, remn) == 1 + drain_k(qn.skip(1), remn - qn[0].len()));
                    assert(drain_cost(q0, jj + 1) == drain_cost(q0, jj) + q0[jj as int].len()) by {
                        lemma_drain_cost_step(q0, jj);
                    }
                    jj = jj + 1;
                    assert(msg_frames(sid, q0, jj) =~= msg_frames(
                        sid,
                        q0,
                        (jj - 1) as nat,
                    ).push(FrameV::Message { sid, data: q0[jj - 1] }));
                    assert(self@.outbox =~= outbox0 + emitted + msg_frames(sid, q0, jj)) by {
                        assert(prev_view == outbox0 + emitted + msg_frames(sid, q0, (jj - 1) as nat));
                        assert(prev_view.push(FrameV::Message { sid, data: dv }) =~= outbox0 + emitted
                            + msg_frames(sid, q0, (jj - 1) as nat).push(
                            FrameV::Message { sid, data: q0[jj - 1] },
                        ));
                    }
                    lemma_valid_frames_push(
                        outbox0 + emitted + msg_frames(sid, q0, (jj - 1) as nat),
                        FrameV::Message { sid, data: q0[jj - 1] },
                    );
                }
            }
            proof {
                assert(drain_k(s@.queued, remaining as int) == 0);
                assert(jj == drain_k(q0, bq0));
            }
            let ghost k_s = drain_k(q0, bq0);
            let ghost cost_s = drain_cost(q0, k_s);
            let ghost m_pre = flush_model(restv_pre, bq0);
            let ghost m_rest = flush_model(restv_pre.skip(1), remaining as int);
            proof {
                assert(restv_pre[0].queued == q0);
                assert(cost_s == bq0 - remaining);
                assert(m_pre.2 == cost_s + m_rest.2);
            }
            if s.queued.len() == 0 && s.closing {
                proof {
                    assert(q0.skip(jj as int).len() == 0);
                    assert(k_s == q0.len());
                    assert(m_pre.0 == msg_frames(sid, q0, k_s) + seq![
                        FrameV::CloseStream { sid },
                    ] + m_rest.0);
                    assert(m_pre.1 == m_rest.1);
                }
                let ghost prev_view = self@.outbox;
                self.outbox.push(Frame::CloseStream { sid });
                proof {
                    lemma_valid_frames_push(
                        outbox0 + emitted + msg_frames(sid, q0, k_s),
                        FrameV::CloseStream { sid },
                    );
                    let a = msg_frames(sid, q0, k_s) + seq![FrameV::CloseStream { sid }];
                    let emitted_old = emitted;
                    emitted = emitted_old + a;
                    assert(self@.outbox =~= prev_view.push(FrameV::CloseStream { sid }));
                    assert(prev_view == outbox0 + emitted_old + msg_frames(sid, q0, k_s));
                    assert(self@.outbox =~= outbox0 + emitted);
                    assert(m_pre.0 =~= a + m_rest.0);
                    assert(emitted + m_rest.0 =~= emitted_old + m_pre.0) by {
                        assert((emitted_old + a) + m_rest.0 =~= emitted_old + (a + m_rest.0));
                    }
                }
            } else {
                proof {
                    assert(!(k_s == q0.len() && restv_pre[0].closing)) by {
                        if k_s == q0.len() {
                            assert(s@.queued =~= q0.skip(q0.len() as int));
                            assert(s@.queued.len() == 0);
                        }
                    }
                    assert(m_pre.0 == msg_frames(sid, q0, k_s) + m_rest.0);
                    assert(m_pre.1 == seq![
                        StreamV { queued: q0.skip(k_s as int), ..restv_pre[0] },
                    ] + m_rest.1);
                    assert(s@ =~= StreamV { queued: q0.skip(k_s as int), ..restv_pre[0] });
                }
                self.streams.push(s);
                proof {
                    let a = msg_frames(sid, q0, k_s);
                    let emitted_old = emitted;
                    emitted = emitted_old + a;
                    assert(self@.outbox =~= outbox0 + emitted);
                    assert(emitted + m_rest.0 =~= emitted_old + m_pre.0) by {
                        assert((emitted_old + a) + m_rest.0 =~= emitted_old + (a + m_rest.0));
                    }
                    let s1 = StreamV { queued: q0.skip(k_s as int), ..restv_pre[0] };
                    assert(self@.streams =~= kept_pre.push(s1));
                    assert(kept_pre.push(s1) + m_rest.1 =~= kept_pre + m_pre.1) by {
                        assert(kept_pre.push(s1) + m_rest.1 =~= kept_pre + (seq![s1] + m_rest.1));
                    }
                }
            }
        }
        proof {
            assert(rest@.map_values(|st: StreamState| st@).len() == 0);
            let m_end = flush_model(rest@.map_values(|st: StreamState| st@), remaining as int);
            assert(m_end.0 =~= Seq::<FrameV>::empty());
            assert(m_end.1 =~= Seq::<StreamV>::empty());
            assert(flush_model(ss0, b0).0 =~= emitted);
            assert(flush_model(ss0, b0).1 =~= self@.streams);
            assert(final(self)@.outbox =~= outbox0 + flush_model(ss0, b0).0);
        }
        Ok(consumed)
    }

    /// Queue one control frame directly; the handshake speaks through this.
    pub(crate) fn push_frame(&mut self, f: Frame)
        requires
            old(self)@.wf(),
            valid_frame(f@),
        ensures
            final(self)@.wf(),
            final(self)@.outbox == old(self)@.outbox.push(f@),
            final(self)@.streams == old(self)@.streams,
            final(self)@.closed == old(self)@.closed,
    {
        let ghost fv = f@;
        self.outbox.push(f);
        proof {
            assert(self@.outbox =~= old(self)@.outbox.push(fv));
            lemma_valid_frames_push(old(self)@.outbox, fv);
        }
    }

    /// Move every pending frame out, for the driver to hand to the
    /// transport.
    pub fn take_outgoing(&mut self) -> (r: Vec<Frame>)
        ensures
            frames_view(r@) == old(self)@.outbox,
            final(self)@.outbox == Seq::<FrameV>::empty(),
            final(self)@.streams == old(self)@.streams,
            final(self)@.closed == old(self)@.closed,
            old(self)@.wf() ==> final(self)@.wf() && valid_frames(frames_view(r@)),
    {
        let mut v: Vec<Frame> = Vec::new();
        core::mem::swap(&mut self.outbox, &mut v);
        proof {
            assert(self@.outbox =~= Seq::<FrameV>::empty());
        }
        v
    }

    /// The driver saw the transport die: every later `send` and `flush`
    /// fails with `Closed`.
    pub fn mark_closed(&mut self)
        ensures
            final(self)@.streams == old(self)@.streams,
            final(self)@.outbox == old(self)@.outbox,
            final(self)@.closed,
            old(self)@.wf() ==> final(self)@.wf(),
    {
        self.closed = true;
    }

    /// Where a newly opened stream goes, mirroring `insert_pos`.
    fn insert_position(&self, prio: u8, gb: u64) -> (pos: usize)
        ensures
            pos == insert_pos(self@.streams, prio, gb),
            pos <= self@.streams.len(),
    {
        let mut i: usize = 0;
        proof {
            assert(self@.streams.skip(0) =~= self@.streams);
        }
        while i < self.streams.len()
            invariant
                i <= self@.streams.len(),
                self@.streams.len() == self.streams@.len(),
                forall|j: int| 0 <= j < i ==> key_before(#[trigger] self@.streams[j], prio, gb),
                insert_pos(self@.streams, prio, gb) == i + insert_pos(
                    self@.streams.skip(i as int),
                    prio,
                    gb,
                ),
            decreases self@.streams.len() - i,
        {
            proof {
                assert(self@.streams.skip(i as int)[0] == self@.streams[i as int]);
                assert(self@.streams.skip(i as int).skip(1) =~= self@.streams.skip(i + 1));
            }
            if !(self.streams[i].prio < prio || (self.streams[i].prio == prio
                && self.streams[i].guaranteed_bandwidth >= gb)) {
                return i;
            }
            i = i + 1;
        }
        proof {
            assert(self@.streams.skip(i as int).len() == 0);
        }
        i
    }
}

/// Inserting a fresh stream at its priority position keeps the half
/// well-formed.
pub proof fn lemma_insert_wf(ss: Seq<StreamV>, pos: int, s: StreamV)
    requires
        streams_unique(ss),
        streams_sorted(ss),
        streams_msgs_valid(ss),
        find_stream(ss, s.sid) < 0,
        pos == insert_pos(ss, s.prio, s.guaranteed_bandwidth),
        s.queued.len() == 0,
    ensures
        streams_unique(ss.insert(pos, s)),
        streams_sorted(ss.insert(pos, s)),
        streams_msgs_valid(ss.insert(pos, s)),
{
    lemma_insert_pos_range(ss, s.prio, s.guaranteed_bandwidth);
    lemma_find_stream_absent(ss, s.sid);
    let t = ss.insert(pos, s);
    assert forall|i: int, j: int|
        0 <= i < j < t.len() implies #[trigger] t[i].sid != #[trigger] t[j].sid by {
        lemma_insert_index(ss, pos, s, i);
        lemma_insert_index(ss, pos, s, j);
    }
    assert forall|i: int, j: int| 0 <= i <= j < t.len() implies stream_le(
        #[trigger] t[i],
        #[trigger] t[j],
    ) by {
        lemma_insert_index(ss, pos, s, i);
        lemma_insert_index(ss, pos, s, j);
    }
    assert forall|i: int, k: int|
        0 <= i < t.len() && 0 <= k < t[i].queued.len() implies #[trigger] t[i].queued[k].len()
        <= u32::MAX by {
        lemma_insert_index(ss, pos, s, i);
    }
}

/// What stands at index `i` after an insert.
pub proof fn lemma_insert_index(ss: Seq<StreamV>, pos: int, s: StreamV, i: int)
    requires
        0 <= pos <= ss.len(),
        0 <= i < ss.len() + 1,
    ensures
        i < pos ==> ss.insert(pos, s)[i] == ss[i],
        i == pos ==> ss.insert(pos, s)[i] == s,
        i > pos ==> ss.insert(pos, s)[i] == ss[i - 1],
{
}

/// The insert position splits the streams into a prefix that drains before
/// the new key and a suffix that drains after it.
pub proof fn lemma_insert_pos_range(ss: Seq<StreamV>, prio: u8, gb: u64)
    requires
        streams_sorted(ss),
    ensures
        0 <= insert_pos(ss, prio, gb) <= ss.len(),
        forall|i: int|
            0 <= i < insert_pos(ss, prio, gb) ==> key_before(#[trigger] ss[i], prio, gb),
        forall|i: int|
            insert_pos(ss, prio, gb) <= i < ss.len() ==> !key_before(#[trigger] ss[i], prio, gb),
    decreases ss.len(),
{
    if ss.len() != 0 {
        assert(forall|i: int|
            0 <= i < ss.skip(1).len() ==> ss.skip(1)[i] == #[trigger] ss[i + 1]);
        assert(streams_sorted(ss.skip(1)));
        lemma_insert_pos_range(ss.skip(1), prio, gb);
        let p = insert_pos(ss, prio, gb);
        if key_before(ss[0], prio, gb) {
            assert forall|i: int| 0 <= i < p implies key_before(#[trigger] ss[i], prio, gb) by {
                if i > 0 {
                    assert(ss[i] == ss.skip(1)[i - 1]);
                }
            }
            assert forall|i: int| p <= i < ss.len() implies !key_before(
                #[trigger] ss[i],
                prio,
                gb,
            ) by {
                assert(ss[i] == ss.skip(1)[i - 1]);
            }
        } else {
            assert forall|i: int| 0 <= i < ss.len() implies !key_before(
                #[trigger] ss[i],
                prio,
                gb,
            ) by {
                assert(stream_le(ss[0], ss[i]));
            }
        }
    }
}

/// A non-negative find is a real index carrying the id.
pub proof fn lemma_find_stream_found(ss: Seq<StreamV>, sid: u64)
    requires
        find_stream(ss, sid) >= 0,
    ensures
        0 <= find_stream(ss, sid) < ss.len(),
        ss[find_stream(ss, sid)].sid == sid,
    decreases ss.len(),
{
    if ss.len() != 0 && ss[0].sid != sid {
        lemma_find_stream_found(ss.skip(1), sid);
        assert(ss.skip(1)[find_stream(ss.skip(1), sid)] == ss[find_stream(ss, sid)]);
    }
}

/// A negative find means no stream carries the id.
pub proof fn lemma_find_stream_absent(ss: Seq<StreamV>, sid: u64)
    requires
        find_stream(ss, sid) < 0,
    ensures
        forall|i: int| 0 <= i < ss.len() ==> #[trigger] ss[i].sid != sid,
    decreases ss.len(),
{
    if ss.len() != 0 {
        lemma_find_stream_absent(ss.skip(1), sid);
        assert forall|i: int| 0 <= i < ss.len() implies #[trigger] ss[i].sid != sid by {
            if i > 0 {
                assert(ss[i] == ss.skip(1)[i - 1]);
            }
        }
    }
}

/// Replacing a stream by one with the same id and priority (only its queue
/// or closing flag changed) keeps the half well-formed.
pub proof fn lemma_update_like_wf(ss: Seq<StreamV>, i: int, s: StreamV)
    requires
        0 <= i < ss.len(),
        streams_unique(ss),
        streams_sorted(ss),
        streams_msgs_valid(ss),
        s.sid == ss[i].sid,
        s.prio == ss[i].prio,
        s.guaranteed_bandwidth == ss[i].guaranteed_bandwidth,
        forall|k: int| 0 <= k < s.queued.len() ==> #[trigger] s.queued[k].len() <= u32::MAX,
    ensures
        streams_unique(ss.update(i, s)),
        streams_sorted(ss.update(i, s)),
        streams_msgs_valid(ss.update(i, s)),
{
}

/// Removing a stream keeps the half well-formed.
pub proof fn lemma_remove_wf(ss: Seq<StreamV>, i: int)
    requires
        0 <= i < ss.len(),
        streams_unique(ss),
        streams_sorted(ss),
        streams_msgs_valid(ss),
    ensures
        streams_unique(ss.remove(i)),
        streams_sorted(ss.remove(i)),
        streams_msgs_valid(ss.remove(i)),
{
    let t = ss.remove(i);
    assert(forall|j: int| 0 <= j < i ==> t[j] == #[trigger] ss[j]);
    assert(forall|j: int| i <= j < t.len() ==> t[j] == #[trigger] ss[j + 1]);
}

} // verus!
