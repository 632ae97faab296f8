//! The crate's cross-cutting guarantees, stated and proved over the models
//! that the executable functions are verified against.
//!
//! Each law here composes the per-function contracts: ordering within a
//! stream across flush, encode, decode and delivery; draining buffered
//! events before closure ever surfaces.
use crate::frame::{frames_bytes, spec_decode_all, FrameV};
use crate::recv::{events_of_frames, frame_event, recv_model, RecvStateV};
use crate::send::{find_stream, flush_model, msg_frames, streams_unique, SendStateV, StreamV};
use crate::types::{EventV, ProtocolError, Sid};
use vstd::prelude::*;

verus! {

/// The payload a frame contributes to stream `sid`, if any.
pub open spec fn msg_sel(sid: u64) -> spec_fn(FrameV) -> Option<Seq<u8>> {
    |f: FrameV|
        match f {
            FrameV::Message { sid: s, data } => if s == sid {
                Some(data)
            } else {
                None
            },
            _ => None,
        }
}

/// The payloads carried on stream `sid` by a frame sequence, in order.
pub open spec fn messages_for(fs: Seq<FrameV>, sid: u64) -> Seq<Seq<u8>> {
    fs.filter_map(msg_sel(sid))
}

/// The payload an event contributes to stream `sid`, if any.
pub open spec fn ev_sel(sid: Sid) -> spec_fn(EventV) -> Option<Seq<u8>> {
    |e: EventV|
        match e {
            EventV::Message { sid: s, data } => if s == sid {
                Some(data)
            } else {
                None
            },
            _ => None,
        }
}

/// The payloads observed on stream `sid` in an event sequence, in order.
pub open spec fn event_messages_for(es: Seq<EventV>, sid: Sid) -> Seq<Seq<u8>> {
    es.filter_map(ev_sel(sid))
}

/// What is still queued for stream `sid`, or nothing once the stream is
/// gone.
pub open spec fn queue_of(ss: Seq<StreamV>, sid: u64) -> Seq<Seq<u8>> {
    if find_stream(ss, sid) >= 0 {
        ss[find_stream(ss, sid)].queued
    } else {
        Seq::empty()
    }
}

/// `filter_map` distributes over concatenation.
pub proof fn lemma_filter_map_add<A, B>(a: Seq<A>, b: Seq<A>, f: spec_fn(A) -> Option<B>)
    ensures
        (a + b).filter_map(f) == a.filter_map(f) + b.filter_map(f),
    decreases b.len(),
{
    if b.len() == 0 {
        assert(a + b =~= a);
        assert(b.filter_map(f) =~= Seq::<B>::empty());
        assert(a.filter_map(f) + Seq::<B>::empty() =~= a.filter_map(f));
    } else {
        lemma_filter_map_add(a, b.drop_last(), f);
        assert((a + b).drop_last() =~= a + b.drop_last());
        assert((a + b).last() == b.last());
        match f(b.last()) {
            Some(v) => {
                assert((a.filter_map(f) + b.drop_last().filter_map(f)) + seq![v]
                    =~= a.filter_map(f) + (b.drop_last().filter_map(f) + seq![v]));
            },
            None => {},
        }
    }
}

/// A singleton contributes its selected value, or nothing.
pub proof fn lemma_filter_map_single<A, B>(x: A, f: spec_fn(A) -> Option<B>)
    ensures
        f(x) matches Some(v) ==> seq![x].filter_map(f) == seq![v],
        f(x) is None ==> seq![x].filter_map(f) == Seq::<B>::empty(),
{
    assert(seq![x].drop_last() =~= Seq::<A>::empty());
    assert(seq![x].last() == x);
    assert(Seq::<A>::empty().filter_map(f) =~= Seq::<B>::empty());
    match f(x) {
        Some(v) => {
            assert(seq![x].filter_map(f) =~= Seq::<B>::empty() + seq![v]);
            assert(Seq::<B>::empty() + seq![v] =~= seq![v]);
        },
        None => {},
    }
}

/// The frames draining one stream carry exactly its first `k` payloads in
/// queue order, and nothing for any other stream.
pub proof fn lemma_msg_frames_messages(sid: u64, q: Seq<Seq<u8>>, k: nat)
    requires
        k <= q.len(),
    ensures
        messages_for(msg_frames(sid, q, k), sid) == q.take(k as int),
        forall|other: u64| other != sid ==> messages_for(msg_frames(sid, q, k), other) == Seq::<
            Seq<u8>,
        >::empty(),
    decreases k,
{
    let fs = msg_frames(sid, q, k);
    if k == 0 {
        assert(fs.len() == 0);
        assert(fs.filter_map(msg_sel(sid)) =~= Seq::<Seq<u8>>::empty());
        assert(q.take(0) =~= Seq::<Seq<u8>>::empty());
        assert forall|other: u64| other != sid implies messages_for(msg_frames(sid, q, k), other)
            =~= Seq::<Seq<u8>>::empty() by {
            assert(fs.filter_map(msg_sel(other)) =~= Seq::<Seq<u8>>::empty());
        }
    } else {
        lemma_msg_frames_messages(sid, q, (k - 1) as nat);
        assert(fs.drop_last() =~= msg_frames(sid, q, (k - 1) as nat));
        assert(fs.last() == FrameV::Message { sid, data: q[k - 1] });
        assert(messages_for(fs, sid) =~= q.take(k as int)) by {
            assert(q.take((k - 1) as int).push(q[k - 1]) =~= q.take(k as int));
            assert(q.take((k - 1) as int) + seq![q[k - 1]] =~= q.take(
                (k - 1) as int,
            ).push(q[k - 1]));
        }
        assert forall|other: u64| other != sid implies messages_for(fs, other) =~= Seq::<
            Seq<u8>,
        >::empty() by {
            assert(messages_for(msg_frames(sid, q, (k - 1) as nat), other) == Seq::<
                Seq<u8>,
            >::empty());
        }
    }
}

/// No stream id is absent from a find and present in the list.
pub proof fn lemma_find_stream_none_of(ss: Seq<StreamV>, sid: u64)
    requires
        forall|i: int| 0 <= i < ss.len() ==> (#[trigger] ss[i]).sid != sid,
    ensures
        find_stream(ss, sid) < 0,
    decreases ss.len(),
{
    if ss.len() != 0 {
        assert(forall|i: int|
            0 <= i < ss.skip(1).len() ==> ss.skip(1)[i] == #[trigger] ss[i + 1]);
        lemma_find_stream_none_of(ss.skip(1), sid);
    }
}

/// Flushing streams that do not carry `sid` emits nothing for `sid` and
/// leaves it absent.
pub proof fn lemma_flush_messages_absent(ss: Seq<StreamV>, budget: int, sid: u64)
    requires
        find_stream(ss, sid) < 0,
    ensures
        messages_for(flush_model(ss, budget).0, sid) == Seq::<Seq<u8>>::empty(),
        find_stream(flush_model(ss, budget).1, sid) < 0,
    decreases ss.len(),
{
    let m = flush_model(ss, budget);
    if ss.len() == 0 {
        assert(m.0.filter_map(msg_sel(sid)) =~= Seq::<Seq<u8>>::empty());
    } else {
        crate::send::lemma_find_stream_absent(ss, sid);
        let s = ss[0];
        let k = crate::send::drain_k(s.queued, budget);
        let cost = crate::send::drain_cost(s.queued, k);
        crate::send::lemma_drain_k_le(s.queued, budget);
        assert(forall|i: int|
            0 <= i < ss.skip(1).len() ==> ss.skip(1)[i] == #[trigger] ss[i + 1]);
        lemma_find_stream_none_of(ss.skip(1), sid);
        lemma_flush_messages_absent(ss.skip(1), budget - cost, sid);
        let r = flush_model(ss.skip(1), budget - cost);
        lemma_msg_frames_messages(s.sid, s.queued, k);
        assert(ss[0].sid != sid);
        assert(messages_for(msg_frames(s.sid, s.queued, k), sid) == Seq::<Seq<u8>>::empty());
        if k == s.queued.len() && s.closing {
            assert(messages_for(m.0, sid) =~= Seq::<Seq<u8>>::empty()) by {
                lemma_filter_map_add(
                    msg_frames(s.sid, s.queued, k) + seq![FrameV::CloseStream { sid: s.sid }],
                    r.0,
                    msg_sel(sid),
                );
                lemma_filter_map_add(
                    msg_frames(s.sid, s.queued, k),
                    seq![FrameV::CloseStream { sid: s.sid }],
                    msg_sel(sid),
                );
                lemma_filter_map_single(FrameV::CloseStream { sid: s.sid }, msg_sel(sid));
            }
        } else {
            let s1 = StreamV { queued: s.queued.skip(k as int), ..s };
            assert(messages_for(m.0, sid) =~= Seq::<Seq<u8>>::empty()) by {
                lemma_filter_map_add(msg_frames(s.sid, s.queued, k), r.0, msg_sel(sid));
            }
            assert(find_stream(m.1, sid) < 0) by {
                assert((seq![s1] + r.1)[0] == s1);
                assert((seq![s1] + r.1).skip(1) =~= r.1);
            }
        }
    }
}

/// Per-stream conservation and order across one flush: what leaves the send
/// half for a stream is exactly a prefix of its queue, in queue order, and
/// what stays queued is exactly the remaining suffix.
pub proof fn lemma_flush_preserves_stream(ss: Seq<StreamV>, budget: int, sid: u64)
    requires
        streams_unique(ss),
        find_stream(ss, sid) >= 0,
    ensures
        messages_for(flush_model(ss, budget).0, sid) + queue_of(flush_model(ss, budget).1, sid)
            == ss[find_stream(ss, sid)].queued,
    decreases ss.len(),
{
    let m = flush_model(ss, budget);
    let i = find_stream(ss, sid);
    crate::send::lemma_find_stream_found(ss, sid);
    let s = ss[0];
    let k = crate::send::drain_k(s.queued, budget);
    let cost = crate::send::drain_cost(s.queued, k);
    crate::send::lemma_drain_k_le(s.queued, budget);
    let r = flush_model(ss.skip(1), budget - cost);
    assert(forall|a: int| 0 <= a < ss.skip(1).len() ==> ss.skip(1)[a] == #[trigger] ss[a + 1]);
    assert(streams_unique(ss.skip(1)));
    lemma_msg_frames_messages(s.sid, s.queued, k);
    if s.sid == sid {
        assert(i == 0);
        assert forall|a: int| 0 <= a < ss.skip(1).len() implies (#[trigger] ss.skip(
            1,
        )[a]).sid != sid by {
            assert(ss.skip(1)[a] == ss[a + 1]);
        }
        lemma_find_stream_none_of(ss.skip(1), sid);
        lemma_flush_messages_absent(ss.skip(1), budget - cost, sid);
        if k == s.queued.len() && s.closing {
            assert(messages_for(m.0, sid) =~= s.queued) by {
                lemma_filter_map_add(
                    msg_frames(s.sid, s.queued, k) + seq![FrameV::CloseStream { sid: s.sid }],
                    r.0,
                    msg_sel(sid),
                );
                lemma_filter_map_add(
                    msg_frames(s.sid, s.queued, k),
                    seq![FrameV::CloseStream { sid: s.sid }],
                    msg_sel(sid),
                );
                lemma_filter_map_single(FrameV::CloseStream { sid: s.sid }, msg_sel(sid));
                assert(s.queued.take(k as int) =~= s.queued);
            }
            assert(queue_of(m.1, sid) == Seq::<Seq<u8>>::empty());
            assert(messages_for(m.0, sid) + Seq::<Seq<u8>>::empty() =~= messages_for(m.0, sid));
        } else {
            let s1 = StreamV { queued: s.queued.skip(k as int), ..s };
            assert(messages_for(m.0, sid) =~= s.queued.take(k as int)) by {
                lemma_filter_map_add(msg_frames(s.sid, s.queued, k), r.0, msg_sel(sid));
            }
            assert((seq![s1] + r.1)[0] == s1);
            assert(find_stream(m.1, sid) == 0);
            assert(queue_of(m.1, sid) == s.queued.skip(k as int));
            assert(s.queued.take(k as int) + s.queued.skip(k as int) =~= s.queued);
        }
    } else {
        assert(find_stream(ss.skip(1), sid) == i - 1);
        lemma_flush_preserves_stream(ss.skip(1), budget - cost, sid);
        assert(ss.skip(1)[i - 1] == ss[i]);
        assert(messages_for(msg_frames(s.sid, s.queued, k), sid) == Seq::<Seq<u8>>::empty());
        assert(messages_for(m.0, sid) =~= messages_for(r.0, sid)) by {
            if k == s.queued.len() && s.closing {
                lemma_filter_map_add(
                    msg_frames(s.sid, s.queued, k) + seq![FrameV::CloseStream { sid: s.sid }],
                    r.0,
                    msg_sel(sid),
                );
                lemma_filter_map_add(
                    msg_frames(s.sid, s.queued, k),
                    seq![FrameV::CloseStream { sid: s.sid }],
                    msg_sel(sid),
                );
                lemma_filter_map_single(FrameV::CloseStream { sid: s.sid }, msg_sel(sid));
            } else {
                lemma_filter_map_add(msg_frames(s.sid, s.queued, k), r.0, msg_sel(sid));
            }
        }
        if k == s.queued.len() && s.closing {
            assert(queue_of(m.1, sid) == queue_of(r.1, sid));
        } else {
            let s1 = StreamV { queued: s.queued.skip(k as int), ..s };
            assert((seq![s1] + r.1)[0] == s1);
            assert((seq![s1] + r.1).skip(1) =~= r.1);
            if find_stream(r.1, sid) >= 0 {
                crate::send::lemma_find_stream_found(r.1, sid);
                assert(find_stream(m.1, sid) == 1 + find_stream(r.1, sid));
                assert(m.1[find_stream(m.1, sid)] == r.1[find_stream(r.1, sid)]);
            } else {
                assert(find_stream(m.1, sid) < 0);
            }
            assert(queue_of(m.1, sid) == queue_of(r.1, sid));
        }
    }
}

/// Turning frames into events loses no stream payload and keeps its order.
pub proof fn lemma_events_keep_messages(fs: Seq<FrameV>, sid: u64)
    ensures
        event_messages_for(events_of_frames(fs), Sid { id: sid }) == messages_for(fs, sid),
    decreases fs.len(),
{
    if fs.len() == 0 {
        assert(events_of_frames(fs).filter_map(ev_sel(Sid { id: sid })) =~= Seq::<
            Seq<u8>,
        >::empty());
        assert(fs.filter_map(msg_sel(sid)) =~= Seq::<Seq<u8>>::empty());
    } else {
        lemma_events_keep_messages(fs.skip(1), sid);
        assert(fs =~= seq![fs[0]] + fs.skip(1));
        lemma_filter_map_add(seq![fs[0]], fs.skip(1), msg_sel(sid));
        lemma_filter_map_single(fs[0], msg_sel(sid));
        match frame_event(fs[0]) {
            Some(e) => {
                assert(events_of_frames(fs) == seq![e] + events_of_frames(fs.skip(1)));
                lemma_filter_map_add(seq![e], events_of_frames(fs.skip(1)), ev_sel(Sid { id: sid }));
                lemma_filter_map_single(e, ev_sel(Sid { id: sid }));
                assert(ev_sel(Sid { id: sid })(e) == msg_sel(sid)(fs[0]));
            },
            None => {
                assert(events_of_frames(fs) == events_of_frames(fs.skip(1)));
                assert(msg_sel(sid)(fs[0]) is None);
            },
        }
    }
}

/// Ordering, end to end: take any well-formed send half and any stream it
/// carries.  Flush under any budget, encode the emitted frames, let the
/// bytes cross a byte-oriented transport cut into arbitrary chunks, decode
/// and deliver them as events.  Every flushed frame arrives intact and in
/// order, and the payloads observed for that stream, followed by what is
/// still queued on the send side, are exactly the payloads that were queued,
/// in the order they were sent.  Since the receive half hands its inbox out
/// first-in first-out (`RecvState::recv`), the receiver observes the
/// stream's events in send order.
pub proof fn lemma_ordering_over_wire(s: SendStateV, budget: u64, sid: u64)
    requires
        s.wf(),
        find_stream(s.streams, sid) >= 0,
    ensures
        ({
            let m = flush_model(s.streams, budget as int);
            let arrived = spec_decode_all(frames_bytes(m.0));
            &&& arrived.0 == m.0
            &&& arrived.1 == Seq::<u8>::empty()
            &&& event_messages_for(events_of_frames(arrived.0), Sid { id: sid }) + queue_of(
                m.1,
                sid,
            ) == s.streams[find_stream(s.streams, sid)].queued
        }),
{
    let m = flush_model(s.streams, budget as int);
    crate::send::lemma_flush_model_wf(s.streams, budget as int);
    crate::frame::lemma_decode_all_encoded(m.0, Seq::empty());
    assert(frames_bytes(m.0) + Seq::<u8>::empty() =~= frames_bytes(m.0));
    assert(spec_decode_all(Seq::<u8>::empty()).0 =~= Seq::<FrameV>::empty());
    assert(m.0 + Seq::<FrameV>::empty() =~= m.0);
    lemma_events_keep_messages(m.0, sid);
    lemma_flush_preserves_stream(s.streams, budget as int, sid);
}

/// Half-close drain: a receive half whose transport is gone still hands out
/// every buffered event, in arrival order, and reports `Closed` only after
/// the last one.  `after_recvs` iterates the `recv` transition
/// (`recv_model`).
pub open spec fn after_recvs(rv: RecvStateV, n: nat) -> RecvStateV
    decreases n,
{
    if n == 0 {
        rv
    } else {
        recv_model(after_recvs(rv, (n - 1) as nat)).0
    }
}

/// After `n` deliveries the inbox has lost exactly its first `n` events.
pub proof fn lemma_after_recvs_inbox(rv: RecvStateV, n: nat)
    requires
        n <= rv.inbox.len(),
    ensures
        after_recvs(rv, n).inbox == rv.inbox.skip(n as int),
        after_recvs(rv, n).closed == rv.closed,
    decreases n,
{
    if n == 0 {
        assert(rv.inbox.skip(0) =~= rv.inbox);
    } else {
        lemma_after_recvs_inbox(rv, (n - 1) as nat);
        assert(rv.inbox.skip((n - 1) as int).skip(1) =~= rv.inbox.skip(n as int));
    }
}

/// Half-close drain, as a law: with the transport closed and `n` events
/// buffered, the first `n` `recv` transitions deliver exactly those events
/// in order, and only the one after that reports `Closed`.
pub proof fn lemma_half_close_drain(rv: RecvStateV)
    requires
        rv.closed,
    ensures
        forall|i: int|
            0 <= i < rv.inbox.len() ==> #[trigger] recv_model(after_recvs(rv, i as nat)).1 == Ok::<
                Option<EventV>,
                ProtocolError,
            >(Some(rv.inbox[i])),
        recv_model(after_recvs(rv, rv.inbox.len())).1 == Err::<Option<EventV>, ProtocolError>(
            ProtocolError::Closed,
        ),
{
    assert forall|i: int| 0 <= i < rv.inbox.len() implies #[trigger] recv_model(
        after_recvs(rv, i as nat),
    ).1 == Ok::<Option<EventV>, ProtocolError>(Some(rv.inbox[i])) by {
        lemma_after_recvs_inbox(rv, i as nat);
        assert(rv.inbox.skip(i)[0] == rv.inbox[i]);
    }
    lemma_after_recvs_inbox(rv, rv.inbox.len());
}

} // verus!
