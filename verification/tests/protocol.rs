use veloren_core::channel::{Protocols, ProtocolMetricCache, RecvProtocols, SendProtocols};
use veloren_core::frame::{decode_frame, encode_frame, Frame};
use veloren_core::handshake::{InitMachine, InitPhase, PROTOCOL_VERSION, STREAM_ID_OFFSET1, STREAM_ID_OFFSET2};
use veloren_core::recv::RecvState;
use veloren_core::send::SendState;
use veloren_core::types::{InitError, Pid, ProtocolError, ProtocolEvent, Sid, PROMISES_GUARANTEED_DELIVERY, PROMISES_ORDERED};

fn metrics() -> ProtocolMetricCache {
    ProtocolMetricCache::new(String::from("0"))
}

#[test]
fn frame_codec_roundtrip() {
    let frames = vec![
        Frame::Hello { version: PROTOCOL_VERSION, pid: 7, secret: 42 },
        Frame::Accept { pid: 9, secret: 42, initial_sid: 1 },
        Frame::Reject,
        Frame::OpenStream { sid: 1, prio: 4, promises: PROMISES_GUARANTEED_DELIVERY, guaranteed_bandwidth: 1_000 },
        Frame::Message { sid: 1, data: vec![8u8; 8] },
        Frame::CloseStream { sid: 1 },
        Frame::Shutdown,
    ];
    let mut bytes: Vec<u8> = Vec::new();
    for f in &frames {
        encode_frame(f, &mut bytes);
    }
    let mut decoded: Vec<Frame> = Vec::new();
    let mut pos = 0;
    while let Some((f, n)) = decode_frame(&bytes, pos) {
        decoded.push(f);
        pos += n;
    }
    assert_eq!(pos, bytes.len());
    assert_eq!(decoded, frames);
}

#[test]
fn frame_codec_survives_any_chunking() {
    let frames = vec![
        Frame::OpenStream { sid: 3, prio: 1, promises: PROMISES_ORDERED, guaranteed_bandwidth: 0 },
        Frame::Message { sid: 3, data: vec![1, 2, 3, 4, 5] },
        Frame::Message { sid: 3, data: vec![] },
        Frame::CloseStream { sid: 3 },
    ];
    let mut bytes: Vec<u8> = Vec::new();
    for f in &frames {
        encode_frame(f, &mut bytes);
    }
    // feed the stream one byte at a time: framing must reassemble exactly
    let mut rx = RecvState::new();
    for b in &bytes {
        rx.on_chunk(&[*b]);
    }
    let mut seen = Vec::new();
    while let Ok(Some(e)) = rx.recv() {
        seen.push(e);
    }
    assert_eq!(
        seen,
        vec![
            ProtocolEvent::OpenStream { sid: Sid::new(3), prio: 1, promises: PROMISES_ORDERED, guaranteed_bandwidth: 0 },
            ProtocolEvent::Message { sid: Sid::new(3), data: vec![1, 2, 3, 4, 5] },
            ProtocolEvent::Message { sid: Sid::new(3), data: vec![] },
            ProtocolEvent::CloseStream { sid: Sid::new(3) },
        ]
    );
}

#[test]
fn flush_respects_budget() {
    let mut tx = SendState::new();
    tx.send(ProtocolEvent::OpenStream { sid: Sid::new(1), prio: 4, promises: 0, guaranteed_bandwidth: 0 }).unwrap();
    for _ in 0..10 {
        tx.send(ProtocolEvent::Message { sid: Sid::new(1), data: vec![0u8; 100] }).unwrap();
    }
    // only 250 bytes of budget: two whole 100-byte payloads fit
    let used = tx.flush(250, 1000).unwrap();
    assert!(used <= 250);
    assert_eq!(used, 200);
    // the rest drains under a large budget
    let used = tx.flush(1_000_000, 1000).unwrap();
    assert_eq!(used, 800);
}

#[test]
fn flush_drains_by_priority() {
    let mut tx = SendState::new();
    tx.send(ProtocolEvent::OpenStream { sid: Sid::new(10), prio: 6, promises: 0, guaranteed_bandwidth: 0 }).unwrap();
    tx.send(ProtocolEvent::OpenStream { sid: Sid::new(11), prio: 2, promises: 0, guaranteed_bandwidth: 0 }).unwrap();
    tx.send(ProtocolEvent::Message { sid: Sid::new(10), data: vec![1] }).unwrap();
    tx.send(ProtocolEvent::Message { sid: Sid::new(11), data: vec![2] }).unwrap();
    tx.flush(1_000_000, 1000).unwrap();
    let frames = tx.take_outgoing();
    // after the two open frames, the more urgent stream's payload leaves first
    assert_eq!(frames.len(), 4);
    match &frames[2] {
        Frame::Message { sid, data } => {
            assert_eq!(*sid, 11);
            assert_eq!(data, &vec![2]);
        },
        other => panic!("wrong frame {:?}", other),
    }
    match &frames[3] {
        Frame::Message { sid, data } => {
            assert_eq!(*sid, 10);
            assert_eq!(data, &vec![1]);
        },
        other => panic!("wrong frame {:?}", other),
    }
}

#[test]
fn flush_breaks_priority_ties_by_bandwidth_hint() {
    let mut tx = SendState::new();
    tx.send(ProtocolEvent::OpenStream { sid: Sid::new(20), prio: 3, promises: 0, guaranteed_bandwidth: 100 }).unwrap();
    tx.send(ProtocolEvent::OpenStream { sid: Sid::new(21), prio: 3, promises: 0, guaranteed_bandwidth: 900 }).unwrap();
    tx.send(ProtocolEvent::Message { sid: Sid::new(20), data: vec![1] }).unwrap();
    tx.send(ProtocolEvent::Message { sid: Sid::new(21), data: vec![2] }).unwrap();
    tx.flush(1_000_000, 1000).unwrap();
    let frames = tx.take_outgoing();
    // equal priority: the larger guaranteed-bandwidth hint drains first
    assert_eq!(frames.len(), 4);
    assert!(matches!(&frames[2], Frame::Message { sid: 21, .. }));
    assert!(matches!(&frames[3], Frame::Message { sid: 20, .. }));
}

#[test]
fn oversized_payload_waits_while_smaller_ones_drain() {
    let mut tx = SendState::new();
    tx.send(ProtocolEvent::OpenStream { sid: Sid::new(1), prio: 1, promises: 0, guaranteed_bandwidth: 0 }).unwrap();
    tx.send(ProtocolEvent::OpenStream { sid: Sid::new(2), prio: 5, promises: 0, guaranteed_bandwidth: 0 }).unwrap();
    tx.send(ProtocolEvent::Message { sid: Sid::new(1), data: vec![0u8; 300] }).unwrap();
    tx.send(ProtocolEvent::Message { sid: Sid::new(2), data: vec![7u8; 10] }).unwrap();
    tx.take_outgoing();
    // the urgent payload exceeds the budget and stays whole; the remainder
    // goes to the smaller, less urgent one
    let used = tx.flush(100, 1000).unwrap();
    assert_eq!(used, 10);
    let frames = tx.take_outgoing();
    assert_eq!(frames.len(), 1);
    assert!(matches!(&frames[0], Frame::Message { sid: 2, .. }));
    // with enough budget the big payload leaves intact
    let used = tx.flush(1_000, 1000).unwrap();
    assert_eq!(used, 300);
}

#[test]
fn send_after_transport_death_fails() {
    let mut tx = SendState::new();
    tx.mark_closed();
    assert_eq!(
        tx.send(ProtocolEvent::Message { sid: Sid::new(1), data: vec![1] }),
        Err(ProtocolError::Closed)
    );
    assert_eq!(tx.flush(1000, 1000), Err(ProtocolError::Closed));
}

#[test]
fn half_close_drains_buffered_events() {
    // the send half transmits an open and one message, then is dropped;
    // the receive half must hand both out before ever reporting Closed
    let mut tx = SendState::new();
    tx.send(ProtocolEvent::OpenStream { sid: Sid::new(1), prio: 4, promises: PROMISES_GUARANTEED_DELIVERY, guaranteed_bandwidth: 1_000 }).unwrap();
    tx.send(ProtocolEvent::Message { sid: Sid::new(1), data: vec![8u8; 8] }).unwrap();
    tx.flush(1_000_000, 1000).unwrap();
    let frames = tx.take_outgoing();
    drop(tx);

    let mut rx = RecvState::new();
    for f in frames {
        rx.on_frame(f);
    }
    rx.mark_closed();
    match rx.recv() {
        Ok(Some(ProtocolEvent::OpenStream { sid, prio, promises, .. })) => {
            assert_eq!(sid, Sid::new(1));
            assert_eq!(prio, 4);
            assert_eq!(promises, PROMISES_GUARANTEED_DELIVERY);
        },
        other => panic!("wrong event {:?}", other),
    }
    match rx.recv() {
        Ok(Some(ProtocolEvent::Message { sid, data })) => {
            assert_eq!(sid, Sid::new(1));
            assert_eq!(data, vec![8u8; 8]);
        },
        other => panic!("wrong event {:?}", other),
    }
    assert_eq!(rx.recv(), Err(ProtocolError::Closed));
}

#[test]
fn per_stream_order_is_kept() {
    let mut tx = SendState::new();
    tx.send(ProtocolEvent::OpenStream { sid: Sid::new(1), prio: 4, promises: 0, guaranteed_bandwidth: 0 }).unwrap();
    for i in 0..20u8 {
        tx.send(ProtocolEvent::Message { sid: Sid::new(1), data: vec![i] }).unwrap();
    }
    tx.flush(1_000_000, 1000).unwrap();
    let frames = tx.take_outgoing();
    let mut bytes = Vec::new();
    for f in &frames {
        encode_frame(f, &mut bytes);
    }
    let mut rx = RecvState::new();
    // uneven chunk sizes on the wire
    for chunk in bytes.chunks(7) {
        rx.on_chunk(chunk);
    }
    let mut expected = 0u8;
    loop {
        match rx.recv() {
            Ok(Some(ProtocolEvent::Message { sid, data })) => {
                assert_eq!(sid, Sid::new(1));
                assert_eq!(data, vec![expected]);
                expected += 1;
            },
            Ok(Some(_)) => {},
            Ok(None) => break,
            Err(e) => panic!("unexpected {:?}", e),
        }
    }
    assert_eq!(expected, 20);
}

#[test]
fn close_waits_for_queued_messages() {
    let mut tx = SendState::new();
    tx.send(ProtocolEvent::OpenStream { sid: Sid::new(5), prio: 3, promises: 0, guaranteed_bandwidth: 0 }).unwrap();
    tx.send(ProtocolEvent::Message { sid: Sid::new(5), data: vec![1, 2] }).unwrap();
    tx.send(ProtocolEvent::CloseStream { sid: Sid::new(5) }).unwrap();
    // the close must not overtake the queued payload
    let frames = tx.take_outgoing();
    assert_eq!(frames.len(), 1); // only the open frame left immediately
    tx.flush(1_000_000, 1000).unwrap();
    let frames = tx.take_outgoing();
    assert_eq!(frames.len(), 2);
    assert!(matches!(&frames[0], Frame::Message { sid: 5, .. }));
    assert!(matches!(&frames[1], Frame::CloseStream { sid: 5 }));
}

#[test]
fn handshake_succeeds_either_way() {
    let initiator_pid = Pid::new(100);
    let responder_pid = Pid::new(200);
    let (mut ini, hello) = InitMachine::start(true, initiator_pid, 0xfeed);
    let (mut resp, nothing) = InitMachine::start(false, responder_pid, 0xbeef);
    assert!(nothing.is_none());
    let hello = hello.unwrap();
    let (answer, resp_result) = resp.on_frame(hello);
    let answer = answer.unwrap();
    let resp_result = resp_result.unwrap().unwrap();
    assert_eq!(resp_result.pid, initiator_pid);
    assert_eq!(resp_result.sid, Sid::new(STREAM_ID_OFFSET2));
    assert_eq!(resp_result.secret, 0xfeed);
    let (nothing, ini_result) = ini.on_frame(answer);
    assert!(nothing.is_none());
    let ini_result = ini_result.unwrap().unwrap();
    assert_eq!(ini_result.pid, responder_pid);
    assert_eq!(ini_result.sid, Sid::new(STREAM_ID_OFFSET1));
    assert_eq!(ini_result.secret, 0xfeed);
    assert_eq!(ini.phase, InitPhase::Done);
    assert_eq!(resp.phase, InitPhase::Done);
}

#[test]
fn handshake_rejects_version_mismatch() {
    let (mut resp, _) = InitMachine::start(false, Pid::new(1), 0);
    let (out, outcome) = resp.on_frame(Frame::Hello { version: PROTOCOL_VERSION + 1, pid: 2, secret: 0 });
    assert!(matches!(out, Some(Frame::Reject)));
    assert_eq!(outcome, Some(Err(InitError::Incompatible)));
    assert_eq!(resp.phase, InitPhase::Failed);
}

#[test]
fn facade_splits_once_into_matching_halves() {
    let p = Protocols::new_tcp(metrics());
    let (s, r) = p.split();
    assert!(matches!(s, SendProtocols::Tcp(_)));
    assert!(matches!(r, RecvProtocols::Tcp(_)));
    let p = Protocols::new_mpsc(metrics());
    let (s, r) = p.split();
    assert!(matches!(s, SendProtocols::Mpsc(_)));
    assert!(matches!(r, RecvProtocols::Mpsc(_)));
}

#[test]
fn facade_handshake_over_outboxes() {
    let mut a = Protocols::new_mpsc(metrics());
    let mut b = Protocols::new_mpsc(metrics());
    a.initialize_start(true, Pid::new(1), 7);
    b.initialize_start(false, Pid::new(2), 9);
    // nothing has arrived yet: both wait without deadlock
    assert!(b.initialize_step().is_none());
    assert!(a.initialize_step().is_none());
    // move the initiator's hello over
    let hello_frames = match &mut a {
        Protocols::Mpsc(p) => p.send.take_outgoing(),
        _ => unreachable!(),
    };
    for f in hello_frames {
        match &mut b {
            Protocols::Mpsc(p) => p.recv.on_frame(f),
            _ => unreachable!(),
        }
    }
    let res_b = b.initialize_step().unwrap().unwrap();
    assert_eq!(res_b.pid, Pid::new(1));
    assert_eq!(res_b.secret, 7);
    let answer_frames = match &mut b {
        Protocols::Mpsc(p) => p.send.take_outgoing(),
        _ => unreachable!(),
    };
    for f in answer_frames {
        match &mut a {
            Protocols::Mpsc(p) => p.recv.on_frame(f),
            _ => unreachable!(),
        }
    }
    let res_a = a.initialize_step().unwrap().unwrap();
    assert_eq!(res_a.pid, Pid::new(2));
    assert_eq!(res_a.secret, 7);
}
