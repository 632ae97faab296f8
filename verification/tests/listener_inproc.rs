use veloren_core::channel::{Protocols, ProtocolMetricCache};
use veloren_core::inproc::InProcNetwork;
use veloren_core::listener::{AcceptDecision, AcceptEvent, CidAllocator, ListenerState};
use veloren_core::types::{ConnectError, ProtocolEvent, Sid};

fn metric_cache() -> ProtocolMetricCache {
    ProtocolMetricCache::new(String::from("0"))
}

#[test]
fn listener_survives_failed_attempt() {
    // one failing accept followed by one succeeding accept: the failure is
    // skipped and the success is still accepted
    let mut listener = ListenerState::new();
    let mut cids = CidAllocator::new();
    let d = listener.step(&mut cids, AcceptEvent::IncomingFailed);
    assert_eq!(d, AcceptDecision::Skip);
    let d = listener.step(&mut cids, AcceptEvent::Incoming);
    assert_eq!(d, AcceptDecision::Accept(0));
    let d = listener.step(&mut cids, AcceptEvent::Cancelled);
    assert_eq!(d, AcceptDecision::Stop);
    let d = listener.step(&mut cids, AcceptEvent::Incoming);
    assert_eq!(d, AcceptDecision::Stop);
}

#[test]
fn cids_strictly_increase() {
    let mut cids = CidAllocator::new();
    let mut issued = Vec::new();
    for _ in 0..100 {
        issued.push(cids.allocate());
    }
    for w in issued.windows(2) {
        assert!(w[0] < w[1]);
    }
    let distinct: std::collections::BTreeSet<u64> = issued.iter().copied().collect();
    assert_eq!(distinct.len(), issued.len());
}

#[test]
fn connect_without_listener_is_not_listening() {
    let mut net = InProcNetwork::new();
    match net.with_mpsc_connect(1234, metric_cache()) {
        Err(ConnectError::NotListening) => {},
        other => panic!("wrong result {:?}", other.is_ok()),
    }
}

#[test]
fn rendezvous_round_trip() {
    let mut net = InProcNetwork::new();
    let lid = net.with_mpsc_listen(7);
    let client = net.with_mpsc_connect(7, metric_cache()).unwrap();
    let (server, cid) = net.accept(lid).unwrap();
    assert_eq!(cid, 0);

    // both directions carry a message: client -> server and back
    let (mut cs, mut cr) = client.split();
    let (mut ss, mut sr) = server.split();

    cs.send(ProtocolEvent::OpenStream { sid: Sid::new(1), prio: 4, promises: 0, guaranteed_bandwidth: 0 }).unwrap();
    cs.send(ProtocolEvent::Message { sid: Sid::new(1), data: vec![1, 2, 3] }).unwrap();
    cs.flush(1_000_000, 1000).unwrap();
    for f in cs.take_outgoing() {
        sr.on_frame(f);
    }
    assert!(matches!(sr.recv(), Ok(Some(ProtocolEvent::OpenStream { .. }))));
    match sr.recv() {
        Ok(Some(ProtocolEvent::Message { sid, data })) => {
            assert_eq!(sid, Sid::new(1));
            assert_eq!(data, vec![1, 2, 3]);
        },
        other => panic!("wrong event {:?}", other),
    }

    ss.send(ProtocolEvent::OpenStream { sid: Sid::new(2), prio: 4, promises: 0, guaranteed_bandwidth: 0 }).unwrap();
    ss.send(ProtocolEvent::Message { sid: Sid::new(2), data: vec![9] }).unwrap();
    ss.flush(1_000_000, 1000).unwrap();
    for f in ss.take_outgoing() {
        cr.on_frame(f);
    }
    assert!(matches!(cr.recv(), Ok(Some(ProtocolEvent::OpenStream { .. }))));
    match cr.recv() {
        Ok(Some(ProtocolEvent::Message { sid, data })) => {
            assert_eq!(sid, Sid::new(2));
            assert_eq!(data, vec![9]);
        },
        other => panic!("wrong event {:?}", other),
    }
}

#[test]
fn stopping_unregisters_the_address() {
    let mut net = InProcNetwork::new();
    let _lid = net.with_mpsc_listen(9);
    assert!(net.with_mpsc_connect(9, metric_cache()).is_ok());
    net.stop_listening(9);
    match net.with_mpsc_connect(9, metric_cache()) {
        Err(ConnectError::NotListening) => {},
        other => panic!("wrong result {:?}", other.is_ok()),
    }
}

#[test]
fn concurrent_accepts_get_distinct_increasing_cids() {
    let mut net = InProcNetwork::new();
    let lid = net.with_mpsc_listen(5);
    for _ in 0..10 {
        net.with_mpsc_connect(5, metric_cache()).unwrap();
    }
    let mut last: Option<u64> = None;
    for _ in 0..10 {
        let (_, cid) = net.accept(lid).unwrap();
        if let Some(prev) = last {
            assert!(cid > prev);
        }
        last = Some(cid);
    }
    assert!(net.accept(lid).is_none());
}
