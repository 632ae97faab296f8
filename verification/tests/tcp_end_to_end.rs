use tokio::io::{AsyncReadExt, AsyncWriteExt};
use veloren_core::channel::{Protocols, ProtocolMetricCache};
use veloren_core::types::{ProtocolError, ProtocolEvent, Sid, PROMISES_GUARANTEED_DELIVERY};

fn cache_handle() -> ProtocolMetricCache {
    ProtocolMetricCache::new(String::from("0"))
}

/// The end-to-end scenario over a byte-stream transport, driven by the
/// async runtime.  An in-memory duplex pipe stands in for the stream
/// socket: ordered bytes, arbitrary chunking, end-of-stream when the writer
/// drops — the same contract a connected socket pair gives the protocol.
///
/// The client opens a stream and sends one message, flushes under a budget
/// of 1,000,000 with a one-second time slice; the server receives the open
/// event first, with matching stream id, priority and promises, then the
/// identical eight-byte payload, and sees closure only after both.
#[test]
fn byte_stream_end_to_end_scenario() {
    let rt = tokio::runtime::Runtime::new().unwrap();
    rt.block_on(async {
        let (client_sock, server_sock) = tokio::io::duplex(1500);

        let client = Protocols::new_tcp(cache_handle());
        let server = Protocols::new_tcp(cache_handle());
        let (mut s, _) = client.split();
        let (_, mut r) = server.split();

        let event = ProtocolEvent::OpenStream {
            sid: Sid::new(1),
            prio: 4u8,
            promises: PROMISES_GUARANTEED_DELIVERY,
            guaranteed_bandwidth: 1_000,
        };
        s.send(event.clone()).unwrap();
        s.send(ProtocolEvent::Message { sid: Sid::new(1), data: vec![8u8; 8] }).unwrap();
        let used = s.flush(1_000_000, 1000).unwrap();
        assert!(used <= 1_000_000);

        // the driver: write everything the send half produced, then drop it
        let bytes = s.take_outgoing_bytes();
        let (_client_read, mut client_write) = tokio::io::split(client_sock);
        let writer = tokio::spawn(async move {
            client_write.write_all(&bytes).await.unwrap();
            // dropping the write half closes the byte stream
        });
        drop(s); // recv must work even after shutdown of send!
        writer.await.unwrap();
        drop(_client_read);

        // the driver on the server side: read chunks into the receive half
        // until the peer closes
        let (mut server_read, _server_write) = tokio::io::split(server_sock);
        drop(_server_write);
        let mut scratch = vec![0u8; 1500];
        loop {
            match server_read.read(&mut scratch).await {
                Ok(0) | Err(_) => {
                    r.mark_closed();
                    break;
                },
                Ok(n) => r.on_chunk(&scratch[..n]),
            }
        }

        let res = r.recv();
        match res {
            Ok(Some(ProtocolEvent::OpenStream { sid, prio, promises, guaranteed_bandwidth: _ })) => {
                assert_eq!(sid, Sid::new(1));
                assert_eq!(prio, 4u8);
                assert_eq!(promises, PROMISES_GUARANTEED_DELIVERY);
            },
            _ => {
                panic!("wrong type {:?}", res);
            },
        }
        match r.recv() {
            Ok(Some(ProtocolEvent::Message { sid, data })) => {
                assert_eq!(sid, Sid::new(1));
                assert_eq!(data, vec![8u8; 8]);
            },
            other => panic!("wrong type {:?}", other),
        }
        assert_eq!(r.recv(), Err(ProtocolError::Closed));
    });
}

/// A receive half whose peer produced nothing and dropped reports `Closed`.
#[test]
fn byte_stream_recv_stops_after_peer_drop() {
    let rt = tokio::runtime::Runtime::new().unwrap();
    rt.block_on(async {
        let (client_sock, server_sock) = tokio::io::duplex(1500);

        let client = Protocols::new_tcp(cache_handle());
        let server = Protocols::new_tcp(cache_handle());
        let (s, _) = client.split();
        let (_, mut r) = server.split();
        drop(s);
        drop(client_sock);

        let (mut server_read, _server_write) = tokio::io::split(server_sock);
        drop(_server_write);
        let mut scratch = vec![0u8; 1500];
        loop {
            match server_read.read(&mut scratch).await {
                Ok(0) | Err(_) => {
                    r.mark_closed();
                    break;
                },
                Ok(n) => r.on_chunk(&scratch[..n]),
            }
        }
        let e = r.recv();
        assert!(e.is_err());
        assert_eq!(e.unwrap_err(), ProtocolError::Closed);
    });
}
