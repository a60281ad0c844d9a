use udp_redir::address::{read_address_len, Address, AddressError, SockAddr};
use udp_redir::flow::cache_key;
use udp_redir::relay::{
    check_sent, encode_frame, reply_payload, udp_timeout, RelayError, DEFAULT_TIMEOUT_SECS,
    EGRESS_QUEUE_SIZE,
};
use udp_redir::table::{AssocTable, Route};

use std::sync::Arc;
use std::time::{Duration, Instant};
use tokio::sync::{mpsc, oneshot};

fn v4(a: u8, b: u8, c: u8, d: u8, port: u16) -> SockAddr {
    SockAddr::V4 {
        ip: u32::from_be_bytes([a, b, c, d]),
        port,
    }
}

fn handles() -> (mpsc::Sender<Vec<u8>>, Arc<oneshot::Sender<()>>) {
    let (tx, _rx) = mpsc::channel::<Vec<u8>>(1024);
    let (wtx, _wrx) = oneshot::channel::<()>();
    (tx, Arc::new(wtx))
}

fn wait_past(ms: u64) {
    let start = Instant::now();
    while start.elapsed() < Duration::from_millis(ms) {}
}

#[test]
fn ipv4_address_field() {
    let mut buf = vec![9u8];
    Address::Socket(v4(1, 2, 3, 4, 53)).write_to_buf(&mut buf);
    assert_eq!(buf, vec![9, 1, 1, 2, 3, 4, 0, 53]);
}

#[test]
fn ipv6_address_field() {
    let ip: u128 = 0x2001_0db8_0000_0000_0000_0000_0000_0001;
    let a = Address::Socket(SockAddr::V6 {
        ip,
        port: 0x1f90,
        flowinfo: 7,
        scope_id: 3,
    });
    let mut buf = Vec::new();
    a.write_to_buf(&mut buf);
    let mut expected = vec![4u8];
    expected.extend_from_slice(&ip.to_be_bytes());
    expected.extend_from_slice(&[0x1f, 0x90]);
    assert_eq!(buf, expected);
    assert_eq!(read_address_len(&buf), Ok(19));
}

#[test]
fn domain_address_field() {
    let a = Address::Domain(b"example.com".to_vec(), 443);
    assert!(a.is_wf());
    let mut buf = Vec::new();
    a.write_to_buf(&mut buf);
    let mut expected = vec![3u8, 11];
    expected.extend_from_slice(b"example.com");
    expected.extend_from_slice(&[1, 187]);
    assert_eq!(buf, expected);
    assert_eq!(read_address_len(&buf), Ok(15));
}

#[test]
fn overlong_domain_is_not_writable() {
    assert!(!Address::Domain(vec![b'a'; 256], 80).is_wf());
    assert!(Address::Domain(vec![b'a'; 255], 80).is_wf());
}

#[test]
fn address_field_errors() {
    assert_eq!(read_address_len(&[]), Err(AddressError::Truncated));
    assert_eq!(read_address_len(&[1, 1, 2, 3, 4, 0]), Err(AddressError::Truncated));
    assert_eq!(read_address_len(&[4, 0, 0]), Err(AddressError::Truncated));
    assert_eq!(read_address_len(&[3, 5, b'a', 0, 80]), Err(AddressError::Truncated));
    assert_eq!(read_address_len(&[9, 0, 0]), Err(AddressError::UnknownType(9)));
    assert_eq!(read_address_len(&[3, 2, 0xff, 0xfe, 0, 80]), Err(AddressError::BadDomain));
    assert_eq!(read_address_len(&[3, 2, b'o', b'k', 0, 80, 7]), Ok(6));
}

#[test]
fn flow_keys_identify_pairs() {
    let a = v4(10, 0, 0, 2, 40000);
    let b = v4(1, 2, 3, 4, 53);
    assert_eq!(cache_key(&a, &b), cache_key(&a, &b));
    assert_ne!(cache_key(&a, &b), cache_key(&b, &a));
    assert_ne!(cache_key(&a, &b), cache_key(&v4(10, 0, 0, 2, 40001), &b));
    let six = SockAddr::V6 {
        ip: 0x0102_0304,
        port: 53,
        flowinfo: 0,
        scope_id: 0,
    };
    assert_ne!(cache_key(&a, &b), cache_key(&a, &six));
}

#[test]
fn frame_is_address_then_payload() {
    let payloads: Vec<Vec<u8>> = vec![vec![1, 2, 3], vec![], vec![0xaa; 5]];
    let dst = Address::Socket(v4(8, 8, 4, 4, 53));
    for p in &payloads {
        let frame = encode_frame(&dst, p);
        let mut expected = vec![1u8, 8, 8, 4, 4, 0, 53];
        expected.extend_from_slice(p);
        assert_eq!(frame, expected);
    }
}

#[test]
fn reply_keeps_only_payload() {
    let a = Address::Domain(b"dns.example".to_vec(), 53);
    let frame = encode_frame(&a, b"answer");
    assert_eq!(reply_payload(Some(frame)), Ok(b"answer".to_vec()));
    let empty = encode_frame(&Address::Socket(v4(1, 1, 1, 1, 1)), &[]);
    assert_eq!(reply_payload(Some(empty)), Ok(vec![]));
}

#[test]
fn reply_errors() {
    assert_eq!(reply_payload(None), Err(RelayError::TooShort));
    assert_eq!(
        reply_payload(Some(vec![1, 2, 3])),
        Err(RelayError::BadAddress(AddressError::Truncated))
    );
    assert_eq!(
        reply_payload(Some(vec![7, 0, 0, 0])),
        Err(RelayError::BadAddress(AddressError::UnknownType(7)))
    );
    assert_eq!(
        reply_payload(Some(vec![3, 1, 0xc0, 0, 53, 1])),
        Err(RelayError::BadAddress(AddressError::BadDomain))
    );
}

#[test]
fn short_send_is_an_error() {
    assert_eq!(check_sent(40, 40), Ok(()));
    assert_eq!(
        check_sent(40, 39),
        Err(RelayError::ShortSend {
            expected: 40,
            sent: 39
        })
    );
}

#[test]
fn timeout_defaults() {
    assert_eq!(udp_timeout(None), DEFAULT_TIMEOUT_SECS);
    assert_eq!(udp_timeout(None), 300);
    assert_eq!(udp_timeout(Some(17)), 17);
}

#[test]
fn one_association_per_flow() {
    let mut table = AssocTable::new(60_000);
    let src = v4(192, 168, 1, 9, 5000);
    let dst = v4(1, 2, 3, 4, 53);
    let key = cache_key(&src, &dst);
    let mut created = 0;
    for _ in 0..5 {
        match table.route(&src, &dst, 12) {
            Route::Miss(k) => {
                assert_eq!(k, key);
                created += 1;
                let (tx, w) = handles();
                assert_eq!(table.register(k, tx, w), Some(0));
            }
            Route::Hit(k, id) => {
                assert_eq!(k, key);
                assert_eq!(id, 0);
            }
            Route::Discard => panic!("nonempty datagram discarded"),
        }
    }
    assert_eq!(created, 1);
    assert_eq!(table.handle(&key).map(|a| a.id), Some(0));
}

#[test]
fn distinct_flows_get_distinct_associations() {
    let mut table = AssocTable::new(60_000);
    let dst = v4(1, 2, 3, 4, 53);
    let s1 = v4(10, 0, 0, 1, 1000);
    let s2 = v4(10, 0, 0, 1, 1001);
    let (tx, w) = handles();
    assert_eq!(table.register(cache_key(&s1, &dst), tx, w), Some(0));
    assert!(matches!(table.route(&s2, &dst, 1), Route::Miss(_)));
    let (tx, w) = handles();
    assert_eq!(table.register(cache_key(&s2, &dst), tx, w), Some(1));
    assert!(matches!(table.route(&s1, &dst, 1), Route::Hit(_, 0)));
    assert!(matches!(table.route(&s2, &dst, 1), Route::Hit(_, 1)));
}

#[test]
fn empty_datagram_never_associates() {
    let mut table = AssocTable::new(60_000);
    let src = v4(10, 0, 0, 2, 40000);
    let dst = v4(1, 2, 3, 4, 53);
    assert!(matches!(table.route(&src, &dst, 0), Route::Discard));
    assert!(table.handle(&cache_key(&src, &dst)).is_none());
    let (tx, w) = handles();
    assert_eq!(table.register(cache_key(&src, &dst), tx, w), Some(0));
    assert!(matches!(table.route(&src, &dst, 0), Route::Discard));
}

#[test]
fn idle_flow_expires_and_reassociates() {
    let mut table = AssocTable::new(20);
    let src = v4(10, 0, 0, 2, 40000);
    let dst = v4(1, 2, 3, 4, 53);
    let key = cache_key(&src, &dst);
    let (tx, w) = handles();
    assert_eq!(table.register(key, tx, w), Some(0));
    assert!(matches!(table.route(&src, &dst, 4), Route::Hit(_, 0)));
    wait_past(60);
    table.sweep();
    assert!(table.handle(&key).is_none());
    match table.route(&src, &dst, 4) {
        Route::Miss(k) => {
            let (tx, w) = handles();
            assert_eq!(table.register(k, tx, w), Some(1));
        }
        other => panic!("expected a new association, got {:?}", other),
    }
    assert_eq!(table.handle(&key).map(|a| a.id), Some(1));
}

#[test]
fn touched_flow_stays_live() {
    let mut table = AssocTable::new(200);
    let src = v4(10, 0, 0, 2, 40000);
    let dst = v4(1, 2, 3, 4, 53);
    let key = cache_key(&src, &dst);
    let (tx, w) = handles();
    assert_eq!(table.register(key, tx, w), Some(0));
    for _ in 0..4 {
        wait_past(80);
        table.touch(&key);
    }
    assert_eq!(table.handle(&key).map(|a| a.id), Some(0));
}

#[test]
fn evicting_an_association_fires_its_shutdown_signal() {
    let mut table = AssocTable::new(10);
    let src = v4(10, 0, 0, 2, 40000);
    let dst = v4(1, 2, 3, 4, 53);
    let (tx, mut rx) = mpsc::channel::<Vec<u8>>(1024);
    let (wtx, mut wrx) = oneshot::channel::<()>();
    assert_eq!(table.register(cache_key(&src, &dst), tx, Arc::new(wtx)), Some(0));
    assert!(wrx.try_recv().is_err());
    wait_past(40);
    table.sweep();
    assert!(matches!(
        wrx.try_recv(),
        Err(oneshot::error::TryRecvError::Closed)
    ));
    assert!(matches!(
        rx.try_recv(),
        Err(mpsc::error::TryRecvError::Disconnected)
    ));
}

#[test]
fn end_to_end_dns_query() {
    let mut table = AssocTable::new(60_000);
    let client = v4(10, 0, 0, 2, 40000);
    let dst = v4(1, 2, 3, 4, 53);
    let query: Vec<u8> = (0u8..16).collect();

    let key = match table.route(&client, &dst, query.len()) {
        Route::Miss(k) => k,
        other => panic!("expected a miss, got {:?}", other),
    };
    assert_eq!(key, cache_key(&client, &dst));
    let (tx, mut rx) = mpsc::channel::<Vec<u8>>(1024);
    let (wtx, _wrx) = oneshot::channel::<()>();
    assert_eq!(table.register(key, tx, Arc::new(wtx)), Some(0));
    table
        .handle(&key)
        .expect("registered")
        .tx
        .try_send(query.clone())
        .expect("queue has room");

    let queued = rx.try_recv().expect("payload queued");
    let frame = encode_frame(&Address::Socket(dst), &queued);
    let mut expected = vec![1u8, 1, 2, 3, 4, 0, 53];
    expected.extend_from_slice(&query);
    assert_eq!(frame, expected);

    let answer = b"\x12\x34\x81\x80answer".to_vec();
    let reply = encode_frame(&Address::Socket(dst), &answer);
    assert_eq!(reply_payload(Some(reply)), Ok(answer));
    assert!(matches!(table.route(&client, &dst, 16), Route::Hit(k, 0) if k == key));
}

#[test]
fn full_egress_queue_holds_back_without_loss() {
    let mut table = AssocTable::new(60_000);
    let src = v4(10, 0, 0, 2, 40000);
    let dst = v4(1, 2, 3, 4, 53);
    let key = cache_key(&src, &dst);
    let (tx, mut rx) = mpsc::channel::<Vec<u8>>(EGRESS_QUEUE_SIZE);
    let (wtx, _wrx) = oneshot::channel::<()>();
    assert_eq!(table.register(key, tx, Arc::new(wtx)), Some(0));
    let tx = table.handle(&key).expect("registered").tx.clone();
    for i in 0..EGRESS_QUEUE_SIZE {
        tx.try_send((i as u32).to_be_bytes().to_vec()).expect("room left");
    }
    assert!(matches!(
        tx.try_send(vec![0xff]),
        Err(mpsc::error::TrySendError::Full(_))
    ));
    assert_eq!(rx.try_recv().unwrap(), 0u32.to_be_bytes().to_vec());
    tx.try_send(vec![0xff]).expect("a slot was freed");
    let target = Address::Socket(dst);
    for i in 1..EGRESS_QUEUE_SIZE {
        let p = rx.try_recv().unwrap();
        assert_eq!(p, (i as u32).to_be_bytes().to_vec());
        let frame = encode_frame(&target, &p);
        assert_eq!(&frame[7..], &p[..]);
    }
    assert_eq!(rx.try_recv().unwrap(), vec![0xff]);
    assert!(rx.try_recv().is_err());
}

#[test]
fn empty_datagram_does_not_keep_a_flow_alive() {
    let mut table = AssocTable::new(100);
    let src = v4(10, 0, 0, 2, 40000);
    let dst = v4(1, 2, 3, 4, 53);
    let key = cache_key(&src, &dst);
    let (tx, w) = handles();
    assert_eq!(table.register(key, tx, w), Some(0));
    wait_past(70);
    assert!(matches!(table.route(&src, &dst, 0), Route::Discard));
    wait_past(70);
    table.sweep();
    assert!(table.handle(&key).is_none());
}
