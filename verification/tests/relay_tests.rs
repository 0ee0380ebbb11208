use zeta::identity::{SigningKey, sign, verify};
use zeta::message::Message;
use zeta::netaddr::NetAddr;
use zeta::relay::{RelayNode, RelayOutcome, RELAY_PORT};

fn addr(last: u8, port: u16) -> NetAddr {
    NetAddr::V4 { ip4: u32::from_be_bytes([10, 0, 0, last]), port }
}

fn relay() -> RelayNode {
    RelayNode::new("r1".to_string(), SigningKey::from_bytes(&[4u8; 32]))
}

fn register(r: &mut RelayNode, from: NetAddr, id: &str, time: u64, btc: Option<&str>) {
    let m = Message::Register {
        src_addr: from,
        src_id: id.to_string(),
        dst_addr: addr(100, RELAY_PORT),
        dst_id: "relay".to_string(),
        time,
        btc_address: btc.map(|s| s.to_string()),
    };
    assert!(matches!(r.handle_message(m, from), RelayOutcome::Registered));
}

fn classic(key: &SigningKey, id: u64, ttl: u8) -> Message {
    Message::Classic {
        src_addr: addr(1, 1),
        src_id: "alice".into(),
        dst_addr: addr(100, RELAY_PORT),
        dst_id: "all".into(),
        txt: "hi".into(),
        time: 10,
        msg_id: id,
        ttl,
        public_key: key.verifying_key(),
        signature: sign(key, "alice", "hi", 10, id),
    }
}

#[test]
fn new_relay_identity() {
    let r = relay();
    assert_eq!(r.relay_id, "relay:r1");
    assert_eq!(r.port, 12345);
    assert!(r.peers.is_empty());
}

#[test]
fn registration_adds_then_refreshes() {
    let mut r = relay();
    register(&mut r, addr(1, 1), "alice", 10, Some("1Alice"));
    register(&mut r, addr(2, 2), "bob", 11, None);
    register(&mut r, addr(1, 1), "alice2", 20, None);
    assert_eq!(r.peers.len(), 2);
    assert_eq!(r.peers[0].peer_id, "alice2");
    assert_eq!(r.peers[0].last_seen, 20);
    assert_eq!(r.peers[0].btc_address, None);
    assert_eq!(r.find_peer(&"alice2".to_string()), Some(addr(1, 1)));
    assert_eq!(r.find_peer(&"alice".to_string()), None);
}

#[test]
fn valid_broadcast_is_forwarded_once_with_one_hop_less() {
    let mut r = relay();
    register(&mut r, addr(1, 1), "alice", 10, None);
    register(&mut r, addr(2, 2), "bob", 10, None);
    register(&mut r, addr(3, 3), "carol", 10, None);
    let key = SigningKey::from_bytes(&[5u8; 32]);
    match r.handle_message(classic(&key, 7, 16), addr(1, 1)) {
        RelayOutcome::Accepted { forward: Some(out) } => {
            assert_eq!(out.targets, vec![addr(2, 2), addr(3, 3)]);
            match out.msg {
                Message::Classic { ttl, txt, public_key, signature, msg_id, time, src_id, .. } => {
                    assert_eq!(ttl, 15);
                    assert!(verify(&public_key, &src_id, &txt, time, msg_id, &signature));
                }
                _ => panic!(),
            }
        }
        _ => panic!("not forwarded"),
    }
    assert!(matches!(r.handle_message(classic(&key, 7, 16), addr(2, 2)), RelayOutcome::Duplicate));
    assert!(matches!(
        r.handle_message(classic(&key, 8, 0), addr(2, 2)),
        RelayOutcome::Accepted { forward: None }
    ));
}

#[test]
fn forged_broadcast_is_dropped() {
    let mut r = relay();
    register(&mut r, addr(2, 2), "bob", 10, None);
    let key = SigningKey::from_bytes(&[5u8; 32]);
    let mut m = classic(&key, 9, 16);
    if let Message::Classic { src_id, .. } = &mut m {
        *src_id = "mallory".into();
    }
    assert!(matches!(r.handle_message(m, addr(1, 1)), RelayOutcome::InvalidSignature));
}

#[test]
fn payments_are_routed_to_the_addressee() {
    let mut r = relay();
    register(&mut r, addr(1, 1), "alice", 10, Some("1Alice"));
    register(&mut r, addr(2, 2), "bob", 10, Some("1Bob"));
    register(&mut r, addr(3, 3), "carol", 10, None);
    let p = Message::Payment { src_id: "alice".into(), dst_id: "1Bob".into(), amount: 3, payment_id: 1 };
    match r.handle_message(p, addr(1, 1)) {
        RelayOutcome::Routed(out) => {
            assert_eq!(out.targets, vec![addr(2, 2)]);
            assert!(matches!(out.msg, Message::Payment { amount: 3, payment_id: 1, .. }));
        }
        _ => panic!(),
    }
    let p = Message::Payment { src_id: "alice".into(), dst_id: "dave".into(), amount: 3, payment_id: 2 };
    match r.handle_message(p, addr(1, 1)) {
        RelayOutcome::Routed(out) => assert_eq!(out.targets, vec![addr(2, 2), addr(3, 3)]),
        _ => panic!(),
    }
    let k = Message::PaymentAck { payment_id: 1, from_id: "bob".into(), to_id: "alice".into() };
    match r.handle_message(k, addr(2, 2)) {
        RelayOutcome::Routed(out) => assert_eq!(out.targets, vec![addr(1, 1)]),
        _ => panic!(),
    }
}

#[test]
fn console_line_with_a_random_id() {
    let mut r = relay();
    register(&mut r, addr(1, 1), "alice", 10, None);
    let out = r.broadcast_line("bonjour", 7);
    assert_eq!(out.targets, vec![addr(1, 1)]);
    match &out.msg {
        Message::Classic { src_addr, src_id, dst_addr, dst_id, txt, ttl, time, .. } => {
            assert_eq!(*src_addr, NetAddr::V4 { ip4: 0, port: 12345 });
            assert_eq!(src_id, "r1");
            assert_eq!(*dst_addr, NetAddr::V4 { ip4: 0, port: 0 });
            assert_eq!(dst_id, "all");
            assert_eq!(txt, "bonjour");
            assert_eq!((*ttl, *time), (16, 7));
        }
        _ => panic!(),
    }
    // Its id was remembered: the message coming back is a duplicate.
    assert!(matches!(r.handle_message(out.msg, addr(1, 1)), RelayOutcome::Duplicate));
}

#[test]
fn address_requests() {
    let mut r = relay();
    register(&mut r, addr(2, 2), "bob", 10, Some("1Bob"));
    let q = Message::AskForAddr { src_addr: addr(7, 7), src_id: "x".into(), peer_id: "bob".into(), time: 0 };
    match r.handle_message(q, addr(7, 7)) {
        RelayOutcome::Answered(out) => {
            assert_eq!(out.targets, vec![addr(7, 7)]);
            match out.msg {
                Message::PeerInfo { peer_addr, peer_id } => {
                    assert_eq!(peer_addr, addr(2, 2));
                    assert_eq!(peer_id, "bob");
                }
                _ => panic!(),
            }
        }
        _ => panic!(),
    }
    // Address requests match the peer id only, not the Bitcoin address.
    let q = Message::AskForAddr { src_addr: addr(7, 7), src_id: "x".into(), peer_id: "1Bob".into(), time: 0 };
    assert!(matches!(r.handle_message(q, addr(7, 7)), RelayOutcome::Ignored));
    let c = Message::Connect { src_addr: addr(7, 7), src_id: "x".into(), dst_id: "bob".into(), time: 0 };
    assert!(matches!(r.handle_message(c, addr(7, 7)), RelayOutcome::Ignored));
}

#[test]
fn silent_peers_expire() {
    let mut r = relay();
    register(&mut r, addr(1, 1), "old", 100, None);
    register(&mut r, addr(2, 2), "fresh", 150, None);
    register(&mut r, addr(3, 3), "edge", 101, None);
    assert_eq!(r.expire_peers(160), Some(vec![addr(1, 1)]));
    assert_eq!(r.peers.len(), 2);
    assert_eq!(r.peers[0].peer_id, "fresh");
    assert_eq!(r.peers[1].peer_id, "edge");
    // A registration dated in the future cannot be aged.
    register(&mut r, addr(4, 4), "future", 500, None);
    assert_eq!(r.expire_peers(200), None);
    assert_eq!(r.peers.len(), 3);
}

#[test]
fn console_line_is_broadcast_to_all() {
    let mut r = relay();
    register(&mut r, addr(1, 1), "alice", 10, None);
    register(&mut r, addr(2, 2), "bob", 10, None);
    let out = r.local_message("annonce", 42, 1234);
    assert_eq!(out.targets, vec![addr(1, 1), addr(2, 2)]);
    match &out.msg {
        Message::Classic { src_addr, src_id, dst_addr, txt, ttl, msg_id, public_key, signature, time, .. } => {
            assert_eq!(*src_addr, NetAddr::V4 { ip4: 0, port: 12345 });
            assert_eq!(src_id, "r1");
            assert_eq!(*dst_addr, NetAddr::V4 { ip4: 0, port: 0 });
            assert_eq!(txt, "annonce");
            assert_eq!((*ttl, *msg_id), (16, 1234));
            assert!(verify(public_key, src_id, txt, *time, *msg_id, signature));
        }
        _ => panic!(),
    }
    // The relay's own message coming back is a duplicate.
    let back = out.msg;
    assert!(matches!(r.handle_message(back, addr(1, 1)), RelayOutcome::Duplicate));
    match r.register_message(addr(50, 12345), 3) {
        Message::Register { src_id, src_addr, btc_address, dst_id, .. } => {
            assert_eq!(src_id, "relay:r1");
            assert_eq!(src_addr, NetAddr::V4 { ip4: 0, port: 12345 });
            assert_eq!(btc_address, None);
            assert_eq!(dst_id, "relay");
        }
        _ => panic!(),
    }
}
