use zeta::app_state::ChatMessage;
use zeta::client::{CliCommand, ClientNode, PayError, Reaction, parse_command, pay_command_args};
use zeta::identity::{SigningKey, fingerprint, sign};
use zeta::message::Message;
use zeta::netaddr::NetAddr;
use zeta::wallet::Wallet;

fn addr(last: u8, port: u16) -> NetAddr {
    NetAddr::V4 { ip4: u32::from_be_bytes([10, 0, 0, last]), port }
}

fn node(balance: u64) -> ClientNode {
    ClientNode::new(
        "alice".to_string(),
        SigningKey::from_bytes(&[1u8; 32]),
        "1AliceBtc".to_string(),
        addr(1, 4000),
        vec![addr(9, 12345), addr(8, 12345)],
        Wallet { balance, address: "1AliceBtc".to_string() },
    )
}

fn classic_from(key: &SigningKey, src: &str, txt: &str, time: u64, id: u64) -> Message {
    Message::Classic {
        src_addr: addr(2, 5000),
        src_id: src.to_string(),
        dst_addr: addr(9, 12345),
        dst_id: "all".to_string(),
        txt: txt.to_string(),
        time,
        msg_id: id,
        ttl: 15,
        public_key: key.verifying_key(),
        signature: sign(key, src, txt, time, id),
    }
}

#[test]
fn new_node_fingerprint() {
    let n = node(0);
    assert_eq!(n.my_fp, fingerprint(&SigningKey::from_bytes(&[1u8; 32]).verifying_key()));
    assert_eq!(n.my_fp.len(), 16);
    assert_eq!(n.state.fingerprint, n.my_fp);
    assert!(n.state.messages.is_empty());
}

#[test]
fn valid_message_displayed_once() {
    let mut n = node(0);
    let bob = SigningKey::from_bytes(&[2u8; 32]);
    let m = classic_from(&bob, "bob", "salut", 1000, 77);
    match n.handle_msg(m, 5) {
        Reaction::Displayed(ev) => {
            assert_eq!(ev.event_type, "message");
            assert_eq!(ev.message.from_id, "bob");
            assert_eq!(ev.message.fingerprint, fingerprint(&bob.verifying_key()));
            assert_eq!(ev.message.text, "salut");
            assert_eq!(ev.message.timestamp, 1000);
            assert_eq!(ev.message.msg_type, "message");
        }
        _ => panic!("not displayed"),
    }
    assert_eq!(n.state.messages.len(), 1);
    let again = classic_from(&bob, "bob", "salut", 1000, 77);
    assert!(matches!(n.handle_msg(again, 6), Reaction::Ignored));
    assert_eq!(n.state.messages.len(), 1);
}

#[test]
fn forged_message_rejected() {
    let mut n = node(0);
    let bob = SigningKey::from_bytes(&[2u8; 32]);
    let mut m = classic_from(&bob, "bob", "salut", 1000, 78);
    if let Message::Classic { txt, .. } = &mut m {
        *txt = "tampered".to_string();
    }
    assert!(matches!(n.handle_msg(m, 5), Reaction::InvalidSignature));
    assert!(n.state.messages.is_empty());
}

#[test]
fn payment_to_me_credits_and_acks() {
    let mut n = node(10);
    let p = Message::Payment { src_id: "bob".into(), dst_id: "alice".into(), amount: 500, payment_id: 9 };
    match n.handle_msg(p, 1234) {
        Reaction::PaymentReceived { event, ack } => {
            assert_eq!(event.event_type, "payment");
            assert_eq!(event.message.from_id, "bob");
            assert_eq!(event.message.fingerprint, "");
            assert_eq!(event.message.text, "500");
            assert_eq!(event.message.timestamp, 1234);
            assert_eq!(event.message.msg_type, "payment_received");
            match ack {
                Message::PaymentAck { payment_id, from_id, to_id } => {
                    assert_eq!(payment_id, 9);
                    assert_eq!(from_id, "alice");
                    assert_eq!(to_id, "bob");
                }
                _ => panic!("no ack"),
            }
        }
        _ => panic!("payment not received"),
    }
    assert_eq!(n.state.wallet.balance, 510);
    // The same payment arriving through another relay is not credited twice.
    let p = Message::Payment { src_id: "bob".into(), dst_id: "alice".into(), amount: 500, payment_id: 9 };
    assert!(matches!(n.handle_msg(p, 1235), Reaction::Ignored));
    assert_eq!(n.state.wallet.balance, 510);
}

#[test]
fn payment_addressed_by_fingerprint_or_btc() {
    let mut n = node(0);
    let fp = n.my_fp.clone();
    let p = Message::Payment { src_id: "bob".into(), dst_id: fp, amount: 1, payment_id: 1 };
    assert!(matches!(n.handle_msg(p, 0), Reaction::PaymentReceived { .. }));
    let p = Message::Payment { src_id: "bob".into(), dst_id: "1AliceBtc".into(), amount: 2, payment_id: 2 };
    assert!(matches!(n.handle_msg(p, 0), Reaction::PaymentReceived { .. }));
    let p = Message::Payment { src_id: "bob".into(), dst_id: "carol".into(), amount: 4, payment_id: 3 };
    assert!(matches!(n.handle_msg(p, 0), Reaction::Ignored));
    assert_eq!(n.state.wallet.balance, 3);
}

#[test]
fn payment_that_would_overflow_is_not_credited() {
    let mut n = node(u64::MAX - 1);
    let p = Message::Payment { src_id: "bob".into(), dst_id: "alice".into(), amount: 2, payment_id: 4 };
    assert!(matches!(n.handle_msg(p, 0), Reaction::BalanceOverflow));
    assert_eq!(n.state.wallet.balance, u64::MAX - 1);
}

#[test]
fn ack_to_me_is_shown_once() {
    let mut n = node(0);
    let k = Message::PaymentAck { payment_id: 5, from_id: "bob".into(), to_id: "alice".into() };
    match n.handle_msg(k, 77) {
        Reaction::AckReceived(ev) => {
            assert_eq!(ev.event_type, "payment");
            assert_eq!(ev.message.msg_type, "payment_ack");
            assert_eq!(ev.message.from_id, "bob");
            assert_eq!(ev.message.text, "");
            assert_eq!(ev.message.timestamp, 77);
        }
        _ => panic!("ack not shown"),
    }
    let k = Message::PaymentAck { payment_id: 5, from_id: "bob".into(), to_id: "alice".into() };
    assert!(matches!(n.handle_msg(k, 78), Reaction::Ignored));
    let k = Message::PaymentAck { payment_id: 6, from_id: "bob".into(), to_id: "dave".into() };
    assert!(matches!(n.handle_msg(k, 78), Reaction::Ignored));
    // A payment and an ack with the same id are remembered separately.
    let p = Message::Payment { src_id: "bob".into(), dst_id: "alice".into(), amount: 1, payment_id: 5 };
    assert!(matches!(n.handle_msg(p, 0), Reaction::PaymentReceived { .. }));
}

#[test]
fn other_kinds_are_ignored() {
    let mut n = node(0);
    let m = Message::PeerInfo { peer_addr: addr(3, 1), peer_id: "x".into() };
    assert!(matches!(n.handle_msg(m, 0), Reaction::Ignored));
}

#[test]
fn composed_message_is_signed_and_echoed() {
    let mut n = node(0);
    let (m, ev) = n.compose_message("hello", 1700, 99);
    match &m {
        Message::Classic { src_addr, src_id, dst_addr, dst_id, txt, time, msg_id, ttl, public_key, signature } => {
            assert_eq!(*src_addr, addr(1, 4000));
            assert_eq!(src_id, "alice");
            assert_eq!(*dst_addr, addr(9, 12345));
            assert_eq!(dst_id, "all");
            assert_eq!(txt, "hello");
            assert_eq!((*time, *msg_id, *ttl), (1700, 99, 16));
            assert!(zeta::identity::verify(public_key, "alice", "hello", 1700, 99, signature));
        }
        _ => panic!("not a broadcast"),
    }
    assert_eq!(ev.message.from_id, "alice (vous)");
    assert_eq!(ev.message.fingerprint, n.my_fp);
    assert_eq!(ev.event_type, "message");
    // A relay-less node addresses 0.0.0.0:0.
    let mut lone = ClientNode::new(
        "z".into(),
        SigningKey::from_bytes(&[3u8; 32]),
        "1Z".into(),
        addr(1, 1),
        vec![],
        Wallet { balance: 0, address: "1Z".into() },
    );
    let (m, _) = lone.send_msg("x", 1);
    match m {
        Message::Classic { dst_addr, .. } => assert_eq!(dst_addr, NetAddr::V4 { ip4: 0, port: 0 }),
        _ => panic!(),
    }
}

#[test]
fn pay_command() {
    let mut n = node(1000);
    let r = n.pay_with_id(" bob  250 ", 31, 88);
    // The leading space splits off an empty addressee, so "bob  250" is the amount.
    assert_eq!(r.err(), Some(PayError::InvalidAmount));
    match n.pay_with_id("bob  250 ", 31, 88) {
        Ok((Message::Payment { src_id, dst_id, amount, payment_id }, ev)) => {
            assert_eq!((src_id.as_str(), dst_id.as_str(), amount, payment_id), ("alice", "bob", 250, 31));
            assert_eq!(ev.message.text, "250 → bob");
            assert_eq!(ev.message.from_id, "alice (vous)");
            assert_eq!(ev.message.msg_type, "payment_sent");
            assert_eq!(ev.message.timestamp, 88);
            assert_eq!(ev.event_type, "payment");
        }
        _ => panic!("payment refused"),
    }
    assert_eq!(n.state.wallet.balance, 750);
    assert_eq!(n.pay_with_id("bob", 1, 0).err(), Some(PayError::Usage));
    assert_eq!(n.pay_with_id("bob 0", 1, 0).err(), Some(PayError::InvalidAmount));
    assert_eq!(n.pay_with_id("bob -3", 1, 0).err(), Some(PayError::InvalidAmount));
    assert_eq!(n.pay_with_id("bob 751", 1, 0).err(), Some(PayError::InsufficientBalance));
    assert_eq!(n.state.wallet.balance, 750);
    match n.do_pay("bob 750", 4) {
        Ok((Message::Payment { src_id, dst_id, amount, .. }, ev)) => {
            assert_eq!((src_id.as_str(), dst_id.as_str(), amount), ("alice", "bob", 750));
            assert_eq!(ev.message.from_id, "alice (vous)");
            assert_eq!(ev.message.text, "750 → bob");
            assert_eq!(ev.message.timestamp, 4);
            assert_eq!(ev.message.msg_type, "payment_sent");
        }
        _ => panic!("payment refused"),
    }
    assert_eq!(n.state.wallet.balance, 0);
}

#[test]
fn sent_message_fields_and_echo() {
    let mut n = node(0);
    let (m, ev) = n.send_msg("coucou", 321);
    match &m {
        Message::Classic { src_addr, src_id, dst_addr, dst_id, txt, time, msg_id, ttl, public_key, signature } => {
            assert_eq!(*src_addr, addr(1, 4000));
            assert_eq!(src_id, "alice");
            assert_eq!(*dst_addr, addr(9, 12345));
            assert_eq!(dst_id, "all");
            assert_eq!(txt, "coucou");
            assert_eq!((*time, *ttl), (321, 16));
            assert!(zeta::identity::verify(public_key, "alice", "coucou", 321, *msg_id, signature));
        }
        _ => panic!("not a broadcast"),
    }
    assert_eq!(ev.message.from_id, "alice (vous)");
    assert_eq!(ev.message.fingerprint, n.my_fp);
    assert_eq!(ev.message.text, "coucou");
    assert_eq!(ev.message.timestamp, 321);
    assert_eq!(ev.message.msg_type, "message");
    assert_eq!(n.state.messages.len(), 1);
}

#[test]
fn payment_through_two_relays_is_credited_once() {
    let mut n = node(0);
    let p = || Message::Payment { src_id: "bob".into(), dst_id: "alice".into(), amount: 7, payment_id: 5 };
    assert!(matches!(n.handle_msg(p(), 1), Reaction::PaymentReceived { .. }));
    let bob = SigningKey::from_bytes(&[2u8; 32]);
    for id in 0..100u64 {
        let _ = n.handle_msg(classic_from(&bob, "bob", "x", 1, id), 2);
    }
    assert!(matches!(n.handle_msg(p(), 3), Reaction::Ignored));
    assert_eq!(n.state.wallet.balance, 7);
    let ack = || Message::PaymentAck { payment_id: 5, from_id: "bob".into(), to_id: "alice".into() };
    assert!(matches!(n.handle_msg(ack(), 4), Reaction::AckReceived(_)));
    assert!(matches!(n.handle_msg(ack(), 5), Reaction::Ignored));
}

#[test]
fn web_payment_round_trip() {
    let mut n = node(100);
    let args = pay_command_args("1BobBtc", 42);
    assert_eq!(args, "1BobBtc 42");
    match n.pay_with_id(&args, 1, 0) {
        Ok((Message::Payment { dst_id, amount, .. }, _)) => {
            assert_eq!(dst_id, "1BobBtc");
            assert_eq!(amount, 42);
        }
        _ => panic!(),
    }
}

#[test]
fn console_commands() {
    assert!(matches!(parse_command("/balance"), CliCommand::Balance));
    assert!(matches!(parse_command("/balancexyz"), CliCommand::Balance));
    match parse_command("/pay bob 5") {
        CliCommand::Pay(a) => assert_eq!(a, "bob 5"),
        _ => panic!(),
    }
    match parse_command("/pay") {
        CliCommand::Send(t) => assert_eq!(t, "/pay"),
        _ => panic!(),
    }
    match parse_command("") {
        CliCommand::Send(t) => assert_eq!(t, ""),
        _ => panic!(),
    }
}

#[test]
fn feed_keeps_the_last_500() {
    let mut n = node(0);
    for i in 0..503u64 {
        n.state.push_message(ChatMessage {
            from_id: "x".into(),
            fingerprint: String::new(),
            text: i.to_string(),
            timestamp: i,
            msg_type: "payment_ack".into(),
        });
    }
    assert_eq!(n.state.messages.len(), 500);
    assert_eq!(n.state.messages[0].text, "3");
    assert_eq!(n.state.messages[499].text, "502");
}

#[test]
fn register_message_fields() {
    let n = node(0);
    match n.register_message(addr(9, 12345), 55) {
        Message::Register { src_addr, src_id, dst_addr, dst_id, time, btc_address } => {
            assert_eq!(src_addr, addr(1, 4000));
            assert_eq!(src_id, "alice");
            assert_eq!(dst_addr, addr(9, 12345));
            assert_eq!(dst_id, "relay");
            assert_eq!(time, 55);
            assert_eq!(btc_address.as_deref(), Some("1AliceBtc"));
        }
        _ => panic!(),
    }
}
