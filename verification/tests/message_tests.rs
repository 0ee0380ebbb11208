use zeta::message::Message;
use zeta::netaddr::{NetAddr, addr_to_string};

fn v6(g: [u16; 8], port: u16) -> NetAddr {
    let mut ip: u128 = 0;
    for x in g {
        ip = (ip << 16) | x as u128;
    }
    NetAddr::V6 { ip6: ip, port, flowinfo: 0, scope_id: 0 }
}

fn v4(o: [u8; 4], port: u16) -> NetAddr {
    NetAddr::V4 { ip4: u32::from_be_bytes(o), port }
}

#[test]
fn address_text_matches_std_display() {
    let cases: Vec<(NetAddr, &str)> = vec![
        (v4([1, 2, 3, 4], 5678), "1.2.3.4:5678"),
        (v4([0, 0, 0, 0], 0), "0.0.0.0:0"),
        (v4([255, 255, 255, 255], 65535), "255.255.255.255:65535"),
        (v6([0; 8], 1), "[::]:1"),
        (v6([0, 0, 0, 0, 0, 0, 0, 1], 80), "[::1]:80"),
        (v6([0x2001, 0xdb8, 0, 0, 0, 0, 0, 1], 443), "[2001:db8::1]:443"),
        (v6([0x2001, 0xdb8, 0, 0, 1, 0, 0, 1], 9), "[2001:db8::1:0:0:1]:9"),
        (v6([0x2001, 0, 0, 1, 0, 0, 0, 1], 9), "[2001:0:0:1::1]:9"),
        (v6([1, 0, 1, 0, 1, 0, 1, 0], 2), "[1:0:1:0:1:0:1:0]:2"),
        (v6([0, 0, 0, 0, 0, 0xffff, 0xc0a8, 0x0101], 3), "[::ffff:192.168.1.1]:3"),
        (v6([0xfe80, 0, 0, 0, 0xabcd, 0, 0, 1], 12345), "[fe80::abcd:0:0:1]:12345"),
        (v6([1, 2, 3, 4, 5, 6, 7, 8], 8), "[1:2:3:4:5:6:7:8]:8"),
        (v6([0, 0, 1, 0, 0, 0, 0, 0], 7), "[0:0:1::]:7"),
        (v6([0xffff, 0, 0, 0, 0, 0, 0, 0xabc], 6), "[ffff::abc]:6"),
        (NetAddr::V6 { ip6: 0xfe80 << 112 | 1, port: 9, flowinfo: 0, scope_id: 2 }, "[fe80::1%2]:9"),
        (NetAddr::V6 { ip6: 1, port: 9, flowinfo: 7, scope_id: 0 }, "[::1]:9"),
    ];
    for (a, want) in cases {
        assert_eq!(addr_to_string(a), want);
    }
}

fn a(s: &str) -> NetAddr {
    let (host, port) = s.rsplit_once(':').unwrap();
    let port: u16 = port.parse().unwrap();
    if host == "[::1]" {
        return v6([0, 0, 0, 0, 0, 0, 0, 1], port);
    }
    let o: Vec<u8> = host.split('.').map(|x| x.parse().unwrap()).collect();
    v4([o[0], o[1], o[2], o[3]], port)
}

#[test]
fn describe_payment_and_ack() {
    let p = Message::Payment { src_id: "alice".into(), dst_id: "bob".into(), amount: 500, payment_id: 7 };
    assert_eq!(p.describe(), "[Payment #7] alice → bob : 500 sats");
    let k = Message::PaymentAck { payment_id: 7, from_id: "bob".into(), to_id: "alice".into() };
    assert_eq!(k.describe(), "[PaymentAck #7] bob confirmed reception (to alice)");
}

#[test]
fn describe_with_times() {
    let r = Message::Register {
        src_addr: a("1.2.3.4:5"),
        src_id: "alice".into(),
        dst_addr: a("9.9.9.9:12345"),
        dst_id: "relay".into(),
        time: 86400 * 3 + 3661,
        btc_address: None,
    };
    assert_eq!(r.describe(), "[Register] 1.2.3.4:5 (alice) → 9.9.9.9:12345 (relay) (01:01:01)");
    let c = Message::Connect { src_addr: a("1.2.3.4:5"), src_id: "x".into(), dst_id: "y".into(), time: 59 };
    assert_eq!(c.describe(), "[Connect] 1.2.3.4:5 (x) → ? (y) (00:00:59)");
    let q = Message::AskForAddr { src_addr: a("[::1]:7"), src_id: "x".into(), peer_id: "y".into(), time: u64::MAX };
    // u64::MAX read as i64 is -1: one second before the epoch.
    assert_eq!(q.describe(), "[AskInfo] [::1]:7 (x) asks for y's addr (23:59:59)");
    let far = 1u64 << 63;
    let m = Message::Classic {
        src_addr: a("1.2.3.4:5"),
        src_id: "s".into(),
        dst_addr: a("0.0.0.0:0"),
        dst_id: "all".into(),
        txt: "hé".into(),
        time: far,
        msg_id: 1,
        ttl: 16,
        public_key: vec![],
        signature: vec![],
    };
    assert_eq!(m.describe(), format!("[1.2.3.4:5 (s) → 0.0.0.0:0 (all)] \"hé\" (t={})", far));
    let i = Message::PeerInfo { peer_addr: a("8.8.4.4:53"), peer_id: "dns".into() };
    assert_eq!(i.describe(), "[PeerInfo] 8.8.4.4:53 (dns)");
}

#[test]
fn describe_at_the_ends_of_the_calendar() {
    let at = |time: u64| Message::Connect { src_addr: a("1.2.3.4:5000"), src_id: "a".into(), dst_id: "b".into(), time }
        .describe();
    assert_eq!(at(10_000_000_000_000), "[Connect] 1.2.3.4:5000 (a) → ? (b) (t=10000000000000)");
    // The last second of the year 262142, and the one after it.
    assert_eq!(at(8_210_266_876_799), "[Connect] 1.2.3.4:5000 (a) → ? (b) (23:59:59)");
    assert_eq!(at(8_210_266_876_800), "[Connect] 1.2.3.4:5000 (a) → ? (b) (t=8210266876800)");
    // The first second of the year -262143 (read as a signed time), and the one before it.
    let first = (-8_334_601_228_800i64) as u64;
    assert_eq!(at(first), "[Connect] 1.2.3.4:5000 (a) → ? (b) (00:00:00)");
    assert_eq!(at(first - 1), format!("[Connect] 1.2.3.4:5000 (a) → ? (b) (t={})", first - 1));
}
