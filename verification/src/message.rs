//! The messages that nodes and relays exchange over UDP.

use vstd::prelude::*;
use crate::text::{decimal, push_decimal};
use crate::netaddr::{addr_text, push_addr_text};
pub use crate::netaddr::NetAddr;

verus! {

/// `rand::random::<u64>()`: a fresh random number (used for message and
/// payment ids). Nothing is promised of its value.
#[verifier::external_body]
pub(crate) fn random_id() -> u64 {
    rand::random::<u64>()
}

/// A datagram of the Zeta protocol.
pub enum Message {
    /// Client or relay → relay: "here is my address and my id".
    Register {
        src_addr: NetAddr,
        src_id: String,
        dst_addr: NetAddr,
        dst_id: String,
        time: u64,
        btc_address: Option<String>,
    },
    /// "Put me in touch with this peer id."
    Connect { src_addr: NetAddr, src_id: String, dst_id: String, time: u64 },
    /// "Give me the address of this peer id."
    AskForAddr { src_addr: NetAddr, src_id: String, peer_id: String, time: u64 },
    /// Relay → client: the address of the peer that was asked for.
    PeerInfo { peer_addr: NetAddr, peer_id: String },
    /// A signed text broadcast to every peer.
    Classic {
        src_addr: NetAddr,
        src_id: String,
        dst_addr: NetAddr,
        dst_id: String,
        txt: String,
        time: u64,
        /// Unique id used to drop duplicates.
        msg_id: u64,
        /// Hops left before the message is dropped.
        ttl: u8,
        public_key: Vec<u8>,
        signature: Vec<u8>,
    },
    /// A payment of `amount` satoshis.
    Payment { src_id: String, dst_id: String, amount: u64, payment_id: u64 },
    /// The receiver's confirmation of a payment.
    PaymentAck {
        payment_id: u64,
        /// The node that confirms (the payment's receiver).
        from_id: String,
        /// The node that sent the payment.
        to_id: String,
    },
}

// ───────────────────────── human-readable form ─────────────────────────

/// Two decimal digits.
pub open spec fn two_digits(n: int) -> Seq<char> {
    seq![((n / 10) + 48) as char, ((n % 10) + 48) as char]
}

/// `HH:MM:SS` for a number of seconds since midnight.
pub open spec fn clock_text(s: int) -> Seq<char> {
    two_digits(s / 3600) + ":"@ + two_digits((s % 3600) / 60) + ":"@ + two_digits(s % 60)
}

/// The UNIX times chrono can place on its calendar: from the first second of
/// the year -262143 to the last second of the year 262142.
pub open spec fn in_chrono_range(secs: int) -> bool {
    -8334601228800 <= secs <= 8210266876799
}

/// `chrono::DateTime::<Utc>::from_timestamp(secs, 0)` formatted with
/// `%H:%M:%S`: the UTC time of day (`secs` modulo one day, counted upwards
/// from midnight also before the epoch), or nothing outside chrono's range.
#[verifier::external_body]
fn utc_clock(secs: i64) -> (res: Option<String>)
    ensures
        res is Some <==> in_chrono_range(secs as int),
        res matches Some(s) ==> s@ == clock_text(secs as int % 86400),
{
    match chrono::DateTime::<chrono::Utc>::from_timestamp(secs, 0) {
        Some(dt) => Some(dt.format("%H:%M:%S").to_string()),
        None => None,
    }
}

/// The time shown in a message's description: the UTC time of day of the
/// timestamp (read as a signed number of seconds), or `t=<time>` when chrono
/// cannot place it.
pub open spec fn time_text(time: u64) -> Seq<char> {
    let secs = time as i64;
    if in_chrono_range(secs as int) {
        clock_text(secs as int % 86400)
    } else {
        "t="@ + decimal(time as nat)
    }
}

fn push_time(out: &mut String, time: u64)
    ensures
        final(out)@ == old(out)@ + time_text(time),
{
    match utc_clock(time as i64) {
        Some(s) => out.append(s.as_str()),
        None => {
            out.append("t=");
            push_decimal(out, time);
            assert(final(out)@ =~= old(out)@ + time_text(time));
        },
    }
}

/// The one-line description of a message.
pub open spec fn describe_text(m: Message) -> Seq<char> {
    match m {
        Message::Register { src_addr, src_id, dst_addr, dst_id, time, .. } => "[Register] "@
            + addr_text(src_addr) + " ("@ + src_id@ + ") → "@ + addr_text(dst_addr)
            + " ("@ + dst_id@ + ") ("@ + time_text(time) + ")"@,
        Message::Connect { src_addr, src_id, dst_id, time } => "[Connect] "@ + addr_text(
            src_addr,
        ) + " ("@ + src_id@ + ") → ? ("@ + dst_id@ + ") ("@ + time_text(time) + ")"@,
        Message::AskForAddr { src_addr, src_id, peer_id, time } => "[AskInfo] "@ + addr_text(
            src_addr,
        ) + " ("@ + src_id@ + ") asks for "@ + peer_id@ + "'s addr ("@ + time_text(time) + ")"@,
        Message::PeerInfo { peer_addr, peer_id } => "[PeerInfo] "@ + addr_text(peer_addr)
            + " ("@ + peer_id@ + ")"@,
        Message::Classic { src_addr, src_id, dst_addr, dst_id, txt, time, .. } => "["@
            + addr_text(src_addr) + " ("@ + src_id@ + ") → "@ + addr_text(dst_addr)
            + " ("@ + dst_id@ + ")] \""@ + txt@ + "\" ("@ + time_text(time) + ")"@,
        Message::Payment { src_id, dst_id, amount, payment_id } => "[Payment #"@ + decimal(
            payment_id as nat,
        ) + "] "@ + src_id@ + " → "@ + dst_id@ + " : "@ + decimal(amount as nat) + " sats"@,
        Message::PaymentAck { payment_id, from_id, to_id } => "[PaymentAck #"@ + decimal(
            payment_id as nat,
        ) + "] "@ + from_id@ + " confirmed reception (to "@ + to_id@ + ")"@,
    }
}

/// Read back, the clock text of a number of seconds since midnight gives its
/// hours, minutes and seconds, as two digits each separated by colons.
pub proof fn lemma_clock_text_reads_back(s: int)
    requires
        0 <= s < 86400,
    ensures
        clock_text(s).len() == 8,
        clock_text(s)[2] == ':' && clock_text(s)[5] == ':',
        (clock_text(s)[0] as int - 48) * 10 + (clock_text(s)[1] as int - 48) == s / 3600,
        (clock_text(s)[3] as int - 48) * 10 + (clock_text(s)[4] as int - 48) == (s % 3600) / 60,
        (clock_text(s)[6] as int - 48) * 10 + (clock_text(s)[7] as int - 48) == s % 60,
{
    reveal_strlit(":");
    let c = clock_text(s);
    assert(c[0] == two_digits(s / 3600)[0]);
    assert(c[1] == two_digits(s / 3600)[1]);
    assert(c[2] == ':');
    assert(c[3] == two_digits((s % 3600) / 60)[0]);
    assert(c[4] == two_digits((s % 3600) / 60)[1]);
    assert(c[5] == ':');
    assert(c[6] == two_digits(s % 60)[0]);
    assert(c[7] == two_digits(s % 60)[1]);
}

/// Every kind of message that carries a time shows it the same way: for a
/// time chrono can place, its description ends with the UTC time of day
/// `HH:MM:SS` of that time, then `)`; the raw seconds are never shown then.
pub proof fn lemma_timed_description_shows_clock(m: Message)
    ensures
        (m matches Message::Register { time, .. } && time <= 8210266876799) ==> ends_with_clock(describe_text(m), m->Register_time),
        (m matches Message::Connect { time, .. } && time <= 8210266876799) ==> ends_with_clock(describe_text(m), m->Connect_time),
        (m matches Message::AskForAddr { time, .. } && time <= 8210266876799) ==> ends_with_clock(describe_text(m), m->AskForAddr_time),
        (m matches Message::Classic { time, .. } && time <= 8210266876799) ==> ends_with_clock(describe_text(m), m->Classic_time),
{
    reveal_strlit(":");
    reveal_strlit(")");
    match m {
        Message::Register { time, .. } => { lemma_in_range_time(time); },
        Message::Connect { time, .. } => { lemma_in_range_time(time); },
        Message::AskForAddr { time, .. } => { lemma_in_range_time(time); },
        Message::Classic { time, .. } => { lemma_in_range_time(time); },
        _ => {},
    }
    match m {
        Message::Register { src_addr, src_id, dst_addr, dst_id, time, .. } => {
            if time <= 8210266876799 {
                let d = describe_text(m);
                let tail = time_text(time) + ")"@;
                assert(d =~= ("[Register] "@ + addr_text(src_addr) + " ("@ + src_id@ + ") → "@ + addr_text(dst_addr)
                    + " ("@ + dst_id@ + ") ("@) + tail);
                assert(d.skip(d.len() - 9) =~= tail);
            }
        },
        Message::Connect { src_addr, src_id, dst_id, time } => {
            if time <= 8210266876799 {
                let d = describe_text(m);
                let tail = time_text(time) + ")"@;
                assert(d =~= ("[Connect] "@ + addr_text(src_addr) + " ("@ + src_id@ + ") → ? ("@ + dst_id@ + ") ("@) + tail);
                assert(d.skip(d.len() - 9) =~= tail);
            }
        },
        Message::AskForAddr { src_addr, src_id, peer_id, time } => {
            if time <= 8210266876799 {
                let d = describe_text(m);
                let tail = time_text(time) + ")"@;
                assert(d =~= ("[AskInfo] "@ + addr_text(src_addr) + " ("@ + src_id@ + ") asks for "@ + peer_id@ + "'s addr ("@) + tail);
                assert(d.skip(d.len() - 9) =~= tail);
            }
        },
        Message::Classic { src_addr, src_id, dst_addr, dst_id, txt, time, .. } => {
            if time <= 8210266876799 {
                let d = describe_text(m);
                let tail = time_text(time) + ")"@;
                assert(d =~= ("["@ + addr_text(src_addr) + " ("@ + src_id@ + ") → "@ + addr_text(dst_addr) + " ("@ + dst_id@
                    + ")] \""@ + txt@ + "\" ("@) + tail);
                assert(d.skip(d.len() - 9) =~= tail);
            }
        },
        _ => {},
    }
}

/// Whether `d` ends with the clock text of `time`'s time of day, then `)`.
pub open spec fn ends_with_clock(d: Seq<char>, time: u64) -> bool {
    d.len() >= 9 && d.skip(d.len() - 9) == clock_text(time as int % 86400) + ")"@
}

proof fn lemma_in_range_time(time: u64)
    ensures
        time <= 8210266876799 ==> time_text(time) == clock_text(time as int % 86400),
        time <= 8210266876799 ==> time_text(time).len() == 8,
{
    reveal_strlit(":");
    if time <= 8210266876799 {
        assert((time as i64) as int == time as int);
        assert(clock_text(time as int % 86400).len() == 8);
    }
}

impl Message {
    /// A one-line human-readable description of the message, with its time
    /// shown as the UTC time of day.
    pub fn describe(&self) -> (s: String)
        ensures
            s@ == describe_text(*self),
    {
        let mut s = String::new();
        match self {
            Message::Register { src_addr, src_id, dst_addr, dst_id, time, .. } => {
                s.append("[Register] ");
                push_addr_text(&mut s, *src_addr);
                s.append(" (");
                s.append(src_id.as_str());
                s.append(") → ");
                push_addr_text(&mut s, *dst_addr);
                s.append(" (");
                s.append(dst_id.as_str());
                s.append(") (");
                push_time(&mut s, *time);
                s.append(")");
            },
            Message::Connect { src_addr, src_id, dst_id, time } => {
                s.append("[Connect] ");
                push_addr_text(&mut s, *src_addr);
                s.append(" (");
                s.append(src_id.as_str());
                s.append(") → ? (");
                s.append(dst_id.as_str());
                s.append(") (");
                push_time(&mut s, *time);
                s.append(")");
            },
            Message::AskForAddr { src_addr, src_id, peer_id, time } => {
                s.append("[AskInfo] ");
                push_addr_text(&mut s, *src_addr);
                s.append(" (");
                s.append(src_id.as_str());
                s.append(") asks for ");
                s.append(peer_id.as_str());
                s.append("'s addr (");
                push_time(&mut s, *time);
                s.append(")");
            },
            Message::PeerInfo { peer_addr, peer_id } => {
                s.append("[PeerInfo] ");
                push_addr_text(&mut s, *peer_addr);
                s.append(" (");
                s.append(peer_id.as_str());
                s.append(")");
            },
            Message::Classic { src_addr, src_id, dst_addr, dst_id, txt, time, .. } => {
                s.append("[");
                push_addr_text(&mut s, *src_addr);
                s.append(" (");
                s.append(src_id.as_str());
                s.append(") → ");
                push_addr_text(&mut s, *dst_addr);
                s.append(" (");
                s.append(dst_id.as_str());
                s.append(")] \"");
                s.append(txt.as_str());
                s.append("\" (");
                push_time(&mut s, *time);
                s.append(")");
            },
            Message::Payment { src_id, dst_id, amount, payment_id } => {
                s.append("[Payment #");
                push_decimal(&mut s, *payment_id);
                s.append("] ");
                s.append(src_id.as_str());
                s.append(" → ");
                s.append(dst_id.as_str());
                s.append(" : ");
                push_decimal(&mut s, *amount);
                s.append(" sats");
            },
            Message::PaymentAck { payment_id, from_id, to_id } => {
                s.append("[PaymentAck #");
                push_decimal(&mut s, *payment_id);
                s.append("] ");
                s.append(from_id.as_str());
                s.append(" confirmed reception (to ");
                s.append(to_id.as_str());
                s.append(")");
            },
        }
        assert(s@ =~= describe_text(*self));
        s
    }
}

} // verus!
