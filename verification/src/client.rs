//! The decisions of a client node: what it does with each datagram it
//! receives, how it composes the messages and payments it sends, and how it
//! reads the commands typed on its console.

use vstd::prelude::*;
use crate::app_state::{AppState, ChatMessage, FeedEvent, event_type_for, feed_push};
use crate::identity::{SigningKey, fingerprint, fingerprint_of, sign, signature_valid, verify, ed25519_signature, signed_data};
use crate::message::{Message, random_id};
use crate::netaddr::NetAddr;
use crate::seen::{SeenIds, record_id, record_all, admitted_count, lemma_duplicate_within_window};
use crate::text::{
    chars_of, decimal, has_prefix, lemma_has_prefix_is_concatenation, parse_u64, parse_u64_chars, split_once, split_once_chars,
    starts_with_chars, string_from_chars, trim, trim_chars, u64_to_decimal, is_whitespace,
    lemma_split_once_join, lemma_decimal_round_trip, trim_start,
};
use crate::wallet::{Wallet, credit, debit, debited};

verus! {

broadcast use vstd::string::group_string_axioms;

/// The offset mixed into a payment id before it is remembered, so that it
/// cannot collide with a message id.
pub open spec fn payment_seen_key(payment_id: u64) -> u64 {
    payment_id ^ 0xFFFF_FFFF_0000_0000u64
}

/// The offset mixed into a payment id before its acknowledgement is remembered.
pub open spec fn ack_seen_key(payment_id: u64) -> u64 {
    payment_id ^ 0xFFFF_0000_FFFF_0000u64
}

/// Whether a feed entry has the given fields.
pub open spec fn entry_is(
    m: ChatMessage,
    from_id: Seq<char>,
    fp: Seq<char>,
    text: Seq<char>,
    timestamp: u64,
    msg_type: Seq<char>,
) -> bool {
    &&& m.from_id@ == from_id
    &&& m.fingerprint@ == fp
    &&& m.text@ == text
    &&& m.timestamp == timestamp
    &&& m.msg_type@ == msg_type
}

/// Whether `ev` announces `m` and `feed` is `old_feed` with `m` appended.
pub open spec fn announced(ev: FeedEvent, old_feed: Seq<ChatMessage>, feed: Seq<ChatMessage>) -> bool {
    &&& ev.event_type@ == event_type_for(ev.message.msg_type@)
    &&& feed == feed_push(old_feed, ev.message)
}

/// What a client does with a datagram.
pub enum Reaction {
    /// Not addressed to this node, already handled, or of a kind a client ignores.
    Ignored,
    /// A broadcast message whose signature does not verify: dropped.
    InvalidSignature,
    /// A broadcast message, added to the feed.
    Displayed(FeedEvent),
    /// A payment to this node: the wallet was credited (it must be saved and
    /// the new balance announced), the feed entry added, and `ack` must be
    /// sent to the relays.
    PaymentReceived { event: FeedEvent, ack: Message },
    /// The confirmation of a payment this node made, added to the feed.
    AckReceived(FeedEvent),
    /// A payment to this node whose amount does not fit in the balance; the
    /// credit is not made (the addition would overflow).
    BalanceOverflow,
}

/// Why a payment command was refused.
#[derive(PartialEq, Eq, Structural, Clone, Copy, Debug)]
pub enum PayError {
    /// The arguments are not `<address> <amount>`.
    Usage,
    /// The amount is not a positive integer.
    InvalidAmount,
    /// The balance does not cover the amount.
    InsufficientBalance,
}

/// A line typed on the client's console.
pub enum CliCommand {
    /// `/balance…`: show the balance and the address.
    Balance,
    /// `/pay <args>`: the text after `/pay `.
    Pay(String),
    /// Anything else: a message to broadcast.
    Send(String),
}

/// The state of a client node.
pub struct ClientNode {
    pub peer_id: String,
    pub my_fp: String,
    pub my_btc: String,
    pub signing_key: SigningKey,
    pub public_key: Vec<u8>,
    pub local_addr: NetAddr,
    pub relay_addrs: Vec<NetAddr>,
    pub seen: SeenIds,
    pub state: AppState,
}

/// Whether `m` is the broadcast of `text` that `node` signs at `time` under
/// the id `msg_id`: sent from its local address, addressed to everyone through
/// its first relay (or `0.0.0.0:0` when it has none), with the full hop budget,
/// its public key and its signature, which `verify` accepts.
pub open spec fn is_broadcast_of(node: ClientNode, text: Seq<char>, time: u64, msg_id: u64, m: Message) -> bool {
    m matches Message::Classic {
        src_addr, src_id, dst_addr, dst_id, txt, time: t, msg_id: id, ttl, public_key, signature,
    } && {
        &&& src_addr == node.local_addr
        &&& src_id == node.peer_id
        &&& dst_addr == (if node.relay_addrs@.len() > 0 {
            node.relay_addrs@[0]
        } else {
            NetAddr::spec_unspecified(0)
        })
        &&& dst_id@ == "all"@
        &&& txt@ == text
        &&& t == time
        &&& id == msg_id
        &&& ttl == INITIAL_TTL
        &&& public_key@ == node.public_key@
        &&& signature@ == ed25519_signature(node.signing_key@, signed_data(node.peer_id@, text, time, msg_id))
        &&& signature_valid(public_key@, src_id@, txt@, t, id, signature@)
    }
}

/// Whether `entry` is the feed entry that shows `text`, broadcast by `node`
/// at `time`, as its own.
pub open spec fn is_sent_entry(node: ClientNode, text: Seq<char>, time: u64, entry: ChatMessage) -> bool {
    entry_is(entry, node.peer_id@ + " (vous)"@, fingerprint_of(node.public_key@), text, time, "message"@)
}

/// The number of ids a client remembers.
pub const SEEN_CAPACITY: usize = 10_000;

/// The hop budget of a new broadcast message.
pub const INITIAL_TTL: u8 = 16;

impl ClientNode {
    /// The node's invariant: its de-duplication cache is consistent and its
    /// public key is the one that belongs to its signing key.
    pub open spec fn wf(&self) -> bool {
        &&& self.seen.wf()
        &&& self.public_key@ == crate::identity::ed25519_public_key(self.signing_key@)
    }

    /// Whether `id` names this node: its peer id, its fingerprint or its Bitcoin address.
    pub open spec fn is_me(&self, id: Seq<char>) -> bool {
        id == self.peer_id@ || id == self.my_fp@ || id == self.my_btc@
    }

    /// Everything but the cache, the feed and the wallet's balance.
    pub open spec fn same_identity(&self, other: &ClientNode) -> bool {
        &&& self.peer_id == other.peer_id
        &&& self.my_fp == other.my_fp
        &&& self.my_btc == other.my_btc
        &&& self.signing_key == other.signing_key
        &&& self.public_key == other.public_key
        &&& self.local_addr == other.local_addr
        &&& self.relay_addrs == other.relay_addrs
        &&& self.seen.max() == other.seen.max()
        &&& self.state.node_id == other.state.node_id
        &&& self.state.fingerprint == other.state.fingerprint
        &&& self.state.btc_address == other.state.btc_address
        &&& self.state.wallet.address == other.state.wallet.address
    }

    /// A client with the given identity, relays and wallet; its fingerprint
    /// is that of its public key, and it has seen nothing yet.
    pub fn new(
        peer_id: String,
        signing_key: SigningKey,
        my_btc: String,
        local_addr: NetAddr,
        relay_addrs: Vec<NetAddr>,
        wallet: Wallet,
    ) -> (node: ClientNode)
        ensures
            node.wf(),
            node.peer_id == peer_id,
            node.signing_key == signing_key,
            node.my_btc == my_btc,
            node.public_key@ == crate::identity::ed25519_public_key(signing_key@),
            node.my_fp@ == fingerprint_of(node.public_key@),
            node.local_addr == local_addr,
            node.relay_addrs == relay_addrs,
            node.seen@ == Seq::<u64>::empty(),
            node.seen.max() == SEEN_CAPACITY,
            node.state.node_id == peer_id,
            node.state.fingerprint == node.my_fp,
            node.state.btc_address == my_btc,
            node.state.wallet == wallet,
            node.state.messages@ == Seq::<ChatMessage>::empty(),
    {
        let public_key = signing_key.verifying_key();
        let my_fp = fingerprint(public_key.as_slice());
        let state = AppState::new(peer_id.clone(), my_fp.clone(), my_btc.clone(), wallet);
        ClientNode {
            peer_id,
            my_fp,
            my_btc,
            signing_key,
            public_key,
            local_addr,
            relay_addrs,
            seen: SeenIds::new(SEEN_CAPACITY),
            state,
        }
    }

    fn is_me_exec(&self, id: &String) -> (res: bool)
        ensures
            res == self.is_me(id@),
    {
        *id == self.peer_id || *id == self.my_fp || *id == self.my_btc
    }

    /// Reacts to a datagram received from a relay.
    ///
    /// A broadcast message is handled once (by its id), checked against its
    /// signature and added to the feed. A payment addressed to this node is
    /// handled once, credited and acknowledged. A payment acknowledgement
    /// addressed to this node is handled once and added to the feed. `now`
    /// is the current time, used to date payment entries.
    pub fn handle_msg(&mut self, msg: Message, now: u64) -> (r: Reaction)
        requires
            old(self).wf(),
        ensures
            final(self).wf(),
            final(self).same_identity(old(self)),
            (msg matches Message::Payment { dst_id, .. } && dst_id@ != old(self).peer_id@
                && dst_id@ != old(self).my_fp@ && dst_id@ != old(self).my_btc@) ==> (r is Ignored
                && final(self).state == old(self).state && final(self).seen@ == old(self).seen@),
            (msg matches Message::PaymentAck { to_id, .. } && to_id@ != old(self).peer_id@
                && to_id@ != old(self).my_fp@ && to_id@ != old(self).my_btc@) ==> (r is Ignored
                && final(self).state == old(self).state && final(self).seen@ == old(self).seen@),
            r is PaymentReceived ==> (msg matches Message::Payment { dst_id, .. } && (dst_id@ == old(self).peer_id@
                || dst_id@ == old(self).my_fp@ || dst_id@ == old(self).my_btc@)),
            r is AckReceived ==> (msg matches Message::PaymentAck { to_id, .. } && (to_id@ == old(self).peer_id@
                || to_id@ == old(self).my_fp@ || to_id@ == old(self).my_btc@)),
            match msg {
                Message::Classic { src_id, txt, time, msg_id, public_key, signature, .. } => {
                    let (fresh, ids) = record_id(old(self).seen@, old(self).seen.max(), msg_id);
                    &&& final(self).seen@ == ids
                    &&& final(self).state.wallet == old(self).state.wallet
                    &&& if !fresh {
                        r is Ignored && final(self).state.messages == old(self).state.messages
                    } else if !signature_valid(public_key@, src_id@, txt@, time, msg_id, signature@) {
                        r is InvalidSignature && final(self).state.messages == old(self).state.messages
                    } else {
                        r matches Reaction::Displayed(ev)
                        && entry_is(ev.message, src_id@, fingerprint_of(public_key@), txt@, time, "message"@)
                        && announced(ev, old(self).state.messages@, final(self).state.messages@)
                    }
                },
                Message::Payment { src_id, dst_id, amount, payment_id } => {
                    if !old(self).is_me(dst_id@) {
                        &&& r is Ignored
                        &&& final(self).seen@ == old(self).seen@
                        &&& final(self).state == old(self).state
                    } else {
                        let (fresh, ids) = record_id(old(self).seen@, old(self).seen.max(), payment_seen_key(payment_id));
                        &&& final(self).seen@ == ids
                        &&& if !fresh {
                            r is Ignored && final(self).state == old(self).state
                        } else if old(self).state.wallet.balance + amount > u64::MAX {
                            r is BalanceOverflow && final(self).state == old(self).state
                        } else {
                            &&& r matches Reaction::PaymentReceived { event, ack }
                            &&& final(self).state.wallet.balance == old(self).state.wallet.balance + amount
                            &&& entry_is(event.message, src_id@, Seq::empty(), decimal(amount as nat), now, "payment_received"@)
                            &&& announced(event, old(self).state.messages@, final(self).state.messages@)
                            &&& ack matches Message::PaymentAck { payment_id: ack_id, from_id, to_id }
                            &&& ack_id == payment_id && from_id == old(self).peer_id && to_id == src_id
                        }
                    }
                },
                Message::PaymentAck { payment_id, from_id, to_id } => {
                    &&& final(self).state.wallet == old(self).state.wallet
                    &&& if !old(self).is_me(to_id@) {
                        &&& r is Ignored
                        &&& final(self).seen@ == old(self).seen@
                        &&& final(self).state == old(self).state
                    } else {
                        let (fresh, ids) = record_id(old(self).seen@, old(self).seen.max(), ack_seen_key(payment_id));
                        &&& final(self).seen@ == ids
                        &&& if !fresh {
                            r is Ignored && final(self).state == old(self).state
                        } else {
                            r matches Reaction::AckReceived(ev)
                            && entry_is(ev.message, from_id@, Seq::empty(), Seq::empty(), now, "payment_ack"@)
                            && announced(ev, old(self).state.messages@, final(self).state.messages@)
                        }
                    }
                },
                _ => {
                    &&& r is Ignored
                    &&& final(self).seen@ == old(self).seen@
                    &&& final(self).state == old(self).state
                },
            },
    {
        match msg {
            Message::Classic { src_id, txt, time, msg_id, public_key, signature, .. } => {
                if !self.seen.is_new(msg_id) {
                    return Reaction::Ignored;
                }
                if !verify(public_key.as_slice(), src_id.as_str(), txt.as_str(), time, msg_id, signature.as_slice()) {
                    return Reaction::InvalidSignature;
                }
                let fp = fingerprint(public_key.as_slice());
                let ev = self.state.push_message(
                    ChatMessage {
                        from_id: src_id,
                        fingerprint: fp,
                        text: txt,
                        timestamp: time,
                        msg_type: "message".to_string(),
                    },
                );
                Reaction::Displayed(ev)
            },
            Message::Payment { src_id, dst_id, amount, payment_id } => {
                if !self.is_me_exec(&dst_id) {
                    return Reaction::Ignored;
                }
                if !self.seen.is_new(payment_id ^ 0xFFFF_FFFF_0000_0000u64) {
                    return Reaction::Ignored;
                }
                if amount > u64::MAX - self.state.wallet.balance {
                    return Reaction::BalanceOverflow;
                }
                credit(&mut self.state.wallet, amount);
                let ev = self.state.push_message(
                    ChatMessage {
                        from_id: src_id.clone(),
                        fingerprint: String::new(),
                        text: u64_to_decimal(amount),
                        timestamp: now,
                        msg_type: "payment_received".to_string(),
                    },
                );
                let ack = Message::PaymentAck { payment_id, from_id: self.peer_id.clone(), to_id: src_id };
                Reaction::PaymentReceived { event: ev, ack }
            },
            Message::PaymentAck { payment_id, from_id, to_id } => {
                if !self.is_me_exec(&to_id) {
                    return Reaction::Ignored;
                }
                if !self.seen.is_new(payment_id ^ 0xFFFF_0000_FFFF_0000u64) {
                    return Reaction::Ignored;
                }
                let ev = self.state.push_message(
                    ChatMessage {
                        from_id: from_id,
                        fingerprint: String::new(),
                        text: String::new(),
                        timestamp: now,
                        msg_type: "payment_ack".to_string(),
                    },
                );
                Reaction::AckReceived(ev)
            },
            _ => Reaction::Ignored,
        }
    }

    /// The broadcast message carrying `text` (signed with this node's key,
    /// with id `msg_id`, dated `time`, addressed to everyone through the
    /// first relay) and the feed entry that shows it as sent by this node.
    pub fn compose_message(&mut self, text: &str, time: u64, msg_id: u64) -> (res: (Message, FeedEvent))
        requires
            old(self).wf(),
        ensures
            final(self).wf(),
            final(self).same_identity(old(self)),
            final(self).seen == old(self).seen,
            final(self).state.wallet == old(self).state.wallet,
            is_broadcast_of(*old(self), text@, time, msg_id, res.0),
            is_sent_entry(*old(self), text@, time, res.1.message),
            announced(res.1, old(self).state.messages@, final(self).state.messages@),
    {
        let sig = sign(&self.signing_key, self.peer_id.as_str(), text, time, msg_id);
        let dst_addr = if self.relay_addrs.len() > 0 {
            self.relay_addrs[0]
        } else {
            NetAddr::unspecified(0)
        };
        let msg = Message::Classic {
            src_addr: self.local_addr,
            src_id: self.peer_id.clone(),
            dst_addr,
            dst_id: "all".to_string(),
            txt: text.to_string(),
            time,
            msg_id,
            ttl: INITIAL_TTL,
            public_key: self.public_key.clone(),
            signature: sig,
        };
        let fp = fingerprint(self.public_key.as_slice());
        let mut from_id = self.peer_id.clone();
        from_id.append(" (vous)");
        let ev = self.state.push_message(
            ChatMessage { from_id, fingerprint: fp, text: text.to_string(), timestamp: time, msg_type: "message".to_string() },
        );
        (msg, ev)
    }

    /// Composes the broadcast message for `text` under a fresh random id
    /// (see `compose_message`).
    pub fn send_msg(&mut self, text: &str, time: u64) -> (res: (Message, FeedEvent))
        requires
            old(self).wf(),
        ensures
            final(self).wf(),
            final(self).same_identity(old(self)),
            final(self).seen == old(self).seen,
            final(self).state.wallet == old(self).state.wallet,
            res.0 matches Message::Classic { msg_id, .. } && is_broadcast_of(*old(self), text@, time, msg_id, res.0),
            is_sent_entry(*old(self), text@, time, res.1.message),
            announced(res.1, old(self).state.messages@, final(self).state.messages@),
    {
        let msg_id = random_id();
        self.compose_message(text, time, msg_id)
    }

    /// Carries out `/pay <address> <amount>` with the payment id `payment_id`:
    /// the arguments are split at the first space, both parts trimmed, the
    /// amount must be a positive integer, and the wallet must cover it. On
    /// success the wallet is debited (and must be saved), and the payment
    /// message and the feed entry `"<amount> → <address>"` are returned.
    pub fn pay_with_id(&mut self, args: &str, payment_id: u64, now: u64) -> (res: Result<(Message, FeedEvent), PayError>)
        ensures
            final(self).same_identity(old(self)),
            final(self).seen == old(self).seen,
            match split_once(args@, ' ') {
                None => res == Err::<(Message, FeedEvent), PayError>(PayError::Usage) && final(self).state == old(self).state,
                Some((p0, p1)) => match parse_u64(trim(p1)) {
                    None => res == Err::<(Message, FeedEvent), PayError>(PayError::InvalidAmount)
                        && final(self).state == old(self).state,
                    Some(amount) => if amount == 0 {
                        res == Err::<(Message, FeedEvent), PayError>(PayError::InvalidAmount)
                            && final(self).state == old(self).state
                    } else if !debited(old(self).state.wallet.balance, amount).0 {
                        res == Err::<(Message, FeedEvent), PayError>(PayError::InsufficientBalance)
                            && final(self).state == old(self).state
                    } else {
                        &&& final(self).state.wallet.balance == debited(old(self).state.wallet.balance, amount).1
                        &&& res matches Ok((m, ev))
                        &&& m matches Message::Payment { src_id, dst_id, amount: a, payment_id: id }
                        &&& src_id == old(self).peer_id && dst_id@ == trim(p0) && a == amount && id == payment_id
                        &&& entry_is(
                            ev.message,
                            old(self).peer_id@ + " (vous)"@,
                            Seq::empty(),
                            decimal(amount as nat) + " → "@ + trim(p0),
                            now,
                            "payment_sent"@,
                        )
                        &&& announced(ev, old(self).state.messages@, final(self).state.messages@)
                    },
                },
            },
    {
        let cs = chars_of(args);
        let parts = split_once_chars(cs.as_slice(), ' ');
        let (p0, p1) = match parts {
            Some(p) => p,
            None => {
                return Err(PayError::Usage);
            },
        };
        let dst_chars = trim_chars(p0.as_slice());
        let amount_chars = trim_chars(p1.as_slice());
        let amount = match parse_u64_chars(amount_chars.as_slice()) {
            Some(n) => n,
            None => {
                return Err(PayError::InvalidAmount);
            },
        };
        if amount == 0 {
            return Err(PayError::InvalidAmount);
        }
        if !debit(&mut self.state.wallet, amount) {
            return Err(PayError::InsufficientBalance);
        }
        let dst = string_from_chars(dst_chars.as_slice());
        let msg = Message::Payment { src_id: self.peer_id.clone(), dst_id: dst.clone(), amount, payment_id };
        let mut from_id = self.peer_id.clone();
        from_id.append(" (vous)");
        let mut text = u64_to_decimal(amount);
        text.append(" → ");
        text.append(dst.as_str());
        let ev = self.state.push_message(
            ChatMessage {
                from_id,
                fingerprint: String::new(),
                text,
                timestamp: now,
                msg_type: "payment_sent".to_string(),
            },
        );
        Ok((msg, ev))
    }

    /// Carries out `/pay <address> <amount>` under a fresh random payment id
    /// (see `pay_with_id`).
    pub fn do_pay(&mut self, args: &str, now: u64) -> (res: Result<(Message, FeedEvent), PayError>)
        ensures
            final(self).same_identity(old(self)),
            final(self).seen == old(self).seen,
            match split_once(args@, ' ') {
                None => res == Err::<(Message, FeedEvent), PayError>(PayError::Usage),
                Some((p0, p1)) => match parse_u64(trim(p1)) {
                    None => res == Err::<(Message, FeedEvent), PayError>(PayError::InvalidAmount),
                    Some(amount) => if amount == 0 {
                        res == Err::<(Message, FeedEvent), PayError>(PayError::InvalidAmount)
                    } else if !debited(old(self).state.wallet.balance, amount).0 {
                        res == Err::<(Message, FeedEvent), PayError>(PayError::InsufficientBalance)
                    } else {
                        &&& final(self).state.wallet.balance == debited(old(self).state.wallet.balance, amount).1
                        &&& res matches Ok((m, ev))
                        &&& m matches Message::Payment { src_id, dst_id, amount: a, .. }
                        &&& src_id == old(self).peer_id && dst_id@ == trim(p0) && a == amount
                        &&& entry_is(
                            ev.message,
                            old(self).peer_id@ + " (vous)"@,
                            Seq::empty(),
                            decimal(amount as nat) + " → "@ + trim(p0),
                            now,
                            "payment_sent"@,
                        )
                        &&& announced(ev, old(self).state.messages@, final(self).state.messages@)
                    },
                },
            },
            res is Err ==> final(self).state == old(self).state,
    {
        let cs = chars_of(args);
        if split_once_chars(cs.as_slice(), ' ').is_none() {
            return Err(PayError::Usage);
        }
        let payment_id = random_id();
        self.pay_with_id(args, payment_id, now)
    }

    /// The registration this node sends to `relay` at time `time`.
    pub fn register_message(&self, relay: NetAddr, time: u64) -> (m: Message)
        ensures
            m matches Message::Register { src_addr, src_id, dst_addr, dst_id, time: t, btc_address } && {
                &&& src_addr == self.local_addr
                &&& src_id == self.peer_id
                &&& dst_addr == relay
                &&& dst_id@ == "relay"@
                &&& t == time
                &&& btc_address == Some(self.my_btc)
            },
    {
        Message::Register {
            src_addr: self.local_addr,
            src_id: self.peer_id.clone(),
            dst_addr: relay,
            dst_id: "relay".to_string(),
            time,
            btc_address: Some(self.my_btc.clone()),
        }
    }
}

/// Reads a console line: `/balance…` asks for the balance, `/pay <args>`
/// makes a payment, and any other line is a message to broadcast.
pub fn parse_command(line: &str) -> (c: CliCommand)
    ensures
        has_prefix(line@, "/balance"@) ==> c is Balance,
        !has_prefix(line@, "/balance"@) && has_prefix(line@, "/pay "@) ==> (c matches CliCommand::Pay(args)
            && args@ == line@.skip("/pay "@.len() as int)),
        !has_prefix(line@, "/balance"@) && !has_prefix(line@, "/pay "@) ==> (c matches CliCommand::Send(t)
            && t@ == line@),
        (exists|r: Seq<char>| line@ == "/balance"@ + r) ==> c is Balance,
        forall|r: Seq<char>|
            line@ == "/pay "@ + r && !(exists|b: Seq<char>| line@ == "/balance"@ + b) ==> (c matches CliCommand::Pay(args)
                && args@ == r),
        !(exists|r: Seq<char>| line@ == "/balance"@ + r) && !(exists|r: Seq<char>| line@ == "/pay "@ + r) ==> (
        c matches CliCommand::Send(t) && t@ == line@),
{
    proof {
        lemma_has_prefix_is_concatenation(line@, "/balance"@);
        lemma_has_prefix_is_concatenation(line@, "/pay "@);
        assert forall|r: Seq<char>| line@ == "/pay "@ + r implies line@.skip("/pay "@.len() as int) == r by {
            assert(line@.skip("/pay "@.len() as int) =~= r);
        }
    }
    let cs = chars_of(line);
    if starts_with_chars(cs.as_slice(), "/balance") {
        return CliCommand::Balance;
    }
    if starts_with_chars(cs.as_slice(), "/pay ") {
        let prefix = chars_of("/pay ");
        let k = prefix.len();
        let mut rest: Vec<char> = Vec::new();
        let mut i = k;
        let n = cs.len();
        while i < n
            invariant
                k <= i <= n,
                n == cs@.len(),
                k == "/pay "@.len(),
                rest@ == cs@.subrange(k as int, i as int),
            decreases n - i,
        {
            rest.push(cs[i]);
            assert(rest@ =~= cs@.subrange(k as int, i + 1));
            i = i + 1;
        }
        assert(rest@ =~= line@.skip(k as int));
        return CliCommand::Pay(string_from_chars(rest.as_slice()));
    }
    CliCommand::Send(line.to_string())
}

/// The `/pay` arguments for a payment asked from the web interface:
/// `"<dst_id> <amount>"`.
pub fn pay_command_args(dst_id: &str, amount: u64) -> (args: String)
    ensures
        args@ == dst_id@ + " "@ + decimal(amount as nat),
{
    let mut args = dst_id.to_string();
    args.append(" ");
    let n = u64_to_decimal(amount);
    args.append(n.as_str());
    args
}

/// A payment asked from the web interface (`pay_command_args`) is read back
/// by `/pay` (`pay_with_id`) as the same addressee and the same amount, when
/// the addressee holds no space and neither starts nor ends with whitespace.
pub proof fn lemma_pay_args_round_trip(dst: Seq<char>, amount: u64)
    requires
        forall|i: int| 0 <= i < dst.len() ==> #[trigger] dst[i] != ' ',
        dst.len() > 0 ==> !is_whitespace(dst[0]) && !is_whitespace(dst.last()),
    ensures
        split_once(dst + " "@ + decimal(amount as nat), ' ') == Some((dst, decimal(amount as nat))),
        trim(dst) == dst,
        parse_u64(trim(decimal(amount as nat))) == Some(amount),
{
    assert(!dst.contains(' ')) by {
        if dst.contains(' ') {
            let k = choose|k: int| 0 <= k < dst.len() && dst[k] == ' ';
            assert(dst[k] != ' ');
        }
    }
    lemma_split_once_join(dst, decimal(amount as nat));
    lemma_decimal_round_trip(amount);
    assert(trim_start(dst) == dst);
}

/// A node takes an id for its own exactly when the id is its peer id, its
/// fingerprint or its Bitcoin address, character for character: an id that
/// merely starts or ends like one of them names another node.
pub proof fn lemma_is_me_only_own_ids(node: ClientNode, id: Seq<char>)
    ensures
        node.is_me(id) <==> (id == node.peer_id@ || id == node.my_fp@ || id == node.my_btc@),
        forall|r: Seq<char>| r.len() > 0 && node.peer_id@ + r != node.my_fp@ && node.peer_id@ + r != node.my_btc@
            ==> !node.is_me(#[trigger] (node.peer_id@ + r)),
{
    assert forall|r: Seq<char>| r.len() > 0 && node.peer_id@ + r != node.my_fp@ && node.peer_id@ + r != node.my_btc@
        implies !node.is_me(#[trigger] (node.peer_id@ + r)) by {
        assert((node.peer_id@ + r).len() != node.peer_id@.len());
    }
}

/// A payment delivered twice (through two relays, say) is credited once: when
/// the first delivery was admitted into the node's cache, the second is found
/// already seen, provided fewer than `max` other ids were admitted in
/// between; `handle_msg` then answers `Ignored` and leaves the wallet and the
/// feed as they were.
pub proof fn lemma_payment_handled_once(ids: Seq<u64>, max: nat, payment_id: u64, between: Seq<u64>)
    requires
        ids.no_duplicates(),
        ids.len() <= max,
        max >= 1,
        record_id(ids, max, payment_seen_key(payment_id)).0,
        admitted_count(record_id(ids, max, payment_seen_key(payment_id)).1, max, between) < max,
    ensures
        !record_id(
            record_all(record_id(ids, max, payment_seen_key(payment_id)).1, max, between),
            max,
            payment_seen_key(payment_id),
        ).0,
{
    lemma_duplicate_within_window(ids, max, payment_seen_key(payment_id), between);
}

/// An acknowledgement delivered twice is shown once, on the same terms as a
/// payment (see `lemma_payment_handled_once`).
pub proof fn lemma_ack_handled_once(ids: Seq<u64>, max: nat, payment_id: u64, between: Seq<u64>)
    requires
        ids.no_duplicates(),
        ids.len() <= max,
        max >= 1,
        record_id(ids, max, ack_seen_key(payment_id)).0,
        admitted_count(record_id(ids, max, ack_seen_key(payment_id)).1, max, between) < max,
    ensures
        !record_id(
            record_all(record_id(ids, max, ack_seen_key(payment_id)).1, max, between),
            max,
            ack_seen_key(payment_id),
        ).0,
{
    lemma_duplicate_within_window(ids, max, ack_seen_key(payment_id), between);
}

} // verus!
