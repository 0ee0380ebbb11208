//! The state that the web interface shows: the node's identity, its wallet,
//! and the feed of recent messages and payment events.

use vstd::prelude::*;
use crate::wallet::Wallet;

verus! {

broadcast use vstd::string::group_string_axioms;

/// How many entries the feed keeps; older ones are dropped.
pub const FEED_CAPACITY: usize = 500;

/// An entry of the feed shown in the web interface.
pub struct ChatMessage {
    pub from_id: String,
    pub fingerprint: String,
    pub text: String,
    pub timestamp: u64,
    /// "message" | "payment_received" | "payment_sent" | "payment_ack"
    pub msg_type: String,
}

impl ChatMessage {
    /// A field-by-field copy.
    pub fn duplicate(&self) -> (c: ChatMessage)
        ensures
            c == *self,
    {
        ChatMessage {
            from_id: self.from_id.clone(),
            fingerprint: self.fingerprint.clone(),
            text: self.text.clone(),
            timestamp: self.timestamp,
            msg_type: self.msg_type.clone(),
        }
    }
}

/// An event pushed to the connected web clients: its kind and its payload
/// (a JSON text).
pub struct SseEvent {
    /// "message" | "payment" | "wallet_update"
    pub event_type: String,
    pub data: String,
}

/// A command sent from the web interface to the node's network loop.
pub enum UiCommand {
    SendMessage(String),
    Pay { dst_id: String, amount: u64 },
}

/// A new feed entry together with the kind of event that announces it.
pub struct FeedEvent {
    /// "message" for a chat message, "payment" for any payment entry.
    pub event_type: String,
    pub message: ChatMessage,
}

/// The feed after appending `m`: the newest entry is last, and only the
/// last `FEED_CAPACITY` entries are kept.
pub open spec fn feed_push(feed: Seq<ChatMessage>, m: ChatMessage) -> Seq<ChatMessage> {
    let s = feed.push(m);
    if s.len() > FEED_CAPACITY {
        s.skip(s.len() - FEED_CAPACITY)
    } else {
        s
    }
}

/// The kind of event that announces a feed entry of type `msg_type`.
pub open spec fn event_type_for(msg_type: Seq<char>) -> Seq<char> {
    if msg_type == "message"@ {
        "message"@
    } else {
        "payment"@
    }
}

/// The state shared with the web interface.
pub struct AppState {
    pub node_id: String,
    pub fingerprint: String,
    pub btc_address: String,
    pub messages: Vec<ChatMessage>,
    pub wallet: Wallet,
}

impl AppState {
    /// A state with an empty feed.
    pub fn new(node_id: String, fingerprint: String, btc_address: String, wallet: Wallet) -> (s: AppState)
        ensures
            s.node_id == node_id,
            s.fingerprint == fingerprint,
            s.btc_address == btc_address,
            s.wallet == wallet,
            s.messages@ == Seq::<ChatMessage>::empty(),
    {
        AppState { node_id, fingerprint, btc_address, messages: Vec::new(), wallet }
    }

    /// Appends an entry to the feed (keeping at most `FEED_CAPACITY` entries)
    /// and returns the event that announces it to the web clients.
    pub fn push_message(&mut self, msg: ChatMessage) -> (ev: FeedEvent)
        ensures
            final(self).messages@ == feed_push(old(self).messages@, msg),
            final(self).messages@.len() <= FEED_CAPACITY,
            final(self).messages@.last() == msg,
            ev.message == msg,
            ev.event_type@ == event_type_for(msg.msg_type@),
            final(self).node_id == old(self).node_id,
            final(self).fingerprint == old(self).fingerprint,
            final(self).btc_address == old(self).btc_address,
            final(self).wallet == old(self).wallet,
    {
        let kind = "message".to_string();
        let ev_type = if msg.msg_type == kind {
            "message".to_string()
        } else {
            "payment".to_string()
        };
        let copy = msg.duplicate();
        self.messages.push(msg);
        if self.messages.len() > FEED_CAPACITY {
            let overflow = self.messages.len() - FEED_CAPACITY;
            let kept = self.messages.split_off(overflow);
            self.messages = kept;
        }
        FeedEvent { event_type: ev_type, message: copy }
    }
}

} // verus!
