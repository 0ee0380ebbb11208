//! The decisions of a relay: its table of registered peers, how it routes
//! payments and acknowledgements, how it checks and floods broadcast
//! messages, and how it forgets silent peers.

use vstd::prelude::*;
use crate::identity::{SigningKey, sign, signature_valid, verify, ed25519_signature, signed_data};
use crate::message::{Message, random_id};
use crate::netaddr::NetAddr;
use crate::seen::{SeenIds, record_id};

verus! {

broadcast use vstd::string::group_string_axioms;

/// What a relay knows of a registered peer.
pub struct PeerEntry {
    /// The address the peer's datagrams come from.
    pub addr: NetAddr,
    pub peer_id: String,
    /// The time the peer gave in its last registration.
    pub last_seen: u64,
    pub btc_address: Option<String>,
}

/// Datagrams to send: `msg` to each address of `targets`.
pub struct Outgoing {
    pub targets: Vec<NetAddr>,
    pub msg: Message,
}

/// What a relay does with a datagram.
pub enum RelayOutcome {
    /// The sender was registered (or its registration refreshed).
    Registered,
    /// A broadcast message already handled: dropped.
    Duplicate,
    /// A broadcast message whose signature does not verify: dropped.
    InvalidSignature,
    /// A valid broadcast message; forwarded, with one hop less, to every
    /// other peer unless its hop budget is spent.
    Accepted { forward: Option<Outgoing> },
    /// A payment or an acknowledgement, sent to its addressee when it is
    /// registered here, else to every other peer.
    Routed(Outgoing),
    /// The answer to an address request.
    Answered(Outgoing),
    /// Nothing to do.
    Ignored,
}

/// The index of the entry for address `a`, or -1.
pub open spec fn entry_index(peers: Seq<PeerEntry>, a: NetAddr) -> int
    decreases peers.len(),
{
    if peers.len() == 0 {
        -1
    } else if peers[0].addr == a {
        0
    } else {
        let r = entry_index(peers.drop_first(), a);
        if r < 0 {
            -1
        } else {
            r + 1
        }
    }
}

/// The table after registering `e`: the entry of its address is replaced,
/// or `e` is added at the end when the address is new.
pub open spec fn register_entry(peers: Seq<PeerEntry>, e: PeerEntry) -> Seq<PeerEntry> {
    let i = entry_index(peers, e.addr);
    if i < 0 {
        peers.push(e)
    } else {
        peers.update(i, e)
    }
}

/// Whether a peer answers to `id`: by its peer id or its Bitcoin address.
pub open spec fn answers_to(e: PeerEntry, id: Seq<char>) -> bool {
    e.peer_id@ == id || (e.btc_address matches Some(b) && b@ == id)
}

/// The index of the first peer that answers to `id`, or -1.
pub open spec fn find_peer_index(peers: Seq<PeerEntry>, id: Seq<char>) -> int
    decreases peers.len(),
{
    if peers.len() == 0 {
        -1
    } else if answers_to(peers[0], id) {
        0
    } else {
        let r = find_peer_index(peers.drop_first(), id);
        if r < 0 {
            -1
        } else {
            r + 1
        }
    }
}

/// The index of the first peer whose peer id is `id`, or -1.
pub open spec fn named_peer_index(peers: Seq<PeerEntry>, id: Seq<char>) -> int
    decreases peers.len(),
{
    if peers.len() == 0 {
        -1
    } else if peers[0].peer_id@ == id {
        0
    } else {
        let r = named_peer_index(peers.drop_first(), id);
        if r < 0 {
            -1
        } else {
            r + 1
        }
    }
}

/// The addresses of all peers but `exclude`, in table order.
pub open spec fn broadcast_targets(peers: Seq<PeerEntry>, exclude: NetAddr) -> Seq<NetAddr>
    decreases peers.len(),
{
    if peers.len() == 0 {
        Seq::empty()
    } else {
        let rest = broadcast_targets(peers.drop_last(), exclude);
        if peers.last().addr == exclude {
            rest
        } else {
            rest.push(peers.last().addr)
        }
    }
}

/// How long a peer stays registered without a new registration, in seconds.
pub const PEER_TIMEOUT_SECS: u64 = 60;

/// How often nodes renew their registrations and relays forget silent
/// peers, in seconds.
pub const HEARTBEAT_SECS: u64 = 30;

/// Whether a peer is still active at `now`: it registered less than
/// `PEER_TIMEOUT_SECS` seconds ago.
pub open spec fn is_active(e: PeerEntry, now: u64) -> bool {
    now - e.last_seen < PEER_TIMEOUT_SECS
}

/// The peers still active at `now`, in order.
pub open spec fn active_peers(peers: Seq<PeerEntry>, now: u64) -> Seq<PeerEntry>
    decreases peers.len(),
{
    if peers.len() == 0 {
        Seq::empty()
    } else {
        let rest = active_peers(peers.drop_last(), now);
        if is_active(peers.last(), now) {
            rest.push(peers.last())
        } else {
            rest
        }
    }
}

/// The addresses of the peers no longer active at `now`, in order.
pub open spec fn expired_addrs(peers: Seq<PeerEntry>, now: u64) -> Seq<NetAddr>
    decreases peers.len(),
{
    if peers.len() == 0 {
        Seq::empty()
    } else {
        let rest = expired_addrs(peers.drop_last(), now);
        if is_active(peers.last(), now) {
            rest
        } else {
            rest.push(peers.last().addr)
        }
    }
}

/// No two entries share an address.
pub open spec fn unique_addrs(peers: Seq<PeerEntry>) -> bool {
    forall|i: int, j: int| 0 <= i < j < peers.len() ==> peers[i].addr != peers[j].addr
}

/// The state of a relay.
pub struct RelayNode {
    pub my_id: String,
    /// The id the relay registers under with its federated relays: `relay:<my_id>`.
    pub relay_id: String,
    pub port: u16,
    pub signing_key: SigningKey,
    pub public_key: Vec<u8>,
    pub peers: Vec<PeerEntry>,
    pub seen: SeenIds,
}

/// Whether `m` is the broadcast of a console line `line` that `relay` signs
/// at `time` under the id `msg_id`: from `0.0.0.0:<port>`, sent by its
/// `my_id`, addressed to everyone (`0.0.0.0:0`, "all"), with a hop budget of
/// 16, its public key and its signature, which `verify` accepts.
pub open spec fn is_console_broadcast(relay: RelayNode, line: Seq<char>, time: u64, msg_id: u64, m: Message) -> bool {
    m matches Message::Classic {
        src_addr, src_id, dst_addr, dst_id, txt, time: t, msg_id: id, ttl, public_key, signature,
    } && {
        &&& src_addr == NetAddr::spec_unspecified(relay.port)
        &&& src_id == relay.my_id
        &&& dst_addr == NetAddr::spec_unspecified(0)
        &&& dst_id@ == "all"@
        &&& txt@ == line
        &&& t == time
        &&& id == msg_id
        &&& ttl == 16
        &&& public_key@ == relay.public_key@
        &&& signature@ == ed25519_signature(relay.signing_key@, signed_data(relay.my_id@, line, time, msg_id))
        &&& signature_valid(public_key@, src_id@, txt@, t, id, signature@)
    }
}

/// The UDP port relays listen on.
pub const RELAY_PORT: u16 = 12345;

/// The number of ids a relay remembers.
pub const RELAY_SEEN_CAPACITY: usize = 10_000;

proof fn lemma_entry_index(peers: Seq<PeerEntry>, a: NetAddr, k: int)
    requires
        -1 <= k < peers.len(),
        k >= 0 ==> peers[k].addr == a,
        forall|j: int| 0 <= j < (if k < 0 { peers.len() as int } else { k }) ==> peers[j].addr != a,
    ensures
        entry_index(peers, a) == k,
    decreases peers.len(),
{
    if peers.len() > 0 && k != 0 {
        let k2 = if k < 0 { -1 } else { k - 1 };
        assert forall|j: int| 0 <= j < (if k2 < 0 { peers.drop_first().len() as int } else { k2 }) implies peers.drop_first()[j].addr != a by {
            assert(peers.drop_first()[j] == peers[j + 1]);
        }
        lemma_entry_index(peers.drop_first(), a, k2);
    }
}

proof fn lemma_find_peer_index(peers: Seq<PeerEntry>, id: Seq<char>, k: int)
    requires
        -1 <= k < peers.len(),
        k >= 0 ==> answers_to(peers[k], id),
        forall|j: int| 0 <= j < (if k < 0 { peers.len() as int } else { k }) ==> !answers_to(#[trigger] peers[j], id),
    ensures
        find_peer_index(peers, id) == k,
    decreases peers.len(),
{
    if peers.len() > 0 && k != 0 {
        let k2 = if k < 0 { -1 } else { k - 1 };
        assert forall|j: int| 0 <= j < (if k2 < 0 { peers.drop_first().len() as int } else { k2 }) implies !answers_to(#[trigger] peers.drop_first()[j], id) by {
            assert(peers.drop_first()[j] == peers[j + 1]);
        }
        assert(!answers_to(peers[0], id));
        lemma_find_peer_index(peers.drop_first(), id, k2);
    }
}

proof fn lemma_named_peer_index(peers: Seq<PeerEntry>, id: Seq<char>, k: int)
    requires
        -1 <= k < peers.len(),
        k >= 0 ==> peers[k].peer_id@ == id,
        forall|j: int| 0 <= j < (if k < 0 { peers.len() as int } else { k }) ==> (#[trigger] peers[j]).peer_id@ != id,
    ensures
        named_peer_index(peers, id) == k,
    decreases peers.len(),
{
    if peers.len() > 0 && k != 0 {
        let k2 = if k < 0 { -1 } else { k - 1 };
        assert forall|j: int| 0 <= j < (if k2 < 0 { peers.drop_first().len() as int } else { k2 }) implies (#[trigger] peers.drop_first()[j]).peer_id@ != id by {
            assert(peers.drop_first()[j] == peers[j + 1]);
        }
        assert(peers[0].peer_id@ != id);
        lemma_named_peer_index(peers.drop_first(), id, k2);
    }
}

/// The active peers are a subsequence of the table, so their addresses stay distinct.
proof fn lemma_active_peers_unique(peers: Seq<PeerEntry>, now: u64)
    requires
        unique_addrs(peers),
    ensures
        unique_addrs(active_peers(peers, now)),
        forall|i: int| 0 <= i < active_peers(peers, now).len() ==> exists|j: int| 0 <= j < peers.len() && peers[j] == (#[trigger] active_peers(peers, now)[i]),
    decreases peers.len(),
{
    if peers.len() > 0 {
        let init = peers.drop_last();
        assert(unique_addrs(init)) by {
            assert forall|i: int, j: int| 0 <= i < j < init.len() implies init[i].addr != init[j].addr by {
                assert(peers[i].addr != peers[j].addr);
            }
        }
        lemma_active_peers_unique(init, now);
        let rest = active_peers(init, now);
        if is_active(peers.last(), now) {
            let r = rest.push(peers.last());
            assert forall|i: int| 0 <= i < r.len() implies exists|j: int| 0 <= j < peers.len() && peers[j] == (#[trigger] r[i]) by {
                if i == rest.len() {
                    assert(peers[peers.len() - 1] == r[i]);
                } else {
                    let j = choose|j: int| 0 <= j < init.len() && init[j] == rest[i];
                    assert(peers[j] == r[i]);
                }
            }
            assert forall|i: int, j: int| 0 <= i < j < r.len() implies r[i].addr != r[j].addr by {
                if j == rest.len() {
                    let k = choose|k: int| 0 <= k < init.len() && init[k] == rest[i];
                    assert(peers[k].addr != peers[peers.len() - 1].addr);
                } else {
                    assert(rest[i].addr != rest[j].addr);
                }
            }
        } else {
            assert forall|i: int| 0 <= i < rest.len() implies exists|j: int| 0 <= j < peers.len() && peers[j] == (#[trigger] rest[i]) by {
                let j = choose|j: int| 0 <= j < init.len() && init[j] == rest[i];
                assert(peers[j] == rest[i]);
            }
        }
    }
}

impl RelayNode {
    /// The relay's invariant: a consistent cache, one entry per address, and
    /// the public key that belongs to its signing key.
    pub open spec fn wf(&self) -> bool {
        &&& self.seen.wf()
        &&& unique_addrs(self.peers@)
        &&& self.public_key@ == crate::identity::ed25519_public_key(self.signing_key@)
    }

    /// Everything but the cache and the peer table.
    pub open spec fn same_identity(&self, other: &RelayNode) -> bool {
        &&& self.my_id == other.my_id
        &&& self.relay_id == other.relay_id
        &&& self.port == other.port
        &&& self.signing_key == other.signing_key
        &&& self.public_key == other.public_key
        &&& self.seen.max() == other.seen.max()
    }

    /// A relay named `my_id` with no peers, listening on `RELAY_PORT`.
    pub fn new(my_id: String, signing_key: SigningKey) -> (r: RelayNode)
        ensures
            r.wf(),
            r.my_id == my_id,
            r.relay_id@ == "relay:"@ + my_id@,
            r.port == RELAY_PORT,
            r.signing_key == signing_key,
            r.public_key@ == crate::identity::ed25519_public_key(signing_key@),
            r.peers@.len() == 0,
            r.seen@ == Seq::<u64>::empty(),
            r.seen.max() == RELAY_SEEN_CAPACITY,
    {
        let mut relay_id = "relay:".to_string();
        relay_id.append(my_id.as_str());
        let public_key = signing_key.verifying_key();
        RelayNode {
            my_id,
            relay_id,
            port: RELAY_PORT,
            signing_key,
            public_key,
            peers: Vec::new(),
            seen: SeenIds::new(RELAY_SEEN_CAPACITY),
        }
    }

    /// Adds or refreshes the entry of the peer at `addr`.
    pub fn register(&mut self, addr: NetAddr, peer_id: String, time: u64, btc_address: Option<String>)
        requires
            old(self).wf(),
        ensures
            final(self).wf(),
            final(self).same_identity(old(self)),
            final(self).seen == old(self).seen,
            final(self).peers@ == register_entry(
                old(self).peers@,
                PeerEntry { addr, peer_id, last_seen: time, btc_address },
            ),
    {
        let n = self.peers.len();
        let mut i: usize = 0;
        while i < n && self.peers[i].addr != addr
            invariant
                i <= n,
                n == self.peers@.len(),
                forall|j: int| 0 <= j < i ==> self.peers@[j].addr != addr,
            decreases n - i,
        {
            i = i + 1;
        }
        let e = PeerEntry { addr, peer_id, last_seen: time, btc_address };
        let ghost old_peers = self.peers@;
        if i == n {
            proof { lemma_entry_index(old_peers, addr, -1); }
            self.peers.push(e);
            proof {
                assert forall|a: int, b: int| 0 <= a < b < self.peers@.len() implies self.peers@[a].addr != self.peers@[b].addr by {
                    if b == n {
                        assert(old_peers[a].addr != addr);
                    } else {
                        assert(old_peers[a].addr != old_peers[b].addr);
                    }
                }
            }
        } else {
            proof { lemma_entry_index(old_peers, addr, i as int); }
            self.peers.set(i, e);
            proof {
                assert forall|a: int, b: int| 0 <= a < b < self.peers@.len() implies self.peers@[a].addr != self.peers@[b].addr by {
                    assert(old_peers[a].addr != old_peers[b].addr);
                }
            }
        }
    }

    /// The address of the first registered peer that answers to `id` (by peer
    /// id or Bitcoin address).
    pub fn find_peer(&self, id: &String) -> (a: Option<NetAddr>)
        ensures
            find_peer_index(self.peers@, id@) < 0 ==> a is None,
            find_peer_index(self.peers@, id@) >= 0 ==> a == Some(
                self.peers@[find_peer_index(self.peers@, id@)].addr,
            ),
            a is None <==> forall|i: int| 0 <= i < self.peers@.len() ==> !(
                (#[trigger] self.peers@[i]).peer_id@ == id@
                || (self.peers@[i].btc_address matches Some(b) && b@ == id@)),
            a matches Some(x) ==> exists|i: int| 0 <= i < self.peers@.len() && (#[trigger] self.peers@[i]).addr == x
                && (self.peers@[i].peer_id@ == id@ || (self.peers@[i].btc_address matches Some(b) && b@ == id@)),
    {
        proof { lemma_find_peer_exact(self.peers@, id@); }
        let n = self.peers.len();
        for i in 0..n
            invariant
                n == self.peers@.len(),
                forall|j: int| 0 <= j < i ==> !answers_to(#[trigger] self.peers@[j], id@),
        {
            let e = &self.peers[i];
            let by_btc = match &e.btc_address {
                Some(b) => *b == *id,
                None => false,
            };
            if e.peer_id == *id || by_btc {
                proof { lemma_find_peer_index(self.peers@, id@, i as int); }
                return Some(e.addr);
            }
        }
        proof { lemma_find_peer_index(self.peers@, id@, -1); }
        None
    }

    /// The address of the first registered peer whose peer id is `id`.
    pub fn named_peer(&self, id: &String) -> (a: Option<NetAddr>)
        ensures
            named_peer_index(self.peers@, id@) < 0 ==> a is None,
            named_peer_index(self.peers@, id@) >= 0 ==> a == Some(
                self.peers@[named_peer_index(self.peers@, id@)].addr,
            ),
    {
        let n = self.peers.len();
        for i in 0..n
            invariant
                n == self.peers@.len(),
                forall|j: int| 0 <= j < i ==> (#[trigger] self.peers@[j]).peer_id@ != id@,
        {
            if self.peers[i].peer_id == *id {
                proof { lemma_named_peer_index(self.peers@, id@, i as int); }
                return Some(self.peers[i].addr);
            }
        }
        proof { lemma_named_peer_index(self.peers@, id@, -1); }
        None
    }

    /// The addresses of every peer but `exclude`.
    pub fn broadcast(&self, exclude: NetAddr) -> (targets: Vec<NetAddr>)
        ensures
            targets@ == broadcast_targets(self.peers@, exclude),
    {
        let n = self.peers.len();
        let mut targets: Vec<NetAddr> = Vec::new();
        for i in 0..n
            invariant
                n == self.peers@.len(),
                targets@ == broadcast_targets(self.peers@.take(i as int), exclude),
        {
            assert(self.peers@.take(i + 1).drop_last() =~= self.peers@.take(i as int));
            if self.peers[i].addr != exclude {
                targets.push(self.peers[i].addr);
            }
        }
        assert(self.peers@.take(n as int) =~= self.peers@);
        targets
    }

    /// Sends `msg` to its addressee `to` when a registered peer answers to
    /// it, else to every peer but `sender`.
    fn route(&self, msg: Message, to: &String, sender: NetAddr) -> (out: Outgoing)
        ensures
            out.msg == msg,
            find_peer_index(self.peers@, to@) >= 0 ==> out.targets@ == seq![
                self.peers@[find_peer_index(self.peers@, to@)].addr,
            ],
            find_peer_index(self.peers@, to@) < 0 ==> out.targets@ == broadcast_targets(self.peers@, sender),
    {
        match self.find_peer(to) {
            Some(a) => {
                let mut targets: Vec<NetAddr> = Vec::new();
                targets.push(a);
                Outgoing { targets, msg }
            },
            None => Outgoing { targets: self.broadcast(sender), msg },
        }
    }

    /// Reacts to a datagram that came from `sender`.
    pub fn handle_message(&mut self, msg: Message, sender: NetAddr) -> (out: RelayOutcome)
        requires
            old(self).wf(),
        ensures
            final(self).wf(),
            final(self).same_identity(old(self)),
            match msg {
                Message::Register { src_id, time, btc_address, .. } => {
                    &&& out is Registered
                    &&& final(self).seen == old(self).seen
                    &&& final(self).peers@ == register_entry(
                        old(self).peers@,
                        PeerEntry { addr: sender, peer_id: src_id, last_seen: time, btc_address },
                    )
                },
                Message::Classic {
                    src_addr, src_id, dst_addr, dst_id, txt, time, msg_id, ttl, public_key, signature,
                } => {
                    let (fresh, ids) = record_id(old(self).seen@, old(self).seen.max(), msg_id);
                    &&& final(self).seen@ == ids
                    &&& final(self).peers == old(self).peers
                    &&& if !fresh {
                        out is Duplicate
                    } else if !signature_valid(public_key@, src_id@, txt@, time, msg_id, signature@) {
                        out is InvalidSignature
                    } else if ttl == 0 {
                        out matches RelayOutcome::Accepted { forward: None }
                    } else {
                        &&& out matches RelayOutcome::Accepted { forward: Some(fwd) }
                        &&& fwd.targets@ == broadcast_targets(old(self).peers@, sender)
                        &&& fwd.msg == (Message::Classic {
                            src_addr, src_id, dst_addr, dst_id, txt, time, msg_id, ttl: (ttl - 1) as u8, public_key, signature,
                        })
                    }
                },
                Message::Payment { dst_id, .. } => {
                    &&& final(self).seen == old(self).seen
                    &&& final(self).peers == old(self).peers
                    &&& out matches RelayOutcome::Routed(o)
                    &&& o.msg == msg
                    &&& find_peer_index(old(self).peers@, dst_id@) >= 0 ==> o.targets@ == seq![
                        old(self).peers@[find_peer_index(old(self).peers@, dst_id@)].addr,
                    ]
                    &&& find_peer_index(old(self).peers@, dst_id@) < 0 ==> o.targets@ == broadcast_targets(old(self).peers@, sender)
                },
                Message::PaymentAck { to_id, .. } => {
                    &&& final(self).seen == old(self).seen
                    &&& final(self).peers == old(self).peers
                    &&& out matches RelayOutcome::Routed(o)
                    &&& o.msg == msg
                    &&& find_peer_index(old(self).peers@, to_id@) >= 0 ==> o.targets@ == seq![
                        old(self).peers@[find_peer_index(old(self).peers@, to_id@)].addr,
                    ]
                    &&& find_peer_index(old(self).peers@, to_id@) < 0 ==> o.targets@ == broadcast_targets(old(self).peers@, sender)
                },
                Message::AskForAddr { src_addr, peer_id, .. } => {
                    let k = named_peer_index(old(self).peers@, peer_id@);
                    &&& final(self).seen == old(self).seen
                    &&& final(self).peers == old(self).peers
                    &&& k < 0 ==> out is Ignored
                    &&& k >= 0 ==> (out matches RelayOutcome::Answered(o) && o.targets@ == seq![src_addr]
                        && o.msg == (Message::PeerInfo { peer_addr: old(self).peers@[k].addr, peer_id }))
                },
                _ => {
                    &&& out is Ignored
                    &&& final(self).seen == old(self).seen
                    &&& final(self).peers == old(self).peers
                },
            },
    {
        match msg {
            Message::Register { src_id, time, btc_address, .. } => {
                self.register(sender, src_id, time, btc_address);
                RelayOutcome::Registered
            },
            Message::Classic {
                src_addr, src_id, dst_addr, dst_id, txt, time, msg_id, ttl, public_key, signature,
            } => {
                if !self.seen.is_new(msg_id) {
                    return RelayOutcome::Duplicate;
                }
                if !verify(public_key.as_slice(), src_id.as_str(), txt.as_str(), time, msg_id, signature.as_slice()) {
                    return RelayOutcome::InvalidSignature;
                }
                if ttl > 0 {
                    let targets = self.broadcast(sender);
                    let fwd = Message::Classic {
                        src_addr, src_id, dst_addr, dst_id, txt, time, msg_id, ttl: ttl - 1, public_key, signature,
                    };
                    RelayOutcome::Accepted { forward: Some(Outgoing { targets, msg: fwd }) }
                } else {
                    RelayOutcome::Accepted { forward: None }
                }
            },
            Message::Payment { src_id, dst_id, amount, payment_id } => {
                let to = dst_id.clone();
                let m = Message::Payment { src_id, dst_id, amount, payment_id };
                RelayOutcome::Routed(self.route(m, &to, sender))
            },
            Message::PaymentAck { payment_id, from_id, to_id } => {
                let to = to_id.clone();
                let m = Message::PaymentAck { payment_id, from_id, to_id };
                RelayOutcome::Routed(self.route(m, &to, sender))
            },
            Message::AskForAddr { src_addr, peer_id, .. } => {
                match self.named_peer(&peer_id) {
                    Some(a) => {
                        let mut targets: Vec<NetAddr> = Vec::new();
                        targets.push(src_addr);
                        let reply = Message::PeerInfo { peer_addr: a, peer_id };
                        RelayOutcome::Answered(Outgoing { targets, msg: reply })
                    },
                    None => RelayOutcome::Ignored,
                }
            },
            _ => RelayOutcome::Ignored,
        }
    }

    /// The broadcast of a line typed on the relay's console: a message signed
    /// by the relay (sender `my_id`, from `0.0.0.0:<port>`, to everyone,
    /// with id `msg_id`), remembered as handled, sent to every peer.
    pub fn local_message(&mut self, line: &str, time: u64, msg_id: u64) -> (out: Outgoing)
        requires
            old(self).wf(),
        ensures
            final(self).wf(),
            final(self).same_identity(old(self)),
            final(self).peers == old(self).peers,
            final(self).seen@ == record_id(old(self).seen@, old(self).seen.max(), msg_id).1,
            out.targets@ == broadcast_targets(old(self).peers@, NetAddr::spec_unspecified(0)),
            is_console_broadcast(*old(self), line@, time, msg_id, out.msg),
    {
        let sig = sign(&self.signing_key, self.my_id.as_str(), line, time, msg_id);
        let msg = Message::Classic {
            src_addr: NetAddr::unspecified(self.port),
            src_id: self.my_id.clone(),
            dst_addr: NetAddr::unspecified(0),
            dst_id: "all".to_string(),
            txt: line.to_string(),
            time,
            msg_id,
            ttl: 16,
            public_key: self.public_key.clone(),
            signature: sig,
        };
        let _ = self.seen.is_new(msg_id);
        let targets = self.broadcast(NetAddr::unspecified(0));
        Outgoing { targets, msg }
    }

    /// The broadcast of a console line under a fresh random id (see `local_message`).
    pub fn broadcast_line(&mut self, line: &str, time: u64) -> (out: Outgoing)
        requires
            old(self).wf(),
        ensures
            final(self).wf(),
            final(self).same_identity(old(self)),
            final(self).peers == old(self).peers,
            out.targets@ == broadcast_targets(old(self).peers@, NetAddr::spec_unspecified(0)),
            out.msg matches Message::Classic { msg_id, .. } && {
                &&& is_console_broadcast(*old(self), line@, time, msg_id, out.msg)
                &&& final(self).seen@ == record_id(old(self).seen@, old(self).seen.max(), msg_id).1
            },
    {
        let msg_id = random_id();
        self.local_message(line, time, msg_id)
    }

    /// The registration this relay sends to a federated relay at `dst`.
    pub fn register_message(&self, dst: NetAddr, time: u64) -> (m: Message)
        ensures
            m matches Message::Register { src_addr, src_id, dst_addr, dst_id, time: t, btc_address } && {
                &&& src_addr == NetAddr::spec_unspecified(self.port)
                &&& src_id == self.relay_id
                &&& dst_addr == dst
                &&& dst_id@ == "relay"@
                &&& t == time
                &&& btc_address is None
            },
    {
        Message::Register {
            src_addr: NetAddr::unspecified(self.port),
            src_id: self.relay_id.clone(),
            dst_addr: dst,
            dst_id: "relay".to_string(),
            time,
            btc_address: None,
        }
    }

    /// Whether every registration is dated at or before `now`.
    fn dated_by(&self, now: u64) -> (res: bool)
        ensures
            res == (forall|i: int| 0 <= i < self.peers@.len() ==> (#[trigger] self.peers@[i]).last_seen <= now),
    {
        let n = self.peers.len();
        for i in 0..n
            invariant
                n == self.peers@.len(),
                forall|j: int| 0 <= j < i ==> (#[trigger] self.peers@[j]).last_seen <= now,
        {
            if self.peers[i].last_seen > now {
                assert(self.peers@[i as int].last_seen > now);
                return false;
            }
        }
        true
    }

    /// Forgets the peers that have not registered in the last `PEER_TIMEOUT_SECS` seconds and
    /// returns their addresses. When a peer's registration is dated after
    /// `now` the age cannot be computed (the subtraction would go below
    /// zero): nothing is changed and `None` is returned.
    pub fn expire_peers(&mut self, now: u64) -> (removed: Option<Vec<NetAddr>>)
        requires
            old(self).wf(),
        ensures
            final(self).wf(),
            final(self).same_identity(old(self)),
            final(self).seen == old(self).seen,
            (exists|i: int| 0 <= i < old(self).peers@.len() && (#[trigger] old(self).peers@[i]).last_seen > now)
                ==> removed is None && final(self).peers == old(self).peers,
            (forall|i: int| 0 <= i < old(self).peers@.len() ==> (#[trigger] old(self).peers@[i]).last_seen <= now)
                ==> (removed matches Some(r) && r@ == expired_addrs(old(self).peers@, now)
                && final(self).peers@ == active_peers(old(self).peers@, now)),
            (forall|i: int| 0 <= i < old(self).peers@.len() ==> (#[trigger] old(self).peers@[i]).last_seen <= now)
                ==> ({
                &&& forall|i: int| 0 <= i < final(self).peers@.len() ==> now - (#[trigger] final(self).peers@[i]).last_seen < 60
                &&& forall|i: int| 0 <= i < old(self).peers@.len() && now - old(self).peers@[i].last_seen < 60
                    ==> final(self).peers@.contains(#[trigger] old(self).peers@[i])
                &&& removed matches Some(r) && forall|i: int| 0 <= i < old(self).peers@.len()
                    && now - old(self).peers@[i].last_seen >= 60 ==> r@.contains(#[trigger] old(self).peers@[i].addr)
            }),
    {
        if !self.dated_by(now) {
            return None;
        }
        let n = self.peers.len();
        let ghost old_peers = self.peers@;
        let mut rest: Vec<PeerEntry> = Vec::new();
        let mut gone: Vec<NetAddr> = Vec::new();
        let mut left = Vec::new();
        std::mem::swap(&mut left, &mut self.peers);
        let ghost mut k: int = 0;
        assert(old_peers.take(0) =~= Seq::<PeerEntry>::empty());
        while left.len() > 0
            invariant
                n == old_peers.len(),
                0 <= k <= n,
                forall|j: int| 0 <= j < n ==> (#[trigger] old_peers[j]).last_seen <= now,
                left@ == old_peers.skip(k),
                rest@ == active_peers(old_peers.take(k), now),
                gone@ == expired_addrs(old_peers.take(k), now),
            decreases left.len(),
        {
            let e = left.remove(0);
            proof {
                assert(e == old_peers[k]);
                assert(old_peers.take(k + 1).drop_last() =~= old_peers.take(k));
                assert(old_peers.take(k + 1).last() == e);
                assert(old_peers[k].last_seen <= now);
            }
            if now - e.last_seen < PEER_TIMEOUT_SECS {
                rest.push(e);
            } else {
                gone.push(e.addr);
            }
            proof {
                k = k + 1;
                assert(left@ =~= old_peers.skip(k));
            }
        }
        assert(old_peers.take(k) =~= old_peers);
        self.peers = rest;
        proof {
            lemma_active_peers_unique(old_peers, now);
            lemma_expiry_by_age(old_peers, now);
        }
        Some(gone)
    }
}

/// A payment or an acknowledgement goes to a registered peer only when that
/// peer's id or Bitcoin address is the addressee, character for character:
/// the search finds the first such peer, and finds none exactly when no
/// peer has that id or that address (the message is then flooded).
pub proof fn lemma_find_peer_exact(peers: Seq<PeerEntry>, id: Seq<char>)
    ensures
        -1 <= find_peer_index(peers, id) < peers.len(),
        find_peer_index(peers, id) >= 0 ==> ({
            let e = peers[find_peer_index(peers, id)];
            e.peer_id@ == id || (e.btc_address matches Some(b) && b@ == id)
        }),
        forall|j: int| 0 <= j < find_peer_index(peers, id) ==> !((#[trigger] peers[j]).peer_id@ == id
            || (peers[j].btc_address matches Some(b) && b@ == id)),
        find_peer_index(peers, id) < 0 <==> forall|i: int| 0 <= i < peers.len() ==> !(
            (#[trigger] peers[i]).peer_id@ == id || (peers[i].btc_address matches Some(b) && b@ == id)),
    decreases peers.len(),
{
    if peers.len() > 0 {
        let rest = peers.drop_first();
        lemma_find_peer_exact(rest, id);
        assert forall|j: int| 0 <= j < rest.len() implies rest[j] == peers[j + 1] by {}
        if !answers_to(peers[0], id) {
            let k = find_peer_index(peers, id);
            assert forall|j: int| 0 <= j < k implies !((#[trigger] peers[j]).peer_id@ == id
                || (peers[j].btc_address matches Some(b) && b@ == id)) by {
                if j > 0 {
                    assert(peers[j] == rest[j - 1]);
                }
            }
            if k < 0 {
                assert forall|i: int| 0 <= i < peers.len() implies !((#[trigger] peers[i]).peer_id@ == id
                    || (peers[i].btc_address matches Some(b) && b@ == id)) by {
                    if i > 0 {
                        assert(peers[i] == rest[i - 1]);
                    }
                }
            } else {
                assert(peers[k] == rest[k - 1]);
            }
        }
    }
}

/// Expiry keeps exactly the peers heard from in the last 60 seconds: every
/// peer that remains registered less than 60 seconds before `now`, every
/// peer that registered 60 seconds or more before `now` is forgotten and
/// reported, and nothing else is reported.
pub proof fn lemma_expiry_by_age(peers: Seq<PeerEntry>, now: u64)
    requires
        forall|i: int| 0 <= i < peers.len() ==> (#[trigger] peers[i]).last_seen <= now,
    ensures
        PEER_TIMEOUT_SECS == 60,
        forall|i: int| 0 <= i < active_peers(peers, now).len() ==> now - (#[trigger] active_peers(peers, now)[i]).last_seen < 60,
        forall|i: int| 0 <= i < peers.len() && now - peers[i].last_seen < 60 ==> active_peers(peers, now).contains(#[trigger] peers[i]),
        forall|i: int| 0 <= i < peers.len() && now - peers[i].last_seen >= 60 ==> expired_addrs(peers, now).contains(#[trigger] peers[i].addr),
        forall|a: NetAddr| #[trigger] expired_addrs(peers, now).contains(a) ==> exists|i: int| 0 <= i < peers.len()
            && peers[i].addr == a && now - peers[i].last_seen >= 60,
    decreases peers.len(),
{
    if peers.len() > 0 {
        let init = peers.drop_last();
        let last = peers.last();
        assert forall|i: int| 0 <= i < init.len() implies (#[trigger] init[i]).last_seen <= now by {
            assert(init[i] == peers[i]);
        }
        lemma_expiry_by_age(init, now);
        let ra = active_peers(init, now);
        let re = expired_addrs(init, now);
        assert forall|i: int| 0 <= i < peers.len() && now - peers[i].last_seen < 60 implies active_peers(peers, now).contains(#[trigger] peers[i]) by {
            if i < peers.len() - 1 {
                assert(peers[i] == init[i]);
                assert(ra.contains(init[i]));
                if is_active(last, now) {
                    let k = choose|k: int| 0 <= k < ra.len() && ra[k] == init[i];
                    assert(ra.push(last)[k] == init[i]);
                }
            } else {
                assert(active_peers(peers, now) == ra.push(last));
                assert(ra.push(last)[ra.len() as int] == last);
            }
        }
        assert forall|i: int| 0 <= i < peers.len() && now - peers[i].last_seen >= 60 implies expired_addrs(peers, now).contains(#[trigger] peers[i].addr) by {
            if i < peers.len() - 1 {
                assert(peers[i] == init[i]);
                assert(re.contains(init[i].addr));
                if !is_active(last, now) {
                    let k = choose|k: int| 0 <= k < re.len() && re[k] == init[i].addr;
                    assert(re.push(last.addr)[k] == init[i].addr);
                }
            } else {
                assert(expired_addrs(peers, now) == re.push(last.addr));
                assert(re.push(last.addr)[re.len() as int] == last.addr);
            }
        }
        assert forall|a: NetAddr| #[trigger] expired_addrs(peers, now).contains(a) implies exists|i: int| 0 <= i < peers.len()
            && peers[i].addr == a && now - peers[i].last_seen >= 60 by {
            if re.contains(a) {
                let i = choose|i: int| 0 <= i < init.len() && init[i].addr == a && now - init[i].last_seen >= 60;
                assert(peers[i] == init[i]);
            } else {
                assert(!is_active(last, now));
                let k = choose|k: int| 0 <= k < re.push(last.addr).len() && re.push(last.addr)[k] == a;
                assert(k == re.len());
                assert(peers[peers.len() - 1] == last);
            }
        }
    }
}

/// A broadcast never goes back to the peer it came from, and reaches every
/// other registered peer exactly once.
pub proof fn lemma_broadcast_targets(peers: Seq<PeerEntry>, exclude: NetAddr)
    requires
        unique_addrs(peers),
    ensures
        !broadcast_targets(peers, exclude).contains(exclude),
        forall|i: int| 0 <= i < peers.len() && peers[i].addr != exclude ==> broadcast_targets(peers, exclude).contains(#[trigger] peers[i].addr),
        broadcast_targets(peers, exclude).no_duplicates(),
        forall|a: NetAddr| broadcast_targets(peers, exclude).contains(a) ==> exists|i: int| 0 <= i < peers.len() && (#[trigger] peers[i]).addr == a,
    decreases peers.len(),
{
    if peers.len() > 0 {
        let init = peers.drop_last();
        assert(unique_addrs(init)) by {
            assert forall|i: int, j: int| 0 <= i < j < init.len() implies init[i].addr != init[j].addr by {
                assert(peers[i].addr != peers[j].addr);
            }
        }
        lemma_broadcast_targets(init, exclude);
        let rest = broadcast_targets(init, exclude);
        let t = broadcast_targets(peers, exclude);
        let last = peers.last();
        assert forall|a: NetAddr| t.contains(a) implies exists|i: int| 0 <= i < peers.len() && (#[trigger] peers[i]).addr == a by {
            if rest.contains(a) {
                let i = choose|i: int| 0 <= i < init.len() && (#[trigger] init[i]).addr == a;
                assert(peers[i].addr == a);
            } else {
                assert(peers[peers.len() - 1].addr == a);
            }
        }
        assert forall|i: int| 0 <= i < peers.len() && peers[i].addr != exclude implies t.contains(#[trigger] peers[i].addr) by {
            if i < peers.len() - 1 {
                assert(init[i] == peers[i]);
                assert(rest.contains(init[i].addr));
                let k = choose|k: int| 0 <= k < rest.len() && rest[k] == init[i].addr;
                if last.addr != exclude {
                    assert(t[k] == rest[k]);
                }
            } else {
                assert(t[t.len() - 1] == last.addr);
            }
        }
        if last.addr != exclude {
            assert(!rest.contains(last.addr)) by {
                if rest.contains(last.addr) {
                    let i = choose|i: int| 0 <= i < init.len() && (#[trigger] init[i]).addr == last.addr;
                    assert(peers[i].addr != peers[peers.len() - 1].addr);
                }
            }
            assert forall|i: int, j: int| 0 <= i < j < t.len() implies t[i] != t[j] by {
                if j == t.len() - 1 {
                    assert(rest.contains(t[i]));
                }
            }
            assert(!t.contains(exclude)) by {
                if t.contains(exclude) {
                    let k = choose|k: int| 0 <= k < t.len() && t[k] == exclude;
                    if k < rest.len() {
                        assert(rest.contains(exclude));
                    }
                }
            }
        }
    }
}

/// After a peer registers, a search for its peer id finds a registered peer.
pub proof fn lemma_registered_peer_is_found(peers: Seq<PeerEntry>, e: PeerEntry)
    ensures
        find_peer_index(register_entry(peers, e), e.peer_id@) >= 0,
        0 <= find_peer_index(register_entry(peers, e), e.peer_id@) < register_entry(peers, e).len(),
{
    let r = register_entry(peers, e);
    let i = entry_index(peers, e.addr);
    lemma_entry_index_bounds(peers, e.addr);
    let k = if i < 0 { peers.len() as int } else { i };
    assert(r[k] == e);
    lemma_find_peer_index_some(r, e.peer_id@, k);
}

proof fn lemma_entry_index_bounds(peers: Seq<PeerEntry>, a: NetAddr)
    ensures
        -1 <= entry_index(peers, a) < peers.len(),
    decreases peers.len(),
{
    if peers.len() > 0 {
        lemma_entry_index_bounds(peers.drop_first(), a);
    }
}

/// When the peer at `k` answers to `id`, the search finds one at or before `k`.
proof fn lemma_find_peer_index_some(peers: Seq<PeerEntry>, id: Seq<char>, k: int)
    requires
        0 <= k < peers.len(),
        answers_to(peers[k], id),
    ensures
        0 <= find_peer_index(peers, id) <= k,
    decreases peers.len(),
{
    if !answers_to(peers[0], id) {
        assert(peers.drop_first()[k - 1] == peers[k]);
        lemma_find_peer_index_some(peers.drop_first(), id, k - 1);
    }
}

} // verus!
