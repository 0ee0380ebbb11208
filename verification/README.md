# zeta

Zeta is a peer-to-peer messaging network with a built-in local Bitcoin
wallet. Clients register with one or more UDP relays, broadcast messages
signed with Ed25519, and send satoshis to each other; relays check
signatures, flood broadcasts (with a hop budget of 16) and route payments,
and may federate with other relays.

## Layout

- `src/` — the verified library (Verus):
  - `text.rs`: decimal and hexadecimal rendering, `u64` parsing with the
    rules of `u64::from_str`, Unicode trimming and splitting;
  - `identity.rs`: Ed25519 keys, fingerprints, the signed bytes of a
    message, signing and verification;
  - `wallet.rs`: balance debits and credits, secp256k1 keys, P2PKH addresses;
  - `seen.rs`: the bounded cache of ids already handled;
  - `netaddr.rs`, `message.rs`: socket addresses, the protocol's messages and
    their one-line descriptions;
  - `app_state.rs`: the feed shown by the web interface;
  - `client.rs`, `relay.rs`: what a client and a relay do with each datagram
    and each console line;
  - `web.rs`: the checks made on web requests.
- `tests/` — tests of the library on concrete values.
- `app/` — the program around it: command line, UDP sockets, files, the web
  server, and the loops that carry out what the library decides.
