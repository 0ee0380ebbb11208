//! Core logic of the Zeta peer-to-peer messaging network: identities and
//! signed messages, the local wallet, the de-duplication cache, the relay's
//! routing decisions and the client's reactions to network events.

pub mod text;
pub mod identity;
pub mod wallet;
pub mod seen;
pub mod app_state;
pub mod netaddr;
pub mod message;
pub mod client;
pub mod relay;
pub mod web;
