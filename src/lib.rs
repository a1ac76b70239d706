//! Discovery and direct messaging for agent processes on a gossip overlay.
//!
//! The library holds the wire format, the peer table with its expiry rule,
//! the framing of direct messages and the decisions of the discovery daemon.
//! The network itself (the gossip substrate, the transport, timers and
//! signals) is driven by the application around it.

pub mod daemon;
pub mod direct;
pub mod peer;
pub mod protocol;
pub mod text;
pub mod varint;
