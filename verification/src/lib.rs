//! Rendezvous and relay server library for transient multiplayer sessions.
//!
//! The library holds the verified core of the server: the connection-identifier
//! codec, the wire codecs for the control-plane message protocol, the framing
//! rules, the handshake and profile-verification decisions, the connection
//! registry, the friend-request stores, the port-lookup table, the rate
//! limiter, and the message-dispatch semantics. Sockets, timers and external
//! services live outside; they hand the library plain values and carry out the
//! actions it decides.

pub mod text;
pub mod ids;
pub mod wire;
pub mod messages;
pub mod s2c;
pub mod framing;
pub mod country;
pub mod range_map;
pub mod versions;
pub mod registry;
pub mod stores;
pub mod ratelimit;
pub mod signalling;
pub mod words;
pub mod handler;
pub mod crypt;
pub mod handshake;
pub mod relay;
pub mod analytics;
