//! A session networking stack for real-time multiplayer applications.
//!
//! Three cooperating roles share one binary wire protocol over UDP: a relay
//! that multiplexes datagrams between a host and its clients within named
//! sessions, a host that owns a session and admits clients by name, and a
//! client that joins a session through the relay. This crate holds the
//! verified core: the wire codec, the relay's routing and liveness tables,
//! the host's admission and acknowledgement machinery, and the client's
//! handshake and dispatch logic. Socket I/O and clocks live outside; every
//! function here is a pure state transition over plain values.

pub mod client;
pub mod codec;
pub mod host;
pub mod relay;
mod seq_lemmas;
