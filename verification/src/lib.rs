//! A verified core for an HTTP-over-WebSocket forward proxy.
//!
//! The library holds the tunnel protocol itself: the reversible host
//! obfuscation codec, the control-channel handshake that gates clients by
//! app version and user allow-list, the request splitter that parses an
//! HTTP request head, the per-direction relay pumps, and the server-side
//! routing decision.  All I/O stays outside; the functions here map plain
//! values to plain values and carry contracts that pin their results down.

pub mod bytes;
pub mod codec;
pub mod handshake;
pub mod relay;
pub mod request;
pub mod route;
