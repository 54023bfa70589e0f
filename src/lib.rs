//! A hostname-routing gateway for a length-framed handshake protocol: the
//! handshake codec, the route table, and the per-connection decision logic.
//! The sockets themselves are driven by the caller.

pub mod codec;
pub mod capture;
pub mod route;
pub mod session;
pub mod relay;
