//! A verified core for a screen-streaming wire protocol: a packet codec that
//! frames typed payloads as `tag + length + payload` on a byte stream, and a
//! per-connection session state machine that decides which packets a
//! connection emits and in what order.

pub mod packet;
pub mod session;
