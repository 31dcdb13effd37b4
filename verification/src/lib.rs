//! A reliable-delivery transport layer built on top of unreliable datagram
//! sockets: packet framing, acknowledgment tracking, timeout-driven
//! retransmission and per-destination sequence numbering.

pub mod codec;
pub mod packets;
pub mod service;
