//! Packets: the envelope in which a request or a response travels.

pub mod consts;
pub mod tuple_packet;
