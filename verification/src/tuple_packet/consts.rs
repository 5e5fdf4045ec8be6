//! Request types, flags and field sizes of a packet.

use vstd::prelude::*;

verus! {

pub const TS_REQ_EMPTY: u8 = 0b000;

pub const TS_REQ_EMPTY_STR: &'static str = "EMPTY";

pub const TS_REQ_OUT: u8 = 0b001;

pub const TS_REQ_OUT_STR: &'static str = "OUT";

pub const TS_REQ_IN: u8 = 0b010;

pub const TS_REQ_IN_STR: &'static str = "IN";

pub const TS_REQ_INP: u8 = 0b011;

pub const TS_REQ_INP_STR: &'static str = "INP";

pub const TS_REQ_RD: u8 = 0b100;

pub const TS_REQ_RD_STR: &'static str = "RD";

pub const TS_REQ_RDP: u8 = 0b101;

pub const TS_REQ_RDP_STR: &'static str = "RDP";

pub const TS_FLAG_ACK: u8 = 0b00001;

pub const TS_FLAG_ACK_STR: &'static str = "ACK";

pub const TS_FLAG_RETRANSMIT: u8 = 0b00010;

pub const TS_FLAG_RETRANSMIT_STR: &'static str = "RETRANSMIT";

pub const TS_FLAG_KEEPALIVE: u8 = 0b00100;

pub const TS_FLAG_KEEPALIVE_STR: &'static str = "KEEPALIVE";

pub const TS_FLAG_HELLO: u8 = 0b01000;

pub const TS_FLAG_HELLO_STR: &'static str = "HELLO";

pub const TS_FLAG_ERR: u8 = 0b10000;

pub const TS_FLAG_ERR_STR: &'static str = "ERROR";

/// The byte that holds the request type and the flags.
pub const TS_REQ_TYPE_AND_FLAGS_SIZE: usize = 1;

/// The bytes of the correlation number.
pub const TS_NUM_SIZE: usize = 3;

/// The checksum byte.
pub const TS_CHECKSUM_SIZE: usize = 1;

/// The longest wire form of a packet: the header, the checksum, and a tuple
/// with the longest name and the largest number of the longest fields.
pub const TS_MAX_PACKET_SIZE: usize = 1316;

/// One more than the largest correlation number.
pub const TS_NUM_LIMIT: u32 = 0x100_0000;

} // verus!
