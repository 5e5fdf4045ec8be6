//! Limits and tag values of the binary form of a tuple.

use vstd::prelude::*;

verus! {

/// The longest name, in bytes.
pub const TUPLE_NAME_MAX_SIZE: usize = 31;

/// The longest field record: a tag byte and a four-byte payload.
pub const TUPLE_FIELD_MAX_SIZE: usize = 5;

/// The largest number of fields.
pub const TUPLE_MAX_FIELDS: usize = 255;

/// The longest binary form of a tuple: the longest name and its zero byte,
/// the count, and the largest number of the longest fields.
pub const TUPLE_MAX_SIZE: usize = 1311;

pub const TUPLE_TYPE_UNDEFINED: u8 = 0b000;

pub const TUPLE_TYPE_INT: u8 = 0b001;

pub const TUPLE_TYPE_FLOAT: u8 = 0b010;

pub const TUPLE_FIELD_OCCUPIED_YES: u8 = 0b1;

pub const TUPLE_FIELD_OCCUPIED_NO: u8 = 0b0;

/// The position of the occupied flag in a tag byte.
pub const TUPLE_FIELD_OCCUPIED_SHIFT: usize = 7;

/// The position of the type tag in a tag byte.
pub const TUPLE_FIELD_TYPE_SHIFT: usize = 4;

} // verus!
