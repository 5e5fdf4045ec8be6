//! Tuples: the value type, its binary form and the order that the form induces.

pub mod compare;
pub mod consts;
pub mod order;
pub mod text;
pub mod tuple;
pub mod wire;
