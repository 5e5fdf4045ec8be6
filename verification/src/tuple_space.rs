//! The store of tuples.

pub mod tuple_space;
