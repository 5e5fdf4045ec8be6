//! A tuple space over datagrams.
//!
//! * [`tuple`]: the tuple, its binary form, its textual form, and the order
//!   of tuples by their binary forms.
//! * [`tuple_packet`]: the packet in which a request or a response travels.
//! * [`tuple_space`]: the store, with insertion, lookup by template and
//!   removal by template.
//! * [`server`]: what the server answers to a request, and which requests
//!   wait.
//! * [`util`]: what the codecs share.
//!
//! Each type has a mathematical view, each function a contract over the
//! views, and the laws of the library are proof functions beside them.

pub mod server;
pub mod tuple;
pub mod tuple_packet;
pub mod tuple_space;
pub mod util;
