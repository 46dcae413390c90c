//! HTTP/2 connection logic, kept apart from any I/O.
//!
//! Everything here works on values in memory: a connection takes one message at
//! a time, changes its own state, queues bytes in a [`codec::FrameWriter`] and
//! records what the user handles have to be told as [`proto::events::Event`]s.
//! Whoever owns the socket and the channels writes the bytes and delivers the
//! events.

pub mod buf;
pub mod builder;
pub mod client;
pub mod codec;
pub mod error;
pub mod frame;
pub mod proto;
pub mod server;
pub mod share;
pub mod text;
