//! The protocol: streams, flow control, settings, and the connection that ties
//! them together.

pub mod connection;
pub mod event_loop;
pub mod events;
pub mod flow_control;
pub mod flush;
pub mod flush_laws;
pub mod header_laws;
pub mod header_map;
pub mod headers;
pub mod laws;
pub mod loop_laws;
pub mod ping_pong;
pub mod recv;
pub mod recv_laws;
pub mod send;
pub mod send_laws;
pub mod settings;
pub mod streams;
pub mod window_laws;
