//! Turning frames into bytes for the wire.

pub mod split;
pub mod writer;

pub use split::{write_data_frames, write_headers_with_continuation};
pub use writer::FrameWriter;
