//! Verified core of a peer-to-peer collaborative pixel canvas.
pub mod canvas;
pub mod program;
pub mod network;
pub mod png;
pub mod snapshot;
pub mod codec;
pub mod time;
pub mod args;
