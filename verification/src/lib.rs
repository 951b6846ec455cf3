//! Pixelflut video streaming: the frame encoding, the canvas handshake and
//! the choice of what to play next, with their contracts.

pub mod command;
pub mod frame;
pub mod decoder;
pub mod network;
pub mod client;
pub mod config;
