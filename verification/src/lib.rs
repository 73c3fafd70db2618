//! Transport and peer-coordination core of a Nebula chat node.
//!
//! The crate holds the Bonk wire protocol: length-prefixed frames, the
//! message schema and its binary encoding, the directory of known peers,
//! signed signals, and the per-connection session rules of the relay.
//! Everything here works on plain values; sockets, the onion service and the
//! terminal belong to the program built around this library.

pub mod client;
pub mod codec;
pub mod config;
pub mod directory;
pub mod endian;
pub mod error;
pub mod frame;
pub mod item;
pub mod lifecycle;
pub mod message;
pub mod relay;
pub mod session;
pub mod signal;
pub mod stream;
pub mod ui;
pub mod wire;
