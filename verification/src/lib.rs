//! Peer-wire side of a BitTorrent client: the handshake, the length-prefixed
//! message codec, piece and block sizing, the shared queue of pending pieces,
//! the per-peer session as a transition function, and the collection of
//! finished pieces into the final output.
//!
//! Everything here is synchronous and free of I/O: a caller reads and writes
//! the sockets and hands the library the bytes and events it saw.

pub mod buffer;
pub mod digest;
pub mod download;
pub mod handshake;
pub mod octets;
pub mod peer;
pub mod queue;
pub mod torrent;
pub mod tracker;
pub mod worker;
