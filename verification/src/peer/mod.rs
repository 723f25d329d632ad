//! The peer wire protocol and the bookkeeping of a download.
pub mod bits;
pub mod disk;
pub mod handshake;
pub mod manager;
pub mod messages;
pub mod pieces;
pub mod session;
pub mod upload;
pub mod wire;
