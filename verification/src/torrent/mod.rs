//! Torrent metadata: the info hash, the peer id and the metainfo file.
pub mod bencode;
pub mod info_hash;
pub mod metainfo;
pub mod nesting;
pub mod peer_id;
pub mod written;
