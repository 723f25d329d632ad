//! A BitTorrent client library: torrent metadata, tracker announces, the peer
//! wire protocol and the bookkeeping of pieces, with their contracts proved.
use vstd::prelude::*;
use vstd::string::StringExecFns;

pub mod commands;
pub mod peer;
pub mod text;
pub mod torrent;
pub mod tracker;

verus! {

/// The greeting that the front end shows for `name`.
pub fn greet(name: &str) -> (r: String)
    ensures
        r@ == "Hello, "@ + name@ + "! You've been greeted from Rust!"@,
{
    let mut s = String::from_str("Hello, ");
    s.append(name);
    s.append("! You've been greeted from Rust!");
    s
}

} // verus!
