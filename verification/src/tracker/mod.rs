//! Talking to a tracker: the announce request, its URL and the response.
use vstd::prelude::*;

use crate::torrent::info_hash::InfoHash;
use crate::torrent::peer_id::PeerId;

pub mod announce;
pub mod response;

verus! {

/// The event that an announce reports.
#[derive(Debug, Clone, Copy, PartialEq, Eq, Structural)]
pub enum AnnounceEvent {
    Started,
    Stopped,
    Completed,
    Empty,
}

/// The name of an event in an announce URL.
pub open spec fn event_text(e: AnnounceEvent) -> Seq<char> {
    match e {
        AnnounceEvent::Started => "started"@,
        AnnounceEvent::Stopped => "stopped"@,
        AnnounceEvent::Completed => "completed"@,
        AnnounceEvent::Empty => "empty"@,
    }
}

impl AnnounceEvent {
    /// The event's name, as it is written in an announce URL.
    pub fn to_string(&self) -> (r: String)
        ensures
            r@ == event_text(*self),
    {
        match self {
            AnnounceEvent::Started => String::from_str("started"),
            AnnounceEvent::Stopped => String::from_str("stopped"),
            AnnounceEvent::Completed => String::from_str("completed"),
            AnnounceEvent::Empty => String::from_str("empty"),
        }
    }
}

/// What an announce tells the tracker.
#[derive(Debug, Clone, Copy)]
pub struct AnnounceRequest {
    pub info_hash: InfoHash,
    pub peer_id: PeerId,
    pub port: u16,
    pub uploaded: u64,
    pub downloaded: u64,
    pub left: u64,
    pub compact: bool,
    pub event: AnnounceEvent,
}

impl AnnounceRequest {
    /// The first announce of a download: listening on port 6881, nothing
    /// uploaded or downloaded yet, `left` bytes to go, compact peer lists,
    /// event `started`.
    pub fn new(info_hash: InfoHash, peer_id: PeerId, left: u64) -> (r: Self)
        ensures
            r.info_hash == info_hash,
            r.peer_id == peer_id,
            r.port == 6881,
            r.uploaded == 0,
            r.downloaded == 0,
            r.left == left,
            r.compact,
            r.event == AnnounceEvent::Started,
    {
        Self {
            info_hash,
            peer_id,
            port: 6881,
            uploaded: 0,
            downloaded: 0,
            left,
            compact: true,
            event: AnnounceEvent::Started,
        }
    }
}

} // verus!
