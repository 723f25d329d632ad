//! A tracker's response: how long to wait before the next announce, and the
//! peers, in the compact form of six bytes each (IPv4 address, then port,
//! both big-endian).
use vstd::prelude::*;

use crate::peer::wire::be_u16_value;

verus! {

/// A peer that the tracker knows of.
#[derive(Debug, Clone, Copy, PartialEq, Eq)]
pub struct Peer {
    pub ip: [u8; 4],
    pub port: u16,
}

/// The fields of a tracker's response as bencode carries them.
#[derive(Debug, Clone)]
pub struct RawAnnounceResponse {
    pub interval: u64,
    pub peers: Vec<u8>,
}

/// A tracker's response.
#[derive(Debug, Clone)]
pub struct AnnounceResponse {
    pub interval: u64,
    pub peers: Vec<Peer>,
}

/// Why a tracker's response was refused.
#[derive(Debug, Clone, Copy, PartialEq, Eq, Structural)]
pub enum ResponseError {
    /// The compact peer list is not a multiple of six bytes; its length.
    InvalidPeersLength(usize),
}

/// Whether `p` is the peer that the six bytes at `6 * i` describe.
pub open spec fn peer_at(bytes: Seq<u8>, i: int, p: Peer) -> bool {
    &&& p.ip@ == bytes.subrange(6 * i, 6 * i + 4)
    &&& p.port == be_u16_value(bytes[6 * i + 4], bytes[6 * i + 5])
}

impl AnnounceResponse {
    /// Reads the compact peer list: one peer for each six bytes, in order.
    pub fn from_raw(raw: RawAnnounceResponse) -> (r: Result<Self, ResponseError>)
        ensures
            raw.peers@.len() % 6 != 0 ==> r == Err::<Self, ResponseError>(
                ResponseError::InvalidPeersLength(raw.peers@.len() as usize),
            ),
            raw.peers@.len() % 6 == 0 ==> (r matches Ok(resp) && resp.interval == raw.interval
                && resp.peers@.len() == raw.peers@.len() / 6 && forall|i: int|
                0 <= i < resp.peers@.len() ==> peer_at(raw.peers@, i, #[trigger] resp.peers@[i])),
    {
        let bytes = raw.peers.as_slice();
        if bytes.len() % 6 != 0 {
            return Err(ResponseError::InvalidPeersLength(bytes.len()));
        }
        let count = bytes.len() / 6;
        let mut peers: Vec<Peer> = Vec::new();
        let mut k: usize = 0;
        while k < count
            invariant
                count == bytes@.len() / 6,
                count == bytes.len() / 6,
                bytes@.len() % 6 == 0,
                k <= count,
                peers@.len() == k,
                forall|i: int| 0 <= i < k ==> peer_at(bytes@, i, #[trigger] peers@[i]),
            decreases count - k,
        {
            let at = 6 * k;
            let ip: [u8; 4] = [bytes[at], bytes[at + 1], bytes[at + 2], bytes[at + 3]];
            assert(ip@ =~= bytes@.subrange(6 * k, 6 * k + 4));
            let hi = bytes[at + 4] as u16;
            let lo = bytes[at + 5] as u16;
            let port: u16 = hi * 256 + lo;
            peers.push(Peer { ip, port });
            k = k + 1;
        }
        Ok(AnnounceResponse { interval: raw.interval, peers })
    }
}

} // verus!
