//! What the desktop front end is handed: summaries of a torrent, of a
//! tracker's answer and of a peer connection, and the info hash it sends
//! back as hex.
use vstd::prelude::*;

use vstd::string::StringSliceAdditionalSpecFns;
use crate::text::{decimal, hex_lower, push_char, push_decimal, to_hex_lower};
use crate::torrent::info_hash::InfoHash;
use crate::torrent::metainfo::{torrent_size, Torrent};
use crate::torrent::peer_id::PeerId;
use crate::tracker::response::{AnnounceResponse, Peer};

verus! {

/// A torrent as the front end shows it.
#[derive(Debug, Clone)]
pub struct TorrentInfo {
    pub name: String,
    pub total_size: u64,
    pub piece_count: usize,
    pub info_hash: String,
    pub is_multi_file: bool,
    pub announce: Option<String>,
    pub comment: Option<String>,
    pub created_by: Option<String>,
}

/// A peer as the front end shows it.
#[derive(Debug, Clone)]
pub struct PeerInfo {
    pub ip: String,
    pub port: u16,
}

/// A tracker's answer as the front end shows it.
#[derive(Debug, Clone)]
pub struct AnnounceResult {
    pub interval: u64,
    pub peers: Vec<PeerInfo>,
}

/// A peer connection as the front end shows it.
#[derive(Debug, Clone)]
pub struct ConnectionResult {
    pub peer_id: String,
    pub ip: String,
    pub port: u16,
}

/// Why a hex string was refused, as `hex::decode_to_slice` reports it.
#[derive(Debug, Clone, Copy, PartialEq, Eq, Structural)]
pub enum HexError {
    /// A byte that is no hex digit, and its position.
    InvalidHexCharacter { c: char, index: usize },
    /// An odd number of digits.
    OddLength,
    /// A number of digits other than twice the number of bytes wanted.
    InvalidStringLength,
}

/// The value of a hex digit, upper or lower case.
pub open spec fn hex_digit_value(c: u8) -> Option<u8> {
    if 65 <= c <= 70 {
        Some((c - 55) as u8)
    } else if 97 <= c <= 102 {
        Some((c - 87) as u8)
    } else if 48 <= c <= 57 {
        Some((c - 48) as u8)
    } else {
        None
    }
}

/// Whether some byte of `data` is no hex digit.
pub open spec fn has_non_hex(data: Seq<u8>) -> bool {
    exists|k: int| 0 <= k < data.len() && hex_digit_value(data[k]) is None
}

/// The position of the first byte of `data` that is no hex digit.
pub open spec fn first_non_hex(data: Seq<u8>) -> int {
    choose|k: int|
        0 <= k < data.len() && hex_digit_value(data[k]) is None && forall|j: int|
            0 <= j < k ==> hex_digit_value(data[j]) is Some
}

/// The `n` bytes that a hex string stands for, or the first fault that
/// `hex::decode_to_slice` finds in it: an odd length, a length other than
/// `2 * n`, or the first byte that is no hex digit.
pub open spec fn hex_decoded(data: Seq<u8>, n: nat) -> Result<Seq<u8>, HexError> {
    if data.len() % 2 != 0 {
        Err(HexError::OddLength)
    } else if data.len() / 2 != n {
        Err(HexError::InvalidStringLength)
    } else if has_non_hex(data) {
        Err(
            HexError::InvalidHexCharacter {
                c: data[first_non_hex(data)] as char,
                index: first_non_hex(data) as usize,
            },
        )
    } else {
        Ok(
            Seq::new(
                n,
                |i: int|
                    (hex_digit_value(data[2 * i])->0 * 16 + hex_digit_value(data[2 * i + 1])->0) as u8,
            ),
        )
    }
}

/// Decodes twenty bytes from hex with `hex::decode_to_slice`. The contract
/// restates that function's checks from its source: odd length first, then
/// a length other than 40, then the first byte that is no hex digit
/// (`0-9`, `a-f`, `A-F`); otherwise each byte is the value of its two digits.
#[verifier::external_body]
fn hex_decode_20(data: &[u8]) -> (r: Result<[u8; 20], HexError>)
    ensures
        match r {
            Ok(bytes) => hex_decoded(data@, 20) == Ok::<Seq<u8>, HexError>(bytes@),
            Err(e) => hex_decoded(data@, 20) == Err::<Seq<u8>, HexError>(e),
        },
{
    let mut out = [0u8; 20];
    match hex::decode_to_slice(data, &mut out) {
        Ok(()) => Ok(out),
        Err(hex::FromHexError::InvalidHexCharacter { c, index }) => Err(
            HexError::InvalidHexCharacter { c, index },
        ),
        Err(hex::FromHexError::OddLength) => Err(HexError::OddLength),
        Err(hex::FromHexError::InvalidStringLength) => Err(HexError::InvalidStringLength),
    }
}

/// The info hash that the front end sends as 40 hex digits.
pub fn decode_info_hash(text: &str) -> (r: Result<InfoHash, HexError>)
    ensures
        match r {
            Ok(bytes) => hex_decoded(text.spec_bytes(), 20) == Ok::<Seq<u8>, HexError>(bytes@),
            Err(e) => hex_decoded(text.spec_bytes(), 20) == Err::<Seq<u8>, HexError>(e),
        },
{
    hex_decode_20(text.as_bytes())
}

/// An IPv4 address in dotted decimal.
pub open spec fn ipv4_text(ip: Seq<u8>) -> Seq<char> {
    decimal(ip[0] as nat) + seq!['.'] + decimal(ip[1] as nat) + seq!['.'] + decimal(
        ip[2] as nat,
    ) + seq!['.'] + decimal(ip[3] as nat)
}

/// The address of a peer in dotted decimal, as `Ipv4Addr` prints it.
pub fn ipv4_to_string(ip: &[u8; 4]) -> (r: String)
    ensures
        r@ == ipv4_text(ip@),
{
    let mut s = String::new();
    push_decimal(&mut s, ip[0] as u64);
    push_char(&mut s, '.');
    push_decimal(&mut s, ip[1] as u64);
    push_char(&mut s, '.');
    push_decimal(&mut s, ip[2] as u64);
    push_char(&mut s, '.');
    push_decimal(&mut s, ip[3] as u64);
    assert(s@ =~= ipv4_text(ip@));
    s
}

impl TorrentInfo {
    /// The summary of a parsed torrent whose info hash is `info_hash`.
    pub fn from_torrent(torrent: Torrent, info_hash: &InfoHash) -> (r: Self)
        requires
            torrent_size(torrent.info) <= u64::MAX,
        ensures
            r.name@ == torrent.info.name@,
            r.total_size == torrent_size(torrent.info),
            r.piece_count == torrent.info.pieces@.len() / 20,
            r.info_hash@ == hex_lower(info_hash@),
            r.is_multi_file == torrent.info.files.is_some(),
            r.announce == torrent.announce,
            r.comment == torrent.comment,
            r.created_by == torrent.created_by,
    {
        let name = torrent.info.name.clone();
        let total_size = torrent.total_size();
        let piece_count = torrent.piece_count();
        let is_multi_file = torrent.is_multi_file();
        let info_hash = to_hex_lower(info_hash.as_slice());
        TorrentInfo {
            name,
            total_size,
            piece_count,
            info_hash,
            is_multi_file,
            announce: torrent.announce,
            comment: torrent.comment,
            created_by: torrent.created_by,
        }
    }
}

impl PeerInfo {
    /// A peer with its address in dotted decimal.
    pub fn from_peer(peer: &Peer) -> (r: Self)
        ensures
            r.ip@ == ipv4_text(peer.ip@),
            r.port == peer.port,
    {
        PeerInfo { ip: ipv4_to_string(&peer.ip), port: peer.port }
    }
}

impl AnnounceResult {
    /// The summary of a tracker's answer: the interval, and each peer in
    /// order.
    pub fn from_response(response: &AnnounceResponse) -> (r: Self)
        ensures
            r.interval == response.interval,
            r.peers@.len() == response.peers@.len(),
            forall|i: int|
                0 <= i < r.peers@.len() ==> #[trigger] r.peers@[i].ip@ == ipv4_text(
                    response.peers@[i].ip@,
                ) && r.peers@[i].port == response.peers@[i].port,
    {
        let mut peers: Vec<PeerInfo> = Vec::new();
        let mut i: usize = 0;
        while i < response.peers.len()
            invariant
                i <= response.peers@.len(),
                peers@.len() == i,
                forall|j: int|
                    0 <= j < i ==> #[trigger] peers@[j].ip@ == ipv4_text(response.peers@[j].ip@)
                        && peers@[j].port == response.peers@[j].port,
            decreases response.peers@.len() - i,
        {
            peers.push(PeerInfo::from_peer(&response.peers[i]));
            i = i + 1;
        }
        AnnounceResult { interval: response.interval, peers }
    }
}

impl ConnectionResult {
    /// The summary of a connection: the remote peer's id in lowercase hex,
    /// and the address it was reached at.
    pub fn new(peer_id: &PeerId, ip: String, port: u16) -> (r: Self)
        ensures
            r.peer_id@ == hex_lower(peer_id@),
            r.ip@ == ip@,
            r.port == port,
    {
        ConnectionResult { peer_id: to_hex_lower(peer_id.as_slice()), ip, port }
    }
}

} // verus!
