//! The handshake that opens every peer connection: the protocol name, eight
//! reserved bytes, the info hash and the sender's peer id, 68 bytes in all.
use vstd::prelude::*;

use crate::torrent::info_hash::InfoHash;
use crate::torrent::peer_id::PeerId;

verus! {

/// The handshake that a peer sends.
#[derive(Debug, Clone, Copy)]
pub struct Handshake {
    pub info_hash: InfoHash,
    pub peer_id: PeerId,
}

/// Why a handshake was refused.
#[derive(Debug, Clone, Copy, PartialEq, Eq, Structural)]
pub enum HandshakeError {
    /// The handshake is not 68 bytes long; the length it has.
    InvalidLength(usize),
    /// The first byte, the protocol name's length, is not 19; its value.
    InvalidProtocolLength(u8),
    /// The protocol name is not UTF-8.
    InvalidUtf8,
    /// The protocol name is not the one this client speaks.
    InvalidProtocol,
    /// The peer answered for another torrent.
    InfoHashMismatch,
}

/// The length of a handshake in bytes.
pub const HANDSHAKE_LEN: usize = 68;

/// The ASCII bytes of the protocol name "Bittorrent protocol".
pub open spec fn protocol_name() -> Seq<u8> {
    seq![
        66u8, 105, 116, 116, 111, 114, 114, 101, 110, 116, 32, 112, 114, 111, 116, 111, 99, 111,
        108,
    ]
}

/// The 68 bytes that a handshake is sent as.
pub open spec fn handshake_bytes(info_hash: Seq<u8>, peer_id: Seq<u8>) -> Seq<u8> {
    seq![19u8] + protocol_name() + Seq::new(8, |i: int| 0u8) + info_hash + peer_id
}

/// What a peer's 68 bytes say: the info hash and the peer id they carry, or
/// the first check that they fail.
pub open spec fn parse_handshake(bytes: Seq<u8>) -> Result<(Seq<u8>, Seq<u8>), HandshakeError> {
    if bytes.len() != 68 {
        Err(HandshakeError::InvalidLength(bytes.len() as usize))
    } else if bytes[0] != 19 {
        Err(HandshakeError::InvalidProtocolLength(bytes[0]))
    } else if !vstd::utf8::valid_utf8(bytes.subrange(1, 20)) {
        Err(HandshakeError::InvalidUtf8)
    } else if bytes.subrange(1, 20) != protocol_name() {
        Err(HandshakeError::InvalidProtocol)
    } else {
        Ok((bytes.subrange(28, 48), bytes.subrange(48, 68)))
    }
}

/// Bytes below 128 always form valid UTF-8.
pub proof fn lemma_ascii_is_utf8(bytes: Seq<u8>)
    requires
        forall|i: int| 0 <= i < bytes.len() ==> bytes[i] < 128,
    ensures
        vstd::utf8::valid_utf8(bytes),
    decreases bytes.len(),
{
    if bytes.len() != 0 {
        let rest = bytes.subrange(1, bytes.len() as int);
        assert(vstd::utf8::valid_first_scalar(bytes));
        assert(vstd::utf8::pop_first_scalar(bytes) =~= rest);
        lemma_ascii_is_utf8(rest);
    }
}

/// Whether the bytes are valid UTF-8, as `std::str::from_utf8` decides: it
/// succeeds exactly on valid UTF-8, which is what vstd's `valid_utf8` describes.
#[verifier::external_body]
fn is_valid_utf8(bytes: &[u8]) -> (r: bool)
    ensures
        r == vstd::utf8::valid_utf8(bytes@),
{
    std::str::from_utf8(bytes).is_ok()
}

/// Copies the twenty bytes at `start`.
pub fn copy_20(src: &[u8], start: usize) -> (r: [u8; 20])
    requires
        start + 20 <= src.len(),
    ensures
        r@ == src@.subrange(start as int, start + 20),
{
    let mut r = [0u8; 20];
    let mut i: usize = 0;
    while i < 20
        invariant
            i <= 20,
            start + 20 <= src.len(),
            r@.len() == 20,
            forall|j: int| 0 <= j < i ==> r@[j] == src@[start + j],
        decreases 20 - i,
    {
        r[i] = src[start + i];
        i = i + 1;
    }
    assert(r@ =~= src@.subrange(start as int, start + 20));
    r
}

/// Whether two twenty-byte strings are equal.
pub fn same_20(a: &[u8; 20], b: &[u8; 20]) -> (r: bool)
    ensures
        r == (a@ == b@),
{
    let mut i: usize = 0;
    while i < 20
        invariant
            i <= 20,
            a@.len() == 20,
            b@.len() == 20,
            forall|j: int| 0 <= j < i ==> a@[j] == b@[j],
        decreases 20 - i,
    {
        if a[i] != b[i] {
            return false;
        }
        i = i + 1;
    }
    assert(a@ =~= b@);
    true
}

impl Handshake {
    pub fn new(info_hash: InfoHash, peer_id: PeerId) -> (r: Self)
        ensures
            r.info_hash == info_hash,
            r.peer_id == peer_id,
    {
        Self { info_hash, peer_id }
    }

    /// The 68 bytes that this handshake is sent as.
    pub fn to_bytes(&self) -> (r: Vec<u8>)
        ensures
            r@ == handshake_bytes(self.info_hash@, self.peer_id@),
    {
        let mut bytes: Vec<u8> = Vec::with_capacity(HANDSHAKE_LEN);
        bytes.push(19);
        let name: [u8; 19] = [
            66, 105, 116, 116, 111, 114, 114, 101, 110, 116, 32, 112, 114, 111, 116, 111, 99, 111,
            108,
        ];
        let mut i: usize = 0;
        while i < 19
            invariant
                i <= 19,
                name@ == protocol_name(),
                bytes@ == seq![19u8] + protocol_name().subrange(0, i as int),
            decreases 19 - i,
        {
            bytes.push(name[i]);
            i = i + 1;
            assert(bytes@ =~= seq![19u8] + protocol_name().subrange(0, i as int));
        }
        let mut k: usize = 0;
        while k < 8
            invariant
                k <= 8,
                bytes@ == seq![19u8] + protocol_name() + Seq::new(k as nat, |j: int| 0u8),
            decreases 8 - k,
        {
            bytes.push(0);
            k = k + 1;
            assert(bytes@ =~= seq![19u8] + protocol_name() + Seq::new(k as nat, |j: int| 0u8));
        }
        let mut j: usize = 0;
        while j < 20
            invariant
                j <= 20,
                self.info_hash@.len() == 20,
                bytes@ == seq![19u8] + protocol_name() + Seq::new(8, |j: int| 0u8)
                    + self.info_hash@.subrange(0, j as int),
            decreases 20 - j,
        {
            bytes.push(self.info_hash[j]);
            j = j + 1;
            assert(bytes@ =~= seq![19u8] + protocol_name() + Seq::new(8, |j: int| 0u8)
                + self.info_hash@.subrange(0, j as int));
        }
        assert(self.info_hash@.subrange(0, 20) =~= self.info_hash@);
        let mut p: usize = 0;
        while p < 20
            invariant
                p <= 20,
                self.peer_id@.len() == 20,
                bytes@ == seq![19u8] + protocol_name() + Seq::new(8, |j: int| 0u8)
                    + self.info_hash@ + self.peer_id@.subrange(0, p as int),
            decreases 20 - p,
        {
            bytes.push(self.peer_id[p]);
            p = p + 1;
            assert(bytes@ =~= seq![19u8] + protocol_name() + Seq::new(8, |j: int| 0u8)
                + self.info_hash@ + self.peer_id@.subrange(0, p as int));
        }
        assert(self.peer_id@.subrange(0, 20) =~= self.peer_id@);
        bytes
    }

    /// Reads a peer's handshake: it must be 68 bytes long and name this
    /// client's protocol; the eight reserved bytes are not looked at.
    pub fn from_bytes(bytes: &[u8]) -> (r: Result<Self, HandshakeError>)
        ensures
            match r {
                Ok(h) => parse_handshake(bytes@) == Ok::<(Seq<u8>, Seq<u8>), HandshakeError>(
                    (h.info_hash@, h.peer_id@),
                ),
                Err(e) => parse_handshake(bytes@) == Err::<(Seq<u8>, Seq<u8>), HandshakeError>(
                    e,
                ),
            },
    {
        if bytes.len() != HANDSHAKE_LEN {
            return Err(HandshakeError::InvalidLength(bytes.len()));
        }
        let pstrlen = bytes[0];
        if pstrlen != 19 {
            return Err(HandshakeError::InvalidProtocolLength(pstrlen));
        }
        let pstr = crate::peer::messages::copy_range(bytes, 1, 20);
        if !is_valid_utf8(pstr.as_slice()) {
            return Err(HandshakeError::InvalidUtf8);
        }
        let name: [u8; 19] = [
            66, 105, 116, 116, 111, 114, 114, 101, 110, 116, 32, 112, 114, 111, 116, 111, 99, 111,
            108,
        ];
        let mut i: usize = 0;
        while i < 19
            invariant
                i <= 19,
                name@ == protocol_name(),
                bytes@.len() == 68,
                bytes@[0] == 19,
                vstd::utf8::valid_utf8(bytes@.subrange(1, 20)),
                pstr@ == bytes@.subrange(1, 20),
                pstr@.len() == 19,
                forall|j: int| 0 <= j < i ==> pstr@[j] == name@[j],
            decreases 19 - i,
        {
            if pstr[i] != name[i] {
                assert(pstr@[i as int] != protocol_name()[i as int]);
                return Err(HandshakeError::InvalidProtocol);
            }
            i = i + 1;
        }
        assert(pstr@ =~= protocol_name());
        let info_hash = copy_20(bytes, 28);
        let peer_id = copy_20(bytes, 48);
        Ok(Self { info_hash, peer_id })
    }

    /// Checks the handshake that a peer answered with: it must read as a
    /// handshake and carry the info hash that this client asked for.
    pub fn verify_peer_handshake(response: &[u8], info_hash: &InfoHash) -> (r: Result<
        Self,
        HandshakeError,
    >)
        ensures
            match parse_handshake(response@) {
                Ok((h, p)) => if h == info_hash@ {
                    r matches Ok(hs) && hs.info_hash@ == h && hs.peer_id@ == p
                } else {
                    r == Err::<Self, HandshakeError>(HandshakeError::InfoHashMismatch)
                },
                Err(e) => r == Err::<Self, HandshakeError>(e),
            },
    {
        let peer_handshake = match Handshake::from_bytes(response) {
            Ok(h) => h,
            Err(e) => return Err(e),
        };
        if !same_20(&peer_handshake.info_hash, info_hash) {
            return Err(HandshakeError::InfoHashMismatch);
        }
        Ok(peer_handshake)
    }
}

/// A handshake reads back as itself: the bytes that `to_bytes` writes pass
/// every check of `from_bytes` and give back the same info hash and peer id.
pub proof fn lemma_handshake_roundtrip(info_hash: Seq<u8>, peer_id: Seq<u8>)
    requires
        info_hash.len() == 20,
        peer_id.len() == 20,
    ensures
        parse_handshake(handshake_bytes(info_hash, peer_id)) == Ok::<
            (Seq<u8>, Seq<u8>),
            HandshakeError,
        >((info_hash, peer_id)),
{
    let b = handshake_bytes(info_hash, peer_id);
    assert(b.subrange(1, 20) =~= protocol_name());
    assert forall|i: int| 0 <= i < protocol_name().len() implies protocol_name()[i] < 128 by {}
    lemma_ascii_is_utf8(protocol_name());
    assert(b.subrange(28, 48) =~= info_hash);
    assert(b.subrange(48, 68) =~= peer_id);
}

} // verus!
