//! What this client knows of a peer that it downloads from: the peer's id,
//! the pieces it has, and whether it chokes us and knows we are interested.
use vstd::prelude::*;

use crate::peer::bits::{bit_is_set, lemma_or_bit, piece_mask};
use crate::peer::handshake::Handshake;
use crate::peer::messages::Message;
use crate::torrent::peer_id::PeerId;

verus! {

/// The state of a download session with one peer.
#[derive(Debug, Clone)]
pub struct PeerSession {
    pub peer_id: PeerId,
    pub bitfield: Vec<u8>,
    pub choked: bool,
    pub interested: bool,
}

/// Why a session could not go on.
#[derive(Debug, Clone, Copy, PartialEq, Eq, Structural)]
pub enum SessionError {
    /// The first message after the handshake was not a bitfield.
    ExpectedBitfield,
    /// A block was to be requested while the peer chokes us.
    Choked,
    /// The peer choked us while we waited for a block.
    ChokedMidDownload,
}

/// What waiting for an unchoke makes of one message.
#[derive(Debug, Clone, Copy, PartialEq, Eq, Structural)]
pub enum UnchokeWait {
    /// The peer unchoked us: stop waiting.
    Unchoked,
    /// Keep reading messages.
    KeepWaiting,
}

/// What waiting for a requested block makes of one message.
#[derive(Debug, Clone, PartialEq, Eq)]
pub enum BlockWait {
    /// The block that was asked for.
    Received(Vec<u8>),
    /// The peer choked us: the request fails.
    Choked,
    /// Keep reading messages.
    KeepWaiting,
}

/// Whether `has_piece` answers for piece `i` without an arithmetic fault: it
/// computes `7 - (i & 8)`, which underflows when bit 3 of the index is set.
pub open spec fn has_piece_defined(i: u32) -> bool {
    i & 8 == 0
}

/// What `has_piece` answers for a piece whose index has bit 3 clear: it tests
/// the high bit of byte `i / 8`.
pub open spec fn has_piece_result(bits: Seq<u8>, i: u32) -> bool {
    (i / 8) < bits.len() && bits[(i / 8) as int] & 0x80u8 != 0
}

/// The bitfield after the peer announced piece `i`: bit `7 - i % 8` of byte
/// `i / 8` is set, if that byte exists.
pub open spec fn updated_bitfield(bits: Seq<u8>, i: u32) -> Seq<u8> {
    if (i / 8) < bits.len() {
        bits.update((i / 8) as int, bits[(i / 8) as int] | piece_mask(i as int))
    } else {
        bits
    }
}

impl PeerSession {
    /// A session with the peer that sent `handshake`: no pieces known yet,
    /// choked and not interested.
    pub fn new(handshake: &Handshake) -> (r: Self)
        ensures
            r.peer_id == handshake.peer_id,
            r.bitfield@ == Seq::<u8>::empty(),
            r.choked,
            !r.interested,
    {
        PeerSession { peer_id: handshake.peer_id, bitfield: Vec::new(), choked: true, interested: false }
    }

    /// Takes the message that follows the handshake, which must be the
    /// peer's bitfield.
    pub fn receive_bitfield(&mut self, message: Message) -> (r: Result<(), SessionError>)
        ensures
            match message {
                Message::Bitfield(b) => r is Ok && final(self).bitfield@ == b@,
                _ => r == Err::<(), SessionError>(SessionError::ExpectedBitfield)
                    && final(self).bitfield@ == old(self).bitfield@,
            },
            final(self).peer_id == old(self).peer_id,
            final(self).choked == old(self).choked,
            final(self).interested == old(self).interested,
    {
        match message {
            Message::Bitfield(bitfield) => {
                self.bitfield = bitfield;
                Ok(())
            },
            _ => Err(SessionError::ExpectedBitfield),
        }
    }

    /// Records that the `interested` message went out.
    pub fn set_interested(&mut self)
        ensures
            final(self).interested,
            final(self).peer_id == old(self).peer_id,
            final(self).bitfield@ == old(self).bitfield@,
            final(self).choked == old(self).choked,
    {
        self.interested = true;
    }

    /// One message read while waiting to be unchoked: an unchoke ends the
    /// wait, a `have` marks the piece, anything else is passed over.
    pub fn on_message_while_choked(&mut self, message: Message) -> (r: UnchokeWait)
        ensures
            match message {
                Message::Unchoke => r == UnchokeWait::Unchoked && !final(self).choked
                    && final(self).bitfield@ == old(self).bitfield@,
                Message::Have(i) => r == UnchokeWait::KeepWaiting && final(self).choked
                    == old(self).choked && final(self).bitfield@ == updated_bitfield(
                    old(self).bitfield@,
                    i,
                ),
                _ => r == UnchokeWait::KeepWaiting && final(self).choked == old(self).choked
                    && final(self).bitfield@ == old(self).bitfield@,
            },
            final(self).peer_id == old(self).peer_id,
            final(self).interested == old(self).interested,
    {
        match message {
            Message::Unchoke => {
                self.choked = false;
                UnchokeWait::Unchoked
            },
            Message::Have(index) => {
                self.update_bitfield(index);
                UnchokeWait::KeepWaiting
            },
            _ => UnchokeWait::KeepWaiting,
        }
    }

    /// Marks piece `piece_index` as one the peer has; an index beyond the
    /// bitfield is ignored.
    pub fn update_bitfield(&mut self, piece_index: u32)
        ensures
            final(self).bitfield@ == updated_bitfield(old(self).bitfield@, piece_index),
            final(self).peer_id == old(self).peer_id,
            final(self).choked == old(self).choked,
            final(self).interested == old(self).interested,
    {
        let byte_index = (piece_index / 8) as usize;
        let bit_index = 7 - (piece_index % 8);
        if byte_index < self.bitfield.len() {
            let old_byte = self.bitfield[byte_index];
            let mask: u8 = 1u8 << (bit_index as u8);
            assert(mask == piece_mask(piece_index as int));
            self.bitfield.set(byte_index, old_byte | mask);
        }
    }

    /// Whether the peer has piece `piece_index`, as this client tests it:
    /// the high bit of byte `piece_index / 8`.
    pub fn has_piece(&self, piece_index: u32) -> (r: bool)
        requires
            has_piece_defined(piece_index),
        ensures
            r == has_piece_result(self.bitfield@, piece_index),
    {
        let byte_index = (piece_index / 8) as usize;
        let low: u32 = piece_index & 8;
        assert(low == 0);
        let bit_index = 7 - low;
        if byte_index >= self.bitfield.len() {
            return false;
        }
        let mask: u8 = 1u8 << (bit_index as u8);
        assert(mask == 0x80u8) by (bit_vector)
            requires
                mask == 1u8 << 7u8,
        ;
        self.bitfield[byte_index] & mask != 0
    }

    /// Whether a block may be requested: not while the peer chokes us.
    pub fn check_can_request(&self) -> (r: Result<(), SessionError>)
        ensures
            r == (if self.choked {
                Err::<(), SessionError>(SessionError::Choked)
            } else {
                Ok(())
            }),
    {
        if self.choked {
            Err(SessionError::Choked)
        } else {
            Ok(())
        }
    }

    /// One message read while waiting for the block at (`index`, `begin`):
    /// the matching piece message ends the wait with its block, a choke ends
    /// it with an error, anything else is passed over.
    pub fn on_message_while_requesting(&mut self, index: u32, begin: u32, message: Message) -> (r:
        BlockWait)
        ensures
            match message {
                Message::Piece { index: i, begin: b, block } => if i == index && b == begin {
                    r matches BlockWait::Received(got) && got@ == block@
                } else {
                    r is KeepWaiting
                },
                Message::Choke => r is Choked,
                _ => r is KeepWaiting,
            },
            final(self).choked == (old(self).choked || message is Choke),
            final(self).bitfield@ == old(self).bitfield@,
            final(self).peer_id == old(self).peer_id,
            final(self).interested == old(self).interested,
    {
        match message {
            Message::Piece { index: i, begin: b, block } => {
                if i == index && b == begin {
                    BlockWait::Received(block)
                } else {
                    BlockWait::KeepWaiting
                }
            },
            Message::Choke => {
                self.choked = true;
                BlockWait::Choked
            },
            _ => BlockWait::KeepWaiting,
        }
    }
}

/// Marking a piece never unmarks another: every piece set before an update
/// is still set after it, and the announced piece is set if its byte exists.
pub proof fn lemma_update_keeps_and_sets(bits: Seq<u8>, i: u32, j: int)
    ensures
        bit_is_set(bits, j) ==> bit_is_set(updated_bitfield(bits, i), j),
        (i / 8) < bits.len() ==> bit_is_set(updated_bitfield(bits, i), i as int),
        updated_bitfield(bits, i).len() == bits.len(),
{
    let ii = i as int;
    if (i / 8) < bits.len() {
        let ji = (7 - j % 8) as u8;
        let ki = (7 - ii % 8) as u8;
        if 0 <= j && j / 8 < bits.len() {
            lemma_or_bit(bits[(i / 8) as int], ki, ji);
        }
        lemma_or_bit(bits[(i / 8) as int], ki, ki);
    }
}

/// A piece announced by a `have` message is then reported by `has_piece`
/// when its index is a multiple of 16 (bit 3 clear and bit 7 of the byte);
/// for other indices `has_piece` tests another bit than the one set.
pub proof fn lemma_have_then_has_piece(bits: Seq<u8>, i: u32)
    requires
        i % 16 == 0,
        (i / 8) < bits.len(),
    ensures
        has_piece_defined(i),
        has_piece_result(updated_bitfield(bits, i), i),
{
    assert(i & 8 == 0) by (bit_vector)
        requires
            i % 16 == 0,
    ;
    assert(piece_mask(i as int) == 0x80u8) by {
        assert((1u8 << 7u8) == 0x80u8) by (bit_vector);
    }
    let b = bits[(i / 8) as int];
    assert((b | 0x80u8) & 0x80u8 != 0) by (bit_vector);
}

} // verus!
