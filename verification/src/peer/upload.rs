//! Serving pieces to peers that download from us: the bitfield we announce,
//! which requests we answer, and where a requested block lies on disk.
use vstd::prelude::*;

use crate::peer::bits::{bit_is_set, lemma_or_bit, lemma_zero_byte, piece_mask};
use crate::peer::manager::PieceState;
use crate::peer::messages::Message;
use crate::peer::session::{has_piece_defined, has_piece_result};

verus! {

/// What the upload loop does with one message from a peer.
#[derive(Debug, Clone, Copy, PartialEq, Eq, Structural)]
pub enum UploadAction {
    /// Answer an `interested` with an unchoke.
    SendUnchoke,
    /// Answer a `not interested` with a choke.
    SendChoke,
    /// Serve the requested block, if we have its piece.
    Serve { index: u32, begin: u32, length: u32 },
    /// Nothing to do.
    Ignore,
}

/// What the upload loop does with `message`.
pub fn respond_to(message: &Message) -> (r: UploadAction)
    ensures
        r == (match message {
            Message::Interested => UploadAction::SendUnchoke,
            Message::NotInterested => UploadAction::SendChoke,
            Message::Request { index, begin, length } => UploadAction::Serve {
                index: *index,
                begin: *begin,
                length: *length,
            },
            _ => UploadAction::Ignore,
        }),
{
    match message {
        Message::Interested => UploadAction::SendUnchoke,
        Message::NotInterested => UploadAction::SendChoke,
        Message::Request { index, begin, length } => UploadAction::Serve {
            index: *index,
            begin: *begin,
            length: *length,
        },
        _ => UploadAction::Ignore,
    }
}

/// The bitfield that announces the finished pieces: `(n + 7) / 8` bytes for
/// `n` pieces, the bit of each piece set exactly when it is done, and the
/// spare bits of the last byte clear.
pub fn build_bitfield(states: &[PieceState]) -> (r: Vec<u8>)
    requires
        states@.len() + 7 <= usize::MAX,
    ensures
        r@.len() == (states@.len() + 7) / 8,
        forall|i: int|
            0 <= i < r@.len() * 8 ==> (bit_is_set(r@, i) <==> (i < states@.len()
                && states@[i] == PieceState::Done)),
{
    let piece_count = states.len();
    let byte_count = (piece_count + 7) / 8;
    let mut bitfield: Vec<u8> = Vec::new();
    let mut k: usize = 0;
    while k < byte_count
        invariant
            k <= byte_count,
            bitfield@.len() == k,
            forall|j: int| 0 <= j < k ==> bitfield@[j] == 0,
        decreases byte_count - k,
    {
        bitfield.push(0);
        k = k + 1;
    }
    assert forall|j: int| 0 <= j < byte_count * 8 implies !bit_is_set(bitfield@, j) by {
        lemma_zero_byte((7 - j % 8) as u8);
    }
    let mut i: usize = 0;
    while i < piece_count
        invariant
            piece_count == states@.len(),
            byte_count == (piece_count + 7) / 8,
            i <= piece_count,
            bitfield@.len() == byte_count,
            forall|j: int|
                0 <= j < byte_count * 8 ==> (bit_is_set(bitfield@, j) <==> (j < i
                    && states@[j] == PieceState::Done)),
        decreases piece_count - i,
    {
        if states[i] == PieceState::Done {
            let byte_index = i / 8;
            let bit_index = 7 - (i % 8);
            let mask: u8 = 1u8 << (bit_index as u8);
            let old_byte = bitfield[byte_index];
            let ghost before = bitfield@;
            bitfield.set(byte_index, old_byte | mask);
            assert forall|j: int| 0 <= j < byte_count * 8 implies (bit_is_set(bitfield@, j) <==> (
            j < i + 1 && states@[j] == PieceState::Done)) by {
                if j / 8 == byte_index as int {
                    lemma_or_bit(old_byte, bit_index as u8, (7 - j % 8) as u8);
                    assert(bit_is_set(before, j) == (before[j / 8] & piece_mask(j) != 0));
                }
            }
        }
        i = i + 1;
    }
    bitfield
}

/// Whether we serve requests for piece `index`: only for a piece that is done.
pub fn has_completed(states: &[PieceState], index: u32) -> (r: bool)
    ensures
        r == (index < states@.len() && states@[index as int] == PieceState::Done),
{
    if (index as usize) < states.len() {
        states[index as usize] == PieceState::Done
    } else {
        false
    }
}

/// Where in the data a requested block starts: `index * piece_length + begin`.
pub fn block_offset(piece_length: u64, index: u32, begin: u32) -> (r: u64)
    requires
        index * piece_length + begin <= u64::MAX,
    ensures
        r == index * piece_length + begin,
{
    assert(index as u64 * piece_length <= u64::MAX) by (nonlinear_arith)
        requires
            index * piece_length + begin <= u64::MAX,
    ;
    index as u64 * piece_length + begin as u64
}

/// The bitfield we announce marks exactly the finished pieces, so a peer
/// that reads it and then asks for a marked piece is served.
pub proof fn lemma_announced_pieces_are_served(states: Seq<PieceState>, bits: Seq<u8>, i: int)
    requires
        bits.len() == (states.len() + 7) / 8,
        forall|j: int|
            0 <= j < bits.len() * 8 ==> (bit_is_set(bits, j) <==> (j < states.len() && states[j]
                == PieceState::Done)),
        0 <= i < states.len(),
    ensures
        bit_is_set(bits, i) <==> states[i] == PieceState::Done,
{
}

/// What a downloader's `has_piece` reads from the bitfield that we announce:
/// for an index with bit 3 clear it reports whether piece `8 * (i / 8)` is
/// done (the piece whose bit is the high bit of byte `i / 8`), so it
/// reports piece `i` itself exactly when `i` is a multiple of 16.
pub proof fn lemma_downloader_reads_announced_bitfield(states: Seq<PieceState>, bits: Seq<u8>, i: u32)
    requires
        bits.len() == (states.len() + 7) / 8,
        forall|j: int|
            0 <= j < bits.len() * 8 ==> (bit_is_set(bits, j) <==> (j < states.len() && states[j]
                == PieceState::Done)),
        has_piece_defined(i),
    ensures
        has_piece_result(bits, i) == (8 * (i / 8) < states.len() && states[8 * (i / 8)]
            == PieceState::Done),
{
    let k: int = 8 * (i / 8) as int;
    assert(k % 8 == 0);
    assert(k / 8 == i / 8);
    assert(piece_mask(k) == 0x80u8) by {
        assert((1u8 << 7u8) == 0x80u8) by (bit_vector);
    }
    if (i / 8) < bits.len() {
        assert(bit_is_set(bits, k) == (bits[(i / 8) as int] & 0x80u8 != 0));
    } else {
        assert(k >= states.len());
    }
}

} // verus!
