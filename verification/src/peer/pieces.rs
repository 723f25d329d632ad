//! Fetching one piece: the blocks to request, putting them together, and
//! checking the result against the piece's SHA-1 hash.
use vstd::prelude::*;

use crate::peer::handshake::same_20;
use crate::torrent::info_hash::{sha1, sha1_digest};

verus! {

/// The size of the blocks a piece is requested in.
pub const BLOCK_SIZE: u32 = 16384;

/// A piece to fetch: its index, its length and the hash it must have.
#[derive(Debug, Clone, Copy)]
pub struct PieceDownloader {
    pub index: u32,
    pub length: u32,
    pub hash: [u8; 20],
}

/// Why a piece could not be fetched.
#[derive(Debug, Clone, Copy, PartialEq, Eq, Structural)]
pub enum PieceError {
    /// A block came back with another length than asked for.
    BlockSizeMismatch { expected: u32, got: usize },
    /// The piece's data does not have the expected hash; the piece's index.
    HashMismatch(u32),
}

/// The size of the block that starts at `offset` in a piece of `length`
/// bytes: a full block, or what is left of the piece.
pub open spec fn block_size_at(length: u32, offset: u32) -> u32 {
    if length - offset < BLOCK_SIZE {
        (length - offset) as u32
    } else {
        BLOCK_SIZE
    }
}

impl PieceDownloader {
    pub fn new(index: u32, length: u32, hash: [u8; 20]) -> (r: Self)
        ensures
            r.index == index,
            r.length == length,
            r.hash == hash,
    {
        Self { index, length, hash }
    }

    /// The zeroed buffer that the piece's blocks are copied into.
    pub fn new_buffer(&self) -> (r: Vec<u8>)
        ensures
            r@ == Seq::new(self.length as nat, |i: int| 0u8),
    {
        let mut data: Vec<u8> = Vec::new();
        let mut i: u32 = 0;
        while i < self.length
            invariant
                i <= self.length,
                data@ == Seq::new(i as nat, |j: int| 0u8),
            decreases self.length - i,
        {
            data.push(0);
            i = i + 1;
            assert(data@ =~= Seq::new(i as nat, |j: int| 0u8));
        }
        data
    }

    /// The block to request next, given how many bytes have arrived: its
    /// size, or `None` once the whole piece is there.
    pub fn next_block(&self, offset: u32) -> (r: Option<u32>)
        ensures
            match r {
                Some(size) => offset < self.length && size == block_size_at(self.length, offset)
                    && 0 < size <= BLOCK_SIZE && offset + size <= self.length,
                None => offset >= self.length,
            },
    {
        if offset < self.length {
            let rest = self.length - offset;
            if rest < BLOCK_SIZE {
                Some(rest)
            } else {
                Some(BLOCK_SIZE)
            }
        } else {
            None
        }
    }

    /// Copies a block that came back for the request at `offset` of size
    /// `expected` into the piece's buffer `data`, and returns the offset of the next block; a
    /// block of another length is refused and leaves `data` as it was.
    pub fn store_block(&self, data: &mut Vec<u8>, offset: u32, expected: u32, block: &[u8]) -> (r:
        Result<u32, PieceError>)
        requires
            old(data)@.len() == self.length,
            offset + expected <= self.length,
        ensures
            block@.len() != expected ==> r == Err::<u32, PieceError>(
                PieceError::BlockSizeMismatch { expected, got: block@.len() as usize },
            ) && final(data)@ == old(data)@,
            block@.len() == expected ==> r == Ok::<u32, PieceError>((offset + expected) as u32)
                && final(data)@ == old(data)@.subrange(0, offset as int) + block@ + old(
                data,
            )@.subrange(offset + expected, old(data)@.len() as int),
    {
        if block.len() != expected as usize {
            return Err(PieceError::BlockSizeMismatch { expected, got: block.len() });
        }
        let start = offset as usize;
        let mut i: usize = 0;
        while i < block.len()
            invariant
                i <= block@.len(),
                block@.len() == expected,
                start == offset,
                offset + expected <= self.length,
                data@.len() == self.length,
                data@.len() == old(data)@.len(),
                forall|j: int|
                    0 <= j < data@.len() ==> data@[j] == if start <= j < start + i {
                        block@[j - start]
                    } else {
                        old(data)@[j]
                    },
            decreases block@.len() - i,
        {
            data.set(start + i, block[i]);
            i = i + 1;
        }
        assert(data@ =~= old(data)@.subrange(0, offset as int) + block@ + old(data)@.subrange(
            offset + expected,
            old(data)@.len() as int,
        ));
        Ok(offset + expected)
    }

    /// Checks the piece's data against its hash.
    pub fn verify(&self, data: &[u8]) -> (r: Result<(), PieceError>)
        ensures
            r == if sha1_digest(data@) == self.hash@ {
                Ok::<(), PieceError>(())
            } else {
                Err(PieceError::HashMismatch(self.index))
            },
    {
        let hash = sha1(data);
        self.check_hash(&hash)
    }

    /// Compares the digest of the data with the hash the piece must have.
    pub fn check_hash(&self, digest: &[u8; 20]) -> (r: Result<(), PieceError>)
        ensures
            r == if digest@ == self.hash@ {
                Ok::<(), PieceError>(())
            } else {
                Err(PieceError::HashMismatch(self.index))
            },
    {
        if !same_20(digest, &self.hash) {
            return Err(PieceError::HashMismatch(self.index));
        }
        Ok(())
    }
}

/// Requesting blocks from offset 0 and moving on by each block's size walks
/// the piece without gaps: every step moves forward by at most one block,
/// and the walk stops exactly at the piece's end.
pub proof fn lemma_blocks_tile_piece(length: u32, offset: u32)
    requires
        offset < length,
    ensures
        0 < block_size_at(length, offset) <= BLOCK_SIZE,
        offset + block_size_at(length, offset) <= length,
        block_size_at(length, offset) < BLOCK_SIZE ==> offset + block_size_at(length, offset)
            == length,
{
}

} // verus!
