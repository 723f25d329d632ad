//! The info hash: the SHA-1 digest of the bencoded `info` dictionary.
use vstd::prelude::*;
use sha1::{Digest, Sha1};

use crate::torrent::bencode::{
    bencode_decode, bencode_decoded, bencode_encode, bencode_encoded, dict_find, Bencode, BencodeView,
};
use crate::torrent::nesting::{nesting_depth, nesting_within, MAX_NESTING};

verus! {

/// The twenty bytes that name a torrent.
pub type InfoHash = [u8; 20];

/// The SHA-1 digest of a byte string, as the `sha1` crate computes it.
pub uninterp spec fn sha1_digest(data: Seq<u8>) -> Seq<u8>;

/// Hashes `data` with `sha1::Sha1` (`new`, `update`, `finalize`); the
/// contract claims only that the result is that crate's digest of `data`.
#[verifier::external_body]
pub(crate) fn sha1(data: &[u8]) -> (r: [u8; 20])
    ensures
        r@ == sha1_digest(data@),
{
    let mut hasher = Sha1::new();
    hasher.update(data);
    hasher.finalize().into()
}

/// Why no info hash could be computed.
#[derive(Debug, Clone, PartialEq, Eq)]
pub enum InfoHashError {
    /// Lists and dictionaries in the file nest deeper than `MAX_NESTING`
    /// levels, more than the decoder is given.
    TooDeeplyNested,
    /// The file is not bencode; the decoder's message.
    Decode(String),
    /// The file is bencode but not a dictionary.
    NotADictionary,
    /// The dictionary has no `info` entry.
    MissingInfo,
}

/// The ASCII bytes of the key `info`.
pub open spec fn info_key() -> Seq<u8> {
    seq![105u8, 110, 102, 111]
}

/// The `info` value of a decoded `.torrent` file: the file must be a
/// dictionary with an `info` entry.
pub fn find_info(value: &Bencode) -> (r: Result<&Bencode, InfoHashError>)
    ensures
        match value.model() {
            BencodeView::Dict(m) => if m.contains_key(info_key()) {
                r matches Ok(info) && info.model() == m[info_key()] && info.depth() < value.depth()
            } else {
                r == Err::<&Bencode, InfoHashError>(InfoHashError::MissingInfo)
            },
            _ => r == Err::<&Bencode, InfoHashError>(InfoHashError::NotADictionary),
        },
{
    match value {
        Bencode::Dict(entries) => {
            let key: [u8; 4] = [105, 110, 102, 111];
            assert(key@ =~= info_key());
            match dict_find(entries, key.as_slice()) {
                Some(i) => Ok(&entries[i].1),
                None => Err(InfoHashError::MissingInfo),
            }
        },
        _ => Err(InfoHashError::NotADictionary),
    }
}

/// The info hash of a `.torrent` file's bytes: the file must decode to a
/// dictionary with an `info` entry, and the hash is the SHA-1 digest of that
/// entry's value encoded again. A file that nests deeper than `MAX_NESTING`
/// levels is refused before it is decoded.
pub fn compute_info_hash(torrent_bytes: &[u8]) -> (r: Result<InfoHash, InfoHashError>)
    ensures
        nesting_depth(torrent_bytes@) > MAX_NESTING ==> r == Err::<InfoHash, InfoHashError>(
            InfoHashError::TooDeeplyNested,
        ),
        nesting_depth(torrent_bytes@) <= MAX_NESTING ==> match bencode_decoded(torrent_bytes@) {
            None => r matches Err(InfoHashError::Decode(_)),
            Some(BencodeView::Dict(m)) => if m.contains_key(info_key()) {
                r matches Ok(h) && h@ == sha1_digest(bencode_encoded(m[info_key()]))
            } else {
                r == Err::<InfoHash, InfoHashError>(InfoHashError::MissingInfo)
            },
            Some(_) => r == Err::<InfoHash, InfoHashError>(InfoHashError::NotADictionary),
        },
{
    if !nesting_within(torrent_bytes, MAX_NESTING) {
        return Err(InfoHashError::TooDeeplyNested);
    }
    let value = match bencode_decode(torrent_bytes) {
        Ok(v) => v,
        Err(message) => return Err(InfoHashError::Decode(message)),
    };
    let info = match find_info(&value) {
        Ok(info) => info,
        Err(e) => return Err(e),
    };
    let info_bytes = match bencode_encode(info) {
        Ok(b) => b,
        Err(_) => vstd::pervasive::unreached(),
    };
    Ok(sha1(info_bytes.as_slice()))
}

} // verus!
