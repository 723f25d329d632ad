//! The twenty-byte id by which this client presents itself to peers: the
//! client's tag `-EM0100-` followed by twelve random bytes.
use vstd::prelude::*;
use rand::Rng;

verus! {

/// The twenty bytes that name a peer.
pub type PeerId = [u8; 20];

/// The ASCII bytes of the client's tag, `-EM0100-`.
pub open spec fn client_tag() -> Seq<u8> {
    seq![45u8, 69, 77, 48, 49, 48, 48, 45]
}

/// Twelve bytes from `rand::rng()` (the thread-local generator), filled with
/// `Rng::fill`; nothing is claimed of their values.
#[verifier::external_body]
fn random_suffix() -> (r: [u8; 12]) {
    let mut bytes = [0u8; 12];
    rand::rng().fill(&mut bytes);
    bytes
}

/// The peer id made of the client's tag and the given twelve bytes.
pub fn peer_id_with_suffix(suffix: [u8; 12]) -> (r: PeerId)
    ensures
        r@ == client_tag() + suffix@,
{
    let tag: [u8; 8] = [45, 69, 77, 48, 49, 48, 48, 45];
    let mut peer_id = [0u8; 20];
    let mut i: usize = 0;
    while i < 8
        invariant
            i <= 8,
            tag@ == client_tag(),
            peer_id@.len() == 20,
            forall|j: int| 0 <= j < i ==> peer_id@[j] == client_tag()[j],
        decreases 8 - i,
    {
        peer_id[i] = tag[i];
        i = i + 1;
    }
    let mut k: usize = 0;
    while k < 12
        invariant
            k <= 12,
            peer_id@.len() == 20,
            suffix@.len() == 12,
            forall|j: int| 0 <= j < 8 ==> peer_id@[j] == client_tag()[j],
            forall|j: int| 0 <= j < k ==> peer_id@[8 + j] == suffix@[j],
        decreases 12 - k,
    {
        peer_id[8 + k] = suffix[k];
        k = k + 1;
    }
    assert(peer_id@ =~= client_tag() + suffix@);
    peer_id
}

/// A fresh peer id: the client's tag, then twelve random bytes.
pub fn generate_peer_id() -> (r: PeerId)
    ensures
        r@.subrange(0, 8) == client_tag(),
{
    let id = peer_id_with_suffix(random_suffix());
    assert(id@.subrange(0, 8) =~= client_tag());
    id
}

} // verus!
