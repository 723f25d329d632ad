//! The bookkeeping of a download: which pieces are pending, being fetched or
//! done, how rare each is among the peers, and which one to fetch next.
use vstd::prelude::*;
use std::collections::HashMap;

use crate::peer::handshake::copy_20;
use crate::peer::session::{has_piece_defined, has_piece_result, PeerSession};
use crate::torrent::info_hash::InfoHash;
use crate::torrent::metainfo::Torrent;
use crate::torrent::peer_id::PeerId;

verus! {

broadcast use vstd::std_specs::hash::group_hash_axioms;

/// Where a piece stands in the download.
#[derive(Debug, Clone, Copy, PartialEq, Eq, Structural)]
pub enum PieceState {
    Downloading,
    Pending,
    Done,
}

/// The progress reported after each finished piece.
#[derive(Debug, Clone, Copy, PartialEq, Eq, Structural)]
pub struct ProgressPayload {
    pub downloaded: u32,
    pub total: u32,
    pub piece_index: u32,
}

/// A download of one torrent: the torrent, who we are, where the data goes,
/// the state of each piece and how many peers have each piece.
pub struct DownloadManager {
    pub torrent: Torrent,
    pub info_hash: InfoHash,
    pub peer_id: PeerId,
    pub output_dir: String,
    pub piece_states: Vec<PieceState>,
    pub piece_rarities: HashMap<u32, u32>,
}

/// How many peers are known to have piece `i` (0 when none was counted).
pub open spec fn rarity_of(rarities: Map<u32, u32>, i: u32) -> u32 {
    if rarities.contains_key(i) {
        rarities[i]
    } else {
        0
    }
}

/// Whether piece `i` may be fetched from the peer: it is pending and the
/// peer has it.
pub open spec fn is_candidate(states: Seq<PieceState>, bits: Seq<u8>, i: int) -> bool {
    states[i] == PieceState::Pending && has_piece_result(bits, i as u32)
}

/// Whether `p` is the piece to fetch next among the first `total` pieces:
/// a candidate of least rarity, and the first such one by index.
pub open spec fn is_rarest_first(
    states: Seq<PieceState>,
    rarities: Map<u32, u32>,
    bits: Seq<u8>,
    total: u32,
    p: u32,
) -> bool {
    &&& p < total
    &&& is_candidate(states, bits, p as int)
    &&& forall|j: u32|
        j < total && is_candidate(states, bits, j as int) ==> rarity_of(rarities, p) <= rarity_of(
            rarities,
            j,
        )
    &&& forall|j: u32|
        j < p && is_candidate(states, bits, j as int) ==> rarity_of(rarities, p) < rarity_of(
            rarities,
            j,
        )
}

/// The moves a piece may make: pending to downloading when a task claims
/// it, downloading to done when it was fetched, checked and written, and
/// downloading back to pending when fetching it failed. Done is final.
pub open spec fn allowed_move(before: PieceState, after: PieceState) -> bool {
    ||| before == after
    ||| before == PieceState::Pending && after == PieceState::Downloading
    ||| before == PieceState::Downloading && after == PieceState::Done
    ||| before == PieceState::Downloading && after == PieceState::Pending
}

/// Whether the piece states `after` follow from `before` by allowed moves.
pub open spec fn piece_step(before: Seq<PieceState>, after: Seq<PieceState>) -> bool {
    &&& after.len() == before.len()
    &&& forall|j: int| 0 <= j < before.len() ==> allowed_move(#[trigger] before[j], after[j])
}

/// Whether asking `has_piece` about each pending piece below `total` is safe.
pub open spec fn selectable(states: Seq<PieceState>, total: u32) -> bool {
    &&& total <= states.len()
    &&& forall|j: u32| j < total && states[j as int] == PieceState::Pending ==> has_piece_defined(j)
}

/// The number of finished pieces.
pub open spec fn count_done(states: Seq<PieceState>) -> nat
    decreases states.len(),
{
    if states.len() == 0 {
        0
    } else {
        count_done(states.drop_last()) + if states.last() == PieceState::Done {
            1nat
        } else {
            0nat
        }
    }
}

/// The rarities after counting a peer's pieces below `total`: one more for
/// each piece the peer has.
pub open spec fn counted_rarities(
    before: Map<u32, u32>,
    after: Map<u32, u32>,
    bits: Seq<u8>,
    total: u32,
) -> bool {
    forall|k: u32|
        #![trigger after.contains_key(k)]
        #![trigger rarity_of(after, k)]
        {
            &&& after.contains_key(k) == (before.contains_key(k) || (k < total
                && has_piece_result(bits, k)))
            &&& rarity_of(after, k) == rarity_of(before, k) + if k < total && has_piece_result(
                bits,
                k,
            ) {
                1int
            } else {
                0int
            }
        }
}

/// The length that the download gives piece `piece_index` of `total`: the
/// piece length, cut down to the remaining bytes for the last piece. Both
/// lengths are taken modulo 2^32, as the download keeps them in 32 bits.
pub open spec fn piece_length_for(piece_index: u32, total: u32, piece_length: u64, length: Option<u64>) -> int {
    let pl = piece_length as u32;
    let size = match length {
        Some(l) => l as u32,
        None => 0u32,
    };
    if piece_index == total - 1 {
        size - piece_index * pl
    } else {
        pl as int
    }
}

/// Whether the arithmetic of `piece_length_for` stays within 32 bits.
pub open spec fn piece_length_defined(piece_index: u32, total: u32, piece_length: u64, length: Option<u64>) -> bool {
    let pl = piece_length as u32;
    let size = match length {
        Some(l) => l as u32,
        None => 0u32,
    };
    &&& total >= 1
    &&& piece_index == total - 1 ==> piece_index * pl <= size
}

impl DownloadManager {
    /// The download keeps one state for each piece that the torrent counts.
    pub open spec fn wf(&self) -> bool {
        self.piece_states@.len() == self.torrent.info.pieces@.len() / 20
    }

    /// A download with every piece pending and no rarity counted yet.
    pub fn new(torrent: Torrent, info_hash: InfoHash, peer_id: PeerId, output_dir: String) -> (r: Self)
        ensures
            r.piece_states@.len() == torrent.info.pieces@.len() / 20,
            forall|i: int| 0 <= i < r.piece_states@.len() ==> r.piece_states@[i] == PieceState::Pending,
            r.piece_rarities@ == Map::<u32, u32>::empty(),
            r.info_hash == info_hash,
            r.peer_id == peer_id,
            r.output_dir == output_dir,
            r.torrent == torrent,
            r.wf(),
    {
        let piece_count = torrent.piece_count();
        let mut piece_states: Vec<PieceState> = Vec::new();
        let mut i: usize = 0;
        while i < piece_count
            invariant
                i <= piece_count,
                piece_states@.len() == i,
                forall|j: int| 0 <= j < i ==> piece_states@[j] == PieceState::Pending,
            decreases piece_count - i,
        {
            piece_states.push(PieceState::Pending);
            i = i + 1;
        }
        DownloadManager {
            torrent,
            info_hash,
            peer_id,
            output_dir,
            piece_states,
            piece_rarities: HashMap::new(),
        }
    }

    /// Whether `select_piece` and `claim_piece` can look at the first
    /// `total` pieces: each is a state to read, and `has_piece` is asked only
    /// about pending pieces, which must have bit 3 of their index clear.
    pub fn can_select(&self, total: u32) -> (r: bool)
        ensures
            r == selectable(self.piece_states@, total),
    {
        if total as usize > self.piece_states.len() {
            return false;
        }
        let mut i: u32 = 0;
        while i < total
            invariant
                i <= total,
                total <= self.piece_states@.len(),
                forall|j: u32| j < i && self.piece_states@[j as int] == PieceState::Pending ==> has_piece_defined(j),
            decreases total - i,
        {
            if self.piece_states[i as usize] == PieceState::Pending && i & 8 != 0 {
                assert(!has_piece_defined(i));
                return false;
            }
            i = i + 1;
        }
        true
    }

    /// Whether `record_peer_pieces` can count the first `total` pieces: each
    /// index must have bit 3 clear, and no count may be at its maximum.
    pub fn can_record(&self, total: u32) -> (r: bool)
        ensures
            r == ((forall|j: u32| j < total ==> has_piece_defined(j)) && (forall|j: u32|
                j < total ==> rarity_of(self.piece_rarities@, j) < u32::MAX)),
    {
        let mut i: u32 = 0;
        while i < total
            invariant
                i <= total,
                forall|j: u32| j < i ==> has_piece_defined(j),
                forall|j: u32| j < i ==> rarity_of(self.piece_rarities@, j) < u32::MAX,
            decreases total - i,
        {
            if i & 8 != 0 {
                assert(!has_piece_defined(i));
                return false;
            }
            let count: u32 = match self.piece_rarities.get(&i) {
                Some(c) => *c,
                None => 0,
            };
            if count == u32::MAX {
                assert(rarity_of(self.piece_rarities@, i) == u32::MAX);
                return false;
            }
            i = i + 1;
        }
        true
    }

    /// Whether `piece_length_of` can compute the length of piece
    /// `piece_index` of `total` within 32 bits.
    pub fn can_compute_piece_length(&self, piece_index: u32, total: u32) -> (r: bool)
        ensures
            r == piece_length_defined(piece_index, total, self.torrent.info.piece_length, self.torrent.info.length),
    {
        if total == 0 {
            return false;
        }
        if piece_index != total - 1 {
            return true;
        }
        let piece_length = self.torrent.info.piece_length as u32;
        let total_size = match self.torrent.info.length {
            Some(l) => l as u32,
            None => 0u32,
        };
        let a = piece_index as u64;
        let b = piece_length as u64;
        assert(a * b <= 0xffff_ffffu64 * 0xffff_ffffu64) by (nonlinear_arith)
            requires
                a <= 0xffff_ffff,
                b <= 0xffff_ffff,
        ;
        a * b <= total_size as u64
    }

    /// The piece to fetch next from the peer among the first `total`: a
    /// pending piece that the peer has, the rarest first, and among equally
    /// rare ones the lowest index; `None` when there is no such piece.
    pub fn select_piece(
        states: &[PieceState],
        rarities: &HashMap<u32, u32>,
        session: &PeerSession,
        total: u32,
    ) -> (r: Option<u32>)
        requires
            selectable(states@, total),
        ensures
            match r {
                Some(p) => is_rarest_first(states@, rarities@, session.bitfield@, total, p),
                None => forall|j: u32|
                    j < total ==> !is_candidate(states@, session.bitfield@, j as int),
            },
    {
        let mut best: Option<(u32, u32)> = None;
        let mut i: u32 = 0;
        while i < total
            invariant
                i <= total,
                selectable(states@, total),
                match best {
                    Some((p, rp)) => rp == rarity_of(rarities@, p) && is_rarest_first(
                        states@,
                        rarities@,
                        session.bitfield@,
                        i,
                        p,
                    ),
                    None => forall|j: u32|
                        j < i ==> !is_candidate(states@, session.bitfield@, j as int),
                },
            decreases total - i,
        {
            if states[i as usize] == PieceState::Pending && session.has_piece(i) {
                let rarity: u32 = match rarities.get(&i) {
                    Some(r) => *r,
                    None => 0,
                };
                match best {
                    Some((_, rp)) => {
                        if rarity < rp {
                            best = Some((i, rarity));
                        }
                    },
                    None => {
                        best = Some((i, rarity));
                    },
                }
            }
            i = i + 1;
        }
        match best {
            Some((p, _)) => Some(p),
            None => None,
        }
    }

    /// Counts the pieces that a peer has among the first `total`: each one
    /// that the peer has gets one more in the rarity table.
    pub fn record_peer_pieces(&mut self, session: &PeerSession, total: u32)
        requires
            forall|j: u32| j < total ==> has_piece_defined(j),
            forall|j: u32| j < total ==> rarity_of(old(self).piece_rarities@, j) < u32::MAX,
        ensures
            counted_rarities(old(self).piece_rarities@, final(self).piece_rarities@, session.bitfield@, total),
            final(self).piece_states@ == old(self).piece_states@,
            final(self).torrent == old(self).torrent,
            old(self).wf() ==> final(self).wf(),
            piece_step(old(self).piece_states@, final(self).piece_states@),
    {
        let mut i: u32 = 0;
        while i < total
            invariant
                i <= total,
                forall|j: u32| j < total ==> has_piece_defined(j),
                forall|j: u32| j < total ==> rarity_of(old(self).piece_rarities@, j) < u32::MAX,
                counted_rarities(old(self).piece_rarities@, self.piece_rarities@, session.bitfield@, i),
                self.piece_states@ == old(self).piece_states@,
                self.torrent == old(self).torrent,
            decreases total - i,
        {
            let ghost prev = self.piece_rarities@;
            let has = session.has_piece(i);
            if has {
                let count: u32 = match self.piece_rarities.get(&i) {
                    Some(c) => *c,
                    None => 0,
                };
                assert(count == rarity_of(old(self).piece_rarities@, i));
                self.piece_rarities.insert(i, count + 1);
            }
            assert forall|k: u32|
                {
                    &&& self.piece_rarities@.contains_key(k) == (old(self).piece_rarities@.contains_key(k)
                        || (k < i + 1 && has_piece_result(session.bitfield@, k)))
                    &&& rarity_of(self.piece_rarities@, k) == rarity_of(old(self).piece_rarities@, k)
                        + if k < i + 1 && has_piece_result(session.bitfield@, k) {
                        1int
                    } else {
                        0int
                    }
                } by {
                assert(prev.contains_key(k) == (old(self).piece_rarities@.contains_key(k) || (k < i
                    && has_piece_result(session.bitfield@, k))));
                assert(rarity_of(prev, k) == rarity_of(old(self).piece_rarities@, k) + if k < i
                    && has_piece_result(session.bitfield@, k) {
                    1int
                } else {
                    0int
                });
            }
            i = i + 1;
        }
    }

    /// Picks the next piece to fetch from the peer, as `select_piece` does,
    /// and marks it as being downloaded.
    pub fn claim_piece(&mut self, session: &PeerSession, total: u32) -> (r: Option<u32>)
        requires
            selectable(old(self).piece_states@, total),
        ensures
            match r {
                Some(p) => is_rarest_first(old(self).piece_states@, old(self).piece_rarities@, session.bitfield@, total, p)
                    && final(self).piece_states@ == old(self).piece_states@.update(p as int, PieceState::Downloading)
                    && single_move(old(self).piece_states@, final(self).piece_states@, p as int),
                None => (forall|j: u32| j < total ==> !is_candidate(old(self).piece_states@, session.bitfield@, j as int))
                    && final(self).piece_states@ == old(self).piece_states@,
            },
            final(self).piece_rarities@ == old(self).piece_rarities@,
            final(self).torrent == old(self).torrent,
            old(self).wf() ==> final(self).wf(),
            piece_step(old(self).piece_states@, final(self).piece_states@),
    {
        let next = DownloadManager::select_piece(self.piece_states.as_slice(), &self.piece_rarities, session, total);
        match next {
            Some(index) => {
                self.piece_states.set(index as usize, PieceState::Downloading);
                Some(index)
            },
            None => None,
        }
    }

    /// Marks a piece that was being downloaded as done and returns the
    /// number of finished pieces, modulo 2^32.
    pub fn finish_piece(&mut self, piece_index: u32) -> (r: u32)
        requires
            piece_index < old(self).piece_states@.len(),
            old(self).piece_states@[piece_index as int] == PieceState::Downloading,
        ensures
            final(self).piece_states@ == old(self).piece_states@.update(piece_index as int, PieceState::Done),
            single_move(old(self).piece_states@, final(self).piece_states@, piece_index as int),
            finishes(old(self).piece_states@, final(self).piece_states@, piece_index as int),
            r == count_done(final(self).piece_states@) as u32,
            final(self).piece_rarities@ == old(self).piece_rarities@,
            final(self).torrent == old(self).torrent,
            old(self).wf() ==> final(self).wf(),
            piece_step(old(self).piece_states@, final(self).piece_states@),
    {
        self.piece_states.set(piece_index as usize, PieceState::Done);
        let n = count_done_in(self.piece_states.as_slice());
        n as u32
    }

    /// Puts a piece whose download failed back among the pending ones.
    pub fn release_piece(&mut self, piece_index: u32)
        requires
            piece_index < old(self).piece_states@.len(),
            old(self).piece_states@[piece_index as int] == PieceState::Downloading,
        ensures
            final(self).piece_states@ == old(self).piece_states@.update(piece_index as int, PieceState::Pending),
            single_move(old(self).piece_states@, final(self).piece_states@, piece_index as int),
            final(self).piece_rarities@ == old(self).piece_rarities@,
            final(self).torrent == old(self).torrent,
            old(self).wf() ==> final(self).wf(),
            piece_step(old(self).piece_states@, final(self).piece_states@),
    {
        self.piece_states.set(piece_index as usize, PieceState::Pending);
    }

    /// The number of pieces, as the download counts them in 32 bits.
    pub fn piece_total(&self) -> (r: u32)
        ensures
            r == (self.torrent.info.pieces@.len() / 20) as u32,
    {
        self.torrent.piece_count() as u32
    }

    /// The length of piece `piece_index` of `total`.
    pub fn piece_length_of(&self, piece_index: u32, total: u32) -> (r: u32)
        requires
            piece_length_defined(piece_index, total, self.torrent.info.piece_length, self.torrent.info.length),
        ensures
            r == piece_length_for(piece_index, total, self.torrent.info.piece_length, self.torrent.info.length),
    {
        let piece_length = self.torrent.info.piece_length as u32;
        let total_size = match self.torrent.info.length {
            Some(l) => l as u32,
            None => 0u32,
        };
        if piece_index == total - 1 {
            total_size - piece_index * piece_length
        } else {
            piece_length
        }
    }

    /// The SHA-1 hash that piece `piece_index` must have: bytes
    /// `20 * piece_index` to `20 * piece_index + 20` of `pieces`.
    pub fn piece_hash(&self, piece_index: u32) -> (r: [u8; 20])
        requires
            20 * piece_index + 20 <= self.torrent.info.pieces.len(),
        ensures
            r@ == self.torrent.info.pieces@.subrange(20 * piece_index, 20 * piece_index + 20),
    {
        let hash_start = piece_index as usize * 20;
        copy_20(self.torrent.info.pieces.as_slice(), hash_start)
    }
}

/// The number of finished pieces.
pub fn count_done_in(states: &[PieceState]) -> (r: usize)
    ensures
        r == count_done(states@),
{
    let mut n: usize = 0;
    let mut i: usize = 0;
    while i < states.len()
        invariant
            i <= states@.len(),
            n == count_done(states@.subrange(0, i as int)),
            n <= i,
        decreases states@.len() - i,
    {
        assert(states@.subrange(0, i + 1).drop_last() =~= states@.subrange(0, i as int));
        if states[i] == PieceState::Done {
            n = n + 1;
        }
        i = i + 1;
    }
    assert(states@.subrange(0, i as int) =~= states@);
    n
}

/// Finishing a piece that was not done adds one to the count of finished
/// pieces; finishing a done one changes nothing.
pub proof fn lemma_finish_counts_one(states: Seq<PieceState>, i: int)
    requires
        0 <= i < states.len(),
    ensures
        count_done(states.update(i, PieceState::Done)) == count_done(states) + if states[i]
            == PieceState::Done {
            0int
        } else {
            1int
        },
    decreases states.len(),
{
    let u = states.update(i, PieceState::Done);
    if i == states.len() - 1 {
        assert(u.drop_last() =~= states.drop_last());
    } else {
        lemma_finish_counts_one(states.drop_last(), i);
        assert(u.drop_last() =~= states.drop_last().update(i, PieceState::Done));
    }
}

/// A claimed piece is one that was pending and is now being downloaded;
/// releasing it makes it pending again and restores the states as they were.
pub proof fn lemma_claim_then_release(states: Seq<PieceState>, p: int)
    requires
        0 <= p < states.len(),
        states[p] == PieceState::Pending,
    ensures
        states.update(p, PieceState::Downloading).update(p, PieceState::Pending) == states,
{
    assert(states.update(p, PieceState::Downloading).update(p, PieceState::Pending) =~= states);
}

/// Along any run of allowed steps a finished piece stays finished: once
/// done, a piece is never downloaded again.
pub proof fn lemma_done_is_never_left(history: Seq<Seq<PieceState>>, j: int, k: int, l: int)
    requires
        forall|t: int| 0 <= t < history.len() - 1 ==> piece_step(#[trigger] history[t], history[t + 1]),
        0 <= k <= l < history.len(),
        0 <= j < history[k].len(),
        history[k][j] == PieceState::Done,
    ensures
        history[l][j] == PieceState::Done,
        j < history[l].len(),
    decreases l - k,
{
    if l > k {
        lemma_done_is_never_left(history, j, k, l - 1);
        assert(piece_step(history[l - 1], history[l]));
        assert(allowed_move(history[l - 1][j], history[l][j]));
    }
}

/// One piece, `p`, making an allowed move while all others stay as they were.
pub open spec fn single_move(before: Seq<PieceState>, after: Seq<PieceState>, p: int) -> bool {
    &&& 0 <= p < before.len()
    &&& allowed_move(before[p], after[p])
    &&& after == before.update(p, after[p])
}

/// Whether piece `p` goes from downloading to done.
pub open spec fn finishes(before: Seq<PieceState>, after: Seq<PieceState>, p: int) -> bool {
    before[p] == PieceState::Downloading && after[p] == PieceState::Done
}

/// How many of the first `t` moves of a run finish their piece; move `s`
/// takes `history[s]` to `history[s + 1]` and moves piece `moved[s]`.
pub open spec fn finished_moves(history: Seq<Seq<PieceState>>, moved: Seq<int>, t: int) -> nat
    decreases t,
{
    if t <= 0 {
        0
    } else {
        finished_moves(history, moved, t - 1) + if finishes(history[t - 1], history[t], moved[t - 1]) {
            1nat
        } else {
            0nat
        }
    }
}

/// Whether `history` is a run of single moves, `moved` naming the piece
/// that each one moves.
pub open spec fn is_run(history: Seq<Seq<PieceState>>, moved: Seq<int>) -> bool {
    &&& history.len() == moved.len() + 1
    &&& forall|s: int| 0 <= s < moved.len() ==> single_move(#[trigger] history[s], history[s + 1], moved[s])
}

/// Setting one piece's state changes the count of finished pieces by what
/// that piece contributes before and after.
proof fn lemma_count_after_update(states: Seq<PieceState>, i: int, v: PieceState)
    requires
        0 <= i < states.len(),
    ensures
        count_done(states.update(i, v)) + (if states[i] == PieceState::Done { 1int } else { 0int })
            == count_done(states) + (if v == PieceState::Done { 1int } else { 0int }),
    decreases states.len(),
{
    let u = states.update(i, v);
    if i == states.len() - 1 {
        assert(u.drop_last() =~= states.drop_last());
    } else {
        lemma_count_after_update(states.drop_last(), i, v);
        assert(u.drop_last() =~= states.drop_last().update(i, v));
    }
}

/// A single move adds one to the count of finished pieces when it finishes
/// its piece, and leaves the count as it was otherwise.
pub proof fn lemma_single_move_count(before: Seq<PieceState>, after: Seq<PieceState>, p: int)
    requires
        single_move(before, after, p),
    ensures
        count_done(after) == count_done(before) + if finishes(before, after, p) {
            1int
        } else {
            0int
        },
        piece_step(before, after),
{
    lemma_count_after_update(before, p, after[p]);
    assert forall|j: int| 0 <= j < before.len() implies allowed_move(#[trigger] before[j], after[j]) by {
        if j != p {
            assert(after[j] == before[j]);
        }
    }
}

/// Along a run of single moves the count of finished pieces is the count it
/// started from plus the number of moves so far that finished a piece:
/// starting from no finished piece, the `k`-th finishing move leaves `k`
/// pieces done.
pub proof fn lemma_run_counts_finishes(history: Seq<Seq<PieceState>>, moved: Seq<int>, t: int)
    requires
        is_run(history, moved),
        0 <= t < history.len(),
    ensures
        count_done(history[t]) == count_done(history[0]) + finished_moves(history, moved, t),
    decreases t,
{
    if t > 0 {
        lemma_run_counts_finishes(history, moved, t - 1);
        assert(single_move(history[t - 1], history[t], moved[t - 1]));
        lemma_single_move_count(history[t - 1], history[t], moved[t - 1]);
    }
}

/// Along a run of single moves no piece is finished twice: two moves that
/// finish a piece finish different pieces.
pub proof fn lemma_run_finishes_each_piece_once(
    history: Seq<Seq<PieceState>>,
    moved: Seq<int>,
    s1: int,
    s2: int,
)
    requires
        is_run(history, moved),
        0 <= s1 < s2 < moved.len(),
        finishes(history[s1], history[s1 + 1], moved[s1]),
        finishes(history[s2], history[s2 + 1], moved[s2]),
    ensures
        moved[s1] != moved[s2],
{
    assert forall|t: int| 0 <= t < history.len() - 1 implies piece_step(#[trigger] history[t], history[t + 1]) by {
        assert(single_move(history[t], history[t + 1], moved[t]));
        lemma_single_move_count(history[t], history[t + 1], moved[t]);
    }
    assert(single_move(history[s1], history[s1 + 1], moved[s1]));
    if moved[s1] == moved[s2] {
        lemma_done_is_never_left(history, moved[s1], s1 + 1, s2);
    }
}

/// A piece is claimed by one task at a time: a piece that is being
/// downloaded is no candidate, so no other claim can take it.
pub proof fn lemma_downloading_is_not_claimed(states: Seq<PieceState>, bits: Seq<u8>, p: int)
    requires
        0 <= p < states.len(),
        states[p] == PieceState::Downloading,
    ensures
        !is_candidate(states, bits, p),
{
}

/// When the download counts as many pieces as the data needs, `N = ceil(S /
/// P)` for data of `S` bytes cut into pieces of `P` bytes (both within 32
/// bits), every piece gets `min(P, S - i * P)` bytes: the full length, and
/// the rest of the data for the last one.
pub proof fn lemma_piece_lengths_fit_data(piece_index: u32, total: u32, piece_length: u64, size: u64)
    requires
        0 < piece_length <= u32::MAX,
        0 < size <= u32::MAX,
        total == (size + piece_length - 1) / (piece_length as int),
        piece_index < total,
    ensures
        piece_length_defined(piece_index, total, piece_length, Some(size)),
        piece_length_for(piece_index, total, piece_length, Some(size)) == if piece_length
            <= size - piece_index * piece_length {
            piece_length as int
        } else {
            size - piece_index * piece_length
        },
{
    let p = piece_length as int;
    let s = size as int;
    let n = total as int;
    let i = piece_index as int;
    vstd::arithmetic::div_mod::lemma_fundamental_div_mod(s + p - 1, p);
    let r = (s + p - 1) % p;
    assert(s + p - 1 == p * n + r && 0 <= r < p);
    assert(n * p >= s && (n - 1) * p < s) by (nonlinear_arith)
        requires
            s + p - 1 == p * n + r,
            0 <= r < p,
    ;
    assert(piece_length as u32 == p);
    assert(size as u32 == s);
    if i < n - 1 {
        assert((i + 1) * p <= (n - 1) * p) by (nonlinear_arith)
            requires
                i + 1 <= n - 1,
                p > 0,
        ;
        assert(i * p + p == (i + 1) * p) by (nonlinear_arith);
    } else {
        assert(i == n - 1);
        assert(i * p + p == n * p) by (nonlinear_arith)
            requires
                i == n - 1,
        ;
    }
}

} // verus!
