use crate::torrent_manager::block_manager::{
    bitfield_views, blocks_for, count_rarity, rarity_map, BlockManager, PieceAssembler,
};
use rand::prelude::IndexedRandom;
use crate::torrent_manager::state::TorrentStatus;
use std::collections::{HashMap, HashSet};
use vstd::prelude::*;

verus! {

broadcast use vstd::std_specs::hash::group_hash_axioms;

/// Whether we still need a piece or already have it.
#[derive(PartialEq, Eq, Clone, Copy, Debug, Default, Structural)]
pub enum PieceStatus {
    #[default]
    Need,
    Done,
}

/// `s` without the occurrences of `p`.
pub open spec fn without(s: Seq<u32>, p: u32) -> Seq<u32> {
    s.filter(|x: u32| x != p)
}

/// An element is in `s` without `p` exactly when it is in `s` and is not `p`.
pub proof fn lemma_without_contains(s: Seq<u32>, p: u32, q: u32)
    ensures
        without(s, p).contains(q) <==> (s.contains(q) && q != p),
    decreases s.len(),
{
    reveal(Seq::filter);
    if s.len() > 0 {
        lemma_without_contains(s.drop_last(), p, q);
        let rest = without(s.drop_last(), p);
        assert(without(s, p) == if s.last() != p { rest.push(s.last()) } else { rest });
        if s.contains(q) && q != p {
            let k = choose|k: int| 0 <= k < s.len() && s[k] == q;
            if k < s.len() - 1 {
                assert(s.drop_last()[k] == q);
            } else {
                assert(without(s, p).last() == q);
            }
        }
        if without(s, p).contains(q) {
            let k = choose|k: int| 0 <= k < without(s, p).len() && without(s, p)[k] == q;
            if s.last() != p && k == rest.len() {
                assert(s[s.len() - 1] == q);
            } else {
                assert(rest[k] == q);
                let m = choose|m: int| 0 <= m < s.drop_last().len() && s.drop_last()[m] == q;
                assert(s[m] == q);
            }
        }
    }
}

/// `a - b`, floored at zero.
pub open spec fn sat_sub(a: int, b: int) -> int {
    if a >= b {
        a - b
    } else {
        0
    }
}

/// Removes every occurrence of `p` from `v`, keeping the order of the rest.
pub fn remove_all(v: &mut Vec<u32>, p: u32)
    ensures
        final(v)@ == without(old(v)@, p),
{
    let ghost orig = v@;
    let mut out: Vec<u32> = Vec::new();
    let mut i: usize = 0;
    while i < v.len()
        invariant
            i <= v@.len(),
            v@ == orig,
            out@ == without(orig.take(i as int), p),
        decreases v@.len() - i,
    {
        let x = v[i];
        proof {
            reveal_with_fuel(Seq::filter, 1);
            assert(orig.take(i + 1).drop_last() =~= orig.take(i as int));
        }
        if x != p {
            out.push(x);
        }
        i = i + 1;
    }
    assert(orig.take(orig.len() as int) =~= orig);
    *v = out;
}

/// Picks one of `candidates` at random; `None` when there is none.
#[verifier::external_body]
fn choose_random(candidates: &Vec<u32>) -> (r: Option<u32>)
    ensures
        r is None <==> candidates@.len() == 0,
        r matches Some(p) ==> candidates@.contains(p),
{
    candidates.choose(&mut rand::rng()).copied()
}

/// Piece-level bookkeeping: which pieces are done, which are still needed,
/// which are requested from which peers, and how rare each piece is.
#[derive(Default, Debug)]
pub struct PieceManager {
    pub bitfield: Vec<PieceStatus>,
    pub need_queue: Vec<u32>,
    pub pending_queue: HashMap<u32, Vec<String>>,
    pub piece_rarity: HashMap<u32, usize>,
    pub pieces_remaining: usize,
    pub block_manager: BlockManager,
}

impl PieceManager {
    pub open spec fn wf(&self) -> bool {
        self.block_manager.wf()
    }

    /// Whether piece `p` is marked done.
    pub open spec fn spec_is_done(&self, p: u32) -> bool {
        (p as int) < self.bitfield@.len() && self.bitfield@[p as int] == PieceStatus::Done
    }

    /// The peers that have piece `p` requested (empty when none).
    pub open spec fn spec_pending_peers(&self, p: u32) -> Seq<String> {
        if self.pending_queue@.contains_key(p) {
            self.pending_queue@[p]@
        } else {
            Seq::empty()
        }
    }

    /// Sort key used to choose the rarest piece: unknown pieces sort last.
    pub open spec fn spec_rarity_key(&self, p: u32) -> usize {
        if self.piece_rarity@.contains_key(p) {
            self.piece_rarity@[p]
        } else {
            usize::MAX
        }
    }

    pub fn new() -> (r: Self)
        ensures
            r.wf(),
            r.bitfield@.len() == 0,
            r.need_queue@.len() == 0,
            r.pending_queue@ == Map::<u32, Vec<String>>::empty(),
            r.piece_rarity@ == Map::<u32, usize>::empty(),
            r.pieces_remaining == 0,
            r.block_manager.piece_length == 0,
            r.block_manager.legacy_buffers@ == Map::<u32, PieceAssembler>::empty(),
    {
        PieceManager {
            bitfield: Vec::new(),
            need_queue: Vec::new(),
            pending_queue: HashMap::new(),
            piece_rarity: HashMap::new(),
            pieces_remaining: 0,
            block_manager: BlockManager::new(),
        }
    }

    /// Sets the piece geometry of the inner block manager (no v1 hashes or v2 roots).
    pub fn set_geometry(&mut self, piece_length: u32, total_length: u64, validation_complete: bool)
        requires
            old(self).wf(),
            blocks_for(total_length as int) <= u32::MAX,
        ensures
            final(self).wf(),
            final(self).block_manager.piece_length == piece_length,
            final(self).block_manager.total_length == total_length,
            final(self).block_manager.block_bitfield@ == Seq::new(
                blocks_for(total_length as int) as nat,
                |i: int| validation_complete,
            ),
            final(self).block_manager.pending_blocks@ == old(self).block_manager.pending_blocks@,
            final(self).block_manager.legacy_buffers@ == old(self).block_manager.legacy_buffers@,
            final(self).block_manager.piece_rarity@ == old(self).block_manager.piece_rarity@,
            final(self).bitfield@ == old(self).bitfield@,
            final(self).need_queue@ == old(self).need_queue@,
            final(self).pending_queue@ == old(self).pending_queue@,
            final(self).piece_rarity@ == old(self).piece_rarity@,
            final(self).pieces_remaining == old(self).pieces_remaining,
    {
        self.block_manager.set_geometry(
            piece_length,
            total_length,
            Vec::new(),
            HashMap::new(),
            validation_complete,
        );
    }

    /// Marks all `num_pieces` pieces done (when validation is complete) or needed.
    pub fn set_initial_fields(&mut self, num_pieces: usize, validation_complete: bool)
        requires
            old(self).wf(),
        ensures
            final(self).wf(),
            final(self).bitfield@ == Seq::new(
                num_pieces as nat,
                |i: int|
                    if validation_complete {
                        PieceStatus::Done
                    } else {
                        PieceStatus::Need
                    },
            ),
            final(self).need_queue@ == (if validation_complete {
                Seq::empty()
            } else {
                Seq::new(num_pieces as nat, |i: int| i as u32)
            }),
            final(self).pieces_remaining == final(self).need_queue@.len(),
            final(self).pending_queue@ == old(self).pending_queue@,
            final(self).piece_rarity@ == old(self).piece_rarity@,
            final(self).block_manager == old(self).block_manager,
    {
        let status = if validation_complete {
            PieceStatus::Done
        } else {
            PieceStatus::Need
        };
        let bitfield = vec![status; num_pieces];
        let mut need: Vec<u32> = Vec::new();
        if !validation_complete {
            let mut i: usize = 0;
            while i < num_pieces
                invariant
                    i <= num_pieces,
                    need@ == Seq::new(i as nat, |k: int| k as u32),
                decreases num_pieces - i,
            {
                need.push(i as u32);
                assert(need@ =~= Seq::new((i + 1) as nat, |k: int| k as u32));
                i = i + 1;
            }
        }
        assert(bitfield@ =~= Seq::new(
            num_pieces as nat,
            |i: int|
                if validation_complete {
                    PieceStatus::Done
                } else {
                    PieceStatus::Need
                },
        ));
        self.need_queue = need;
        self.bitfield = bitfield;
        self.pieces_remaining = self.need_queue.len();
    }

    /// Buffers a block received for a piece; returns the whole piece once it is
    /// complete. When no geometry is set yet, it is inferred from `piece_size`.
    pub fn handle_block(
        &mut self,
        piece_index: u32,
        block_offset: u32,
        block_data: &[u8],
        piece_size: usize,
    ) -> (r: Option<Vec<u8>>)
        requires
            old(self).wf(),
            block_data@.len() <= u32::MAX,
            old(self).block_manager.piece_length == 0 ==> {
                &&& piece_size <= u32::MAX
                &&& blocks_for((piece_index + 1) * piece_size) <= u32::MAX
            },
        ensures
            final(self).wf(),
            final(self).bitfield@ == old(self).bitfield@,
            final(self).need_queue@ == old(self).need_queue@,
            final(self).pending_queue@ == old(self).pending_queue@,
            final(self).piece_rarity@ == old(self).piece_rarity@,
            final(self).pieces_remaining == old(self).pieces_remaining,
            Self::spec_block_handled(&old(self).block_manager, &final(self).block_manager, piece_index, block_offset, block_data@, piece_size, r),
    {
        if self.block_manager.piece_length == 0 {
            let estimated_total = (piece_index as u64 + 1) * piece_size as u64;
            self.set_geometry(piece_size as u32, estimated_total, false);
        }
        let ghost geo = self.block_manager;
        proof {
            if old(self).block_manager.piece_length == 0 {
                assert(geo.piece_length == piece_size as u32);
                assert(geo.total_length == (piece_index + 1) * piece_size);
                assert(geo.total_blocks == blocks_for(geo.total_length as int));
                assert(geo.block_bitfield@.len() == blocks_for(geo.total_length as int));
                assert(forall|i: int| 0 <= i < geo.block_bitfield@.len() ==> !#[trigger] geo.block_bitfield@[i]);
                assert(geo.pending_blocks@ == old(self).block_manager.pending_blocks@);
                assert(geo.legacy_buffers@ == old(self).block_manager.legacy_buffers@);
                assert(geo.piece_rarity@ == old(self).block_manager.piece_rarity@);
            }
        }
        let addr = self.block_manager.inflate_address_from_overlay(
            piece_index,
            block_offset,
            block_data.len() as u32,
        );
        let r = match addr {
            None => None,
            Some(a) => self.block_manager.handle_v1_block_buffering(a, block_data),
        };
        assert(Self::spec_geometry_for_block(&old(self).block_manager, &geo, piece_index, piece_size));
        r
    }

    /// What `handle_block` does to the block manager and returns: in the
    /// geometry it works with, a block that does not fit is dropped (`None`);
    /// one that fits is buffered, and the piece comes back once complete.
    pub open spec fn spec_block_handled(
        old: &BlockManager,
        new: &BlockManager,
        piece_index: u32,
        block_offset: u32,
        block: Seq<u8>,
        piece_size: usize,
        r: Option<Vec<u8>>,
    ) -> bool {
        exists|geo: BlockManager|
            {
                &&& #[trigger] Self::spec_geometry_for_block(old, &geo, piece_index, piece_size)
                &&& match geo.spec_overlay(piece_index, block_offset, block.len() as u32) {
                    None => r is None && *new == geo,
                    Some(addr) => BlockManager::spec_buffered(&geo, new, addr, block, r),
                }
            }
    }

    /// `geo` is the geometry `handle_block` works with: `old`'s own, or, when
    /// none is set, one inferred from the piece size.
    pub open spec fn spec_geometry_for_block(
        old: &BlockManager,
        geo: &BlockManager,
        piece_index: u32,
        piece_size: usize,
    ) -> bool {
        if old.piece_length == 0 {
            &&& geo.piece_length == piece_size as u32
            &&& geo.total_length == (piece_index + 1) * piece_size
            &&& geo.total_blocks == blocks_for(geo.total_length as int)
            &&& geo.block_bitfield@.len() == blocks_for(geo.total_length as int)
            &&& forall|i: int| 0 <= i < geo.block_bitfield@.len() ==> !#[trigger] geo.block_bitfield@[i]
            &&& geo.pending_blocks@ == old.pending_blocks@
            &&& geo.legacy_buffers@ == old.legacy_buffers@
            &&& geo.piece_rarity@ == old.piece_rarity@
        } else {
            *geo == *old
        }
    }

    /// What marking a piece that was not done does: the piece becomes done,
    /// leaves the need and pending queues, one piece fewer remains, its
    /// blocks are all received, and nothing else changes.
    pub open spec fn marked_complete(before: PieceManager, after: PieceManager, piece_index: u32) -> bool {
        &&& after.bitfield@ == before.bitfield@.update(piece_index as int, PieceStatus::Done)
        &&& after.need_queue@ == without(before.need_queue@, piece_index)
        &&& after.pending_queue@ == before.pending_queue@.remove(piece_index)
        &&& after.pieces_remaining == sat_sub(before.pieces_remaining as int, 1)
        &&& after.block_manager.block_bitfield@.len() == before.block_manager.block_bitfield@.len()
        &&& forall|g: int|
            0 <= g < before.block_manager.block_bitfield@.len()
                ==> #[trigger] after.block_manager.block_bitfield@[g] == if before.block_manager.spec_block_range(
                piece_index,
            ).0 <= g < before.block_manager.spec_block_range(piece_index).1 {
                true
            } else {
                before.block_manager.block_bitfield@[g]
            }
        &&& after.block_manager.legacy_buffers@ == before.block_manager.legacy_buffers@
        &&& after.block_manager.pending_blocks@ == before.block_manager.pending_blocks@
        &&& after.block_manager.piece_length == before.block_manager.piece_length
        &&& after.block_manager.total_length == before.block_manager.total_length
        &&& after.piece_rarity@ == before.piece_rarity@
    }

    /// Marks a piece done and returns the peers that still had it requested.
    /// A piece already done is left as it is, and no peer is returned.
    pub fn mark_as_complete(&mut self, piece_index: u32) -> (r: Vec<String>)
        requires
            old(self).wf(),
            (piece_index as int) < old(self).bitfield@.len(),
        ensures
            final(self).wf(),
            if old(self).spec_is_done(piece_index) {
                &&& r@.len() == 0
                &&& final(self).bitfield@ == old(self).bitfield@
                &&& final(self).need_queue@ == old(self).need_queue@
                &&& final(self).pending_queue@ == old(self).pending_queue@
                &&& final(self).pieces_remaining == old(self).pieces_remaining
                &&& final(self).block_manager == old(self).block_manager
            } else {
                &&& r@ == old(self).spec_pending_peers(piece_index)
                &&& final(self).bitfield@ == old(self).bitfield@.update(
                    piece_index as int,
                    PieceStatus::Done,
                )
                &&& final(self).need_queue@ == without(old(self).need_queue@, piece_index)
                &&& final(self).pending_queue@ == old(self).pending_queue@.remove(piece_index)
                &&& final(self).pieces_remaining == sat_sub(old(self).pieces_remaining as int, 1)
                &&& final(self).block_manager.block_bitfield@.len()
                    == old(self).block_manager.block_bitfield@.len()
                &&& forall|g: int|
                    0 <= g < old(self).block_manager.block_bitfield@.len()
                        ==> #[trigger] final(self).block_manager.block_bitfield@[g] == if old(
                        self,
                    ).block_manager.spec_block_range(piece_index).0 <= g < old(
                        self,
                    ).block_manager.spec_block_range(piece_index).1 {
                        true
                    } else {
                        old(self).block_manager.block_bitfield@[g]
                    }
                &&& final(self).block_manager.legacy_buffers@
                    == old(self).block_manager.legacy_buffers@
                &&& final(self).block_manager.pending_blocks@
                    == old(self).block_manager.pending_blocks@
                &&& final(self).block_manager.piece_length == old(self).block_manager.piece_length
                &&& final(self).block_manager.total_length == old(self).block_manager.total_length
            },
            final(self).piece_rarity@ == old(self).piece_rarity@,
            !old(self).spec_is_done(piece_index) ==> Self::marked_complete(*old(self), *final(self), piece_index),
    {
        if self.bitfield[piece_index as usize] == PieceStatus::Done {
            return Vec::new();
        }
        self.bitfield.set(piece_index as usize, PieceStatus::Done);
        self.pieces_remaining = self.pieces_remaining.saturating_sub(1);
        remove_all(&mut self.need_queue, piece_index);
        let peers_to_cancel = match self.pending_queue.remove(&piece_index) {
            Some(peers) => peers,
            None => Vec::new(),
        };
        self.block_manager.commit_v1_piece(piece_index);
        peers_to_cancel
    }

    /// Drops the partially assembled data of a piece (after a failed hash check).
    pub fn reset_piece_assembly(&mut self, piece_index: u32)
        requires
            old(self).wf(),
        ensures
            final(self).wf(),
            final(self).block_manager.legacy_buffers@
                == old(self).block_manager.legacy_buffers@.remove(piece_index),
            final(self).block_manager.block_bitfield@ == old(self).block_manager.block_bitfield@,
            final(self).block_manager.pending_blocks@ == old(self).block_manager.pending_blocks@,
            final(self).block_manager.piece_length == old(self).block_manager.piece_length,
            final(self).block_manager.total_length == old(self).block_manager.total_length,
            final(self).bitfield@ == old(self).bitfield@,
            final(self).need_queue@ == old(self).need_queue@,
            final(self).pending_queue@ == old(self).pending_queue@,
            final(self).piece_rarity@ == old(self).piece_rarity@,
            final(self).pieces_remaining == old(self).pieces_remaining,
    {
        self.block_manager.reset_v1_buffer(piece_index);
    }

    /// Puts a piece back among the needed ones: it is no longer pending, no longer
    /// done, queued once in the need queue, and its blocks are marked not done.
    pub fn requeue_pending_to_need(&mut self, piece_index: u32)
        requires
            old(self).wf(),
            old(self).spec_is_done(piece_index) ==> old(self).pieces_remaining < usize::MAX,
        ensures
            final(self).wf(),
            final(self).pending_queue@ == old(self).pending_queue@.remove(piece_index),
            final(self).pieces_remaining == old(self).pieces_remaining + if old(self).spec_is_done(
                piece_index,
            ) {
                1int
            } else {
                0int
            },
            final(self).bitfield@ == (if (piece_index as int) < old(self).bitfield@.len() {
                old(self).bitfield@.update(piece_index as int, PieceStatus::Need)
            } else {
                old(self).bitfield@
            }),
            final(self).need_queue@ == (if old(self).need_queue@.contains(piece_index) {
                old(self).need_queue@
            } else {
                old(self).need_queue@.push(piece_index)
            }),
            final(self).block_manager.block_bitfield@.len()
                == old(self).block_manager.block_bitfield@.len(),
            forall|g: int|
                0 <= g < old(self).block_manager.block_bitfield@.len()
                    ==> #[trigger] final(self).block_manager.block_bitfield@[g] == if old(
                    self,
                ).block_manager.spec_block_range(piece_index).0 <= g < old(
                    self,
                ).block_manager.spec_block_range(piece_index).1 {
                    false
                } else {
                    old(self).block_manager.block_bitfield@[g]
                },
            final(self).block_manager.legacy_buffers@ == old(self).block_manager.legacy_buffers@,
            final(self).block_manager.pending_blocks@ == old(self).block_manager.pending_blocks@,
            final(self).block_manager.piece_length == old(self).block_manager.piece_length,
            final(self).block_manager.total_length == old(self).block_manager.total_length,
            final(self).piece_rarity@ == old(self).piece_rarity@,
    {
        self.pending_queue.remove(&piece_index);
        let idx = piece_index as usize;
        let was_done = idx < self.bitfield.len() && self.bitfield[idx] == PieceStatus::Done;
        if was_done {
            self.pieces_remaining = self.pieces_remaining + 1;
        }
        if idx < self.bitfield.len() {
            self.bitfield.set(idx, PieceStatus::Need);
        }
        if !vec_contains(&self.need_queue, piece_index) {
            self.need_queue.push(piece_index);
        }
        self.block_manager.revert_v1_piece_completion(piece_index);
    }

    /// Recomputes the rarity of every piece we do not have yet from the peers' bitfields.
    pub fn update_rarity(&mut self, all_peer_bitfields: &[Vec<bool>])
        requires
            old(self).wf(),
            forall|j: int|
                0 <= j < all_peer_bitfields@.len() ==> #[trigger] all_peer_bitfields@[j]@.len()
                    <= u32::MAX + 1,
        ensures
            final(self).wf(),
            final(self).block_manager.piece_rarity@ == rarity_map(
                bitfield_views(all_peer_bitfields@),
            ),
            final(self).piece_rarity@ == rarity_map(bitfield_views(all_peer_bitfields@)).restrict(
                Set::new(|k: u32| !old(self).spec_is_done(k)),
            ),
            final(self).bitfield@ == old(self).bitfield@,
            final(self).need_queue@ == old(self).need_queue@,
            final(self).pending_queue@ == old(self).pending_queue@,
            final(self).pieces_remaining == old(self).pieces_remaining,
            final(self).block_manager.block_bitfield@ == old(self).block_manager.block_bitfield@,
            final(self).block_manager.legacy_buffers@ == old(self).block_manager.legacy_buffers@,
            final(self).block_manager.pending_blocks@ == old(self).block_manager.pending_blocks@,
            final(self).block_manager.piece_length == old(self).block_manager.piece_length,
            final(self).block_manager.total_length == old(self).block_manager.total_length,
    {
        self.block_manager.update_rarity(all_peer_bitfields);
        let mut done_flags: Vec<bool> = Vec::new();
        let mut i: usize = 0;
        while i < self.bitfield.len()
            invariant
                i <= self.bitfield@.len(),
                done_flags@ == Seq::new(
                    i as nat,
                    |k: int| self.bitfield@[k] == PieceStatus::Done,
                ),
            decreases self.bitfield@.len() - i,
        {
            done_flags.push(self.bitfield[i] == PieceStatus::Done);
            assert(done_flags@ =~= Seq::new(
                (i + 1) as nat,
                |k: int| self.bitfield@[k] == PieceStatus::Done,
            ));
            i = i + 1;
        }
        let r = count_rarity(all_peer_bitfields, Some(&done_flags));
        assert(r@ =~= rarity_map(bitfield_views(all_peer_bitfields@)).restrict(
            Set::new(|k: u32| !self.spec_is_done(k)),
        ));
        self.piece_rarity = r;
    }

    /// Whether piece `p` can be requested from this peer: the peer has it and it
    /// is not already requested from this peer.
    pub open spec fn spec_candidate(peer_bitfield: Seq<bool>, peer_pending: Set<u32>, p: u32) -> bool {
        (p as int) < peer_bitfield.len() && peer_bitfield[p as int] && !peer_pending.contains(p)
    }

    /// What `choose_piece_for_peer` may answer for a peer with this bitfield
    /// and these pending requests in this status.
    pub open spec fn piece_choice(
        &self,
        peer_bitfield: Seq<bool>,
        peer_pending: Set<u32>,
        torrent_status: TorrentStatus,
        r: Option<u32>,
    ) -> bool {
        &&& torrent_status != TorrentStatus::Endgame ==> {
            let need = self.need_queue@;
            let cand = |p: u32| Self::spec_candidate(peer_bitfield, peer_pending, p);
            &&& r is None <==> (forall|i: int| 0 <= i < need.len() ==> !cand(#[trigger] need[i]))
            &&& r matches Some(p) ==> exists|i: int|
                {
                    &&& 0 <= i < need.len()
                    &&& need[i] == p
                    &&& cand(p)
                    &&& forall|j: int|
                        0 <= j < need.len() && cand(#[trigger] need[j])
                            ==> self.spec_rarity_key(p) <= self.spec_rarity_key(need[j])
                    &&& forall|j: int|
                        0 <= j < i && cand(#[trigger] need[j]) ==> self.spec_rarity_key(p)
                            < self.spec_rarity_key(need[j])
                }
        }
        &&& torrent_status == TorrentStatus::Endgame ==> {
            &&& r is None <==> (forall|p: u32|
                (self.pending_queue@.contains_key(p) || self.need_queue@.contains(p))
                    ==> !#[trigger] Self::spec_candidate(peer_bitfield, peer_pending, p))
            &&& r matches Some(p) ==> Self::spec_candidate(peer_bitfield, peer_pending, p)
                && (self.pending_queue@.contains_key(p) || self.need_queue@.contains(p))
        }
    }

    /// Chooses the next piece to request from a peer. Outside endgame: the first
    /// piece of the need queue with the lowest rarity among those the peer can
    /// serve. In endgame: a random one among the pending and needed pieces the peer can serve.
    pub fn choose_piece_for_peer(
        &self,
        peer_bitfield: &[bool],
        peer_pending: &HashSet<u32>,
        torrent_status: &TorrentStatus,
    ) -> (r: Option<u32>)
        ensures
            *torrent_status != TorrentStatus::Endgame ==> {
                let need = self.need_queue@;
                let cand = |p: u32| Self::spec_candidate(peer_bitfield@, peer_pending@, p);
                &&& r is None <==> (forall|i: int| 0 <= i < need.len() ==> !cand(#[trigger] need[i]))
                &&& r matches Some(p) ==> exists|i: int|
                    {
                        &&& 0 <= i < need.len()
                        &&& need[i] == p
                        &&& cand(p)
                        &&& forall|j: int|
                            0 <= j < need.len() && cand(#[trigger] need[j])
                                ==> self.spec_rarity_key(p) <= self.spec_rarity_key(need[j])
                        &&& forall|j: int|
                            0 <= j < i && cand(#[trigger] need[j]) ==> self.spec_rarity_key(p)
                                < self.spec_rarity_key(need[j])
                    }
            },
            *torrent_status == TorrentStatus::Endgame ==> {
                &&& r is None <==> (forall|p: u32|
                    (self.pending_queue@.contains_key(p) || self.need_queue@.contains(p))
                        ==> !#[trigger] Self::spec_candidate(peer_bitfield@, peer_pending@, p))
                &&& r matches Some(p) ==> Self::spec_candidate(peer_bitfield@, peer_pending@, p)
                    && (self.pending_queue@.contains_key(p) || self.need_queue@.contains(p))
            },
            self.piece_choice(peer_bitfield@, peer_pending@, *torrent_status, r),
    {
        if *torrent_status != TorrentStatus::Endgame {
            let mut best: Option<u32> = None;
            let mut best_key: usize = 0;
            let mut best_pos: usize = 0;
            let mut i: usize = 0;
            while i < self.need_queue.len()
                invariant
                    i <= self.need_queue@.len(),
                    best is None <==> (forall|k: int|
                        0 <= k < i ==> !Self::spec_candidate(
                            peer_bitfield@,
                            peer_pending@,
                            #[trigger] self.need_queue@[k],
                        )),
                    best matches Some(p) ==> {
                        &&& best_pos < i
                        &&& self.need_queue@[best_pos as int] == p
                        &&& Self::spec_candidate(peer_bitfield@, peer_pending@, p)
                        &&& best_key == self.spec_rarity_key(p)
                        &&& forall|j: int|
                            0 <= j < i && Self::spec_candidate(
                                peer_bitfield@,
                                peer_pending@,
                                #[trigger] self.need_queue@[j],
                            ) ==> best_key <= self.spec_rarity_key(self.need_queue@[j])
                        &&& forall|j: int|
                            0 <= j < best_pos && Self::spec_candidate(
                                peer_bitfield@,
                                peer_pending@,
                                #[trigger] self.need_queue@[j],
                            ) ==> best_key < self.spec_rarity_key(self.need_queue@[j])
                    },
                decreases self.need_queue@.len() - i,
            {
                let p = self.need_queue[i];
                let has = (p as usize) < peer_bitfield.len() && peer_bitfield[p as usize];
                if has && !peer_pending.contains(&p) {
                    let key = match self.piece_rarity.get(&p) {
                        Some(k) => *k,
                        None => usize::MAX,
                    };
                    let better = match best {
                        None => true,
                        Some(_) => key < best_key,
                    };
                    if better {
                        best = Some(p);
                        best_key = key;
                        best_pos = i;
                    }
                }
                i = i + 1;
            }
            proof {
                if let Some(p) = best {
                    assert(self.need_queue@[best_pos as int] == p);
                }
            }
            best
        } else {
            let mut candidates: Vec<u32> = Vec::new();
            let ghost mut seen: Seq<u32> = Seq::empty();
            for k in it: self.pending_queue.keys()
                invariant
                    seen == it.seq().unref().take(it.index()),
                    it.seq().unref().to_set() == self.pending_queue@.dom(),
                    it.index() == it.seq().len() ==> forall|p: u32|
                        #[trigger] self.pending_queue@.contains_key(p) <==> seen.contains(p),
                    forall|p: u32|
                        #[trigger] candidates@.contains(p) <==> (Self::spec_candidate(
                            peer_bitfield@,
                            peer_pending@,
                            p,
                        ) && seen.contains(p)),
            {
                let p = *k;
                assert(p == it.seq().unref()[it.index()]);
                assert(it.seq().unref().take(it.index() + 1) =~= it.seq().unref().take(
                    it.index(),
                ).push(p));
                let has = (p as usize) < peer_bitfield.len() && peer_bitfield[p as usize];
                let take = has && !peer_pending.contains(&p);
                let ghost seen_before = seen;
                let ghost cands_before = candidates@;
                if take {
                    candidates.push(p);
                }
                proof {
                    seen = seen.push(p);
                    assert forall|q: u32| #[trigger]
                        candidates@.contains(q) <==> (Self::spec_candidate(
                            peer_bitfield@,
                            peer_pending@,
                            q,
                        ) && seen.contains(q)) by {
                        lemma_push_contains(seen_before, p, q);
                        if take {
                            lemma_push_contains(cands_before, p, q);
                        }
                    }
                }
                assert(it.index() + 1 == it.seq().len() ==> seen =~= it.seq().unref());
            }
            let ghost after_keys = candidates@;
            assert(forall|p: u32| #[trigger] self.pending_queue@.contains_key(p) <==> seen.contains(p));
            assert(forall|p: u32| #[trigger] after_keys.contains(p) <==> (Self::spec_candidate(
                peer_bitfield@, peer_pending@, p) && self.pending_queue@.contains_key(p)));
            let mut i: usize = 0;
            while i < self.need_queue.len()
                invariant
                    i <= self.need_queue@.len(),
                    forall|p: u32|
                        #[trigger] candidates@.contains(p) <==> (after_keys.contains(p) || (
                        Self::spec_candidate(peer_bitfield@, peer_pending@, p)
                            && self.need_queue@.take(i as int).contains(p))),
                decreases self.need_queue@.len() - i,
            {
                let p = self.need_queue[i];
                assert(self.need_queue@.take(i + 1) =~= self.need_queue@.take(i as int).push(p));
                let has = (p as usize) < peer_bitfield.len() && peer_bitfield[p as usize];
                let take = has && !peer_pending.contains(&p);
                let ghost cands_before = candidates@;
                if take {
                    candidates.push(p);
                }
                proof {
                    assert forall|q: u32| #[trigger]
                        candidates@.contains(q) <==> (after_keys.contains(q) || (
                        Self::spec_candidate(peer_bitfield@, peer_pending@, q)
                            && self.need_queue@.take(i + 1).contains(q))) by {
                        lemma_push_contains(self.need_queue@.take(i as int), p, q);
                        if take {
                            lemma_push_contains(cands_before, p, q);
                        }
                    }
                }
                i = i + 1;
            }
            assert(self.need_queue@.take(self.need_queue@.len() as int) =~= self.need_queue@);
            assert(forall|p: u32| #[trigger] candidates@.contains(p) <==> (Self::spec_candidate(
                peer_bitfield@, peer_pending@, p) && (self.pending_queue@.contains_key(p) || self.need_queue@.contains(p))));
            proof {
                if candidates@.len() > 0 {
                    assert(candidates@.contains(candidates@[0]));
                }
            }
            let r = choose_random(&candidates);
            proof {
                if r is None {
                    assert forall|p: u32|
                        (self.pending_queue@.contains_key(p) || self.need_queue@.contains(p))
                            implies !#[trigger] Self::spec_candidate(peer_bitfield@, peer_pending@, p) by {
                        if Self::spec_candidate(peer_bitfield@, peer_pending@, p) {
                            assert(candidates@.contains(p));
                        }
                    }
                }
            }
            r
        }
    }

    /// Records that `peer_id` was asked for piece `piece_index`: the piece leaves
    /// the need queue and the peer is appended to the piece's pending list.
    pub fn mark_as_pending(&mut self, piece_index: u32, peer_id: String)
        requires
            old(self).wf(),
        ensures
            final(self).wf(),
            final(self).need_queue@ == without(old(self).need_queue@, piece_index),
            final(self).pending_queue@.dom() == old(self).pending_queue@.dom().insert(piece_index),
            final(self).pending_queue@[piece_index]@ == old(self).spec_pending_peers(
                piece_index,
            ).push(peer_id),
            forall|k: u32|
                k != piece_index && #[trigger] old(self).pending_queue@.contains_key(k)
                    ==> final(self).pending_queue@[k] == old(self).pending_queue@[k],
            final(self).bitfield@ == old(self).bitfield@,
            final(self).piece_rarity@ == old(self).piece_rarity@,
            final(self).pieces_remaining == old(self).pieces_remaining,
            final(self).block_manager == old(self).block_manager,
    {
        remove_all(&mut self.need_queue, piece_index);
        let mut peers = match self.pending_queue.remove(&piece_index) {
            Some(v) => v,
            None => Vec::new(),
        };
        peers.push(peer_id);
        self.pending_queue.insert(piece_index, peers);
    }

    /// The pieces currently requested from some peer, each once.
    pub fn pending_pieces(&self) -> (v: Vec<u32>)
        ensures
            v@.to_set() == self.pending_queue@.dom(),
            v@.no_duplicates(),
    {
        let mut v: Vec<u32> = Vec::new();
        for x in it: self.pending_queue.keys()
            invariant
                v@ == it.seq().take(it.index() as int).unref(),
                it.seq().unref().to_set() == self.pending_queue@.dom(),
                it.seq().unref().no_duplicates(),
                it.index() == it.seq().len() ==> v@.to_set() == self.pending_queue@.dom()
                    && v@.no_duplicates(),
        {
            v.push(*x);
            proof {
                assert(it.seq().take(it.index() as int + 1).unref() =~= v@);
                if it.index() + 1 == it.seq().len() {
                    assert(it.seq().take(it.index() as int + 1) =~= it.seq());
                }
                assert(forall|i: int, j: int|
                    0 <= i < j < v@.len() ==> v@[i] == it.seq().unref()[i] && v@[j]
                        == it.seq().unref()[j]);
            }
        }
        v
    }

    /// Puts every requested piece back at the end of the need queue (in some
    /// order) and forgets all requests.
    pub fn drain_pending_to_need(&mut self)
        requires
            old(self).wf(),
        ensures
            final(self).wf(),
            final(self).pending_queue@ == Map::<u32, Vec<String>>::empty(),
            exists|ks: Seq<u32>|
                #![trigger ks.to_set()]
                ks.to_set() == old(self).pending_queue@.dom() && ks.no_duplicates()
                    && final(self).need_queue@ == old(self).need_queue@ + ks,
            final(self).bitfield@ == old(self).bitfield@,
            final(self).piece_rarity@ == old(self).piece_rarity@,
            final(self).pieces_remaining == old(self).pieces_remaining,
            final(self).block_manager == old(self).block_manager,
    {
        let ks = self.pending_pieces();
        let ghost start = self.need_queue@;
        let mut i: usize = 0;
        while i < ks.len()
            invariant
                i <= ks@.len(),
                self.need_queue@ == start + ks@.subrange(0, i as int),
                self.wf(),
                self.pending_queue@ == old(self).pending_queue@,
                self.bitfield@ == old(self).bitfield@,
                self.piece_rarity@ == old(self).piece_rarity@,
                self.pieces_remaining == old(self).pieces_remaining,
                self.block_manager == old(self).block_manager,
                start == old(self).need_queue@,
            decreases ks@.len() - i,
        {
            self.need_queue.push(ks[i]);
            i = i + 1;
            assert(ks@.subrange(0, i as int) == ks@.subrange(0, i - 1) + seq![ks@[i - 1]]);
        }
        assert(ks@.subrange(0, i as int) == ks@);
        self.pending_queue.clear();
    }

    /// Drops every partially assembled piece.
    pub fn clear_assembly_buffers(&mut self)
        requires
            old(self).wf(),
        ensures
            final(self).wf(),
            final(self).block_manager.legacy_buffers@ == Map::<u32, PieceAssembler>::empty(),
            final(self).block_manager.block_bitfield@ == old(self).block_manager.block_bitfield@,
            final(self).bitfield@ == old(self).bitfield@,
            final(self).need_queue@ == old(self).need_queue@,
            final(self).pending_queue@ == old(self).pending_queue@,
            final(self).pieces_remaining == old(self).pieces_remaining,
    {
        self.block_manager.legacy_buffers.clear();
    }
}

pub proof fn lemma_push_contains<A>(s: Seq<A>, x: A, q: A)
    ensures
        s.push(x).contains(q) <==> (s.contains(q) || q == x),
{
    if s.push(x).contains(q) && q != x {
        let t = choose|t: int| 0 <= t < s.push(x).len() && s.push(x)[t] == q;
        assert(s[t] == q);
    }
    if s.contains(q) {
        let t = choose|t: int| 0 <= t < s.len() && s[t] == q;
        assert(s.push(x)[t] == q);
    }
    if q == x {
        assert(s.push(x)[s.len() as int] == q);
    }
}

/// Whether `v` contains `x`.
pub fn vec_contains(v: &Vec<u32>, x: u32) -> (r: bool)
    ensures
        r == v@.contains(x),
{
    let mut i: usize = 0;
    while i < v.len()
        invariant
            i <= v@.len(),
            forall|k: int| 0 <= k < i ==> v@[k] != x,
        decreases v@.len() - i,
    {
        if v[i] == x {
            assert(v@[i as int] == x);
            return true;
        }
        i = i + 1;
    }
    false
}

} // verus!
