use std::collections::{HashMap, HashSet};
use vstd::prelude::*;

verus! {

broadcast use vstd::std_specs::hash::group_hash_axioms;

/// Size of one request block, in bytes.
pub const BLOCK_SIZE: u32 = 16_384;

/// Length of a v2 (SHA-256) piece hash.
pub const V2_HASH_LEN: usize = 32;

/// `ceil(a / b)` over the integers.
pub open spec fn ceil_div(a: int, b: int) -> int {
    (a + b - 1) / b
}

/// Number of blocks needed to cover `len` bytes.
pub open spec fn blocks_for(len: int) -> int {
    ceil_div(len, BLOCK_SIZE as int)
}

/// `min` over the integers.
pub open spec fn min_int(a: int, b: int) -> int {
    if a <= b {
        a
    } else {
        b
    }
}

/// Number of `true` entries in a sequence of flags.
pub open spec fn count_true(s: Seq<bool>) -> nat
    decreases s.len(),
{
    if s.len() == 0 {
        0
    } else {
        count_true(s.drop_last()) + if s.last() {
            1nat
        } else {
            0nat
        }
    }
}

pub proof fn lemma_count_true_bounded(s: Seq<bool>)
    ensures
        count_true(s) <= s.len(),
    decreases s.len(),
{
    if s.len() > 0 {
        lemma_count_true_bounded(s.drop_last());
    }
}

pub proof fn lemma_count_true_set(s: Seq<bool>, i: int)
    requires
        0 <= i < s.len(),
        !s[i],
    ensures
        count_true(s.update(i, true)) == count_true(s) + 1,
    decreases s.len(),
{
    let t = s.update(i, true);
    if i == s.len() - 1 {
        assert(t.drop_last() =~= s.drop_last());
    } else {
        assert(t.drop_last() =~= s.drop_last().update(i, true));
        lemma_count_true_set(s.drop_last(), i);
    }
}

pub proof fn lemma_count_true_full(s: Seq<bool>)
    requires
        count_true(s) == s.len(),
    ensures
        forall|i: int| 0 <= i < s.len() ==> s[i],
    decreases s.len(),
{
    if s.len() > 0 {
        lemma_count_true_bounded(s.drop_last());
        lemma_count_true_full(s.drop_last());
        assert forall|i: int| 0 <= i < s.len() implies s[i] by {
            if i < s.len() - 1 {
                assert(s[i] == s.drop_last()[i]);
            }
        }
    }
}

pub proof fn lemma_count_true_all_false(n: nat)
    ensures
        count_true(Seq::new(n, |i: int| false)) == 0,
    decreases n,
{
    if n > 0 {
        assert(Seq::new(n, |i: int| false).drop_last() =~= Seq::new((n - 1) as nat, |i: int| false));
        lemma_count_true_all_false((n - 1) as nat);
    }
}

/// Where a block sits inside the torrent.
#[derive(Debug, Clone, Copy, PartialEq, Eq, Hash, Structural)]
pub struct BlockAddress {
    pub piece_index: u32,
    pub block_index: u32,
    pub byte_offset: u32,
    pub global_offset: u64,
    pub length: u32,
}

/// Outcome of committing a block.
#[derive(Debug, PartialEq)]
pub enum BlockResult {
    /// The block was accepted and state updated. Safe to write to disk.
    Accepted,
    /// The block was already marked done. Discard data.
    Duplicate,
    /// A v1 block was buffered; the piece is not complete yet.
    V1BlockBuffered,
    /// A v1 piece is fully assembled.
    V1PieceVerified { piece_index: u32, data: Vec<u8> },
}

/// The bytes of some blocks, one after the other.
pub open spec fn joined(blocks: Seq<Vec<u8>>) -> Seq<u8>
    decreases blocks.len(),
{
    if blocks.len() == 0 {
        seq![]
    } else {
        joined(blocks.drop_last()) + blocks.last()@
    }
}

/// The blocks of one v1 piece received so far: one slot per block, marked
/// in `mask` once filled; a block received again replaces the one in its
/// slot.
#[derive(Debug, Clone)]
pub struct PieceAssembler {
    pub total_blocks: usize,
    pub received_blocks: usize,
    pub mask: Vec<bool>,
    pub blocks: Vec<Vec<u8>>,
}

impl PieceAssembler {
    pub open spec fn wf(&self) -> bool {
        &&& self.mask@.len() == self.total_blocks
        &&& self.blocks@.len() == self.total_blocks
        &&& self.received_blocks == count_true(self.mask@)
    }

    /// The slots: the block stored at each index, if any.
    pub open spec fn slots(&self) -> Seq<Option<Seq<u8>>> {
        Seq::new(
            self.total_blocks as nat,
            |i: int| if self.mask@[i] { Some(self.blocks@[i]@) } else { None },
        )
    }

    /// The assembler that a piece of `piece_len` bytes starts from: one empty
    /// slot per block.
    pub open spec fn spec_fresh(self, piece_len: int) -> bool {
        &&& self.total_blocks == blocks_for(piece_len)
        &&& self.received_blocks == 0
        &&& self.mask@ == Seq::new(blocks_for(piece_len) as nat, |i: int| false)
        &&& self.blocks@.len() == blocks_for(piece_len)
    }

    /// `self` after `prev` received `data` as block `block_index`: the block
    /// fills (or replaces) its slot when the piece has one, else nothing
    /// changes.
    pub open spec fn spec_after_block(self, prev: PieceAssembler, block_index: int, data: Seq<u8>) -> bool {
        &&& self.total_blocks == prev.total_blocks
        &&& if 0 <= block_index < prev.total_blocks {
            &&& self.received_blocks == prev.received_blocks + if prev.mask@[block_index] { 0int } else { 1int }
            &&& self.mask@ == prev.mask@.update(block_index, true)
            &&& self.blocks@.len() == prev.blocks@.len()
            &&& self.blocks@[block_index]@ == data
            &&& forall|i: int| 0 <= i < prev.blocks@.len() && i != block_index ==> #[trigger] self.blocks@[i]
                == prev.blocks@[i]
        } else {
            &&& self.received_blocks == prev.received_blocks
            &&& self.mask@ == prev.mask@
            &&& self.blocks@ == prev.blocks@
        }
    }

    /// Whether every slot is filled.
    pub open spec fn spec_complete(&self) -> bool {
        self.received_blocks == self.total_blocks
    }

    fn fresh(piece_len: u32) -> (r: PieceAssembler)
        ensures
            r.wf(),
            r.spec_fresh(piece_len as int),
    {
        let nb = blocks_for_len(piece_len as u64) as usize;
        let mask = vec![false; nb];
        let mut blocks: Vec<Vec<u8>> = Vec::new();
        while blocks.len() < nb
            invariant
                blocks@.len() <= nb,
            decreases nb - blocks@.len(),
        {
            blocks.push(Vec::new());
        }
        proof {
            assert(mask@ =~= Seq::new(nb as nat, |i: int| false));
            lemma_count_true_all_false(nb as nat);
        }
        PieceAssembler { total_blocks: nb, received_blocks: 0, mask, blocks }
    }

    /// Stores `data` as block `block_index`, replacing what that slot held.
    fn accept(&mut self, block_index: u32, data: &[u8])
        requires
            old(self).wf(),
        ensures
            final(self).wf(),
            final(self).spec_after_block(*old(self), block_index as int, data@),
    {
        let bi = block_index as usize;
        if bi < self.total_blocks {
            if !self.mask[bi] {
                proof {
                    lemma_count_true_set(self.mask@, bi as int);
                    lemma_count_true_bounded(self.mask@.update(bi as int, true));
                }
                self.mask.set(bi, true);
                self.received_blocks = self.received_blocks + 1;
            } else {
                assert(self.mask@.update(bi as int, true) =~= self.mask@);
            }
            let copy = copy_bytes(data);
            self.blocks.set(bi, copy);
        }
    }

    /// The piece: the blocks joined in order.
    fn assemble(&self) -> (r: Vec<u8>)
        ensures
            r@ == joined(self.blocks@),
    {
        let mut out: Vec<u8> = Vec::new();
        let mut k: usize = 0;
        while k < self.blocks.len()
            invariant
                k <= self.blocks@.len(),
                out@ == joined(self.blocks@.take(k as int)),
            decreases self.blocks@.len() - k,
        {
            proof {
                assert(self.blocks@.take(k + 1).drop_last() =~= self.blocks@.take(k as int));
            }
            let b = &self.blocks[k];
            let mut j: usize = 0;
            let ghost start = out@;
            while j < b.len()
                invariant
                    j <= b@.len(),
                    out@ == start + b@.take(j as int),
                decreases b@.len() - j,
            {
                out.push(b[j]);
                proof {
                    assert(b@.take(j + 1) =~= b@.take(j as int).push(b@[j as int]));
                }
                j = j + 1;
            }
            proof {
                assert(b@.take(j as int) =~= b@);
            }
            k = k + 1;
        }
        proof {
            assert(self.blocks@.take(k as int) =~= self.blocks@);
        }
        out
    }
}

/// A copy of some bytes.
fn copy_bytes(data: &[u8]) -> (r: Vec<u8>)
    ensures
        r@ == data@,
{
    let mut r: Vec<u8> = Vec::new();
    let mut i: usize = 0;
    while i < data.len()
        invariant
            i <= data@.len(),
            r@ == data@.take(i as int),
        decreases data@.len() - i,
    {
        r.push(data[i]);
        proof {
            assert(data@.take(i + 1) =~= data@.take(i as int).push(data@[i as int]));
        }
        i = i + 1;
    }
    assert(data@.take(i as int) =~= data@);
    r
}

/// `a * b`, widened so that it cannot overflow.
pub fn mul_wide(a: u32, b: u32) -> (r: u64)
    ensures
        r == a as int * b as int,
{
    proof {
        assert(a as int * b as int <= u32::MAX as int * u32::MAX as int) by (nonlinear_arith)
            requires
                0 <= a <= u32::MAX,
                0 <= b <= u32::MAX,
        ;
    }
    a as u64 * b as u64
}

pub fn blocks_for_len(len: u64) -> (r: u64)
    ensures
        r == blocks_for(len as int),
{
    len / 16384 + if len % 16384 == 0 {
        0
    } else {
        1
    }
}

proof fn lemma_block_range_fits(a: int, b: int, t: int)
    requires
        0 <= a,
        0 <= b,
        a + b <= t,
    ensures
        a / 16384 + blocks_for(b) <= blocks_for(t),
        a / 16384 >= 0,
{
    assert(a / 16384 + (b + 16383) / 16384 <= (a + b + 16383) / 16384) by (nonlinear_arith)
        requires
            0 <= a,
            0 <= b,
    ;
    assert((a + b + 16383) / 16384 <= (t + 16383) / 16384) by (nonlinear_arith)
        requires
            a + b <= t,
    ;
    assert(a / 16384 >= 0) by (nonlinear_arith)
        requires
            0 <= a,
    ;
}

/// Number of peers, among `bitfields`, that have piece `k`.
pub open spec fn peers_having(bitfields: Seq<Seq<bool>>, k: int) -> nat
    decreases bitfields.len(),
{
    if bitfields.len() == 0 {
        0
    } else {
        peers_having(bitfields.drop_last(), k) + if 0 <= k < bitfields.last().len()
            && bitfields.last()[k] {
            1nat
        } else {
            0nat
        }
    }
}

pub proof fn lemma_peers_having_bounded(bitfields: Seq<Seq<bool>>, k: int)
    ensures
        peers_having(bitfields, k) <= bitfields.len(),
    decreases bitfields.len(),
{
    if bitfields.len() > 0 {
        lemma_peers_having_bounded(bitfields.drop_last(), k);
    }
}

/// Views of a list of bitfields.
pub open spec fn bitfield_views(bitfields: Seq<Vec<bool>>) -> Seq<Seq<bool>> {
    bitfields.map_values(|b: Vec<bool>| b@)
}

/// The rarity map: each piece that at least one peer has, with the number of peers having it.
pub open spec fn rarity_map(bitfields: Seq<Seq<bool>>) -> Map<u32, usize> {
    Map::new(
        |k: u32| peers_having(bitfields, k as int) > 0,
        |k: u32| peers_having(bitfields, k as int) as usize,
    )
}

/// Block-level bookkeeping for a torrent: which blocks are done, which are
/// requested, the piece geometry, and the buffers assembling v1 pieces.
#[derive(Default, Debug)]
pub struct BlockManager {
    pub block_bitfield: Vec<bool>,
    pub pending_blocks: HashSet<u32>,
    pub piece_hashes_v1: Vec<[u8; 20]>,
    /// Map of file index to SHA-256 Merkle root.
    pub file_merkle_roots: HashMap<usize, [u8; 32]>,
    pub legacy_buffers: HashMap<u32, PieceAssembler>,
    pub piece_rarity: HashMap<u32, usize>,
    pub piece_length: u32,
    pub total_length: u64,
    pub total_blocks: u32,
}

impl BlockManager {
    pub open spec fn wf(&self) -> bool {
        &&& self.total_blocks as int == blocks_for(self.total_length as int)
        &&& self.block_bitfield@.len() == self.total_blocks
        &&& forall|k: u32| #[trigger]
            self.legacy_buffers@.contains_key(k) ==> self.legacy_buffers@[k].wf()
    }

    /// Byte length of piece `p` (zero past the end of the torrent).
    pub open spec fn spec_piece_size(&self, p: u32) -> int {
        let off = p as int * self.piece_length as int;
        let rem = if self.total_length as int > off {
            self.total_length as int - off
        } else {
            0
        };
        min_int(self.piece_length as int, rem)
    }

    pub open spec fn spec_range_start(&self, p: u32) -> int {
        ((p as int * self.piece_length as int) / (BLOCK_SIZE as int)) as u32 as int
    }

    /// First global block of piece `p`, and one past its last.
    pub open spec fn spec_block_range(&self, p: u32) -> (int, int) {
        (
            self.spec_range_start(p),
            self.spec_range_start(p) + blocks_for(self.spec_piece_size(p)),
        )
    }

    /// Whether global block `g` is done (blocks past the bitfield count as done).
    pub open spec fn spec_have(&self, g: int) -> bool {
        if 0 <= g < self.block_bitfield@.len() {
            self.block_bitfield@[g]
        } else {
            true
        }
    }

    pub open spec fn spec_inflate(&self, g: u32) -> BlockAddress {
        let go = g as int * BLOCK_SIZE as int;
        let rem = if self.total_length as int > go {
            self.total_length as int - go
        } else {
            0
        };
        let bo = (go % (self.piece_length as int)) as u32;
        BlockAddress {
            piece_index: (go / (self.piece_length as int)) as u32,
            block_index: (bo / BLOCK_SIZE) as u32,
            byte_offset: bo,
            global_offset: go as u64,
            length: min_int(BLOCK_SIZE as int, rem) as u32,
        }
    }

    /// Wanted blocks of the global range `[lo, hi)`: neither done nor pending.
    pub open spec fn spec_range_candidates(&self, lo: int, hi: int) -> Seq<u32>
        decreases hi - lo,
    {
        if hi <= lo {
            Seq::empty()
        } else {
            self.spec_range_candidates(lo, hi - 1) + if !self.spec_have(hi - 1)
                && !self.pending_blocks@.contains((hi - 1) as u32) {
                seq![(hi - 1) as u32]
            } else {
                Seq::empty()
            }
        }
    }

    /// Wanted blocks of the listed pieces that the peer has, in order.
    pub open spec fn spec_candidates(&self, peer_bitfield: Seq<bool>, pieces: Seq<u32>) -> Seq<u32>
        decreases pieces.len(),
    {
        if pieces.len() == 0 {
            Seq::empty()
        } else {
            let p = pieces.last();
            let (lo, hi) = self.spec_block_range(p);
            self.spec_candidates(peer_bitfield, pieces.drop_last()) + if (p as int)
                < peer_bitfield.len() && peer_bitfield[p as int] {
                self.spec_range_candidates(lo, hi)
            } else {
                Seq::empty()
            }
        }
    }

    pub fn new() -> (r: Self)
        ensures
            r.wf(),
            r.block_bitfield@.len() == 0,
            r.pending_blocks@ == Set::<u32>::empty(),
            r.legacy_buffers@ == Map::<u32, PieceAssembler>::empty(),
            r.piece_rarity@ == Map::<u32, usize>::empty(),
            r.piece_length == 0,
            r.total_length == 0,
            r.total_blocks == 0,
    {
        BlockManager {
            block_bitfield: Vec::new(),
            pending_blocks: HashSet::new(),
            piece_hashes_v1: Vec::new(),
            file_merkle_roots: HashMap::new(),
            legacy_buffers: HashMap::new(),
            piece_rarity: HashMap::new(),
            piece_length: 0,
            total_length: 0,
            total_blocks: 0,
        }
    }

    /// Sets the torrent geometry; every block starts done or not done as `validation_complete` says.
    pub fn set_geometry(
        &mut self,
        piece_length: u32,
        total_length: u64,
        v1_hashes: Vec<[u8; 20]>,
        v2_roots: HashMap<usize, [u8; 32]>,
        validation_complete: bool,
    )
        requires
            old(self).wf(),
            blocks_for(total_length as int) <= u32::MAX,
        ensures
            final(self).wf(),
            final(self).piece_length == piece_length,
            final(self).total_length == total_length,
            final(self).total_blocks == blocks_for(total_length as int),
            final(self).block_bitfield@ == Seq::new(
                blocks_for(total_length as int) as nat,
                |i: int| validation_complete,
            ),
            final(self).piece_hashes_v1@ == v1_hashes@,
            final(self).file_merkle_roots@ == v2_roots@,
            final(self).pending_blocks@ == old(self).pending_blocks@,
            final(self).legacy_buffers@ == old(self).legacy_buffers@,
            final(self).piece_rarity@ == old(self).piece_rarity@,
    {
        self.piece_length = piece_length;
        self.total_length = total_length;
        self.piece_hashes_v1 = v1_hashes;
        self.file_merkle_roots = v2_roots;
        self.total_blocks = blocks_for_len(total_length) as u32;
        let bf = vec![validation_complete; self.total_blocks as usize];
        assert(bf@ =~= Seq::new(blocks_for(total_length as int) as nat, |i: int| validation_complete));
        self.block_bitfield = bf;
    }

    /// Byte length of piece `piece_idx`.
    pub fn calculate_piece_size(&self, piece_idx: u32) -> (r: u32)
        ensures
            r == self.spec_piece_size(piece_idx),
    {
        let offset = mul_wide(piece_idx, self.piece_length);
        let remaining = self.total_length.saturating_sub(offset);
        if (self.piece_length as u64) < remaining {
            self.piece_length
        } else {
            remaining as u32
        }
    }

    /// Global block range `[start, end)` of piece `piece_idx`.
    pub fn get_block_range(&self, piece_idx: u32) -> (r: (u32, u32))
        requires
            self.wf(),
        ensures
            r.0 == self.spec_block_range(piece_idx).0,
            r.1 == self.spec_block_range(piece_idx).1,
            r.0 <= r.1,
            self.spec_piece_size(piece_idx) > 0 ==> r.1 <= self.total_blocks,
    {
        let piece_len = self.calculate_piece_size(piece_idx);
        let blocks = blocks_for_len(piece_len as u64) as u32;
        let start_off = mul_wide(piece_idx, self.piece_length);
        let start = (start_off / 16384) as u32;
        proof {
            let a = piece_idx as int * self.piece_length as int;
            if piece_len > 0 {
                lemma_block_range_fits(a, piece_len as int, self.total_length as int);
            } else {
                assert(blocks_for(0) == 0);
            }
        }
        (start, start + blocks)
    }

    /// The address of global block `global_idx`.
    pub fn inflate_address(&self, global_idx: u32) -> (r: BlockAddress)
        requires
            self.piece_length > 0,
        ensures
            r == self.spec_inflate(global_idx),
    {
        let global_offset = global_idx as u64 * 16384;
        let piece_index = (global_offset / self.piece_length as u64) as u32;
        let byte_offset_in_piece = (global_offset % self.piece_length as u64) as u32;
        let remaining_len = self.total_length.saturating_sub(global_offset);
        let length = if 16384 < remaining_len {
            16384u32
        } else {
            remaining_len as u32
        };
        BlockAddress {
            piece_index,
            block_index: byte_offset_in_piece / 16384,
            byte_offset: byte_offset_in_piece,
            global_offset,
            length,
        }
    }

    /// Global block index of an address.
    pub fn flatten_address(&self, addr: BlockAddress) -> (r: u32)
        ensures
            r == (addr.global_offset / (BLOCK_SIZE as u64)) as u32,
    {
        (addr.global_offset / 16384) as u32
    }

    pub fn mark_pending(&mut self, global_idx: u32)
        requires
            old(self).wf(),
        ensures
            final(self).wf(),
            final(self).pending_blocks@ == old(self).pending_blocks@.insert(global_idx),
            final(self).block_bitfield@ == old(self).block_bitfield@,
            final(self).legacy_buffers@ == old(self).legacy_buffers@,
            final(self).piece_length == old(self).piece_length,
            final(self).total_length == old(self).total_length,
    {
        self.pending_blocks.insert(global_idx);
    }

    pub fn unmark_pending(&mut self, global_idx: u32)
        requires
            old(self).wf(),
        ensures
            final(self).wf(),
            final(self).pending_blocks@ == old(self).pending_blocks@.remove(global_idx),
            final(self).block_bitfield@ == old(self).block_bitfield@,
            final(self).legacy_buffers@ == old(self).legacy_buffers@,
            final(self).piece_length == old(self).piece_length,
            final(self).total_length == old(self).total_length,
    {
        self.pending_blocks.remove(&global_idx);
    }

    /// The expected Merkle root of file `file_index`, if known.
    pub fn get_root_for_file(&self, file_index: usize) -> (r: Option<[u8; 32]>)
        ensures
            r == (if self.file_merkle_roots@.contains_key(file_index) {
                Some(self.file_merkle_roots@[file_index])
            } else {
                None
            }),
    {
        match self.file_merkle_roots.get(&file_index) {
            Some(root) => Some(*root),
            None => None,
        }
    }

    /// Marks an already verified block done; a block already done, or past the
    /// end of the torrent, is reported as a duplicate.
    pub fn commit_verified_block(&mut self, addr: BlockAddress) -> (r: BlockResult)
        requires
            old(self).wf(),
        ensures
            final(self).wf(),
            ({
                let g = (addr.global_offset / (BLOCK_SIZE as u64)) as u32 as int;
                if g < old(self).block_bitfield@.len() && !old(self).block_bitfield@[g] {
                    &&& r is Accepted
                    &&& final(self).block_bitfield@ == old(self).block_bitfield@.update(g, true)
                    &&& final(self).pending_blocks@ == old(self).pending_blocks@.remove(g as u32)
                    &&& *final(self) == (BlockManager {
                        block_bitfield: final(self).block_bitfield,
                        pending_blocks: final(self).pending_blocks,
                        ..*old(self)
                    })
                } else {
                    &&& r is Duplicate
                    &&& *final(self) == *old(self)
                }
            }),
            final(self).legacy_buffers@ == old(self).legacy_buffers@,
            final(self).piece_length == old(self).piece_length,
            final(self).total_length == old(self).total_length,
            final(self).total_blocks == old(self).total_blocks,
    {
        let global_idx = self.flatten_address(addr);
        if global_idx as usize >= self.block_bitfield.len() {
            return BlockResult::Duplicate;
        }
        if self.block_bitfield[global_idx as usize] {
            return BlockResult::Duplicate;
        }
        self.block_bitfield.set(global_idx as usize, true);
        self.pending_blocks.remove(&global_idx);
        BlockResult::Accepted
    }

    /// Whether global block `g` is inside the bitfield and done.
    pub open spec fn spec_block_done(&self, g: int) -> bool {
        0 <= g < self.block_bitfield@.len() && self.block_bitfield@[g]
    }

    /// Whether every block of piece `piece_index` is done.
    pub fn is_piece_complete(&self, piece_index: u32) -> (r: bool)
        requires
            self.wf(),
        ensures
            r == (forall|g: int|
                self.spec_block_range(piece_index).0 <= g < self.spec_block_range(piece_index).1
                    ==> #[trigger] self.spec_block_done(g)),
    {
        let (start, end) = self.get_block_range(piece_index);
        let mut i = start;
        while i < end
            invariant
                start <= i <= end,
                start == self.spec_block_range(piece_index).0,
                end == self.spec_block_range(piece_index).1,
                forall|g: int| start <= g < i ==> #[trigger] self.spec_block_done(g),
            decreases end - i,
        {
            let in_range = (i as usize) < self.block_bitfield.len();
            if !in_range || !self.block_bitfield[i as usize] {
                assert(!self.spec_block_done(i as int));
                return false;
            }
            i = i + 1;
        }
        true
    }

    /// Picks up to `count` wanted blocks from the listed pieces that the peer has,
    /// in the order of `rarest_pieces` and then of block index.
    pub fn pick_blocks_for_peer(
        &self,
        peer_bitfield: &[bool],
        count: usize,
        rarest_pieces: &[u32],
    ) -> (picked: Vec<BlockAddress>)
        requires
            self.wf(),
        ensures
            ({
                let cands = self.spec_candidates(peer_bitfield@, rarest_pieces@);
                picked@ == cands.take(min_int(count as int, cands.len() as int)).map_values(
                    |g: u32| self.spec_inflate(g),
                )
            }),
    {
        let mut picked: Vec<BlockAddress> = Vec::new();
        let mut j: usize = 0;
        while j < rarest_pieces.len()
            invariant
                self.wf(),
                j <= rarest_pieces@.len(),
                ({
                    let cands = self.spec_candidates(peer_bitfield@, rarest_pieces@.take(j as int));
                    picked@ == cands.take(min_int(count as int, cands.len() as int)).map_values(
                        |g: u32| self.spec_inflate(g),
                    )
                }),
            decreases rarest_pieces@.len() - j,
        {
            let ghost before = self.spec_candidates(peer_bitfield@, rarest_pieces@.take(j as int));
            assert(rarest_pieces@.take(j + 1).drop_last() =~= rarest_pieces@.take(j as int));
            if picked.len() >= count {
                proof {
                    lemma_candidates_prefix_monotone(self, peer_bitfield@, rarest_pieces@, j as int);
                    lemma_take_prefix_stable(
                        before,
                        self.spec_candidates(peer_bitfield@, rarest_pieces@),
                        count as int,
                    );
                }
                return picked;
            }
            let piece_idx = rarest_pieces[j];
            let has = (piece_idx as usize) < peer_bitfield.len() && peer_bitfield[piece_idx as usize];
            if has {
                let (start_blk, end_blk) = self.get_block_range(piece_idx);
                let mut g = start_blk;
                while g < end_blk
                    invariant
                        self.wf(),
                        start_blk <= g <= end_blk,
                        start_blk == self.spec_block_range(piece_idx).0,
                        end_blk == self.spec_block_range(piece_idx).1,
                        start_blk < end_blk ==> self.piece_length > 0,
                        picked@.len() <= count,
                        ({
                            let cs = before + self.spec_range_candidates(start_blk as int, g as int);
                            picked@ == cs.take(min_int(count as int, cs.len() as int)).map_values(
                                |x: u32| self.spec_inflate(x),
                            )
                        }),
                    ensures
                        g == end_blk || picked@.len() >= count,
                    decreases end_blk - g,
                {
                    let ghost cs = before + self.spec_range_candidates(start_blk as int, g as int);
                    let ghost cs2 = before + self.spec_range_candidates(
                        start_blk as int,
                        g as int + 1,
                    );
                    if picked.len() >= count {
                        break;
                    }
                    let already_have = if (g as usize) < self.block_bitfield.len() {
                        self.block_bitfield[g as usize]
                    } else {
                        true
                    };
                    let is_pending = self.pending_blocks.contains(&g);
                    if !already_have && !is_pending {
                        proof {
                            if self.piece_length == 0 {
                                assert(self.spec_piece_size(piece_idx) == 0);
                                assert(blocks_for(0) == 0);
                            }
                        }
                        let addr = self.inflate_address(g);
                        picked.push(addr);
                        assert(cs2 =~= cs.push(g));
                        assert(picked@ =~= cs2.take(min_int(count as int, cs2.len() as int)).map_values(
                            |x: u32| self.spec_inflate(x),
                        ));
                    } else {
                        assert(cs2 =~= cs);
                    }
                    g = g + 1;
                }
                proof {
                    let cs = before + self.spec_range_candidates(start_blk as int, g as int);
                    let full = before + self.spec_range_candidates(
                        start_blk as int,
                        end_blk as int,
                    );
                    assert(full =~= self.spec_candidates(peer_bitfield@, rarest_pieces@.take(j + 1)));
                    if picked@.len() >= count {
                        lemma_range_candidates_split(self, start_blk as int, g as int, end_blk as int);
                        assert(full =~= cs + self.spec_range_candidates(g as int, end_blk as int));
                        lemma_take_prefix_stable(cs, full, count as int);
                    }
                }
            } else {
                assert(self.spec_candidates(peer_bitfield@, rarest_pieces@.take(j + 1)) =~= before);
            }
            j = j + 1;
        }
        assert(rarest_pieces@.take(rarest_pieces@.len() as int) =~= rarest_pieces@);
        picked
    }

    /// The block address of data received for (`piece_index`, `block_offset`).
    pub open spec fn spec_overlay(&self, piece_index: u32, block_offset: u32, length: u32) -> Option<
        BlockAddress,
    > {
        let start = piece_index as int * self.piece_length as int;
        if self.piece_length == 0 || start >= self.total_length || block_offset
            >= self.spec_piece_size(piece_index) || block_offset % BLOCK_SIZE != 0 {
            None
        } else {
            Some(
                BlockAddress {
                    piece_index,
                    block_index: block_offset / BLOCK_SIZE,
                    byte_offset: block_offset,
                    global_offset: (start + block_offset) as u64,
                    length,
                },
            )
        }
    }

    /// Maps a (piece, byte offset) pair received from a peer to a block address.
    /// `None` when the geometry is unset, the piece is past the end of the
    /// torrent, or the offset is not a block boundary inside the piece.
    pub fn inflate_address_from_overlay(&self, piece_index: u32, block_offset: u32, length: u32) -> (r:
        Option<BlockAddress>)
        ensures
            r == self.spec_overlay(piece_index, block_offset, length),
    {
        if self.piece_length == 0 {
            return None;
        }
        let start = mul_wide(piece_index, self.piece_length);
        if start >= self.total_length {
            return None;
        }
        let piece_len = self.calculate_piece_size(piece_index);
        if block_offset >= piece_len || block_offset % 16384 != 0 {
            return None;
        }
        Some(
            BlockAddress {
                piece_index,
                block_index: block_offset / 16384,
                byte_offset: block_offset,
                global_offset: start + block_offset as u64,
                length,
            },
        )
    }

    /// `new` is `old` after buffering `data` at `addr`, with `r` the assembled
    /// piece if that block completed it.
    pub open spec fn spec_buffered(
        old: &BlockManager,
        new: &BlockManager,
        addr: BlockAddress,
        data: Seq<u8>,
        r: Option<Vec<u8>>,
    ) -> bool {
        &&& new.block_bitfield@ == old.block_bitfield@
        &&& new.pending_blocks@ == old.pending_blocks@
        &&& new.piece_rarity@ == old.piece_rarity@
        &&& new.piece_length == old.piece_length
        &&& new.total_length == old.total_length
        &&& new.total_blocks == old.total_blocks
        &&& new.legacy_buffers@.dom().remove(addr.piece_index) =~= old.legacy_buffers@.dom().remove(
            addr.piece_index,
        )
        &&& forall|k: u32|
            k != addr.piece_index && #[trigger] old.legacy_buffers@.contains_key(k)
                ==> new.legacy_buffers@[k] == old.legacy_buffers@[k]
        &&& exists|base: PieceAssembler, after: PieceAssembler|
            {
                &&& (if old.legacy_buffers@.contains_key(addr.piece_index) {
                    base == old.legacy_buffers@[addr.piece_index]
                } else {
                    base.spec_fresh(old.spec_piece_size(addr.piece_index))
                })
                &&& after.spec_after_block(base, addr.block_index as int, data)
                &&& if after.spec_complete() {
                    &&& r matches Some(v) && v@ == joined(after.blocks@)
                    &&& !new.legacy_buffers@.contains_key(addr.piece_index)
                } else {
                    &&& r is None
                    &&& new.legacy_buffers@.contains_key(addr.piece_index)
                    &&& new.legacy_buffers@[addr.piece_index] == after
                }
            }
    }

    /// Buffers a v1 block; returns the whole piece once its last block arrives,
    /// and then drops the piece's buffer.
    pub fn handle_v1_block_buffering(&mut self, addr: BlockAddress, data: &[u8]) -> (r: Option<
        Vec<u8>,
    >)
        requires
            old(self).wf(),
        ensures
            final(self).wf(),
            Self::spec_buffered(old(self), final(self), addr, data@, r),
    {
        let piece_len = self.calculate_piece_size(addr.piece_index);
        let mut assembler = match self.legacy_buffers.remove(&addr.piece_index) {
            Some(existing) => existing,
            None => PieceAssembler::fresh(piece_len),
        };
        let ghost base = assembler;
        assembler.accept(addr.block_index, data);
        if assembler.received_blocks == assembler.total_blocks {
            let out = assembler.assemble();
            return Some(out);
        }
        self.legacy_buffers.insert(addr.piece_index, assembler);
        None
    }

    /// Marks every block of a verified v1 piece done.
    pub fn commit_v1_piece(&mut self, piece_index: u32)
        requires
            old(self).wf(),
        ensures
            final(self).wf(),
            final(self).block_bitfield@.len() == old(self).block_bitfield@.len(),
            forall|g: int|
                0 <= g < old(self).block_bitfield@.len() ==> #[trigger] final(self).block_bitfield@[g]
                    == if old(self).spec_block_range(piece_index).0 <= g < old(
                    self,
                ).spec_block_range(piece_index).1 {
                    true
                } else {
                    old(self).block_bitfield@[g]
                },
            final(self).pending_blocks@ == old(self).pending_blocks@,
            final(self).legacy_buffers@ == old(self).legacy_buffers@,
            final(self).piece_rarity@ == old(self).piece_rarity@,
            final(self).piece_length == old(self).piece_length,
            final(self).total_length == old(self).total_length,
            final(self).total_blocks == old(self).total_blocks,
    {
        self.set_piece_blocks(piece_index, true);
    }

    /// Marks every block of a piece not done again (e.g. after a failed disk write).
    pub fn revert_v1_piece_completion(&mut self, piece_index: u32)
        requires
            old(self).wf(),
        ensures
            final(self).wf(),
            final(self).block_bitfield@.len() == old(self).block_bitfield@.len(),
            forall|g: int|
                0 <= g < old(self).block_bitfield@.len() ==> #[trigger] final(self).block_bitfield@[g]
                    == if old(self).spec_block_range(piece_index).0 <= g < old(
                    self,
                ).spec_block_range(piece_index).1 {
                    false
                } else {
                    old(self).block_bitfield@[g]
                },
            final(self).pending_blocks@ == old(self).pending_blocks@,
            final(self).legacy_buffers@ == old(self).legacy_buffers@,
            final(self).piece_rarity@ == old(self).piece_rarity@,
            final(self).piece_length == old(self).piece_length,
            final(self).total_length == old(self).total_length,
            final(self).total_blocks == old(self).total_blocks,
    {
        self.set_piece_blocks(piece_index, false);
    }

    fn set_piece_blocks(&mut self, piece_index: u32, value: bool)
        requires
            old(self).wf(),
        ensures
            final(self).wf(),
            final(self).block_bitfield@.len() == old(self).block_bitfield@.len(),
            forall|g: int|
                0 <= g < old(self).block_bitfield@.len() ==> #[trigger] final(self).block_bitfield@[g]
                    == if old(self).spec_block_range(piece_index).0 <= g < old(
                    self,
                ).spec_block_range(piece_index).1 {
                    value
                } else {
                    old(self).block_bitfield@[g]
                },
            final(self).pending_blocks@ == old(self).pending_blocks@,
            final(self).legacy_buffers@ == old(self).legacy_buffers@,
            final(self).piece_rarity@ == old(self).piece_rarity@,
            final(self).piece_length == old(self).piece_length,
            final(self).total_length == old(self).total_length,
            final(self).total_blocks == old(self).total_blocks,
            final(self).spec_block_range(piece_index) == old(self).spec_block_range(piece_index),
    {
        let (start, end) = self.get_block_range(piece_index);
        let ghost orig = self.block_bitfield@;
        let mut i = start;
        while i < end
            invariant
                start <= i <= end,
                start == old(self).spec_block_range(piece_index).0,
                end == old(self).spec_block_range(piece_index).1,
                self.block_bitfield@.len() == orig.len(),
                orig == old(self).block_bitfield@,
                forall|g: int|
                    0 <= g < orig.len() ==> #[trigger] self.block_bitfield@[g] == if start <= g < i {
                        value
                    } else {
                        orig[g]
                    },
                self.pending_blocks@ == old(self).pending_blocks@,
                self.legacy_buffers@ == old(self).legacy_buffers@,
                self.piece_rarity@ == old(self).piece_rarity@,
                self.piece_length == old(self).piece_length,
                self.total_length == old(self).total_length,
                self.total_blocks == old(self).total_blocks,
                self.wf(),
            decreases end - i,
        {
            if (i as usize) < self.block_bitfield.len() {
                self.block_bitfield.set(i as usize, value);
            }
            i = i + 1;
        }
    }

    /// Drops the assembly buffer of a piece.
    pub fn reset_v1_buffer(&mut self, piece_index: u32)
        requires
            old(self).wf(),
        ensures
            final(self).wf(),
            final(self).legacy_buffers@ == old(self).legacy_buffers@.remove(piece_index),
            final(self).block_bitfield@ == old(self).block_bitfield@,
            final(self).pending_blocks@ == old(self).pending_blocks@,
            final(self).piece_rarity@ == old(self).piece_rarity@,
            final(self).piece_length == old(self).piece_length,
            final(self).total_length == old(self).total_length,
            final(self).total_blocks == old(self).total_blocks,
    {
        self.legacy_buffers.remove(&piece_index);
    }

    /// Recounts, for every piece, how many of the given peers have it.
    pub fn update_rarity(&mut self, all_peer_bitfields: &[Vec<bool>])
        requires
            old(self).wf(),
            forall|j: int|
                0 <= j < all_peer_bitfields@.len() ==> #[trigger] all_peer_bitfields@[j]@.len()
                    <= u32::MAX + 1,
        ensures
            final(self).wf(),
            final(self).piece_rarity@ == rarity_map(bitfield_views(all_peer_bitfields@)),
            final(self).block_bitfield@ == old(self).block_bitfield@,
            final(self).pending_blocks@ == old(self).pending_blocks@,
            final(self).legacy_buffers@ == old(self).legacy_buffers@,
            final(self).piece_length == old(self).piece_length,
            final(self).total_length == old(self).total_length,
            final(self).total_blocks == old(self).total_blocks,
    {
        let r = count_rarity(all_peer_bitfields, None);
        assert(r@ =~= rarity_map(bitfield_views(all_peer_bitfields@)));
        self.piece_rarity = r;
    }
}

/// Whether piece `k` is counted, given the optional bitfield of pieces already done.
pub open spec fn kept(done: Option<Seq<bool>>, k: u32) -> bool {
    match done {
        None => true,
        Some(d) => !((k as int) < d.len() && d[k as int]),
    }
}

/// The rarity map restricted to the pieces that `done` does not mark done.
pub open spec fn kept_rarity_map(bitfields: Seq<Seq<bool>>, done: Option<Seq<bool>>) -> Map<u32, usize> {
    Map::new(
        |k: u32| peers_having(bitfields, k as int) > 0 && kept(done, k),
        |k: u32| peers_having(bitfields, k as int) as usize,
    )
}

/// Counts, per piece, the peers that have it; with `done`, pieces marked done
/// there are left out.
pub fn count_rarity(all_peer_bitfields: &[Vec<bool>], done: Option<&Vec<bool>>) -> (r: HashMap<
    u32,
    usize,
>)
    requires
        forall|j: int|
            0 <= j < all_peer_bitfields@.len() ==> #[trigger] all_peer_bitfields@[j]@.len()
                <= u32::MAX + 1,
    ensures
        r@ == kept_rarity_map(
            bitfield_views(all_peer_bitfields@),
            match done {
                None => None,
                Some(d) => Some(d@),
            },
        ),
{
    let ghost bfs = bitfield_views(all_peer_bitfields@);
    let ghost dv: Option<Seq<bool>> = match done {
        None => None,
        Some(d) => Some(d@),
    };
    let mut rarity: HashMap<u32, usize> = HashMap::new();
    let n = all_peer_bitfields.len();
    let mut j: usize = 0;
    while j < n
        invariant
            n == all_peer_bitfields@.len(),
            j <= all_peer_bitfields@.len(),
            bfs == bitfield_views(all_peer_bitfields@),
            dv == (match done {
                None => None,
                Some(d) => Some(d@),
            }),
            forall|jj: int|
                0 <= jj < all_peer_bitfields@.len() ==> #[trigger] all_peer_bitfields@[jj]@.len()
                    <= u32::MAX + 1,
            rarity@ == kept_rarity_map(bfs.take(j as int), dv),
        decreases all_peer_bitfields@.len() - j,
    {
        let bf = &all_peer_bitfields[j];
        let ghost prefix = bfs.take(j as int);
        let ghost next = bfs.take(j + 1);
        assert(next.drop_last() =~= prefix);
        assert(next.last() == bf@);
        proof {
            assert forall|k: int| #[trigger] peers_having(prefix, k) <= j by {
                lemma_peers_having_bounded(prefix, k);
            }
        }
        let mut i: usize = 0;
        while i < bf.len()
            invariant
                i <= bf@.len(),
                bf@.len() <= u32::MAX + 1,
                j < n,
                prefix.len() == j,
                dv == (match done {
                    None => None,
                    Some(d) => Some(d@),
                }),
                rarity@ == Map::new(
                    |k: u32|
                        peers_having(prefix, k as int) + (if (k as int) < i && bf@[k as int] {
                            1nat
                        } else {
                            0nat
                        }) > 0 && kept(dv, k),
                    |k: u32|
                        (peers_having(prefix, k as int) + (if (k as int) < i && bf@[k as int] {
                            1nat
                        } else {
                            0nat
                        })) as usize,
                ),
                forall|k: int| #[trigger] peers_having(prefix, k) <= j,
            decreases bf@.len() - i,
        {
            if bf[i] {
                let k = i as u32;
                let skip = match done {
                    None => false,
                    Some(d) => i < d.len() && d[i],
                };
                if !skip {
                    let cur = match rarity.get(&k) {
                        Some(c) => *c,
                        None => 0,
                    };
                    assert(peers_having(prefix, k as int) <= j);
                    assert(cur <= j);
                    rarity.insert(k, cur + 1);
                }
            }
            assert(rarity@ =~= Map::new(
                |k: u32|
                    peers_having(prefix, k as int) + (if (k as int) < i + 1 && bf@[k as int] {
                        1nat
                    } else {
                        0nat
                    }) > 0 && kept(dv, k),
                |k: u32|
                    (peers_having(prefix, k as int) + (if (k as int) < i + 1 && bf@[k as int] {
                        1nat
                    } else {
                        0nat
                    })) as usize,
            ));
            i = i + 1;
        }
        assert forall|k: u32|
            #![trigger peers_having(next, k as int)]
            peers_having(next, k as int) == peers_having(prefix, k as int) + (if (k as int)
                < bf@.len() && bf@[k as int] {
                1nat
            } else {
                0nat
            }) by {}
        assert(rarity@ =~= kept_rarity_map(next, dv));
        j = j + 1;
    }
    assert(bfs.take(all_peer_bitfields@.len() as int) =~= bfs);
    rarity
}

/// Taking `n` from a sequence is unchanged by appending, once it has `n` elements.
proof fn lemma_take_prefix_stable(a: Seq<u32>, b: Seq<u32>, n: int)
    requires
        a.len() >= n >= 0,
        b.len() >= a.len(),
        b.take(a.len() as int) =~= a,
    ensures
        b.take(min_int(n, b.len() as int)) =~= a.take(min_int(n, a.len() as int)),
{
}

proof fn lemma_range_candidates_split(bm: &BlockManager, lo: int, mid: int, hi: int)
    requires
        lo <= mid <= hi,
    ensures
        bm.spec_range_candidates(lo, hi) =~= bm.spec_range_candidates(lo, mid)
            + bm.spec_range_candidates(mid, hi),
    decreases hi - mid,
{
    if hi > mid {
        lemma_range_candidates_split(bm, lo, mid, hi - 1);
        assert(bm.spec_range_candidates(mid, hi) =~= bm.spec_range_candidates(mid, hi - 1)
            + if !bm.spec_have(hi - 1) && !bm.pending_blocks@.contains((hi - 1) as u32) {
            seq![(hi - 1) as u32]
        } else {
            Seq::empty()
        });
    } else {
        assert(bm.spec_range_candidates(mid, hi) =~= Seq::<u32>::empty());
    }
}

proof fn lemma_candidates_prefix_monotone(
    bm: &BlockManager,
    peer: Seq<bool>,
    pieces: Seq<u32>,
    j: int,
)
    requires
        0 <= j <= pieces.len(),
    ensures
        bm.spec_candidates(peer, pieces).len() >= bm.spec_candidates(peer, pieces.take(j)).len(),
        bm.spec_candidates(peer, pieces).take(bm.spec_candidates(peer, pieces.take(j)).len() as int)
            =~= bm.spec_candidates(peer, pieces.take(j)),
    decreases pieces.len() - j,
{
    if j < pieces.len() {
        lemma_candidates_prefix_monotone(bm, peer, pieces, j + 1);
        assert(pieces.take(j + 1).drop_last() =~= pieces.take(j));
    } else {
        assert(pieces.take(j) =~= pieces);
    }
}

} // verus!
