//! BitTorrent v2 piece hashing: the Merkle root of a piece's 16 KiB blocks,
//! and checking a piece against a root through a proof of sibling hashes.
use vstd::prelude::*;

verus! {

/// The size of a Merkle leaf block.
pub const MERKLE_BLOCK_SIZE: usize = 16_384;

/// The SHA-256 digest of some bytes.
pub uninterp spec fn sha256(data: Seq<u8>) -> Seq<u8>;

/// `sha2::Sha256::digest`: the SHA-256 digest of `data`, 32 bytes long.
#[verifier::external_body]
fn sha256_digest(data: &[u8]) -> (r: [u8; 32])
    ensures
        r@ == sha256(data@),
{
    <sha2::Sha256 as sha2::Digest>::digest(data).into()
}

/// Thirty-two zero bytes: the hash of a missing leaf.
pub open spec fn zero_hash() -> Seq<u8> {
    Seq::new(32, |i: int| 0u8)
}

/// The number of blocks `len` bytes take.
pub open spec fn block_count(len: int) -> int {
    (len + MERKLE_BLOCK_SIZE - 1) / MERKLE_BLOCK_SIZE as int
}

/// The leaves: the hash of each 16 KiB block of `data` (the last may be short).
pub open spec fn leaf_hashes(data: Seq<u8>) -> Seq<Seq<u8>> {
    Seq::new(
        block_count(data.len() as int) as nat,
        |i: int|
            {
                let end = if (i + 1) * MERKLE_BLOCK_SIZE < data.len() {
                    (i + 1) * MERKLE_BLOCK_SIZE
                } else {
                    data.len() as int
                };
                sha256(data.subrange(i * MERKLE_BLOCK_SIZE, end))
            },
    )
}

/// The smallest power of two that is at least `n`, starting the search at `p`.
pub open spec fn power_of_two_from(n: int, p: int) -> int
    decreases if p < n { n - p } else { 0 },
{
    if p <= 0 || p >= n {
        p
    } else {
        power_of_two_from(n, 2 * p)
    }
}

/// The smallest power of two that is at least `n` (1 for 0).
pub open spec fn next_power_of_two(n: int) -> int {
    power_of_two_from(n, 1)
}

/// The leaves padded with zero hashes up to `count`.
pub open spec fn padded(leaves: Seq<Seq<u8>>, count: int) -> Seq<Seq<u8>> {
    if leaves.len() < count {
        leaves + Seq::new((count - leaves.len()) as nat, |i: int| zero_hash())
    } else {
        leaves
    }
}

/// One level up: each pair hashed together, a last odd node hashed alone.
pub open spec fn next_layer(layer: Seq<Seq<u8>>) -> Seq<Seq<u8>> {
    Seq::new(
        ((layer.len() + 1) / 2) as nat,
        |i: int|
            if 2 * i + 1 < layer.len() {
                sha256(layer[2 * i] + layer[2 * i + 1])
            } else {
                sha256(layer[2 * i])
            },
    )
}

/// The root a layer reduces to.
pub open spec fn reduce(layer: Seq<Seq<u8>>) -> Seq<u8>
    decreases layer.len(),
{
    if layer.len() <= 1 {
        layer[0]
    } else {
        reduce(next_layer(layer))
    }
}

/// The v2 root of a piece: its leaves, padded with zero hashes to the power
/// of two that covers `expected_len` bytes of blocks, reduced pairwise.
pub open spec fn v2_piece_root(data: Seq<u8>, expected_len: int) -> Seq<u8> {
    reduce(padded(leaf_hashes(data), next_power_of_two(block_count(expected_len))))
}

/// The hash reached by climbing from `hash` at position `idx` through the
/// sibling hashes of `proof` (32 bytes each, the last possibly shorter),
/// from the `k`-th on.
pub open spec fn climb(hash: Seq<u8>, idx: int, proof: Seq<u8>, k: int) -> Seq<u8>
    decreases if 32 * k < proof.len() { proof.len() - 32 * k } else { 0 },
{
    if k < 0 || 32 * k >= proof.len() {
        hash
    } else {
        let end = if 32 * k + 32 < proof.len() { 32 * k + 32 } else { proof.len() as int };
        let sibling = proof.subrange(32 * k, end);
        let up = if idx % 2 == 0 { sha256(hash + sibling) } else { sha256(sibling + hash) };
        climb(up, idx / 2, proof, k + 1)
    }
}

/// Appends the bytes of `b` to `r`.
fn append_bytes(r: &mut Vec<u8>, b: &[u8])
    ensures
        final(r)@ == old(r)@ + b@,
{
    let mut i: usize = 0;
    while i < b.len()
        invariant
            i <= b@.len(),
            r@ == old(r)@ + b@.subrange(0, i as int),
        decreases b@.len() - i,
    {
        r.push(b[i]);
        proof {
            assert(b@.subrange(0, i + 1) =~= b@.subrange(0, i as int).push(b@[i as int]));
        }
        i = i + 1;
    }
    assert(b@.subrange(0, i as int) =~= b@);
}

/// The hash of two byte strings, one after the other.
fn hash_pair(a: &[u8], b: &[u8]) -> (r: [u8; 32])
    ensures
        r@ == sha256(a@ + b@),
{
    let mut buf: Vec<u8> = Vec::new();
    append_bytes(&mut buf, a);
    append_bytes(&mut buf, b);
    assert(buf@ =~= a@ + b@);
    sha256_digest(buf.as_slice())
}

/// The views of a layer.
pub open spec fn layer_view(v: Seq<[u8; 32]>) -> Seq<Seq<u8>> {
    v.map_values(|a: [u8; 32]| a@)
}

/// Computes the v2 root of a piece (see `v2_piece_root`).
pub fn compute_v2_piece_root(data: &[u8], expected_len: usize) -> (r: [u8; 32])
    ensures
        r@ == v2_piece_root(data@, expected_len as int),
{
    let blocks = expected_len / MERKLE_BLOCK_SIZE + if expected_len % MERKLE_BLOCK_SIZE == 0 { 0 } else { 1 };
    proof {
        assert(blocks == block_count(expected_len as int));
        assert(blocks <= usize::MAX / MERKLE_BLOCK_SIZE + 1);
    }
    // The smallest power of two covering the blocks.
    let mut leaf_count: usize = 1;
    while leaf_count < blocks
        invariant
            1 <= leaf_count,
            blocks <= usize::MAX / MERKLE_BLOCK_SIZE + 1,
            leaf_count == 1 || leaf_count < 2 * blocks,
            power_of_two_from(blocks as int, leaf_count as int) == next_power_of_two(blocks as int),
        decreases if leaf_count < blocks { blocks - leaf_count } else { 0 },
    {
        leaf_count = leaf_count * 2;
    }
    proof {
        assert(power_of_two_from(blocks as int, leaf_count as int) == leaf_count);
    }
    // Hash the blocks.
    let n = data.len();
    let nblocks = n / MERKLE_BLOCK_SIZE + if n % MERKLE_BLOCK_SIZE == 0 { 0 } else { 1 };
    let ghost leaves = leaf_hashes(data@);
    proof {
        assert(nblocks == leaves.len());
    }
    let mut layer: Vec<[u8; 32]> = Vec::new();
    let mut b: usize = 0;
    while b < nblocks
        invariant
            n == data@.len(),
            nblocks == leaves.len(),
            nblocks == block_count(n as int),
            b <= nblocks,
            layer@.len() == b,
            leaves == leaf_hashes(data@),
            layer_view(layer@) == leaves.subrange(0, b as int),
        decreases nblocks - b,
    {
        proof {
            assert(b * MERKLE_BLOCK_SIZE < n) by (nonlinear_arith)
                requires
                    b < nblocks,
                    nblocks == (n + MERKLE_BLOCK_SIZE - 1) / MERKLE_BLOCK_SIZE as int,
            {
            }
        }
        let start = b * MERKLE_BLOCK_SIZE;
        let end = if n - start > MERKLE_BLOCK_SIZE { start + MERKLE_BLOCK_SIZE } else { n };
        let chunk = slice_range(data, start, end);
        let h = sha256_digest(chunk);
        let ghost before = layer@;
        layer.push(h);
        proof {
            assert(layer_view(layer@) =~= layer_view(before).push(h@));
            assert(leaves.subrange(0, b + 1) =~= leaves.subrange(0, b as int).push(leaves[b as int]));
        }
        b = b + 1;
    }
    proof {
        assert(layer_view(layer@) =~= leaves);
    }
    // Pad to the leaf count.
    let empty_hash: [u8; 32] = [0u8; 32];
    assert(empty_hash@ =~= zero_hash());
    let ghost base = layer_view(layer@);
    while layer.len() < leaf_count
        invariant
            empty_hash@ == zero_hash(),
            base == leaves,
            layer@.len() >= base.len(),
            layer@.len() <= if base.len() < leaf_count { leaf_count as int } else { base.len() as int },
            layer_view(layer@).subrange(0, base.len() as int) == base,
            forall|k: int| base.len() <= k < layer@.len() ==> #[trigger] layer_view(layer@)[k] == zero_hash(),
        decreases leaf_count - layer@.len(),
    {
        let ghost before = layer@;
        layer.push(empty_hash);
        proof {
            assert(layer_view(layer@) =~= layer_view(before).push(zero_hash()));
            assert(layer_view(layer@).subrange(0, base.len() as int) =~= layer_view(before).subrange(0, base.len() as int));
        }
    }
    proof {
        let p = padded(leaves, leaf_count as int);
        if base.len() < leaf_count {
            assert(layer@.len() == leaf_count);
            assert forall|k: int| 0 <= k < p.len() implies #[trigger] layer_view(layer@)[k] == p[k] by {
                if k < base.len() {
                    assert(layer_view(layer@)[k] == layer_view(layer@).subrange(0, base.len() as int)[k]);
                }
            }
        } else {
            assert(layer@.len() == base.len());
            assert forall|k: int| 0 <= k < p.len() implies #[trigger] layer_view(layer@)[k] == p[k] by {
                assert(layer_view(layer@)[k] == layer_view(layer@).subrange(0, base.len() as int)[k]);
            }
        }
        assert(layer_view(layer@) =~= p);
        assert(layer@.len() >= 1);
    }
    // Reduce pairwise.
    while layer.len() > 1
        invariant
            layer@.len() >= 1,
            reduce(layer_view(layer@)) == v2_piece_root(data@, expected_len as int),
        decreases layer@.len(),
    {
        let ghost cur = layer_view(layer@);
        let mut next: Vec<[u8; 32]> = Vec::new();
        let pairs = layer.len() / 2 + layer.len() % 2;
        let mut j: usize = 0;
        while j < pairs
            invariant
                cur == layer_view(layer@),
                pairs == (layer@.len() + 1) / 2,
                j <= pairs,
                next@.len() == j,
                layer_view(next@) == next_layer(cur).subrange(0, j as int),
            decreases pairs - j,
        {
            let len = layer.len();
            assert(2 * j < len);
            let i = j + j;
            let h = if i + 1 < layer.len() {
                hash_pair(&layer[i], &layer[i + 1])
            } else {
                sha256_digest(&layer[i])
            };
            let ghost before = next@;
            next.push(h);
            proof {
                assert(layer_view(next@) =~= layer_view(before).push(h@));
                assert(next_layer(cur).subrange(0, j + 1) =~= next_layer(cur).subrange(0, j as int).push(next_layer(cur)[j as int]));
            }
            j = j + 1;
        }
        proof {
            assert(layer_view(next@) =~= next_layer(cur));
        }
        layer = next;
    }
    layer[0]
}

/// The bytes `from..to` of a slice.
fn slice_range(data: &[u8], from: usize, to: usize) -> (r: &[u8])
    requires
        from <= to <= data@.len(),
    ensures
        r@ == data@.subrange(from as int, to as int),
{
    let (head, _) = data.split_at(to);
    let (_, mid) = head.split_at(from);
    mid
}

/// Whether a piece matches a v2 root: its own root (see `v2_piece_root`,
/// over `hashing_context_len` bytes) when there is no proof, else the hash
/// reached by climbing from its own root at `relative_index` through the
/// proof's sibling hashes.
pub fn verify_merkle_proof(
    target_root_hash: &[u8],
    piece_data: &[u8],
    relative_index: u32,
    proof: &[u8],
    hashing_context_len: usize,
) -> (r: bool)
    ensures
        r == (climb(v2_piece_root(piece_data@, hashing_context_len as int), relative_index as int, proof@, 0)
            == target_root_hash@),
{
    let calculated_root = compute_v2_piece_root(piece_data, hashing_context_len);
    let mut current: [u8; 32] = calculated_root;
    let mut idx = relative_index;
    let ghost mut k: int = 0;
    let mut from: usize = 0;
    let n = proof.len();
    while from < n
        invariant
            n == proof@.len(),
            k >= 0,
            from <= n,
            from as int == if 32 * k < n { 32 * k } else { n as int },
            climb(current@, idx as int, proof@, k) == climb(calculated_root@, relative_index as int, proof@, 0),
        decreases n - from,
    {
        let to = if n - from > 32 { from + 32 } else { n };
        let sibling = slice_range(proof, from, to);
        current = if idx % 2 == 0 {
            hash_pair(&current, sibling)
        } else {
            hash_pair(sibling, &current)
        };
        idx = idx / 2;
        from = to;
        proof {
            k = k + 1;
        }
    }
    bytes_match(&current, target_root_hash)
}

/// Whether two byte slices are equal.
fn bytes_match(a: &[u8], b: &[u8]) -> (r: bool)
    ensures
        r == (a@ == b@),
{
    if a.len() != b.len() {
        return false;
    }
    let mut i: usize = 0;
    while i < a.len()
        invariant
            a@.len() == b@.len(),
            i <= a@.len(),
            forall|j: int| 0 <= j < i ==> a@[j] == b@[j],
        decreases a@.len() - i,
    {
        if a[i] != b[i] {
            return false;
        }
        i = i + 1;
    }
    assert(a@ =~= b@);
    true
}

} // verus!
