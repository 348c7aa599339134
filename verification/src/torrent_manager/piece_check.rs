//! Hash checks: a downloaded v1 piece against the torrent's piece hashes, a
//! torrent's info hash, metadata fetched from the DHT against the info hash,
//! and the steps of the start-up validation pass over data already on disk.
use vstd::prelude::*;

use crate::dht::token::{sha1, sha1_digest};

verus! {

/// Bytes of one SHA-1 piece hash in the `pieces` string.
pub const HASH_LENGTH: usize = 20;

/// Reads of a piece during validation that may fail before the pass stops.
pub const MAX_VALIDATION_ATTEMPTS: u32 = 12;

/// First back-off after a failed validation read, in milliseconds.
pub const BASE_BACKOFF_MS: u64 = 1000;

/// The 20 bytes of `pieces` that hold the hash of piece `piece_index`, if
/// `pieces` is long enough to hold them.
pub open spec fn expected_piece_hash(pieces: Seq<u8>, piece_index: int) -> Option<Seq<u8>> {
    if 0 <= piece_index && 20 * piece_index + 20 <= pieces.len() {
        Some(pieces.subrange(20 * piece_index, 20 * piece_index + 20))
    } else {
        None
    }
}

/// Whether `data` is piece `piece_index` as `pieces` describes it.
pub open spec fn piece_hash_matches(pieces: Seq<u8>, piece_index: int, data: Seq<u8>) -> bool {
    match expected_piece_hash(pieces, piece_index) {
        Some(expected) => sha1(data) == expected,
        None => false,
    }
}

/// Checks the SHA-1 of a downloaded piece against its entry in the torrent's
/// concatenated v1 piece hashes. A piece with no entry there never matches.
pub fn verify_v1_piece(pieces: &[u8], piece_index: u32, data: &[u8]) -> (r: bool)
    ensures
        r == piece_hash_matches(pieces@, piece_index as int, data@),
{
    let start_wide: u64 = piece_index as u64 * 20;
    if start_wide > pieces.len() as u64 || (pieces.len() as u64) - start_wide < 20 {
        return false;
    }
    let start: usize = start_wide as usize;
    let digest = sha1_digest(data);
    let mut i: usize = 0;
    while i < 20
        invariant
            start == 20 * piece_index,
            start + 20 <= pieces@.len(),
            pieces@.len() == pieces.len(),
            digest@ == sha1(data@),
            digest@.len() == 20,
            i <= 20,
            forall|j: int| 0 <= j < i ==> digest@[j] == pieces@[start + j],
        decreases 20 - i,
    {
        if digest[i] != pieces[start + i] {
            assert(pieces@.subrange(start as int, start + 20)[i as int] == pieces@[start + i]);
            assert(digest@ != pieces@.subrange(start as int, start + 20));
            return false;
        }
        i = i + 1;
    }
    assert(digest@ =~= pieces@.subrange(start as int, start + 20));
    true
}

/// The info hash of a torrent: the SHA-1 of its bencoded info dictionary.
pub fn info_hash_of(info_bencode: &[u8]) -> (r: Vec<u8>)
    ensures
        r@ == sha1(info_bencode@),
        r@.len() == 20,
{
    sha1_digest(info_bencode)
}

/// Whether metadata fetched from other peers is the info dictionary that the
/// torrent's info hash names.
pub fn metadata_matches_info_hash(info_bencode: &[u8], info_hash: &[u8]) -> (r: bool)
    ensures
        r == (sha1(info_bencode@) == info_hash@),
{
    let digest = sha1_digest(info_bencode);
    if digest.len() != info_hash.len() {
        return false;
    }
    let mut i: usize = 0;
    while i < digest.len()
        invariant
            digest@ == sha1(info_bencode@),
            digest@.len() == info_hash@.len(),
            i <= digest@.len(),
            forall|j: int| 0 <= j < i ==> digest@[j] == info_hash@[j],
        decreases digest@.len() - i,
    {
        if digest[i] != info_hash[i] {
            assert(digest@[i as int] != info_hash@[i as int]);
            return false;
        }
        i = i + 1;
    }
    assert(digest@ =~= info_hash@);
    true
}

/// What a torrent does with metadata that arrived through the DHT.
#[derive(Debug, Clone, Copy, PartialEq, Eq, Structural)]
pub enum DhtMetadataDecision {
    /// The metadata marks the torrent private: the torrent stops.
    Stop,
    /// The metadata does not hash to the info hash: it is dropped.
    Ignore,
    /// The metadata is taken as the torrent's.
    Apply,
}

/// The decision for DHT metadata, given the `private` flag of its info
/// dictionary (only a build that runs both DHT and PEX honours it).
pub open spec fn dht_metadata_decision(
    honour_private: bool,
    private: Option<i64>,
    info_bencode: Seq<u8>,
    info_hash: Seq<u8>,
) -> DhtMetadataDecision {
    if honour_private && private == Some(1i64) {
        DhtMetadataDecision::Stop
    } else if sha1(info_bencode) != info_hash {
        DhtMetadataDecision::Ignore
    } else {
        DhtMetadataDecision::Apply
    }
}

/// Decides what becomes of metadata received through the DHT: a private
/// torrent stops when the build honours the flag, metadata whose SHA-1 is not
/// the info hash is dropped, and the rest is applied.
pub fn decide_dht_metadata(
    honour_private: bool,
    private: Option<i64>,
    info_bencode: &[u8],
    info_hash: &[u8],
) -> (r: DhtMetadataDecision)
    ensures
        r == dht_metadata_decision(honour_private, private, info_bencode@, info_hash@),
{
    if honour_private {
        if let Some(flag) = private {
            if flag == 1 {
                return DhtMetadataDecision::Stop;
            }
        }
    }
    if metadata_matches_info_hash(info_bencode, info_hash) {
        DhtMetadataDecision::Apply
    } else {
        DhtMetadataDecision::Ignore
    }
}

/// Number of pieces that `pieces` holds hashes for.
pub open spec fn hashed_piece_count(pieces: Seq<u8>) -> nat {
    pieces.len() / 20
}

/// When a torrent was validated before, every piece counts as complete
/// without reading it: the indices `0..` the number of piece hashes.
pub fn assume_all_pieces_valid(pieces: &[u8]) -> (r: Vec<u32>)
    requires
        pieces@.len() / 20 <= u32::MAX + 1,
    ensures
        r@.len() == hashed_piece_count(pieces@),
        forall|i: int| 0 <= i < r@.len() ==> r@[i] == i,
{
    let n: usize = pieces.len() / HASH_LENGTH;
    let mut r: Vec<u32> = Vec::new();
    let mut i: usize = 0;
    while i < n
        invariant
            n == pieces@.len() / 20,
            n <= u32::MAX + 1,
            i <= n,
            r@.len() == i,
            forall|j: int| 0 <= j < i ==> r@[j] == j,
        decreases n - i,
    {
        r.push(i as u32);
        i = i + 1;
    }
    r
}

/// Bytes to read for piece `piece_index` during validation: a full piece,
/// or what is left of the torrent for the last one (zero past its end).
pub open spec fn validation_read_length(piece_index: int, piece_length: int, total_size: int) -> int {
    let start = piece_index * piece_length;
    let left = if total_size > start { total_size - start } else { 0 };
    if piece_length < left { piece_length } else { left }
}

/// The length to read for one piece during validation.
pub fn validation_read_len(piece_index: u64, piece_length: u64, total_size: u64) -> (r: u64)
    requires
        piece_index * piece_length <= u64::MAX,
    ensures
        r == validation_read_length(piece_index as int, piece_length as int, total_size as int),
{
    let start: u64 = piece_index * piece_length;
    let left: u64 = total_size.saturating_sub(start);
    if piece_length < left { piece_length } else { left }
}

/// What validation does after a failed read of a piece.
#[derive(Debug, Clone, Copy, PartialEq, Eq, Structural)]
pub enum ValidationRetry {
    /// Wait this many milliseconds (before jitter), then read again.
    Retry { backoff_ms: u64 },
    /// Stop the pass and report the pieces found complete so far.
    GiveUp,
}

/// `2^n` as a mathematical integer.
pub open spec fn pow2(n: nat) -> int
    decreases n,
{
    if n == 0 { 1 } else { 2 * pow2((n - 1) as nat) }
}

/// The back-off before read attempt `attempt + 1`: `BASE_BACKOFF_MS * 2^attempt`,
/// saturating at `u64::MAX`.
pub open spec fn validation_backoff(attempt: nat) -> int {
    let b = 1000 * pow2(attempt);
    if b > u64::MAX { u64::MAX as int } else { b }
}

proof fn lemma_pow2_monotone(n: nat, m: nat)
    requires
        n <= m,
    ensures
        1 <= pow2(n) <= pow2(m),
    decreases m,
{
    if m > n {
        lemma_pow2_monotone(n, (m - 1) as nat);
    } else if n > 0 {
        lemma_pow2_monotone((n - 1) as nat, (n - 1) as nat);
    }
}

proof fn lemma_pow2_bounds(n: nat)
    requires
        n <= 11,
    ensures
        1 <= pow2(n) <= 2048,
{
    lemma_pow2_monotone(n, 11);
    assert(pow2(11) == 2048) by {
        reveal_with_fuel(pow2, 12);
    }
}

/// Decides, after read attempt `attempt` of a piece failed, whether to give
/// up the pass or to back off and try again.
pub fn after_failed_validation_read(attempt: u32) -> (r: ValidationRetry)
    ensures
        attempt >= MAX_VALIDATION_ATTEMPTS ==> r == ValidationRetry::GiveUp,
        attempt < MAX_VALIDATION_ATTEMPTS ==> r == (ValidationRetry::Retry {
            backoff_ms: validation_backoff(attempt as nat) as u64,
        }),
{
    if attempt >= MAX_VALIDATION_ATTEMPTS {
        return ValidationRetry::GiveUp;
    }
    let mut factor: u64 = 1;
    let mut k: u32 = 0;
    while k < attempt
        invariant
            attempt < 12,
            k <= attempt,
            factor == pow2(k as nat),
        decreases attempt - k,
    {
        proof {
            lemma_pow2_bounds(k as nat);
        }
        factor = factor * 2;
        k = k + 1;
    }
    proof {
        lemma_pow2_bounds(attempt as nat);
    }
    // Below the attempt limit the product is at most 2_048_000 and never saturates.
    ValidationRetry::Retry { backoff_ms: BASE_BACKOFF_MS * factor }
}

/// The pieces found complete after one more piece of the pass was read:
/// `data` is kept when it is not empty and hashes to the piece's entry.
pub open spec fn validated_after(
    completed: Seq<u32>,
    pieces: Seq<u8>,
    piece_index: u32,
    data: Seq<u8>,
) -> Seq<u32> {
    if data.len() > 0 && piece_hash_matches(pieces, piece_index as int, data) {
        completed.push(piece_index)
    } else {
        completed
    }
}

/// Takes the data read for piece `piece_index` during validation: keeps the
/// piece when its hash matches, and says whether progress is due (every
/// twentieth piece). An empty read is skipped without a report.
pub fn record_validated_piece(
    completed: &mut Vec<u32>,
    pieces: &[u8],
    piece_index: u32,
    data: &[u8],
) -> (progress_due: bool)
    ensures
        final(completed)@ == validated_after(old(completed)@, pieces@, piece_index, data@),
        progress_due == (data@.len() > 0 && piece_index % 20 == 0),
{
    if data.len() == 0 {
        return false;
    }
    if verify_v1_piece(pieces, piece_index, data) {
        completed.push(piece_index);
    }
    piece_index % 20 == 0
}

} // verus!
