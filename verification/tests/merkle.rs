use sha2::{Digest, Sha256};
use superseedr_core::torrent_manager::merkle::{compute_v2_piece_root, verify_merkle_proof};

fn sha(data: &[u8]) -> [u8; 32] {
    Sha256::digest(data).into()
}

fn sha_pair(a: &[u8], b: &[u8]) -> [u8; 32] {
    let mut v = a.to_vec();
    v.extend_from_slice(b);
    sha(&v)
}

#[test]
fn single_block_root_is_its_hash() {
    let data = vec![7u8; 100];
    assert_eq!(compute_v2_piece_root(&data, 100), sha(&data));
}

#[test]
fn two_blocks_hash_pairwise() {
    let data: Vec<u8> = (0..32768u32).map(|i| (i % 251) as u8).collect();
    let expected = sha_pair(&sha(&data[..16384]), &sha(&data[16384..]));
    assert_eq!(compute_v2_piece_root(&data, 32768), expected);
}

#[test]
fn short_data_is_padded_with_zero_leaves() {
    // Three blocks of context: four leaves, the last two zero hashes.
    let data = vec![1u8; 20000];
    let zero = [0u8; 32];
    let l0 = sha(&data[..16384]);
    let l1 = sha(&data[16384..]);
    let expected = sha_pair(&sha_pair(&l0, &l1), &sha_pair(&zero, &zero));
    assert_eq!(compute_v2_piece_root(&data, 3 * 16384), expected);
}

#[test]
fn empty_data_with_no_context_is_zero_leaf() {
    assert_eq!(compute_v2_piece_root(&[], 0), [0u8; 32]);
}

#[test]
fn proof_climbs_to_the_root() {
    let a = vec![1u8; 16384];
    let b = vec![2u8; 16384];
    let la = sha(&a);
    let lb = sha(&b);
    let root = sha_pair(&la, &lb);
    // Piece `b` sits at index 1: its sibling `la` goes first.
    assert!(verify_merkle_proof(&root, &b, 1, &la, 16384));
    assert!(verify_merkle_proof(&root, &a, 0, &lb, 16384));
    assert!(!verify_merkle_proof(&root, &a, 1, &lb, 16384));
    // Without a proof the piece's own root is compared.
    assert!(verify_merkle_proof(&la, &a, 0, &[], 16384));
    assert!(!verify_merkle_proof(&lb, &a, 0, &[], 16384));
}
