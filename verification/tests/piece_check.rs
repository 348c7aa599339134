use superseedr_core::torrent_manager::piece_check::{
    after_failed_validation_read, assume_all_pieces_valid, decide_dht_metadata, info_hash_of,
    metadata_matches_info_hash, record_validated_piece, validation_read_len, verify_v1_piece,
    DhtMetadataDecision, ValidationRetry,
};

const SHA1_ABC: &str = "a9993e364706816aba3e25717850c26c9cd0d89d";
const SHA1_EMPTY: &str = "da39a3ee5e6b4b0d3255bfef95601890afd80709";

fn piece_hashes() -> Vec<u8> {
    let mut pieces = hex::decode(SHA1_ABC).unwrap();
    pieces.extend(hex::decode(SHA1_EMPTY).unwrap());
    pieces
}

#[test]
fn info_hash_is_sha1_of_the_info_dictionary() {
    assert_eq!(hex::encode(info_hash_of(b"abc")), SHA1_ABC);
    assert_eq!(hex::encode(info_hash_of(b"")), SHA1_EMPTY);
}

#[test]
fn v1_piece_matches_its_own_hash_entry() {
    let pieces = piece_hashes();
    assert!(verify_v1_piece(&pieces, 0, b"abc"));
    assert!(verify_v1_piece(&pieces, 1, b""));
}

#[test]
fn v1_piece_with_other_data_is_rejected() {
    let pieces = piece_hashes();
    assert!(!verify_v1_piece(&pieces, 1, b"abc"));
    assert!(!verify_v1_piece(&pieces, 0, b"abd"));
}

#[test]
fn v1_piece_without_a_hash_entry_is_rejected() {
    let pieces = piece_hashes();
    assert!(!verify_v1_piece(&pieces, 2, b"abc"));
    assert!(!verify_v1_piece(&pieces[..39], 1, b""));
    assert!(!verify_v1_piece(&pieces, u32::MAX, b"abc"));
}

#[test]
fn metadata_must_hash_to_the_info_hash() {
    let info_hash = hex::decode(SHA1_ABC).unwrap();
    assert!(metadata_matches_info_hash(b"abc", &info_hash));
    assert!(!metadata_matches_info_hash(b"abcd", &info_hash));
    assert!(!metadata_matches_info_hash(b"abc", &info_hash[..19]));
}

#[test]
fn dht_metadata_decisions() {
    let info_hash = hex::decode(SHA1_ABC).unwrap();
    assert_eq!(
        decide_dht_metadata(true, Some(1), b"abc", &info_hash),
        DhtMetadataDecision::Stop
    );
    assert_eq!(
        decide_dht_metadata(false, Some(1), b"abc", &info_hash),
        DhtMetadataDecision::Apply
    );
    assert_eq!(
        decide_dht_metadata(true, Some(0), b"abc", &info_hash),
        DhtMetadataDecision::Apply
    );
    assert_eq!(
        decide_dht_metadata(true, None, b"xyz", &info_hash),
        DhtMetadataDecision::Ignore
    );
}

#[test]
fn skipped_hashing_counts_every_hashed_piece() {
    assert_eq!(assume_all_pieces_valid(&[0u8; 60]), vec![0, 1, 2]);
    assert_eq!(assume_all_pieces_valid(&[0u8; 59]), vec![0, 1]);
    assert!(assume_all_pieces_valid(&[]).is_empty());
}

#[test]
fn validation_reads_a_short_last_piece() {
    assert_eq!(validation_read_len(0, 100, 250), 100);
    assert_eq!(validation_read_len(2, 100, 250), 50);
    assert_eq!(validation_read_len(3, 100, 250), 0);
}

#[test]
fn validation_read_backoff_doubles_then_gives_up() {
    assert_eq!(
        after_failed_validation_read(0),
        ValidationRetry::Retry { backoff_ms: 1000 }
    );
    assert_eq!(
        after_failed_validation_read(3),
        ValidationRetry::Retry { backoff_ms: 8000 }
    );
    assert_eq!(
        after_failed_validation_read(11),
        ValidationRetry::Retry { backoff_ms: 2_048_000 }
    );
    assert_eq!(after_failed_validation_read(12), ValidationRetry::GiveUp);
}

#[test]
fn validation_keeps_only_matching_pieces() {
    let pieces = piece_hashes();
    let mut completed = Vec::new();
    assert!(record_validated_piece(&mut completed, &pieces, 0, b"abc"));
    assert_eq!(completed, vec![0]);
    assert!(!record_validated_piece(&mut completed, &pieces, 1, b"abc"));
    assert_eq!(completed, vec![0]);
    // An empty read is skipped without a progress report.
    assert!(!record_validated_piece(&mut completed, &pieces, 20, b""));
    assert_eq!(completed, vec![0]);
}
