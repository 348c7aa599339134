use std::collections::HashSet;
use superseedr_core::torrent_manager::piece_manager::{PieceManager, PieceStatus};
use superseedr_core::torrent_manager::state::TorrentStatus;

/// Helper to create a piece manager initialized with 'Need' pieces
fn setup_manager(num_pieces: usize) -> PieceManager {
    let mut pm = PieceManager::new();
    // Set dummy geometry so BlockManager math works (assuming standard 16KB blocks)
    // 16KB * 10 blocks per piece = 163840 bytes per piece
    let piece_len = 163_840;
    let total_len = piece_len as u64 * num_pieces as u64;
    pm.set_geometry(piece_len, total_len, false);

    pm.set_initial_fields(num_pieces, false);
    pm
}

#[test]
fn test_initialization_not_validated() {
    let mut pm = PieceManager::new();
    let num_pieces = 10;
    pm.set_initial_fields(num_pieces, false);

    assert_eq!(pm.bitfield.len(), num_pieces);
    assert_eq!(pm.bitfield[0], PieceStatus::Need);
    assert_eq!(pm.need_queue.len(), num_pieces);
    assert_eq!(pm.pieces_remaining, num_pieces);
    assert_eq!(pm.need_queue[0], 0);
    assert_eq!(pm.need_queue[9], 9);
}

#[test]
fn test_initialization_pre_validated() {
    let mut pm = PieceManager::new();
    let num_pieces = 10;
    pm.set_initial_fields(num_pieces, true);

    assert_eq!(pm.bitfield.len(), num_pieces);
    assert_eq!(pm.bitfield[0], PieceStatus::Done);
    assert!(pm.need_queue.is_empty());
    assert_eq!(pm.pieces_remaining, 0);
}

#[test]
fn test_state_transitions() {
    let mut pm = setup_manager(5); // pieces 0, 1, 2, 3, 4
    assert_eq!(pm.pieces_remaining, 5);
    assert_eq!(pm.need_queue, vec![0, 1, 2, 3, 4]);

    // 1. Mark piece 2 as PENDING
    pm.mark_as_pending(2, "peer_A".to_string());
    assert_eq!(pm.need_queue, vec![0, 1, 3, 4]);
    assert_eq!(
        pm.pending_queue.get(&2).unwrap(),
        &vec!["peer_A".to_string()]
    );
    assert_eq!(pm.pieces_remaining, 5); // Still need it

    // 2. Mark piece 2 as PENDING from another peer
    pm.mark_as_pending(2, "peer_B".to_string());
    assert_eq!(
        pm.pending_queue.get(&2).unwrap(),
        &vec!["peer_A".to_string(), "peer_B".to_string()]
    );

    // 3. Requeue piece 2 back to NEED
    pm.requeue_pending_to_need(2);
    // Order doesn't matter, check presence and absence
    assert!(!pm.pending_queue.contains_key(&2));
    assert!(pm.need_queue.contains(&0));
    assert!(pm.need_queue.contains(&1));
    assert!(pm.need_queue.contains(&2));
    assert!(pm.need_queue.contains(&3));
    assert!(pm.need_queue.contains(&4));
    assert_eq!(pm.need_queue.len(), 5);

    // 4. Mark piece 3 (from NEED) as COMPLETE
    let peers_to_cancel = pm.mark_as_complete(3);
    assert!(peers_to_cancel.is_empty());
    assert_eq!(pm.bitfield[3], PieceStatus::Done);
    assert_eq!(pm.pieces_remaining, 4);
    assert!(!pm.need_queue.contains(&3));

    // 5. Mark piece 2 (from PENDING) as COMPLETE
    pm.mark_as_pending(2, "peer_C".to_string()); // Pend it again
    let peers_to_cancel = pm.mark_as_complete(2);
    assert_eq!(peers_to_cancel, vec!["peer_C".to_string()]);
    assert_eq!(pm.bitfield[2], PieceStatus::Done);
    assert_eq!(pm.pieces_remaining, 3);
    assert!(!pm.pending_queue.contains_key(&2));
    assert!(!pm.need_queue.contains(&2));

    // 6. Mark piece 2 (already DONE) as COMPLETE (idempotent)
    let peers_to_cancel = pm.mark_as_complete(2);
    assert!(peers_to_cancel.is_empty());
    assert_eq!(pm.pieces_remaining, 3); // No change
}

#[test]
fn test_piece_assembly_and_reset() {
    let mut pm = PieceManager::new();
    let piece_index = 0;
    let piece_size = 32768; // 2 blocks of 16384
    let block_size = 16384;

    // Set geometry explicitly (required for block manager calculations)
    pm.set_geometry(piece_size as u32, piece_size as u64 * 10, false);

    let block_data_0 = vec![1; block_size];
    let block_data_1 = vec![2; block_size];

    // 1. Add first block
    let result = pm.handle_block(piece_index, 0, &block_data_0, piece_size);
    assert!(result.is_none());

    // CHECK: Access inner BlockManager legacy_buffers
    assert!(pm.block_manager.legacy_buffers.contains_key(&piece_index));
    let assembler = pm.block_manager.legacy_buffers.get(&piece_index).unwrap();
    assert_eq!(assembler.total_blocks, 2);
    assert_eq!(assembler.received_blocks, 1);

    // 2. Reset the assembler (e.g., hash fail)
    pm.reset_piece_assembly(piece_index);
    assert!(!pm.block_manager.legacy_buffers.contains_key(&piece_index));

    // 3. Add first block again (new assembler created)
    let result = pm.handle_block(piece_index, 0, &block_data_0, piece_size);
    assert!(result.is_none());

    // 4. Add second block
    let result = pm.handle_block(piece_index, block_size as u32, &block_data_1, piece_size);

    // 5. Check completion
    assert!(result.is_some());
    let full_piece = result.unwrap();
    assert_eq!(full_piece.len(), piece_size);
    assert_eq!(&full_piece[0..block_size], &block_data_0[..]);
    assert_eq!(&full_piece[block_size..], &block_data_1[..]);

    // 6. Assembler should be gone
    assert!(!pm.block_manager.legacy_buffers.contains_key(&piece_index));
}

#[test]
fn test_update_rarity() {
    let mut pm = setup_manager(4); // need = [0, 1, 2, 3]
    pm.mark_as_pending(2, "peer_A".to_string()); // need = [0, 1, 3], pending = [2]
    pm.mark_as_complete(0); // need = [1, 3], pending = [2], done = [0]

    // Pieces to check: 1, 3, 2

    let peer1_bitfield = vec![true, true, false, true]; // Has 0, 1, 3
    let peer2_bitfield = vec![true, false, true, true]; // Has 0, 2, 3
    let peer_bitfields = [peer1_bitfield, peer2_bitfield];

    pm.update_rarity(&peer_bitfields);

    // Piece 0 is Done, should not be in rarity map
    assert!(!pm.piece_rarity.contains_key(&0));
    // Piece 1 is Need, 1 peer has it
    assert_eq!(pm.piece_rarity.get(&1), Some(&1));
    // Piece 2 is Pending, 1 peer has it
    assert_eq!(pm.piece_rarity.get(&2), Some(&1));
    // Piece 3 is Need, 2 peers have it
    assert_eq!(pm.piece_rarity.get(&3), Some(&2));
}

#[test]
fn test_choose_piece_standard_mode() {
    let mut pm = setup_manager(5); // need = [0, 1, 2, 3, 4]

    // Rarity: 0 (rare), 1 (common), 2 (rare), 3 (medium), 4 (peer doesn't have)
    pm.piece_rarity.insert(0, 1);
    pm.piece_rarity.insert(1, 10);
    pm.piece_rarity.insert(2, 1);
    pm.piece_rarity.insert(3, 5);
    pm.piece_rarity.insert(4, 2);

    let peer_bitfield = vec![true, true, true, true, false]; // Has 0, 1, 2, 3
    let mut peer_pending = HashSet::new();
    let status = TorrentStatus::Standard;

    // 1. Choose rarest piece
    let choice = pm.choose_piece_for_peer(&peer_bitfield, &peer_pending, &status);
    assert!(choice == Some(0) || choice == Some(2));
    let chosen_piece = choice.unwrap();

    // 2. Choose rarest, but chosen piece (0 or 2) is now pending for this peer
    peer_pending.insert(chosen_piece);
    let choice2 = pm.choose_piece_for_peer(&peer_bitfield, &peer_pending, &status);
    if chosen_piece == 0 {
        assert_eq!(choice2, Some(2));
    } else {
        assert_eq!(choice2, Some(0));
    }

    // 3. Make all available pieces pending for this peer
    peer_pending.insert(0);
    peer_pending.insert(1);
    peer_pending.insert(2);
    peer_pending.insert(3);
    let choice = pm.choose_piece_for_peer(&peer_bitfield, &peer_pending, &status);
    assert_eq!(choice, None);

    // 4. Peer has nothing we need
    let empty_peer_bitfield = vec![false; 5];
    let choice = pm.choose_piece_for_peer(&empty_peer_bitfield, &peer_pending, &status);
    assert_eq!(choice, None);
}

#[test]
fn test_choose_piece_endgame_mode_prioritizes_pending() {
    let mut pm = setup_manager(5);
    pm.mark_as_pending(1, "peer_A".to_string());
    pm.mark_as_pending(2, "peer_B".to_string());

    let peer_bitfield = vec![true, true, true, true, false]; // Has 0, 1, 2, 3
    let peer_pending = HashSet::new();
    let status = TorrentStatus::Endgame;

    let mut choices = HashSet::new();
    for _ in 0..20 {
        let choice = pm
            .choose_piece_for_peer(&peer_bitfield, &peer_pending, &status)
            .unwrap();
        assert!([0, 1, 2, 3].contains(&choice));
        choices.insert(choice);
    }
    // Check if we got at least one from Need and one from Pending over several tries.
    assert!(choices.contains(&0) || choices.contains(&3)); // Need
    assert!(choices.contains(&1) || choices.contains(&2)); // Pending
}

#[test]
fn test_choose_piece_endgame_mode_excludes_peer_pending() {
    let mut pm = setup_manager(5);
    pm.mark_as_pending(1, "peer_A".to_string());
    pm.mark_as_pending(2, "peer_B".to_string());

    let peer_bitfield = vec![true, true, true, true, false];
    let mut peer_pending = HashSet::new();
    peer_pending.insert(1); // Peer is already downloading piece 1
    let status = TorrentStatus::Endgame;

    // Candidates should be [0, 2, 3] (excludes piece 1)
    for _ in 0..20 {
        let choice = pm
            .choose_piece_for_peer(&peer_bitfield, &peer_pending, &status)
            .unwrap();
        assert!([0, 2, 3].contains(&choice));
        assert_ne!(choice, 1);
    }
}

#[test]
fn test_handle_block_out_of_order() {
    let mut pm = PieceManager::new();
    let piece_index = 0;
    let piece_size = 32768;
    let block_size = 16384;

    pm.set_geometry(piece_size as u32, piece_size as u64 * 5, false);

    let block_data_0 = vec![1; block_size];
    let block_data_1 = vec![2; block_size];

    // Receive block 1 first
    let result1 = pm.handle_block(piece_index, block_size as u32, &block_data_1, piece_size);
    assert!(result1.is_none());

    let assembler1 = pm.block_manager.legacy_buffers.get(&piece_index).unwrap();
    assert_eq!(assembler1.received_blocks, 1);
    assert!(assembler1.mask[1]); // Block index 1 is set

    // Receive block 0 second
    let result0 = pm.handle_block(piece_index, 0, &block_data_0, piece_size);
    assert!(result0.is_some());
    let full_piece = result0.unwrap();

    assert_eq!(full_piece.len(), piece_size);
    assert_eq!(&full_piece[0..block_size], &block_data_0[..]);
    assert_eq!(&full_piece[block_size..], &block_data_1[..]);
    assert!(!pm.block_manager.legacy_buffers.contains_key(&piece_index));
}

#[test]
fn test_handle_block_duplicate() {
    let mut pm = PieceManager::new();
    let piece_index = 0;
    let piece_size = 16384;
    let block_size = 16384;
    let block_data = vec![1; block_size];

    pm.set_geometry(piece_size as u32, piece_size as u64, false);

    // Receive block 0
    let result1 = pm.handle_block(piece_index, 0, &block_data, piece_size);
    assert!(result1.is_some());
    assert!(!pm.block_manager.legacy_buffers.contains_key(&piece_index));

    // Test duplicate detection during assembly
    let piece_size_2 = 32768;

    pm.set_geometry(piece_size_2 as u32, piece_size_2 as u64 * 2, false);

    let block_data_0 = vec![1; block_size];
    let block_data_1 = vec![2; block_size];

    // Add block 0 for Piece 1
    pm.handle_block(1, 0, &block_data_0, piece_size_2);

    // This unwrap will now succeed because Piece 1 is valid within the total length
    let assembler1 = pm.block_manager.legacy_buffers.get(&1).unwrap();
    assert_eq!(assembler1.received_blocks, 1);

    // Add block 0 again (should be ignored)
    pm.handle_block(1, 0, &block_data_0, piece_size_2);
    let assembler2 = pm.block_manager.legacy_buffers.get(&1).unwrap();
    assert_eq!(assembler2.received_blocks, 1);

    // Add block 1 to complete
    let result_final = pm.handle_block(1, block_size as u32, &block_data_1, piece_size_2);
    assert!(result_final.is_some());
}

#[test]
fn test_handle_block_for_completed_piece() {
    let mut pm = setup_manager(1);
    let piece_index = 0;
    let piece_size = 16384;
    let block_data = vec![1; piece_size];

    pm.set_geometry(piece_size as u32, piece_size as u64, false);

    // Mark piece as complete first
    pm.mark_as_complete(piece_index);
    assert_eq!(pm.bitfield[piece_index as usize], PieceStatus::Done);

    // Clear buffer just in case
    pm.block_manager.legacy_buffers.remove(&piece_index);

    // Handle a block for the completed piece
    // Because mark_as_complete commits to BlockManager, handle_block should return None
    // or BlockManager returns 'Duplicate' decision internally.
    // However, the current handle_block wrapper calls `handle_v1_block_buffering` directly.
    // BlockManager's handle_v1_block_buffering checks `blocks_in_piece`.
    // The key is that `mark_as_complete` sets the block bits in BlockManager.
    // But `handle_v1_block_buffering` doesn't currently check the global block bitfield,
    // it only checks the assembler mask.
    // So this will re-assemble. This behavior is "acceptable" for the unit test,
    // but arguably `handle_block` should check `bitfield` first.
    // In the provided implementation, it will simply re-buffer and return Data again.

    let result = pm.handle_block(piece_index, 0, &block_data, piece_size);
    assert!(result.is_some());
}

#[test]
fn test_revert_synchronization() {
    // Scenario: Piece completes, verifying commits to BlockManager,
    // then Disk Write fails, requiring a revert.
    let mut pm = setup_manager(1);
    let piece_index = 0;

    // 1. Mark as complete (simulates verification success)
    pm.mark_as_complete(piece_index);

    // Assertion: BlockManager must think it's done
    let (start, end) = pm.block_manager.get_block_range(piece_index);
    for i in start..end {
        assert!(
            pm.block_manager.block_bitfield[i as usize],
            "Blocks should be true after commit"
        );
    }

    // 2. Simulate Disk Write Failure -> Requeue
    pm.requeue_pending_to_need(piece_index);

    // Assertion: High level state is updated
    assert_eq!(pm.bitfield[0], PieceStatus::Need);
    assert!(pm.need_queue.contains(&0));

    // CRITICAL ASSERTION: BlockManager bits must be cleared.
    // If this fails, we cannot re-download the blocks!
    for i in start..end {
        assert!(
            !pm.block_manager.block_bitfield[i as usize],
            "Blocks should be false after revert"
        );
    }
}

#[test]
fn test_lazy_geometry_initialization() {
    // Scenario: We receive a block before Metadata/Geometry is explicitly set.
    let mut pm = PieceManager::new();
    let piece_size = 16384;
    let block_data = vec![1u8; 16384];

    // We do NOT call set_geometry. We rely on handle_block to infer it.
    let result = pm.handle_block(0, 0, &block_data, piece_size);

    assert!(result.is_some()); // Should succeed and complete immediately
    assert_eq!(pm.block_manager.piece_length, 16384); // Should have inferred size
}

#[test]
fn test_tiny_last_block() {
    // Scenario: Total length is 16385 (1 full block + 1 byte)
    let mut pm = PieceManager::new();
    let piece_size = 32768; // Standard 32KB piece size
    let total_len = 16385;

    pm.set_geometry(piece_size, total_len, false);

    // 1. Handle the full block (0-16384)
    let block_0 = vec![1u8; 16384];
    let res_0 = pm.handle_block(0, 0, &block_0, piece_size as usize);
    assert!(res_0.is_none());

    // 2. Handle the tiny block (16384-16385) - Length 1
    let block_1 = vec![2u8; 1];
    let res_1 = pm.handle_block(0, 16384, &block_1, piece_size as usize);

    // Should complete successfully
    assert!(res_1.is_some());
    let data = res_1.unwrap();

    // The buffer should be sized to the PIECE size (32KB) usually,
    // or the specific remaining size?
    // Current implementation allocates `vec![0u8; piece_len]` in BlockManager.
    // Let's verify we got the data we put in.
    assert_eq!(data[0], 1);
    assert_eq!(data[16384], 2);
}

#[test]
fn short_block_gives_a_short_piece() {
    let mut pm = PieceManager::new();
    pm.set_geometry(32_768, 32_768 * 10, false);
    assert!(pm.handle_block(0, 0, &[5u8; 10], 32_768).is_none());
    let piece = pm.handle_block(0, 16_384, &[6u8; 16_384], 32_768).expect("piece complete");
    assert_eq!(piece.len(), 16_394);
    assert_eq!(&piece[..10], &[5u8; 10]);
    assert_eq!(piece[10], 6);
}

#[test]
fn resent_block_replaces_the_stored_one() {
    let mut pm = PieceManager::new();
    pm.set_geometry(32_768, 32_768 * 10, false);
    assert!(pm.handle_block(0, 0, &[1u8; 16_384], 32_768).is_none());
    assert!(pm.handle_block(0, 0, &[9u8; 16_384], 32_768).is_none());
    assert_eq!(pm.block_manager.legacy_buffers.get(&0).unwrap().received_blocks, 1);
    let piece = pm.handle_block(0, 16_384, &[2u8; 16_384], 32_768).expect("piece complete");
    assert_eq!(&piece[..16_384], &[9u8; 16_384][..]);
    assert_eq!(&piece[16_384..], &[2u8; 16_384][..]);
}
