use std::collections::HashMap;
use superseedr_core::torrent_manager::block_manager::{BlockManager, BlockResult};

fn setup_manager() -> BlockManager {
    let mut bm = BlockManager::new();
    // Geometry: Piece=32KB, Total=49252 bytes (~3 pieces worth of blocks?)
    // Actually: 32768 + 16384 + 100 = 49252.
    bm.set_geometry(
        32_768, 
        49_252, 
        vec![[0;20], [0;20]], 
        HashMap::new(), 
        false
    );
    bm
}

#[test]
fn test_commit_verified_block_updates_state() {
    let mut bm = setup_manager();
    let addr = bm.inflate_address(0);
    
    bm.mark_pending(0);
    assert!(bm.pending_blocks.contains(&0));
    assert!(!bm.block_bitfield[0]);

    // Call the commit function (simulating that async verification passed)
    let res = bm.commit_verified_block(addr);

    assert_eq!(res, BlockResult::Accepted);
    assert!(bm.block_bitfield[0]); // Marked done
    assert!(!bm.pending_blocks.contains(&0)); // Pending cleared
}

#[test]
fn test_commit_duplicate_block() {
    let mut bm = setup_manager();
    let addr = bm.inflate_address(0);
    bm.block_bitfield[0] = true; // Already done

    let res = bm.commit_verified_block(addr);
    assert_eq!(res, BlockResult::Duplicate);
}
