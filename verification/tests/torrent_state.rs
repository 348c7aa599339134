use superseedr_core::command::TorrentCommand;
use superseedr_core::torrent_manager::piece_manager::{PieceManager, PieceStatus};
use superseedr_core::torrent_manager::state::{
    Action, ChokeStatus, Effect, PeerState, TimeoutEntry, TorrentState, TorrentStatus,
    TorrentSummary, TrackerEntry, TrackerState,
};
use superseedr_core::torrent_manager::ManagerEvent;

// --- Helpers ---

/// An empty state whose clock has been running for a while.
fn create_empty_state() -> TorrentState {
    let mut state = TorrentState::default();
    state.info_hash = vec![0; 20];
    state.piece_manager = PieceManager::new();
    state.now = 1_000_000;
    state
}

fn create_dummy_torrent(piece_count: usize) -> TorrentSummary {
    TorrentSummary {
        piece_length: 16384,
        total_length: (16384 * piece_count) as i64,
        num_pieces: piece_count,
        announce: Some("http://tracker.test".to_string()),
    }
}

fn add_peer(state: &mut TorrentState, id: &str) {
    let mut peer = PeerState::new(id.to_string(), state.now);
    peer.peer_id = id.as_bytes().to_vec();
    state.peers.push(peer);
}

fn peer<'a>(state: &'a TorrentState, id: &str) -> &'a PeerState {
    state.peers.iter().find(|p| p.ip_port == id).unwrap()
}

fn peer_mut<'a>(state: &'a mut TorrentState, id: &str) -> &'a mut PeerState {
    state.peers.iter_mut().find(|p| p.ip_port == id).unwrap()
}

fn has_peer(state: &TorrentState, id: &str) -> bool {
    state.peers.iter().any(|p| p.ip_port == id)
}

// --- Scenarios ---

#[test]
fn test_metadata_received_triggers_initialization_flow() {
    let mut state = create_empty_state();
    let torrent = create_dummy_torrent(5);

    let effects = state.update(Action::MetadataReceived { torrent, metadata_length: 123 });

    assert_eq!(state.torrent_status, TorrentStatus::Validating);
    assert!(state.torrent.is_some());
    assert!(matches!(effects[0], Effect::InitializeStorage));
    assert!(matches!(effects[1], Effect::StartValidation));
}

#[test]
fn test_recalculate_chokes_unchokes_fastest_downloader() {
    let mut state = create_empty_state();
    state.torrent_status = TorrentStatus::Standard;

    add_peer(&mut state, "fast_peer");
    add_peer(&mut state, "slow_peer");

    let fast_peer = peer_mut(&mut state, "fast_peer");
    fast_peer.peer_is_interested_in_us = true;
    fast_peer.bytes_downloaded_from_peer = 10_000;

    let slow_peer = peer_mut(&mut state, "slow_peer");
    slow_peer.peer_is_interested_in_us = true;
    slow_peer.bytes_downloaded_from_peer = 100;
    slow_peer.am_choking = ChokeStatus::Unchoke;

    let effects = state.update(Action::RecalculateChokes { upload_slots: 1, random_seed: 0 });

    assert_eq!(peer(&state, "fast_peer").am_choking, ChokeStatus::Unchoke);
    assert_eq!(peer(&state, "slow_peer").am_choking, ChokeStatus::Choke);

    let sent_unchoke = effects.iter().any(|e| {
        matches!(e, Effect::SendToPeer { peer_id, cmd }
            if peer_id == "fast_peer" && matches!(cmd, TorrentCommand::PeerUnchoke))
    });
    let sent_choke = effects.iter().any(|e| {
        matches!(e, Effect::SendToPeer { peer_id, cmd }
            if peer_id == "slow_peer" && matches!(cmd, TorrentCommand::PeerChoke))
    });

    assert!(sent_unchoke, "Should send Unchoke to fast peer");
    assert!(sent_choke, "Should send Choke to slow peer");
}

#[test]
fn test_recalculate_chokes_unchokes_fastest_uploader_when_seeding() {
    let mut state = create_empty_state();
    state.torrent_status = TorrentStatus::Done;

    add_peer(&mut state, "leecher_A");
    add_peer(&mut state, "leecher_B");

    let p1 = peer_mut(&mut state, "leecher_A");
    p1.peer_is_interested_in_us = true;
    p1.bytes_uploaded_to_peer = 50_000;

    let p2 = peer_mut(&mut state, "leecher_B");
    p2.peer_is_interested_in_us = true;
    p2.bytes_uploaded_to_peer = 1_000;

    state.update(Action::RecalculateChokes { upload_slots: 1, random_seed: 0 });

    assert_eq!(peer(&state, "leecher_A").am_choking, ChokeStatus::Unchoke);
    assert_eq!(peer(&state, "leecher_B").am_choking, ChokeStatus::Choke);
}

#[test]
fn test_assign_work_requests_piece_peer_has() {
    let mut state = create_empty_state();
    let torrent = create_dummy_torrent(10);
    state.piece_manager.set_initial_fields(10, false);
    state.torrent = Some(torrent);
    state.torrent_status = TorrentStatus::Standard;

    add_peer(&mut state, "peer_A");

    let p = peer_mut(&mut state, "peer_A");
    p.peer_choking = ChokeStatus::Unchoke;
    p.bitfield = vec![false; 10];
    p.bitfield[0] = true;

    state.piece_manager.need_queue.push(0);

    let effects = state.update(Action::AssignWork { peer_id: "peer_A".to_string() });

    let request = effects.iter().find(|e| {
        matches!(e, Effect::SendToPeer { cmd, .. }
            if matches!(cmd, TorrentCommand::RequestDownload(0, _, _)))
    });
    assert!(request.is_some(), "Should request piece 0 from peer_A");
    assert!(peer(&state, "peer_A").pending_requests.contains(&0));
}

#[test]
fn test_piece_verified_valid_trigger_write() {
    let mut state = create_empty_state();
    state.piece_manager.set_initial_fields(5, false);

    let data = vec![1, 2, 3, 4];

    let effects = state.update(Action::PieceVerified {
        peer_id: "peer_1".into(),
        piece_index: 1,
        valid: true,
        data: data.clone(),
    });

    let write_effect = effects
        .iter()
        .find(|e| matches!(e, Effect::WriteToDisk { piece_index: 1, .. }));
    assert!(write_effect.is_some());
}

#[test]
fn test_piece_verified_invalid_disconnects_peer() {
    let mut state = create_empty_state();
    state.piece_manager.set_initial_fields(5, false);

    let effects = state.update(Action::PieceVerified {
        peer_id: "bad_peer".into(),
        piece_index: 1,
        valid: false,
        data: vec![],
    });

    let disconnect = effects
        .iter()
        .any(|e| matches!(e, Effect::DisconnectPeer { peer_id } if peer_id == "bad_peer"));
    assert!(disconnect);
}

#[test]
fn test_check_completion_transitions_to_done() {
    let mut state = create_empty_state();
    let torrent = create_dummy_torrent(3);
    state.torrent = Some(torrent);
    state.piece_manager.set_initial_fields(3, false);
    state.trackers.push(TrackerEntry {
        url: "http://tracker".into(),
        state: TrackerState {
            next_announce_time: state.now,
            leeching_interval: None,
            seeding_interval: None,
        },
    });

    for i in 0..3 {
        state.piece_manager.bitfield[i] = PieceStatus::Done;
    }

    let effects = state.update(Action::CheckCompletion);

    assert_eq!(state.torrent_status, TorrentStatus::Done);
    let announce_completed = effects
        .iter()
        .any(|e| matches!(e, Effect::AnnounceCompleted { .. }));
    assert!(announce_completed);
}

#[test]
fn test_peer_disconnect_decrements_count() {
    let mut state = create_empty_state();
    add_peer(&mut state, "peer_X");
    state.number_of_successfully_connected_peers = 1;

    let effects = state.update(Action::PeerDisconnected { peer_id: "peer_X".to_string() });

    assert!(!has_peer(&state, "peer_X"));
    assert_eq!(state.number_of_successfully_connected_peers, 0);
    assert!(effects.iter().any(|e| matches!(e, Effect::DisconnectPeer { .. })));
    assert!(effects.iter().any(|e| matches!(
        e,
        Effect::EmitManagerEvent(ManagerEvent::PeerDisconnected { .. })
    )));
}

#[test]
fn test_enter_endgame_mode() {
    let mut state = create_empty_state();
    let torrent = create_dummy_torrent(2);
    state.torrent = Some(torrent);
    state.piece_manager.set_initial_fields(2, false);
    state.torrent_status = TorrentStatus::Standard;

    add_peer(&mut state, "peer_A");
    let p = peer_mut(&mut state, "peer_A");
    p.bitfield = vec![true, true];
    p.peer_choking = ChokeStatus::Unchoke;

    state.piece_manager.mark_as_pending(0, "other_peer".into());

    state.piece_manager.need_queue.clear();
    state.piece_manager.need_queue.push(1);

    state.update(Action::AssignWork { peer_id: "peer_A".into() });

    assert!(state.piece_manager.need_queue.is_empty());
    assert_eq!(state.torrent_status, TorrentStatus::Endgame);
}

#[test]
fn test_peer_chokes_us_mid_download() {
    let mut state = create_empty_state();
    add_peer(&mut state, "peer_A");
    let p = peer_mut(&mut state, "peer_A");
    p.peer_choking = ChokeStatus::Unchoke;
    p.pending_requests.insert(5);

    let _effects = state.update(Action::PeerChoked { peer_id: "peer_A".into() });

    assert_eq!(peer(&state, "peer_A").peer_choking, ChokeStatus::Choke);
}

#[test]
fn test_optimistic_unchoke_rotates() {
    let mut state = create_empty_state();
    add_peer(&mut state, "fast_A");
    add_peer(&mut state, "slow_B");
    add_peer(&mut state, "slow_C");

    for p in state.peers.iter_mut() {
        p.peer_is_interested_in_us = true;
    }
    peer_mut(&mut state, "fast_A").bytes_downloaded_from_peer = 1000;

    // The timer ran out 31 s ago.
    state.optimistic_unchoke_timer = Some(state.now - 31_000);

    let _effects = state.update(Action::RecalculateChokes { upload_slots: 1, random_seed: 0 });

    let unchoked_count = state
        .peers
        .iter()
        .filter(|p| p.am_choking == ChokeStatus::Unchoke)
        .count();
    assert_eq!(unchoked_count, 2);

    assert_eq!(peer(&state, "fast_A").am_choking, ChokeStatus::Unchoke);
    assert!(
        peer(&state, "slow_B").am_choking == ChokeStatus::Unchoke
            || peer(&state, "slow_C").am_choking == ChokeStatus::Unchoke
    );
}

#[test]
fn test_peer_have_updates_bitfield_and_triggers_work() {
    let mut state = create_empty_state();
    let torrent = create_dummy_torrent(10);
    state.torrent = Some(torrent);
    state.piece_manager.set_initial_fields(10, false);
    state.torrent_status = TorrentStatus::Standard;

    add_peer(&mut state, "peer_A");
    peer_mut(&mut state, "peer_A").bitfield = vec![false; 10];

    state.piece_manager.need_queue.push(5);

    let effects = state.update(Action::PeerHavePiece { peer_id: "peer_A".into(), piece_index: 5 });

    assert!(peer(&state, "peer_A").bitfield[5]);
    let interest = effects.iter().any(|e| {
        matches!(e, Effect::SendToPeer { cmd, .. } if matches!(cmd, TorrentCommand::ClientInterested))
    });
    assert!(interest, "Should send Interested message");
}

#[test]
fn test_cancel_upload_aborts_task() {
    let mut state = create_empty_state();
    add_peer(&mut state, "leecher");

    let effects = state.update(Action::CancelUpload {
        peer_id: "leecher".into(),
        piece_index: 0,
        block_offset: 0,
        length: 16384,
    });

    let abort = effects.iter().any(|e| {
        matches!(e, Effect::AbortUpload { peer_id, block_info }
            if peer_id == "leecher" && block_info.piece_index == 0)
    });
    assert!(abort);
}

#[test]
fn test_invariant_pending_removed_on_disk_write() {
    let mut state = create_empty_state();
    let torrent = create_dummy_torrent(20);
    state.torrent = Some(torrent);
    state.piece_manager.set_initial_fields(20, false);
    state.torrent_status = TorrentStatus::Standard;

    add_peer(&mut state, "peer_A");
    let p = peer_mut(&mut state, "peer_A");
    p.bitfield = vec![true; 20];
    p.peer_choking = ChokeStatus::Unchoke;

    state.piece_manager.need_queue.push(0);

    state.update(Action::AssignWork { peer_id: "peer_A".into() });
    assert!(
        peer(&state, "peer_A").pending_requests.contains(&0),
        "Setup failed: Piece 0 should be pending"
    );

    state.update(Action::PieceWrittenToDisk { peer_id: "peer_A".into(), piece_index: 0 });

    let is_still_pending = peer(&state, "peer_A").pending_requests.contains(&0);
    assert!(!is_still_pending, "Piece 0 is done but still pending at peer_A");
    assert_eq!(state.piece_manager.bitfield[0], PieceStatus::Done);
}

#[test]
fn regression_delete_clears_piece_manager_state() {
    let mut state = create_empty_state();
    let torrent = create_dummy_torrent(5);
    state.torrent = Some(torrent);
    state.piece_manager.set_initial_fields(5, false);
    state.torrent_status = TorrentStatus::Standard;
    state.piece_manager.need_queue = vec![0];

    add_peer(&mut state, "peer_A");
    let _ = state.update(Action::PeerUnchoked { peer_id: "peer_A".into() });
    let _ = state.update(Action::PeerHavePiece { peer_id: "peer_A".into(), piece_index: 0 });
    let _ = state.update(Action::AssignWork { peer_id: "peer_A".into() });

    let data = vec![1; 100];
    let _ = state.update(Action::IncomingBlock {
        peer_id: "peer_A".into(),
        piece_index: 0,
        block_offset: 0,
        data: data.clone(),
    });

    let _ = state.update(Action::Delete);

    add_peer(&mut state, "peer_B");
    state.torrent_status = TorrentStatus::Standard;
    state.piece_manager.need_queue = vec![0];

    let _ = state.update(Action::PeerUnchoked { peer_id: "peer_B".into() });
    let _ = state.update(Action::PeerHavePiece { peer_id: "peer_B".into(), piece_index: 0 });

    // Data for the same piece as before the deletion: no stale buffer may trip it.
    let _ = state.update(Action::IncomingBlock {
        peer_id: "peer_B".into(),
        piece_index: 0,
        block_offset: 0,
        data,
    });
    assert_eq!(state.torrent_status, TorrentStatus::Standard);
}

#[test]
fn regression_redundant_disk_write_completion() {
    let mut state = create_empty_state();
    state.piece_manager.set_initial_fields(1, false);
    add_peer(&mut state, "peer_A");
    peer_mut(&mut state, "peer_A").pending_requests.insert(0);

    state.update(Action::PieceWrittenToDisk { peer_id: "peer_A".into(), piece_index: 0 });
    assert_eq!(state.piece_manager.bitfield[0], PieceStatus::Done);

    // A second confirmation for the same piece is taken in stride.
    state.update(Action::PieceWrittenToDisk { peer_id: "peer_A".into(), piece_index: 0 });
    assert_eq!(state.piece_manager.bitfield[0], PieceStatus::Done);
}

#[test]
fn regression_metric_integer_overflow() {
    let mut state = create_empty_state();
    add_peer(&mut state, "peer_A");

    let huge_val = u64::MAX - 100;
    state.update(Action::BlockSentToPeer { peer_id: "peer_A".into(), byte_count: huge_val });
    state.update(Action::BlockSentToPeer { peer_id: "peer_A".into(), byte_count: 200 });

    assert_eq!(state.session_total_uploaded, u64::MAX);
    assert_eq!(peer(&state, "peer_A").total_bytes_uploaded, u64::MAX);
}

#[test]
fn regression_peer_count_sync() {
    let mut state = create_empty_state();

    state.update(Action::PeerSuccessfullyConnected { peer_id: "peer_A".into() });
    add_peer(&mut state, "peer_A");
    assert_eq!(state.number_of_successfully_connected_peers, 1);

    state.update(Action::PeerSuccessfullyConnected { peer_id: "peer_A".into() });
    assert_eq!(
        state.number_of_successfully_connected_peers, 1,
        "Counter should not increment on duplicate"
    );

    state.update(Action::PeerDisconnected { peer_id: "peer_A".into() });
    assert_eq!(state.number_of_successfully_connected_peers, 0, "Counter should be zero");
}

// --- Laws on concrete runs ---

fn books_balance(state: &TorrentState) -> bool {
    let uploads: u128 = state.peers.iter().map(|p| p.total_bytes_uploaded as u128).sum();
    state.bytes_downloaded_in_interval <= state.session_total_downloaded
        && state.bytes_uploaded_in_interval <= state.session_total_uploaded
        && uploads <= state.session_total_uploaded as u128
}

fn queues_disjoint(state: &TorrentState) -> bool {
    state
        .piece_manager
        .need_queue
        .iter()
        .all(|p| !state.piece_manager.pending_queue.contains_key(p))
}

fn download_run() -> Vec<Action> {
    vec![
        Action::PeerSuccessfullyConnected { peer_id: "127.0.0.1:1001".into() },
        Action::PeerBitfieldReceived { peer_id: "127.0.0.1:1001".into(), bitfield: vec![0xff, 0xf0, 0x00] },
        Action::PeerUnchoked { peer_id: "127.0.0.1:1001".into() },
        Action::IncomingBlock {
            peer_id: "127.0.0.1:1001".into(),
            piece_index: 0,
            block_offset: 0,
            data: vec![7; 16384],
        },
        Action::PieceVerified { peer_id: "127.0.0.1:1001".into(), piece_index: 0, valid: true, data: vec![7; 16384] },
        Action::PieceWrittenToDisk { peer_id: "127.0.0.1:1001".into(), piece_index: 0 },
        Action::PeerInterested { peer_id: "127.0.0.1:1001".into() },
        Action::BlockSentToPeer { peer_id: "127.0.0.1:1001".into(), byte_count: 16384 },
        Action::Tick { dt_ms: 1000 },
        Action::RecalculateChokes { upload_slots: 4, random_seed: 3 },
        Action::PeerDisconnected { peer_id: "127.0.0.1:1001".into() },
        Action::CheckCompletion,
        Action::Pause,
        Action::Resume,
    ]
}

fn run_with_checks(mut check: impl FnMut(&TorrentState)) {
    let mut state = create_empty_state();
    state.torrent = Some(create_dummy_torrent(12));
    state.piece_manager.set_initial_fields(12, false);
    state.torrent_status = TorrentStatus::Standard;
    check(&state);
    for action in download_run() {
        if let Action::PeerSuccessfullyConnected { peer_id } = &action {
            if !has_peer(&state, peer_id) {
                add_peer(&mut state, peer_id);
            }
        }
        let _ = state.update(action);
        check(&state);
    }
}

#[test]
fn law_books_balance_over_a_download() {
    run_with_checks(|s| assert!(books_balance(s)));
}

#[test]
fn law_count_matches_over_a_download() {
    run_with_checks(|s| assert_eq!(s.number_of_successfully_connected_peers, s.peers.len()));
}

#[test]
fn law_queues_disjoint_over_a_download() {
    run_with_checks(|s| assert!(queues_disjoint(s)));
}

#[test]
fn law_done_means_complete() {
    let mut state = create_empty_state();
    state.torrent = Some(create_dummy_torrent(1));
    state.piece_manager.set_initial_fields(1, false);
    state.torrent_status = TorrentStatus::Standard;
    add_peer(&mut state, "peer_A");
    state.update(Action::PieceWrittenToDisk { peer_id: "peer_A".into(), piece_index: 0 });
    assert_eq!(state.torrent_status, TorrentStatus::Done);
    assert!(state.piece_manager.bitfield.iter().all(|p| *p == PieceStatus::Done));
    // The one action that breaks it: a failed write of a done piece.
    state.update(Action::PieceWriteFailed { piece_index: 0 });
    assert_eq!(state.torrent_status, TorrentStatus::Done);
    assert_eq!(state.piece_manager.bitfield[0], PieceStatus::Need);
}

fn pieces_tracked(state: &TorrentState) -> bool {
    let bits = &state.piece_manager.bitfield;
    let needed = |q: &u32| (*q as usize) < bits.len() && bits[*q as usize] == PieceStatus::Need;
    state.piece_manager.need_queue.iter().all(|q| needed(q))
        && state.piece_manager.pending_queue.keys().all(|q| needed(q))
        && state
            .peers
            .iter()
            .all(|p| p.pending_requests.iter().all(|q| (*q as usize) < bits.len()))
}

#[test]
fn law_pieces_tracked_over_a_download() {
    run_with_checks(|s| assert!(pieces_tracked(s)));
}

fn pending_held(state: &TorrentState) -> bool {
    state
        .piece_manager
        .pending_queue
        .keys()
        .all(|q| state.peers.iter().any(|p| p.pending_requests.contains(q)))
}

#[test]
fn law_pending_pieces_are_requested_over_a_download() {
    run_with_checks(|s| assert!(pending_held(s)));
}

#[test]
fn law_timer_not_ahead_over_a_download() {
    run_with_checks(|s| {
        if let Some(t) = s.optimistic_unchoke_timer {
            assert!(t <= s.now);
        }
    });
    let mut state = create_empty_state();
    state.optimistic_unchoke_timer = Some(0);
    add_peer(&mut state, "peer_A");
    peer_mut(&mut state, "peer_A").peer_is_interested_in_us = true;
    state.update(Action::RecalculateChokes { upload_slots: 4, random_seed: 1 });
    assert_eq!(state.optimistic_unchoke_timer, Some(state.now));
}

#[test]
fn failed_write_leaves_an_earlier_request_standing() {
    let mut state = create_empty_state();
    state.torrent = Some(create_dummy_torrent(1));
    state.piece_manager.set_initial_fields(1, false);
    state.torrent_status = TorrentStatus::Standard;
    for id in ["peer_A", "peer_B"] {
        add_peer(&mut state, id);
        let p = peer_mut(&mut state, id);
        p.bitfield = vec![true];
        p.peer_choking = ChokeStatus::Unchoke;
    }
    state.update(Action::AssignWork { peer_id: "peer_A".into() });
    assert!(peer(&state, "peer_A").pending_requests.contains(&0));
    state.update(Action::PieceWriteFailed { piece_index: 0 });
    state.update(Action::AssignWork { peer_id: "peer_B".into() });
    assert!(peer(&state, "peer_B").pending_requests.contains(&0));
    state.update(Action::PieceWrittenToDisk { peer_id: "peer_B".into(), piece_index: 0 });
    assert_eq!(state.piece_manager.bitfield[0], PieceStatus::Done);
    assert!(peer(&state, "peer_A").pending_requests.contains(&0));
    assert!(pieces_tracked(&state));
    assert!(pending_held(&state));
}

#[test]
fn law_done_torrent_needs_nothing() {
    let mut state = create_empty_state();
    state.torrent = Some(create_dummy_torrent(2));
    state.piece_manager.set_initial_fields(2, false);
    state.torrent_status = TorrentStatus::Standard;
    add_peer(&mut state, "peer_A");
    assert!(pieces_tracked(&state));
    state.update(Action::PieceWrittenToDisk { peer_id: "peer_A".into(), piece_index: 0 });
    assert!(pieces_tracked(&state));
    state.update(Action::PieceWrittenToDisk { peer_id: "peer_A".into(), piece_index: 1 });
    assert!(pieces_tracked(&state));
    assert_eq!(state.torrent_status, TorrentStatus::Done);
    assert!(state.piece_manager.need_queue.is_empty());
    // A failed write of a piece the torrent does not have queues it anyway.
    state.update(Action::PieceWriteFailed { piece_index: 9 });
    assert!(!pieces_tracked(&state));
}

#[test]
fn new_state_is_validating_with_unchoke_due() {
    let state = TorrentState::new(vec![1; 20], None, None, PieceManager::new(), Vec::new(), false, 40_000);
    assert_eq!(state.torrent_status, TorrentStatus::Validating);
    assert_eq!(state.optimistic_unchoke_timer, Some(9_000));
    assert_eq!(state.now, 40_000);
    assert!(state.peers.is_empty());
    let young = TorrentState::new(vec![1; 20], None, None, PieceManager::new(), Vec::new(), true, 10);
    assert_eq!(young.optimistic_unchoke_timer, Some(10));
    assert!(young.torrent_validation_status);
}

#[test]
fn fatal_error_pauses() {
    let mut state = create_empty_state();
    add_peer(&mut state, "peer_A");
    state.number_of_successfully_connected_peers = 1;
    let effects = state.update(Action::FatalError);
    assert!(state.is_paused);
    assert!(state.peers.is_empty());
    assert_eq!(state.last_known_peers, vec!["peer_A".to_string()]);
    assert!(matches!(effects[0], Effect::EmitMetrics { bytes_dl: 0, bytes_ul: 0 }));
}

#[test]
fn writing_the_last_piece_cancels_other_requests_and_completes() {
    let mut state = create_empty_state();
    state.torrent = Some(create_dummy_torrent(2));
    state.piece_manager.set_initial_fields(2, false);
    state.torrent_status = TorrentStatus::Standard;
    for id in ["peer_A", "peer_B"] {
        add_peer(&mut state, id);
        let p = peer_mut(&mut state, id);
        p.bitfield = vec![true; 2];
        p.peer_choking = ChokeStatus::Unchoke;
    }
    state.update(Action::PieceWrittenToDisk { peer_id: "peer_A".into(), piece_index: 0 });
    assert_ne!(state.torrent_status, TorrentStatus::Done);

    state.piece_manager.need_queue.push(1);
    state.update(Action::AssignWork { peer_id: "peer_A".into() });
    state.update(Action::AssignWork { peer_id: "peer_B".into() });
    assert!(peer(&state, "peer_A").pending_requests.contains(&1));
    assert!(peer(&state, "peer_B").pending_requests.contains(&1));

    let effects = state.update(Action::PieceWrittenToDisk { peer_id: "peer_A".into(), piece_index: 1 });
    assert!(effects.iter().any(|e| matches!(e, Effect::SendToPeer { peer_id, cmd }
        if peer_id == "peer_B" && matches!(cmd, TorrentCommand::Cancel(1)))));
    assert!(!effects.iter().any(|e| matches!(e, Effect::SendToPeer { peer_id, cmd }
        if peer_id == "peer_A" && matches!(cmd, TorrentCommand::Cancel(1)))));
    assert!(effects.iter().any(|e| matches!(e, Effect::BroadcastHave { piece_index: 1 })));
    assert_eq!(state.torrent_status, TorrentStatus::Done);
    assert!(!peer(&state, "peer_B").pending_requests.contains(&1));
}

#[test]
fn connections_skip_known_and_backing_off_addresses() {
    let mut state = create_empty_state();
    add_peer(&mut state, "10.0.0.1:6881");
    state.timed_out_peers.push(TimeoutEntry {
        addr: "10.0.0.2:6881".to_string(),
        count: 1,
        next_attempt: state.now + 5,
    });
    state.timed_out_peers.push(TimeoutEntry {
        addr: "10.0.0.3:6881".to_string(),
        count: 1,
        next_attempt: state.now,
    });
    assert!(!state.should_connect(&"10.0.0.1:6881".to_string(), false));
    assert!(!state.should_connect(&"10.0.0.1:6881".to_string(), true));
    assert!(state.should_connect(&"10.0.0.2:6881".to_string(), false));
    assert!(!state.should_connect(&"10.0.0.2:6881".to_string(), true));
    assert!(state.should_connect(&"10.0.0.3:6881".to_string(), true));
    assert!(state.should_connect(&"10.0.0.4:6881".to_string(), true));
}

#[test]
fn dialling_a_known_address_adds_nothing() {
    let mut state = create_empty_state();
    assert!(state.add_dialled_peer("10.0.0.9:6881".to_string()));
    assert_eq!(state.peers.len(), 1);
    let p = peer(&state, "10.0.0.9:6881");
    assert_eq!(p.am_choking, ChokeStatus::Choke);
    assert_eq!(p.peer_choking, ChokeStatus::Choke);
    assert_eq!(p.created_at, state.now);
    assert!(!state.add_dialled_peer("10.0.0.9:6881".to_string()));
    assert_eq!(state.peers.len(), 1);
}

#[test]
fn law_whole_invariant_over_a_download() {
    run_with_checks(|s| {
        assert!(books_balance(s));
        assert_eq!(s.number_of_successfully_connected_peers, s.peers.len());
        assert!(queues_disjoint(s));
        assert!(pieces_tracked(s));
        if s.torrent_status == TorrentStatus::Done {
            assert!(s.piece_manager.bitfield.iter().all(|p| *p == PieceStatus::Done));
            assert!(s.piece_manager.need_queue.is_empty());
        }
        if let Some(t) = s.optimistic_unchoke_timer {
            assert!(t <= s.now);
        }
    });
}

#[test]
fn validation_cancels_requests_for_found_pieces_and_reassigns() {
    let mut state = create_empty_state();
    state.torrent = Some(create_dummy_torrent(2));
    state.piece_manager.set_initial_fields(2, false);
    state.torrent_status = TorrentStatus::Standard;
    add_peer(&mut state, "peer_A");
    let p = peer_mut(&mut state, "peer_A");
    p.bitfield = vec![true; 2];
    p.peer_choking = ChokeStatus::Unchoke;
    state.piece_manager.need_queue.push(0);
    state.update(Action::AssignWork { peer_id: "peer_A".into() });
    assert!(peer(&state, "peer_A").pending_requests.contains(&0));
    state.piece_manager.need_queue.push(1);

    let effects = state.update(Action::ValidationComplete { completed_pieces: vec![0] });
    assert!(effects.iter().any(|e| matches!(e, Effect::SendToPeer { peer_id, cmd }
        if peer_id == "peer_A" && matches!(cmd, TorrentCommand::Cancel(0)))));
    assert!(effects.iter().any(|e| matches!(e, Effect::SendBitfieldToPeers)));
    assert_eq!(state.piece_manager.bitfield[0], PieceStatus::Done);
    assert_eq!(state.torrent_status, TorrentStatus::Standard);
    // The peer is given the remaining piece.
    assert!(peer(&state, "peer_A").pending_requests.contains(&1));
}

#[test]
fn law_failed_write_keeps_invariant_on_unfinished_torrent() {
    let mut state = create_empty_state();
    state.torrent = Some(create_dummy_torrent(3));
    state.piece_manager.set_initial_fields(3, false);
    state.torrent_status = TorrentStatus::Standard;
    add_peer(&mut state, "peer_A");
    state.number_of_successfully_connected_peers = 1;
    let p = peer_mut(&mut state, "peer_A");
    p.bitfield = vec![true; 3];
    p.peer_choking = ChokeStatus::Unchoke;
    state.piece_manager.need_queue.push(0);
    state.update(Action::AssignWork { peer_id: "peer_A".into() });
    state.update(Action::PieceWriteFailed { piece_index: 0 });
    assert!(books_balance(&state));
    assert!(queues_disjoint(&state));
    assert!(pieces_tracked(&state));
    assert_ne!(state.torrent_status, TorrentStatus::Done);
    assert_eq!(state.piece_manager.bitfield[0], PieceStatus::Need);
    assert!(state.piece_manager.need_queue.contains(&0));
}
