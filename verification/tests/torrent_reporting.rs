use superseedr_core::torrent_manager::piece_manager::{PieceManager, PieceStatus};
use superseedr_core::torrent_manager::state::{PeerState, TorrentActivity, TorrentState, TorrentStatus};

fn state_with_pieces(done: &[bool]) -> TorrentState {
    let mut state = TorrentState::default();
    state.piece_manager = PieceManager::new();
    state.piece_manager.bitfield = done
        .iter()
        .map(|d| if *d { PieceStatus::Done } else { PieceStatus::Need })
        .collect();
    state
}

#[test]
fn bitfield_sets_done_pieces_most_significant_bit_first() {
    let state = state_with_pieces(&[true, false, true, false, false, false, false, false, false, true]);
    assert_eq!(state.generate_bitfield(), vec![0b1010_0000, 0b0100_0000]);
}

#[test]
fn bitfield_of_whole_bytes_has_no_padding_byte() {
    let state = state_with_pieces(&[true; 8]);
    assert_eq!(state.generate_bitfield(), vec![0xFF]);
    let empty = state_with_pieces(&[]);
    assert!(empty.generate_bitfield().is_empty());
}

#[test]
fn activity_follows_pause_status_and_traffic() {
    let mut state = state_with_pieces(&[false]);
    state.torrent_status = TorrentStatus::Standard;
    state.is_paused = true;
    assert_eq!(state.generate_activity_message(5, 5), "Paused");
    state.is_paused = false;
    state.torrent_status = TorrentStatus::Validating;
    assert_eq!(state.generate_activity_message(5, 5), "Validating...");
    state.torrent_status = TorrentStatus::Done;
    assert_eq!(state.generate_activity_message(0, 1), "Seeding");
    assert_eq!(state.generate_activity_message(1, 0), "Finished");
    state.torrent_status = TorrentStatus::Standard;
    state.last_activity = TorrentActivity::DownloadingPiece(42);
    assert_eq!(state.generate_activity_message(1, 0), "Receiving piece #42");
    state.last_activity = TorrentActivity::VerifyingPiece(7);
    assert_eq!(state.generate_activity_message(1, 1), "Verifying piece #7");
    state.last_activity = TorrentActivity::SendingPiece(0);
    assert_eq!(state.generate_activity_message(1, 1), "Downloading");
    assert_eq!(state.generate_activity_message(0, 1), "Sending piece #0");
    state.last_activity = TorrentActivity::Initializing;
    assert_eq!(state.generate_activity_message(0, 1), "Uploading");
}

#[test]
fn idle_activity_depends_on_peers_and_discovery() {
    let mut state = state_with_pieces(&[false]);
    state.torrent_status = TorrentStatus::Standard;
    state.last_activity = TorrentActivity::AnnouncingToTracker;
    assert_eq!(state.generate_activity_message(0, 0), "Contacting tracker...");
    state.last_activity = TorrentActivity::SearchingDht;
    assert_eq!(state.generate_activity_message(0, 0), "Searching DHT for peers...");
    state.last_activity = TorrentActivity::ConnectingToPeers;
    assert_eq!(state.generate_activity_message(0, 0), "Connecting to peers...");
    state.peers.push(PeerState::new("1.2.3.4:5".to_string(), 0));
    assert_eq!(state.generate_activity_message(0, 0), "Stalled");
}

fn summary(num_pieces: usize) -> superseedr_core::torrent_manager::state::TorrentSummary {
    superseedr_core::torrent_manager::state::TorrentSummary {
        piece_length: 16384,
        total_length: 60000,
        num_pieces,
        announce: None,
    }
}

#[test]
fn progress_counts_pieces_and_time_left() {
    let mut state = state_with_pieces(&[true, false, false, false]);
    state.torrent_status = TorrentStatus::Standard;
    state.piece_manager.pieces_remaining = 3;
    let p = state.progress(&summary(4), 60000, 8000);
    assert_eq!(p.number_of_pieces_total, 4);
    assert_eq!(p.number_of_pieces_completed, 1);
    assert_eq!(p.eta_secs, Some((60000 - 16384) * 8 / 8000));
    assert_eq!(p.bytes_written, 16384);
    assert_eq!(state.progress(&summary(4), 60000, 0).eta_secs, None);
}

#[test]
fn progress_of_a_complete_or_validating_torrent() {
    let mut state = state_with_pieces(&[true, true, true, true]);
    state.torrent_status = TorrentStatus::Done;
    state.piece_manager.pieces_remaining = 0;
    let p = state.progress(&summary(4), 60000, 0);
    assert_eq!(p.number_of_pieces_completed, 4);
    assert_eq!(p.eta_secs, Some(0));
    assert_eq!(p.bytes_written, 60000);
    state.torrent_status = TorrentStatus::Validating;
    state.validation_pieces_found = 2;
    state.piece_manager.pieces_remaining = 2;
    let v = state.progress(&summary(4), 60000, 0);
    assert_eq!(v.number_of_pieces_completed, 2);
    assert_eq!(v.bytes_written, 2 * 16384);
}
