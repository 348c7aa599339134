use superseedr_core::networking::protocol::Message;
use superseedr_core::networking::session::events::{
    action_for_peer_message, check_handshake_response, HandshakeOutcome,
};
use superseedr_core::torrent_manager::state::Action;

fn handshake(info_hash: [u8; 20], peer_id: [u8; 20], reserved5: u8) -> Vec<u8> {
    let mut h = vec![19u8];
    h.extend_from_slice(b"BitTorrent protocol");
    let mut reserved = [0u8; 8];
    reserved[5] = reserved5;
    h.extend_from_slice(&reserved);
    h.extend_from_slice(&info_hash);
    h.extend_from_slice(&peer_id);
    h
}

#[test]
fn handshake_for_another_torrent_is_rejected() {
    let reply = handshake([2; 20], [7; 20], 0x10);
    assert_eq!(check_handshake_response(&[1; 20], &reply), HandshakeOutcome::Rejected);
    assert_eq!(check_handshake_response(&[2; 19], &reply), HandshakeOutcome::Rejected);
}

#[test]
fn handshake_gives_peer_id_and_extension_support() {
    let reply = handshake([2; 20], [7; 20], 0x10);
    assert_eq!(
        check_handshake_response(&[2; 20], &reply),
        HandshakeOutcome::Accepted { peer_id: vec![7; 20], send_extended_handshake: true }
    );
    let plain = handshake([2; 20], [8; 20], 0x01);
    assert_eq!(
        check_handshake_response(&[2; 20], &plain),
        HandshakeOutcome::Accepted { peer_id: vec![8; 20], send_extended_handshake: false }
    );
}

#[test]
fn peer_messages_become_torrent_actions() {
    let id = || "1.2.3.4:5".to_string();
    assert!(matches!(action_for_peer_message(id(), Message::Choke, false),
        Some(Action::PeerChoked { peer_id }) if peer_id == "1.2.3.4:5"));
    assert!(matches!(action_for_peer_message(id(), Message::Unchoke, false),
        Some(Action::PeerUnchoked { .. })));
    assert!(matches!(action_for_peer_message(id(), Message::Have(9), false),
        Some(Action::PeerHavePiece { piece_index: 9, .. })));
    assert!(matches!(action_for_peer_message(id(), Message::Request(1, 2, 3), false),
        Some(Action::RequestUpload { piece_index: 1, block_offset: 2, length: 3, .. })));
    assert!(matches!(action_for_peer_message(id(), Message::Cancel(1, 2, 3), false),
        Some(Action::CancelUpload { piece_index: 1, block_offset: 2, length: 3, .. })));
    assert!(matches!(action_for_peer_message(id(), Message::Bitfield(vec![0xF0]), false),
        Some(Action::PeerBitfieldReceived { bitfield, .. }) if bitfield == vec![0xF0]));
    assert!(action_for_peer_message(id(), Message::NotInterested, false).is_none());
    assert!(action_for_peer_message(id(), Message::KeepAlive, false).is_none());
}

#[test]
fn only_requested_blocks_reach_the_torrent() {
    let id = || "1.2.3.4:5".to_string();
    assert!(action_for_peer_message(id(), Message::Piece(0, 0, vec![1, 2]), false).is_none());
    assert!(matches!(action_for_peer_message(id(), Message::Piece(0, 16384, vec![1, 2]), true),
        Some(Action::IncomingBlock { piece_index: 0, block_offset: 16384, data, .. }) if data == vec![1, 2]));
}
