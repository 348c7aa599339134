//! What a peer session makes of the handshake reply and of each message a
//! peer sends: whether to keep the connection, and which action reaches the
//! torrent.
use vstd::prelude::*;

use crate::networking::protocol::Message;
use crate::torrent_manager::state::Action;

verus! {

/// What the session does after reading the peer's 68-byte handshake.
#[derive(Debug, PartialEq, Eq)]
pub enum HandshakeOutcome {
    /// The peer is on another torrent: the connection ends.
    Rejected,
    /// The peer is on this torrent; it announced itself as `peer_id`, and
    /// the extended handshake is sent when it supports extensions.
    Accepted { peer_id: Vec<u8>, send_extended_handshake: bool },
}

/// Whether byte `b` has the extension-protocol bit (`0x10`) set.
pub open spec fn extension_bit(b: u8) -> bool {
    b & 0x10u8 != 0u8
}

/// Checks the peer's handshake: bytes 28..48 must be our info hash. The
/// peer's id is bytes 48..68, and bit `0x10` of byte 25 says it speaks the
/// extension protocol.
pub fn check_handshake_response(info_hash: &[u8], response: &[u8]) -> (r: HandshakeOutcome)
    requires
        response@.len() >= 68,
    ensures
        match r {
            HandshakeOutcome::Rejected => response@.subrange(28, 48) != info_hash@,
            HandshakeOutcome::Accepted { peer_id, send_extended_handshake } => {
                &&& response@.subrange(28, 48) == info_hash@
                &&& peer_id@ == response@.subrange(48, 68)
                &&& send_extended_handshake == extension_bit(response@[25])
            },
        },
{
    if info_hash.len() != 20 {
        return HandshakeOutcome::Rejected;
    }
    let mut i: usize = 0;
    while i < 20
        invariant
            info_hash@.len() == 20,
            response@.len() >= 68,
            i <= 20,
            forall|j: int| 0 <= j < i ==> response@[28 + j] == info_hash@[j],
        decreases 20 - i,
    {
        if response[28 + i] != info_hash[i] {
            assert(response@.subrange(28, 48)[i as int] != info_hash@[i as int]);
            return HandshakeOutcome::Rejected;
        }
        i = i + 1;
    }
    assert(response@.subrange(28, 48) =~= info_hash@);
    let mut peer_id: Vec<u8> = Vec::new();
    let mut k: usize = 48;
    while k < 68
        invariant
            response@.len() >= 68,
            48 <= k <= 68,
            peer_id@ == response@.subrange(48, k as int),
        decreases 68 - k,
    {
        peer_id.push(response[k]);
        k = k + 1;
        assert(peer_id@ =~= response@.subrange(48, k as int));
    }
    HandshakeOutcome::Accepted { peer_id, send_extended_handshake: response[25] & 0x10 != 0 }
}

/// The action a message from peer `peer_id` gives the torrent. A block is
/// passed on only when it was requested (`block_expected`); extension
/// messages are answered by the session itself, and keep-alives, port
/// announcements, `NotInterested` and repeated handshakes are dropped.
pub open spec fn message_action(peer_id: String, msg: Message, block_expected: bool) -> Option<Action> {
    match msg {
        Message::Choke => Some(Action::PeerChoked { peer_id }),
        Message::Unchoke => Some(Action::PeerUnchoked { peer_id }),
        Message::Interested => Some(Action::PeerInterested { peer_id }),
        Message::Have(piece_index) => Some(Action::PeerHavePiece { peer_id, piece_index }),
        Message::Bitfield(bitfield) => Some(Action::PeerBitfieldReceived { peer_id, bitfield }),
        Message::Request(piece_index, block_offset, length) => Some(
            Action::RequestUpload { peer_id, piece_index, block_offset, length },
        ),
        Message::Cancel(piece_index, block_offset, length) => Some(
            Action::CancelUpload { peer_id, piece_index, block_offset, length },
        ),
        Message::Piece(piece_index, block_offset, data) => if block_expected {
            Some(Action::IncomingBlock { peer_id, piece_index, block_offset, data })
        } else {
            None
        },
        _ => None,
    }
}

/// Turns a message from peer `peer_id` into the torrent's action, if any.
pub fn action_for_peer_message(peer_id: String, msg: Message, block_expected: bool) -> (r: Option<Action>)
    ensures
        r == message_action(peer_id, msg, block_expected),
{
    match msg {
        Message::Choke => Some(Action::PeerChoked { peer_id }),
        Message::Unchoke => Some(Action::PeerUnchoked { peer_id }),
        Message::Interested => Some(Action::PeerInterested { peer_id }),
        Message::Have(piece_index) => Some(Action::PeerHavePiece { peer_id, piece_index }),
        Message::Bitfield(bitfield) => Some(Action::PeerBitfieldReceived { peer_id, bitfield }),
        Message::Request(piece_index, block_offset, length) => Some(
            Action::RequestUpload { peer_id, piece_index, block_offset, length },
        ),
        Message::Cancel(piece_index, block_offset, length) => Some(
            Action::CancelUpload { peer_id, piece_index, block_offset, length },
        ),
        Message::Piece(piece_index, block_offset, data) => if block_expected {
            Some(Action::IncomingBlock { peer_id, piece_index, block_offset, data })
        } else {
            None
        },
        _ => None,
    }
}

/// Law: each message from a peer reaches the torrent as the action of the
/// same kind, for that peer and with the message's own fields: choking,
/// unchoking and interest, the pieces it announces, the blocks it asks for
/// or cancels, and a requested block's data. Keep-alives and unrequested
/// blocks reach it as nothing.
pub proof fn lemma_messages_reach_the_torrent(peer_id: String, block_expected: bool)
    ensures
        message_action(peer_id, Message::Choke, block_expected) == Some(Action::PeerChoked { peer_id }),
        message_action(peer_id, Message::Unchoke, block_expected) == Some(Action::PeerUnchoked { peer_id }),
        message_action(peer_id, Message::Interested, block_expected) == Some(Action::PeerInterested { peer_id }),
        forall|i: u32| #[trigger] message_action(peer_id, Message::Have(i), block_expected)
            == Some(Action::PeerHavePiece { peer_id, piece_index: i }),
        forall|bf: Vec<u8>| #[trigger] message_action(peer_id, Message::Bitfield(bf), block_expected)
            == Some(Action::PeerBitfieldReceived { peer_id, bitfield: bf }),
        forall|i: u32, b: u32, l: u32| #[trigger] message_action(peer_id, Message::Request(i, b, l), block_expected)
            == Some(Action::RequestUpload { peer_id, piece_index: i, block_offset: b, length: l }),
        forall|i: u32, b: u32, l: u32| #[trigger] message_action(peer_id, Message::Cancel(i, b, l), block_expected)
            == Some(Action::CancelUpload { peer_id, piece_index: i, block_offset: b, length: l }),
        forall|i: u32, b: u32, d: Vec<u8>| #[trigger] message_action(peer_id, Message::Piece(i, b, d), block_expected)
            == if block_expected {
                Some(Action::IncomingBlock { peer_id, piece_index: i, block_offset: b, data: d })
            } else {
                None
            },
        message_action(peer_id, Message::KeepAlive, block_expected) is None,
{
}

} // verus!
