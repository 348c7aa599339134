//! `TorrentState::update`: one action in, the handler for it run, its effects
//! out; and the laws every action keeps.
use vstd::prelude::*;
use crate::networking::protocol::BlockInfo;
use crate::torrent_manager::piece_manager::PieceStatus;
use super::{
    Action, EffectView, Effect, PeerState, TorrentState, TorrentStatus, all_done, block_fits,
    keeps_books, lemma_assign_work_frame, lemma_same_uploads_total, lemma_upload_total_remove,
    lemma_upload_total_update, peer_pos, same_but_work, same_uploads, sat_add, upload_total, views,
    assign_work_result, lemma_peer_pos_from, queues_disjoint, lemma_assign_work_disjoint,
    pieces_tracked, piece_needed, requests_within, lemma_requests_shrink, lemma_assign_work_tracked,
    pending_held, requests_kept, lemma_held_keep, lemma_assign_work_held,
    ChokeStatus, tracker_pos_from, secs_to_ms, ANNOUNCE_DELAY_MS, DEFAULT_SEEDING_INTERVAL_MS,
    MAX_BLOCK_SIZE,
};

verus! {

/// The byte counters add up: what was counted in the current interval is part
/// of the session's total, and the peers' upload totals together do not exceed
/// the session's.
pub open spec fn books_balance(s: TorrentState) -> bool {
    &&& s.bytes_downloaded_in_interval <= s.session_total_downloaded
    &&& s.bytes_uploaded_in_interval <= s.session_total_uploaded
    &&& upload_total(s.peers@) <= s.session_total_uploaded
}

/// The connected count is the number of peers.
pub open spec fn count_matches(s: TorrentState) -> bool {
    s.number_of_successfully_connected_peers == s.peers@.len()
}

/// A torrent marked done has every piece done.
pub open spec fn done_is_complete(s: TorrentState) -> bool {
    s.torrent_status == TorrentStatus::Done ==> all_done(s.piece_manager.bitfield@)
}

/// Whether the action sends a block whose size would carry the session's
/// upload total past `u64::MAX`.
pub open spec fn upload_overflows(s: TorrentState, action: Action) -> bool {
    match action {
        Action::BlockSentToPeer { byte_count, .. } => s.session_total_uploaded + byte_count > u64::MAX,
        _ => false,
    }
}

impl TorrentState {
    /// Whether the state can take the action: room to count one more peer, a
    /// bitfield whose bit count fits
    /// in memory, a block that fits its piece, a write result for a piece that
    /// exists, a failed write that leaves the remaining count representable, and
    /// validation results that name existing pieces.
    pub open spec fn action_allowed(&self, action: Action) -> bool {
        match action {
            Action::PeerSuccessfullyConnected { .. } => self.peers@.len() < usize::MAX,
            Action::PeerBitfieldReceived { bitfield, .. } => bitfield@.len() * 8 <= usize::MAX,
            Action::IncomingBlock { piece_index, data, .. } => block_fits(*self, piece_index, data@.len()),
            Action::PieceWrittenToDisk { piece_index, .. } => (piece_index as int) < self.piece_manager.bitfield@.len(),
            Action::PieceWriteFailed { piece_index } => self.piece_manager.spec_is_done(piece_index)
                ==> self.piece_manager.pieces_remaining < usize::MAX,
            Action::ValidationComplete { completed_pieces } => forall|j: int|
                0 <= j < completed_pieces@.len() ==> (#[trigger] completed_pieces@[j] as int)
                    < self.piece_manager.bitfield@.len(),
            _ => true,
        }
    }

    /// What the action leads to: the state and effects of its handler.
    pub open spec fn action_result(before: TorrentState, after: TorrentState, action: Action, effects: Seq<EffectView>) -> bool {
        match action {
            Action::Tick { dt_ms } => Self::after_tick(before, after, dt_ms, effects),
            Action::RecalculateChokes { upload_slots, random_seed } => Self::after_recalculate_chokes(
                before,
                after,
                upload_slots,
                random_seed,
                effects,
            ),
            Action::CheckCompletion => Self::after_check_completion(before, after, effects),
            Action::AssignWork { peer_id } => Self::after_assign_work(before, after, peer_id, effects),
            Action::PeerSuccessfullyConnected { peer_id } => Self::after_peer_successfully_connected(
                before,
                after,
                peer_id,
                effects,
            ),
            Action::PeerDisconnected { peer_id } => Self::after_peer_disconnected(before, after, peer_id, effects),
            Action::UpdatePeerId { peer_addr, new_id } => Self::after_update_peer_id(
                before,
                after,
                peer_addr,
                new_id,
                effects,
            ),
            Action::PeerBitfieldReceived { peer_id, bitfield } => Self::after_peer_bitfield_received(
                before,
                after,
                peer_id,
                bitfield,
                effects,
            ),
            Action::PeerChoked { peer_id } => Self::after_peer_choked(before, after, peer_id, effects),
            Action::PeerUnchoked { peer_id } => Self::after_peer_unchoked(before, after, peer_id, effects),
            Action::PeerInterested { peer_id } => Self::after_peer_interested(before, after, peer_id, effects),
            Action::PeerHavePiece { peer_id, piece_index } => Self::after_peer_have_piece(
                before,
                after,
                peer_id,
                piece_index,
                effects,
            ),
            Action::IncomingBlock { peer_id, piece_index, block_offset, data } => Self::after_incoming_block(
                before,
                after,
                peer_id,
                piece_index,
                block_offset,
                data,
                effects,
            ),
            Action::PieceVerified { peer_id, piece_index, valid, data } => Self::after_piece_verified(
                before,
                after,
                peer_id,
                piece_index,
                valid,
                data,
                effects,
            ),
            Action::PieceWrittenToDisk { peer_id, piece_index } => Self::after_piece_written_to_disk(
                before,
                after,
                peer_id,
                piece_index,
                effects,
            ),
            Action::PieceWriteFailed { piece_index } => Self::after_piece_write_failed(
                before,
                after,
                piece_index,
                effects,
            ),
            Action::RequestUpload { peer_id, piece_index, block_offset, length } => Self::after_request_upload(
                before,
                after,
                peer_id,
                piece_index,
                block_offset,
                length,
                effects,
            ),
            Action::TrackerResponse { url, peers, interval, min_interval } => Self::after_tracker_response(
                before,
                after,
                url,
                peers,
                interval,
                min_interval,
                effects,
            ),
            Action::TrackerError { url } => Self::after_tracker_error(before, after, url, effects),
            Action::PeerConnectionFailed { peer_addr } => Self::after_peer_connection_failed(
                before,
                after,
                peer_addr,
                effects,
            ),
            Action::MetadataReceived { torrent, metadata_length } => Self::after_metadata_received(
                before,
                after,
                torrent,
                metadata_length,
                effects,
            ),
            Action::ValidationComplete { completed_pieces } => Self::after_validation_complete(
                before,
                after,
                completed_pieces,
                effects,
            ),
            Action::BlockSentToPeer { peer_id, byte_count } => Self::after_block_sent_to_peer(
                before,
                after,
                peer_id,
                byte_count,
                effects,
            ),
            Action::CancelUpload { peer_id, piece_index, block_offset, length } => {
                &&& after == before
                &&& effects =~= seq![
                    EffectView::AbortUpload {
                        peer_id,
                        block_info: BlockInfo { piece_index, offset: block_offset, length },
                    },
                ]
            },
            Action::Cleanup => Self::after_cleanup(before, after, effects),
            Action::Pause => Self::after_pause(before, after, effects),
            Action::Resume => Self::after_resume(before, after, effects),
            Action::Delete => Self::after_delete(before, after, effects),
            Action::UpdateListenPort => Self::after_update_listen_port(before, after, effects),
            Action::ValidationProgress { count } => Self::after_validation_progress(before, after, count, effects),
            Action::FatalError => Self::after_pause(before, after, effects),
        }
    }

    /// Applies one action and returns the effects for the session to carry
    /// out. A fatal error pauses the torrent.
    pub fn update(&mut self, action: Action) -> (effects: Vec<Effect>)
        requires
            old(self).wf(),
            old(self).action_allowed(action),
        ensures
            final(self).wf(),
            Self::action_result(*old(self), *final(self), action, views(effects@)),
    {
        match action {
            Action::Tick { dt_ms } => self.on_tick(dt_ms),
            Action::RecalculateChokes { upload_slots, random_seed } => self.on_recalculate_chokes(upload_slots, random_seed),
            Action::CheckCompletion => self.on_check_completion(),
            Action::AssignWork { peer_id } => self.on_assign_work(peer_id),
            Action::PeerSuccessfullyConnected { peer_id } => self.on_peer_successfully_connected(peer_id),
            Action::PeerDisconnected { peer_id } => self.on_peer_disconnected(peer_id),
            Action::UpdatePeerId { peer_addr, new_id } => self.on_update_peer_id(peer_addr, new_id),
            Action::PeerBitfieldReceived { peer_id, bitfield } => self.on_peer_bitfield_received(peer_id, bitfield),
            Action::PeerChoked { peer_id } => self.on_peer_choked(peer_id),
            Action::PeerUnchoked { peer_id } => self.on_peer_unchoked(peer_id),
            Action::PeerInterested { peer_id } => self.on_peer_interested(peer_id),
            Action::PeerHavePiece { peer_id, piece_index } => self.on_peer_have_piece(peer_id, piece_index),
            Action::IncomingBlock { peer_id, piece_index, block_offset, data } => self.on_incoming_block(
                peer_id,
                piece_index,
                block_offset,
                data,
            ),
            Action::PieceVerified { peer_id, piece_index, valid, data } => self.on_piece_verified(
                peer_id,
                piece_index,
                valid,
                data,
            ),
            Action::PieceWrittenToDisk { peer_id, piece_index } => self.on_piece_written_to_disk(peer_id, piece_index),
            Action::PieceWriteFailed { piece_index } => self.on_piece_write_failed(piece_index),
            Action::RequestUpload { peer_id, piece_index, block_offset, length } => self.on_request_upload(
                peer_id,
                piece_index,
                block_offset,
                length,
            ),
            Action::TrackerResponse { url, peers, interval, min_interval } => self.on_tracker_response(
                url,
                peers,
                interval,
                min_interval,
            ),
            Action::TrackerError { url } => self.on_tracker_error(url),
            Action::PeerConnectionFailed { peer_addr } => self.on_peer_connection_failed(peer_addr),
            Action::MetadataReceived { torrent, metadata_length } => self.on_metadata_received(torrent, metadata_length),
            Action::ValidationComplete { completed_pieces } => self.on_validation_complete(completed_pieces),
            Action::BlockSentToPeer { peer_id, byte_count } => self.on_block_sent_to_peer(peer_id, byte_count),
            Action::CancelUpload { peer_id, piece_index, block_offset, length } => self.on_cancel_upload(
                peer_id,
                piece_index,
                block_offset,
                length,
            ),
            Action::Cleanup => self.on_cleanup(),
            Action::Pause => self.on_pause(),
            Action::Resume => self.on_resume(),
            Action::Delete => self.on_delete(),
            Action::UpdateListenPort => self.on_update_listen_port(),
            Action::ValidationProgress { count } => self.on_validation_progress(count),
            Action::FatalError => self.on_pause(),
        }
    }
}

/// A peer list whose entry for `id` (if any) was replaced by one with the same
/// upload total.
proof fn lemma_changed_at_keeps_uploads(before: Seq<PeerState>, after: Seq<PeerState>, id: Seq<char>)
    requires
        peer_pos(before, id) >= 0 ==> after.len() == before.len()
            && after =~= before.update(peer_pos(before, id), after[peer_pos(before, id)])
            && after[peer_pos(before, id)].total_bytes_uploaded == before[peer_pos(before, id)].total_bytes_uploaded,
        peer_pos(before, id) < 0 ==> after =~= before,
    ensures
        same_uploads(before, after),
        upload_total(after) == upload_total(before),
{
    lemma_peer_pos_from(before, id, 0);
    assert(same_uploads(before, after));
    lemma_same_uploads_total(before, after);
}

/// Assigning work to `id` after a change `mid` that touched only the peers,
/// keeping their upload totals: the books, the count, the bitfield and (but
/// for entering endgame) the status are as before the change.
proof fn lemma_via_assign_work(before: TorrentState, after: TorrentState, id: String, effects: Seq<EffectView>)
    requires
        exists|mid: TorrentState|
            #![trigger assign_work_result(mid, after, id, effects)]
            same_but_work(before, mid) && same_uploads(before.peers@, mid.peers@)
                && mid.piece_manager == before.piece_manager && mid.torrent_status == before.torrent_status
                && assign_work_result(mid, after, id, effects),
    ensures
        keeps_books(before, after),
        upload_total(after.peers@) == upload_total(before.peers@),
        after.piece_manager.bitfield@ == before.piece_manager.bitfield@,
        after.torrent_status == before.torrent_status || after.torrent_status == TorrentStatus::Endgame,
{
    let mid = choose|mid: TorrentState|
        #![trigger assign_work_result(mid, after, id, effects)]
        same_but_work(before, mid) && same_uploads(before.peers@, mid.peers@)
            && mid.piece_manager == before.piece_manager && mid.torrent_status == before.torrent_status
            && assign_work_result(mid, after, id, effects);
    lemma_assign_work_frame(mid, after, id, effects);
    lemma_same_uploads_total(before.peers@, mid.peers@);
    lemma_same_uploads_total(mid.peers@, after.peers@);
}

/// Law: every action keeps the byte counters adding up (what an interval
/// counted is part of the session's total, and the peers' upload totals stay
/// within the session's), as long as no sent block carries the session's
/// upload total past `u64::MAX`.
#[verifier::spinoff_prover]
#[verifier::rlimit(50)]
pub proof fn lemma_update_keeps_books(before: TorrentState, after: TorrentState, action: Action, effects: Seq<EffectView>)
    requires
        before.wf(),
        TorrentState::action_result(before, after, action, effects),
        books_balance(before),
        !upload_overflows(before, action),
    ensures
        books_balance(after),
{
    match action {
        Action::Tick { dt_ms } => {
            assert(same_uploads(before.peers@, after.peers@)) by {
                assert forall|j: int| 0 <= j < before.peers@.len() implies #[trigger] before.peers@[j].total_bytes_uploaded
                    == after.peers@[j].total_bytes_uploaded by {
                    assert(after.peers@[j] == super::tick_reset(before.peers@[j]));
                }
            }
            lemma_same_uploads_total(before.peers@, after.peers@);
        },
        Action::RecalculateChokes { upload_slots, random_seed } => {
            lemma_same_uploads_total(before.peers@, after.peers@);
        },
        Action::CheckCompletion => {
            assert(same_uploads(before.peers@, after.peers@)) by {
                assert forall|j: int| 0 <= j < before.peers@.len() implies #[trigger] before.peers@[j].total_bytes_uploaded
                    == after.peers@[j].total_bytes_uploaded by {
                    if after.peers@ != before.peers@ {
                        assert(after.peers@[j] == super::uninterested(before.peers@[j]));
                    }
                }
            }
            lemma_same_uploads_total(before.peers@, after.peers@);
        },
        Action::AssignWork { peer_id } => {
            lemma_assign_work_frame(before, after, peer_id, effects);
            lemma_same_uploads_total(before.peers@, after.peers@);
        },
        Action::PeerDisconnected { peer_id } => {
            let i = peer_pos(before.peers@, peer_id@);
            lemma_peer_pos_from(before.peers@, peer_id@, 0);
            if i >= 0 {
                lemma_upload_total_remove(before.peers@, i);
            }
        },
        Action::UpdatePeerId { peer_addr, new_id } => {
            let i = peer_pos(before.peers@, peer_addr@);
            lemma_peer_pos_from(before.peers@, peer_addr@, 0);
            if i >= 0 {
                assert(after.peers@ == before.peers@.update(i, PeerState { peer_id: new_id, ..before.peers@[i] }));
            }
            lemma_changed_at_keeps_uploads(before.peers@, after.peers@, peer_addr@);
        },
        Action::PeerChoked { peer_id } => {
            let i = peer_pos(before.peers@, peer_id@);
            lemma_peer_pos_from(before.peers@, peer_id@, 0);
            if i >= 0 {
                assert(after.peers@ == before.peers@.update(i, PeerState { peer_choking: super::ChokeStatus::Choke, ..before.peers@[i] }));
            }
            lemma_changed_at_keeps_uploads(before.peers@, after.peers@, peer_id@);
        },
        Action::PeerInterested { peer_id } => {
            let i = peer_pos(before.peers@, peer_id@);
            lemma_peer_pos_from(before.peers@, peer_id@, 0);
            if i >= 0 {
                assert(after.peers@ == before.peers@.update(i, PeerState { peer_is_interested_in_us: true, ..before.peers@[i] }));
            }
            lemma_changed_at_keeps_uploads(before.peers@, after.peers@, peer_id@);
        },
        Action::PeerBitfieldReceived { peer_id, bitfield } => {
            lemma_via_assign_work(before, after, peer_id, effects);
        },
        Action::PeerUnchoked { peer_id } => {
            lemma_via_assign_work(before, after, peer_id, effects);
        },
        Action::PeerHavePiece { peer_id, piece_index } => {
            lemma_via_assign_work(before, after, peer_id, effects);
        },
        Action::IncomingBlock { peer_id, piece_index, block_offset, data } => {
            if !(before.spec_piece_done(piece_index) || before.torrent_status == TorrentStatus::Validating) {
                let i = peer_pos(before.peers@, peer_id@);
                lemma_peer_pos_from(before.peers@, peer_id@, 0);
                if i >= 0 {
                    let len = data@.len() as u64;
                    let p = before.peers@[i];
                    assert(after.peers@ == before.peers@.update(i, PeerState {
                        bytes_downloaded_from_peer: sat_add(p.bytes_downloaded_from_peer, len),
                        bytes_downloaded_in_tick: sat_add(p.bytes_downloaded_in_tick, len),
                        total_bytes_downloaded: sat_add(p.total_bytes_downloaded, len),
                        ..p
                    }));
                }
                lemma_changed_at_keeps_uploads(before.peers@, after.peers@, peer_id@);
            }
        },
        Action::PieceVerified { peer_id, piece_index, valid, data } => {
            if valid && before.spec_piece_done(piece_index) {
                lemma_via_assign_work(before, after, peer_id, effects);
            }
        },
        Action::PieceWrittenToDisk { peer_id, piece_index } => {
            if before.spec_piece_done(piece_index) {
                lemma_via_assign_work(before, after, peer_id, effects);
            } else {
                lemma_same_uploads_total(before.peers@, after.peers@);
            }
        },
        Action::MetadataReceived { torrent, metadata_length } => {
            if before.torrent is None {
                assert(same_uploads(before.peers@, after.peers@)) by {
                    assert forall|j: int| 0 <= j < before.peers@.len() implies #[trigger] before.peers@[j].total_bytes_uploaded
                        == after.peers@[j].total_bytes_uploaded by {
                        assert(after.peers@[j] == (PeerState { bitfield: after.peers@[j].bitfield, ..before.peers@[j] }));
                    }
                }
                lemma_same_uploads_total(before.peers@, after.peers@);
            }
        },
        Action::ValidationComplete { completed_pieces } => {
            lemma_same_uploads_total(before.peers@, after.peers@);
        },
        Action::BlockSentToPeer { peer_id, byte_count } => {
            let i = peer_pos(before.peers@, peer_id@);
            lemma_peer_pos_from(before.peers@, peer_id@, 0);
            if i >= 0 {
                lemma_upload_total_update(before.peers@, i, after.peers@[i]);
                assert(after.peers@ =~= before.peers@.update(i, after.peers@[i]));
            }
        },
        Action::Pause => {
            assert(upload_total(after.peers@) == 0);
        },
        Action::FatalError => {
            assert(upload_total(after.peers@) == 0);
        },
        Action::Delete => {
            assert(upload_total(after.peers@) == 0);
        },
        _ => {},
    }
}

/// Law: every action keeps the connected count equal to the number of peers,
/// and a successful connection of a listed peer sets it so.
#[verifier::spinoff_prover]
#[verifier::rlimit(50)]
pub proof fn lemma_update_keeps_count(before: TorrentState, after: TorrentState, action: Action, effects: Seq<EffectView>)
    requires
        before.wf(),
        TorrentState::action_result(before, after, action, effects),
        count_matches(before) || action is PeerSuccessfullyConnected,
        action matches Action::PeerSuccessfullyConnected { peer_id } ==> peer_pos(before.peers@, peer_id@) >= 0,
    ensures
        count_matches(after),
{
    match action {
        Action::Tick { dt_ms } => {},
        Action::AssignWork { peer_id } => {
            lemma_assign_work_frame(before, after, peer_id, effects);
        },
        Action::PeerBitfieldReceived { peer_id, bitfield } => {
            lemma_via_assign_work(before, after, peer_id, effects);
        },
        Action::PeerUnchoked { peer_id } => {
            lemma_via_assign_work(before, after, peer_id, effects);
        },
        Action::PeerHavePiece { peer_id, piece_index } => {
            lemma_via_assign_work(before, after, peer_id, effects);
        },
        Action::PeerDisconnected { peer_id } => {
            lemma_peer_pos_from(before.peers@, peer_id@, 0);
        },
        Action::UpdatePeerId { peer_addr, new_id } => {
            let i = peer_pos(before.peers@, peer_addr@);
            lemma_peer_pos_from(before.peers@, peer_addr@, 0);
            if i >= 0 {
                assert(after.peers@ == before.peers@.update(i, PeerState { peer_id: new_id, ..before.peers@[i] }));
            }
            lemma_changed_at_keeps_uploads(before.peers@, after.peers@, peer_addr@);
        },
        Action::PeerChoked { peer_id } => {
            let i = peer_pos(before.peers@, peer_id@);
            lemma_peer_pos_from(before.peers@, peer_id@, 0);
            if i >= 0 {
                assert(after.peers@ == before.peers@.update(i, PeerState { peer_choking: super::ChokeStatus::Choke, ..before.peers@[i] }));
            }
            lemma_changed_at_keeps_uploads(before.peers@, after.peers@, peer_id@);
        },
        Action::PeerInterested { peer_id } => {
            let i = peer_pos(before.peers@, peer_id@);
            lemma_peer_pos_from(before.peers@, peer_id@, 0);
            if i >= 0 {
                assert(after.peers@ == before.peers@.update(i, PeerState { peer_is_interested_in_us: true, ..before.peers@[i] }));
            }
            lemma_changed_at_keeps_uploads(before.peers@, after.peers@, peer_id@);
        },
        Action::IncomingBlock { peer_id, piece_index, block_offset, data } => {
            if !(before.spec_piece_done(piece_index) || before.torrent_status == TorrentStatus::Validating) {
                let i = peer_pos(before.peers@, peer_id@);
                lemma_peer_pos_from(before.peers@, peer_id@, 0);
                if i >= 0 {
                    let len = data@.len() as u64;
                    let p = before.peers@[i];
                    assert(after.peers@ == before.peers@.update(i, PeerState {
                        bytes_downloaded_from_peer: sat_add(p.bytes_downloaded_from_peer, len),
                        bytes_downloaded_in_tick: sat_add(p.bytes_downloaded_in_tick, len),
                        total_bytes_downloaded: sat_add(p.total_bytes_downloaded, len),
                        ..p
                    }));
                }
                lemma_changed_at_keeps_uploads(before.peers@, after.peers@, peer_id@);
            }
        },
        Action::BlockSentToPeer { peer_id, byte_count } => {
            lemma_peer_pos_from(before.peers@, peer_id@, 0);
        },
        Action::PieceVerified { peer_id, piece_index, valid, data } => {
            if valid && before.spec_piece_done(piece_index) {
                lemma_via_assign_work(before, after, peer_id, effects);
            }
        },
        Action::PieceWrittenToDisk { peer_id, piece_index } => {
            if before.spec_piece_done(piece_index) {
                lemma_via_assign_work(before, after, peer_id, effects);
            }
        },
        _ => {},
    }
}

/// Law: no action leaves a torrent marked done with a piece that is not
/// done, but a failed disk write on a finished torrent.
#[verifier::spinoff_prover]
#[verifier::rlimit(50)]
pub proof fn lemma_update_keeps_done_complete(
    before: TorrentState,
    after: TorrentState,
    action: Action,
    effects: Seq<EffectView>,
)
    requires
        before.wf(),
        TorrentState::action_result(before, after, action, effects),
        before.action_allowed(action),
        done_is_complete(before),
        action is PieceWriteFailed ==> before.torrent_status != TorrentStatus::Done,
    ensures
        done_is_complete(after),
{
    match action {
        Action::AssignWork { peer_id } => {
            lemma_assign_work_frame(before, after, peer_id, effects);
        },
        Action::PeerBitfieldReceived { peer_id, bitfield } => {
            lemma_via_assign_work(before, after, peer_id, effects);
        },
        Action::PeerUnchoked { peer_id } => {
            lemma_via_assign_work(before, after, peer_id, effects);
        },
        Action::PeerHavePiece { peer_id, piece_index } => {
            lemma_via_assign_work(before, after, peer_id, effects);
        },
        Action::PieceVerified { peer_id, piece_index, valid, data } => {
            if valid && before.spec_piece_done(piece_index) {
                lemma_via_assign_work(before, after, peer_id, effects);
            }
        },
        Action::PieceWrittenToDisk { peer_id, piece_index } => {
            if before.spec_piece_done(piece_index) {
                lemma_via_assign_work(before, after, peer_id, effects);
            } else if after.torrent_status == TorrentStatus::Done && before.torrent_status == TorrentStatus::Done {
                let a = after.piece_manager.bitfield@;
                let b = before.piece_manager.bitfield@;
                assert(a =~= b.update(piece_index as int, PieceStatus::Done));
                assert(all_done(b));
                assert forall|k: int| 0 <= k < a.len() implies #[trigger] a[k] == PieceStatus::Done by {
                    if k != piece_index as int {
                        assert(a[k] == b[k]);
                    }
                }
            }
        },
        _ => {},
    }
}

/// Law: no action leaves a piece both needed and pending, but metadata that
/// arrives while pieces are pending (the needed pieces then start afresh).
#[verifier::spinoff_prover]
pub proof fn lemma_update_keeps_queues_disjoint(
    before: TorrentState,
    after: TorrentState,
    action: Action,
    effects: Seq<EffectView>,
)
    requires
        before.wf(),
        TorrentState::action_result(before, after, action, effects),
        queues_disjoint(before.piece_manager),
        action is MetadataReceived ==> before.piece_manager.pending_queue@.dom().len() == 0,
    ensures
        queues_disjoint(after.piece_manager),
{
    let b = before.piece_manager;
    let a = after.piece_manager;
    match action {
        Action::AssignWork { peer_id } => {
            lemma_assign_work_disjoint(before, after, peer_id, effects);
        },
        Action::PeerBitfieldReceived { peer_id, bitfield } => {
            lemma_via_assign_work_disjoint(before, after, peer_id, effects);
        },
        Action::PeerUnchoked { peer_id } => {
            lemma_via_assign_work_disjoint(before, after, peer_id, effects);
        },
        Action::PeerHavePiece { peer_id, piece_index } => {
            lemma_via_assign_work_disjoint(before, after, peer_id, effects);
        },
        Action::PieceVerified { peer_id, piece_index, valid, data } => {
            if valid && before.spec_piece_done(piece_index) {
                lemma_via_assign_work_disjoint(before, after, peer_id, effects);
            }
        },
        Action::PieceWrittenToDisk { peer_id, piece_index } => {
            if before.spec_piece_done(piece_index) {
                lemma_via_assign_work_disjoint(before, after, peer_id, effects);
            }
        },
        Action::PeerDisconnected { peer_id } => {
            lemma_peer_pos_from(before.peers@, peer_id@, 0);
        },
        Action::PieceWriteFailed { piece_index } => {
            assert forall|q: u32| #[trigger] a.need_queue@.contains(q) implies !a.pending_queue@.contains_key(q) by {
                crate::torrent_manager::piece_manager::lemma_push_contains(b.need_queue@, piece_index, q);
            }
        },
        Action::MetadataReceived { torrent, metadata_length } => {
            if before.torrent is None {
                assert(b.pending_queue@.dom() =~= Set::<u32>::empty());
                assert forall|q: u32| #[trigger] a.need_queue@.contains(q) implies !a.pending_queue@.contains_key(q) by {
                    assert(!b.pending_queue@.dom().contains(q));
                }
            }
        },
        Action::Pause => {},
        Action::FatalError => {},
        _ => {},
    }
}

/// The queues and requests are as tracked as before when the piece manager's
/// queues and bitfield are unchanged and no peer gained a request.
proof fn lemma_tracked_frame(before: TorrentState, after: TorrentState)
    requires
        pieces_tracked(before),
        after.piece_manager.bitfield@ == before.piece_manager.bitfield@,
        after.piece_manager.need_queue@ == before.piece_manager.need_queue@,
        after.piece_manager.pending_queue@ == before.piece_manager.pending_queue@,
        requests_within(before.peers@, after.peers@),
    ensures
        pieces_tracked(after),
{
    lemma_requests_shrink(before.peers@, after.peers@, before.piece_manager.bitfield@.len() as int);
}

/// A peer list whose entry for `id` (if any) was replaced by one with the same
/// requests.
proof fn lemma_changed_at_keeps_requests(before: Seq<PeerState>, after: Seq<PeerState>, id: Seq<char>)
    requires
        peer_pos(before, id) >= 0 ==> after.len() == before.len()
            && after =~= before.update(peer_pos(before, id), after[peer_pos(before, id)])
            && after[peer_pos(before, id)].pending_requests == before[peer_pos(before, id)].pending_requests,
        peer_pos(before, id) < 0 ==> after =~= before,
    ensures
        requests_within(before, after),
        before.len() == after.len(),
        forall|j: int| 0 <= j < after.len() ==> #[trigger] after[j].pending_requests == before[j].pending_requests,
{
    lemma_peer_pos_from(before, id, 0);
    let i = peer_pos(before, id);
    assert forall|j: int| 0 <= j < after.len() implies #[trigger] after[j].pending_requests == before[j].pending_requests by {
        if i >= 0 && j != i {
            assert(after[j] == before[j]);
        }
    }
    assert forall|j: int, q: u32| 0 <= j < after.len() && #[trigger] after[j].pending_requests@.contains(q)
        implies before[j].pending_requests@.contains(q) by {
        if i >= 0 && j != i {
            assert(after[j] == before[j]);
        }
    }
}

/// Assigning work to `id` after a change that touched only the peers'
/// requests, shrinking them, keeps the queues tracked.
proof fn lemma_via_assign_work_tracked(before: TorrentState, after: TorrentState, id: String, effects: Seq<EffectView>)
    requires
        exists|mid: TorrentState|
            #![trigger assign_work_result(mid, after, id, effects)]
            requests_within(before.peers@, mid.peers@) && mid.piece_manager == before.piece_manager
                && assign_work_result(mid, after, id, effects),
        pieces_tracked(before),
    ensures
        pieces_tracked(after),
{
    let mid = choose|mid: TorrentState|
        #![trigger assign_work_result(mid, after, id, effects)]
        requests_within(before.peers@, mid.peers@) && mid.piece_manager == before.piece_manager
            && assign_work_result(mid, after, id, effects);
    lemma_tracked_frame(before, mid);
    lemma_assign_work_tracked(mid, after, id, effects);
}

/// Law: every action keeps each needed or pending piece a piece of the
/// torrent that is not done, and each piece requested from a peer a piece of
/// the torrent, except a failed write of a piece the torrent does not have
/// and metadata that arrives while pieces are pending or describes fewer
/// pieces than the torrent had.
#[verifier::spinoff_prover]
#[verifier::rlimit(100)]
pub proof fn lemma_update_keeps_pieces_tracked(
    before: TorrentState,
    after: TorrentState,
    action: Action,
    effects: Seq<EffectView>,
)
    requires
        before.wf(),
        TorrentState::action_result(before, after, action, effects),
        before.action_allowed(action),
        pieces_tracked(before),
        action matches Action::PieceWriteFailed { piece_index } ==> (piece_index as int) < before.piece_manager.bitfield@.len(),
        action matches Action::MetadataReceived { torrent, .. } ==> before.torrent is None ==> (
            before.piece_manager.pending_queue@.dom().len() == 0
            && before.piece_manager.bitfield@.len() <= torrent.num_pieces),
    ensures
        pieces_tracked(after),
{
    let b = before.piece_manager;
    let a = after.piece_manager;
    let n = b.bitfield@.len() as int;
    match action {
        Action::Tick { dt_ms } => {
            assert forall|j: int, q: u32| 0 <= j < after.peers@.len() && #[trigger] after.peers@[j].pending_requests@.contains(q)
                implies before.peers@[j].pending_requests@.contains(q) by {
                assert(after.peers@[j] == super::tick_reset(before.peers@[j]));
            }
            lemma_tracked_frame(before, after);
        },
        Action::RecalculateChokes { upload_slots, random_seed } => {
            let seeding = before.torrent_status == TorrentStatus::Done;
            let order = choose|order: Seq<usize>|
                #![trigger super::ranked(before.peers@, seeding, order)]
                super::ranked(before.peers@, seeding, order) && ({
                    let due = before.optimistic_unchoke_timer matches Some(t) && super::since(before.now, t) > super::OPTIMISTIC_UNCHOKE_MS;
                    let pick = super::optimistic_pick(order, upload_slots as int, due, random_seed);
                    &&& after.peers@.len() == before.peers@.len()
                    &&& forall|j: int| 0 <= j < before.peers@.len() ==> #[trigger] after.peers@[j]
                        == super::after_round(before.peers@[j], super::unchoked_by(order, upload_slots as int, pick, j))
                });
            assert forall|j: int, q: u32| 0 <= j < after.peers@.len() && #[trigger] after.peers@[j].pending_requests@.contains(q)
                implies before.peers@[j].pending_requests@.contains(q) by {
                let due = before.optimistic_unchoke_timer matches Some(t) && super::since(before.now, t) > super::OPTIMISTIC_UNCHOKE_MS;
                let pick = super::optimistic_pick(order, upload_slots as int, due, random_seed);
                assert(after.peers@[j] == super::after_round(before.peers@[j], super::unchoked_by(order, upload_slots as int, pick, j)));
            }
            lemma_tracked_frame(before, after);
        },
        Action::CheckCompletion => {
            assert forall|j: int, q: u32| 0 <= j < after.peers@.len() && #[trigger] after.peers@[j].pending_requests@.contains(q)
                implies before.peers@[j].pending_requests@.contains(q) by {
                if after.peers@ != before.peers@ {
                    assert(after.peers@[j] == super::uninterested(before.peers@[j]));
                }
            }
            lemma_tracked_frame(before, after);
        },
        Action::AssignWork { peer_id } => {
            lemma_assign_work_tracked(before, after, peer_id, effects);
        },
        Action::PeerSuccessfullyConnected { peer_id } => {
            lemma_tracked_frame(before, after);
        },
        Action::PeerDisconnected { peer_id } => {
            let i = peer_pos(before.peers@, peer_id@);
            lemma_peer_pos_from(before.peers@, peer_id@, 0);
            if i >= 0 {
                let p = before.peers@[i];
                assert forall|q: u32| #[trigger] a.need_queue@.contains(q) implies piece_needed(a.bitfield@, q) by {
                    if !b.need_queue@.contains(q) {
                        assert(p.pending_requests@.contains(q));
                        assert(before.peers@[i].pending_requests@.contains(q));
                        assert((q as int) < n);
                        assert(!b.spec_is_done(q));
                    }
                }
                assert forall|q: u32| #[trigger] a.pending_queue@.contains_key(q) implies piece_needed(a.bitfield@, q) by {
                    assert(b.pending_queue@.contains_key(q));
                }
                assert forall|j: int, q: u32| 0 <= j < after.peers@.len() && #[trigger] after.peers@[j].pending_requests@.contains(q)
                    implies (q as int) < a.bitfield@.len() by {
                    if j < i {
                        assert(after.peers@[j] == before.peers@[j]);
                        assert(before.peers@[j].pending_requests@.contains(q));
                    } else {
                        assert(after.peers@[j] == before.peers@[j + 1]);
                        assert(before.peers@[j + 1].pending_requests@.contains(q));
                    }
                }
            } else {
                lemma_tracked_frame(before, after);
            }
        },
        Action::UpdatePeerId { peer_addr, new_id } => {
            let i = peer_pos(before.peers@, peer_addr@);
            lemma_peer_pos_from(before.peers@, peer_addr@, 0);
            if i >= 0 {
                assert(after.peers@ == before.peers@.update(i, PeerState { peer_id: new_id, ..before.peers@[i] }));
            }
            lemma_changed_at_keeps_requests(before.peers@, after.peers@, peer_addr@);
            lemma_tracked_frame(before, after);
        },
        Action::PeerChoked { peer_id } => {
            let i = peer_pos(before.peers@, peer_id@);
            lemma_peer_pos_from(before.peers@, peer_id@, 0);
            if i >= 0 {
                assert(after.peers@ == before.peers@.update(i, PeerState { peer_choking: super::ChokeStatus::Choke, ..before.peers@[i] }));
            }
            lemma_changed_at_keeps_requests(before.peers@, after.peers@, peer_id@);
            lemma_tracked_frame(before, after);
        },
        Action::PeerInterested { peer_id } => {
            let i = peer_pos(before.peers@, peer_id@);
            lemma_peer_pos_from(before.peers@, peer_id@, 0);
            if i >= 0 {
                assert(after.peers@ == before.peers@.update(i, PeerState { peer_is_interested_in_us: true, ..before.peers@[i] }));
            }
            lemma_changed_at_keeps_requests(before.peers@, after.peers@, peer_id@);
            lemma_tracked_frame(before, after);
        },
        Action::PeerBitfieldReceived { peer_id, bitfield } => {
            lemma_via_assign_work_tracked(before, after, peer_id, effects);
        },
        Action::PeerUnchoked { peer_id } => {
            lemma_via_assign_work_tracked(before, after, peer_id, effects);
        },
        Action::PeerHavePiece { peer_id, piece_index } => {
            lemma_via_assign_work_tracked(before, after, peer_id, effects);
        },
        Action::IncomingBlock { peer_id, piece_index, block_offset, data } => {
            if !(before.spec_piece_done(piece_index) || before.torrent_status == TorrentStatus::Validating) {
                let i = peer_pos(before.peers@, peer_id@);
                lemma_peer_pos_from(before.peers@, peer_id@, 0);
                if i >= 0 {
                    let len = data@.len() as u64;
                    let p = before.peers@[i];
                    assert(after.peers@ == before.peers@.update(i, PeerState {
                        bytes_downloaded_from_peer: sat_add(p.bytes_downloaded_from_peer, len),
                        bytes_downloaded_in_tick: sat_add(p.bytes_downloaded_in_tick, len),
                        total_bytes_downloaded: sat_add(p.total_bytes_downloaded, len),
                        ..p
                    }));
                }
                lemma_changed_at_keeps_requests(before.peers@, after.peers@, peer_id@);
            } else {
                assert(requests_within(before.peers@, after.peers@));
            }
            lemma_tracked_frame(before, after);
        },
        Action::PieceVerified { peer_id, piece_index, valid, data } => {
            if valid && before.spec_piece_done(piece_index) {
                lemma_via_assign_work_tracked(before, after, peer_id, effects);
            } else {
                assert(requests_within(before.peers@, after.peers@));
                lemma_tracked_frame(before, after);
            }
        },
        Action::PieceWrittenToDisk { peer_id, piece_index } => {
            if before.spec_piece_done(piece_index) {
                lemma_via_assign_work_tracked(before, after, peer_id, effects);
            }
        },
        Action::PieceWriteFailed { piece_index } => {
            assert forall|q: u32| #[trigger] a.need_queue@.contains(q) implies piece_needed(a.bitfield@, q) by {
                crate::torrent_manager::piece_manager::lemma_push_contains(b.need_queue@, piece_index, q);
            }
            assert forall|q: u32| #[trigger] a.pending_queue@.contains_key(q) implies piece_needed(a.bitfield@, q) by {
                assert(b.pending_queue@.contains_key(q));
            }
            assert(requests_within(before.peers@, after.peers@));
            lemma_requests_shrink(before.peers@, after.peers@, n);
        },
        Action::RequestUpload { peer_id, piece_index, block_offset, length } => {
            lemma_tracked_frame(before, after);
        },
        Action::TrackerResponse { url, peers, interval, min_interval } => {
            lemma_tracked_frame(before, after);
        },
        Action::TrackerError { url } => {
            lemma_tracked_frame(before, after);
        },
        Action::PeerConnectionFailed { peer_addr } => {
            lemma_tracked_frame(before, after);
        },
        Action::MetadataReceived { torrent, metadata_length } => {
            if before.torrent is None {
                let m = torrent.num_pieces as int;
                assert(b.pending_queue@.dom() =~= Set::<u32>::empty());
                assert forall|q: u32| #[trigger] a.need_queue@.contains(q) implies piece_needed(a.bitfield@, q) by {
                    let k = choose|k: int| 0 <= k < a.need_queue@.len() && a.need_queue@[k] == q;
                    assert(a.need_queue@[k] == k as u32);
                }
                assert forall|q: u32| #[trigger] a.pending_queue@.contains_key(q) implies piece_needed(a.bitfield@, q) by {
                    assert(b.pending_queue@.dom().contains(q));
                }
                assert forall|j: int, q: u32| 0 <= j < after.peers@.len() && #[trigger] after.peers@[j].pending_requests@.contains(q)
                    implies (q as int) < a.bitfield@.len() by {
                    assert(after.peers@[j].pending_requests == before.peers@[j].pending_requests);
                    assert(before.peers@[j].pending_requests@.contains(q));
                }
            }
        },
        Action::ValidationComplete { completed_pieces } => {},
        Action::BlockSentToPeer { peer_id, byte_count } => {
            let i = peer_pos(before.peers@, peer_id@);
            lemma_peer_pos_from(before.peers@, peer_id@, 0);
            if i >= 0 {
                assert(after.peers@ =~= before.peers@.update(i, after.peers@[i]));
            }
            lemma_changed_at_keeps_requests(before.peers@, after.peers@, peer_id@);
            lemma_tracked_frame(before, after);
        },
        Action::CancelUpload { peer_id, piece_index, block_offset, length } => {},
        Action::Cleanup => {
            lemma_tracked_frame(before, after);
        },
        Action::Pause => {
            lemma_pause_tracked(before, after, effects);
        },
        Action::FatalError => {
            lemma_pause_tracked(before, after, effects);
        },
        Action::Resume => {
            lemma_tracked_frame(before, after);
        },
        Action::Delete => {},
        Action::UpdateListenPort => {
            lemma_tracked_frame(before, after);
        },
        Action::ValidationProgress { count } => {
            lemma_tracked_frame(before, after);
        },
    }
}

/// Pending pieces stay requested when the pending pieces and every peer's
/// requests are as before.
proof fn lemma_held_frame(before: TorrentState, after: TorrentState)
    requires
        pending_held(before),
        after.piece_manager.pending_queue@ == before.piece_manager.pending_queue@,
        after.peers@.len() == before.peers@.len(),
        forall|j: int| 0 <= j < after.peers@.len() ==> #[trigger] after.peers@[j].pending_requests == before.peers@[j].pending_requests,
    ensures
        pending_held(after),
{
    assert forall|j: int, q: u32| 0 <= j < before.peers@.len() && #[trigger] before.peers@[j].pending_requests@.contains(q)
        && after.piece_manager.pending_queue@.contains_key(q) implies after.peers@[j].pending_requests@.contains(q) by {
        assert(after.peers@[j].pending_requests == before.peers@[j].pending_requests);
    }
    lemma_held_keep(before, after);
}

/// Assigning work to `id` after a change that dropped only requests for
/// pieces that are done keeps every pending piece requested.
proof fn lemma_via_assign_work_held(before: TorrentState, after: TorrentState, id: String, effects: Seq<EffectView>)
    requires
        exists|mid: TorrentState|
            #![trigger assign_work_result(mid, after, id, effects)]
            requests_kept(before.peers@, mid.peers@, before.piece_manager) && mid.piece_manager == before.piece_manager
                && assign_work_result(mid, after, id, effects),
        pieces_tracked(before),
        pending_held(before),
    ensures
        pending_held(after),
{
    let mid = choose|mid: TorrentState|
        #![trigger assign_work_result(mid, after, id, effects)]
        requests_kept(before.peers@, mid.peers@, before.piece_manager) && mid.piece_manager == before.piece_manager
            && assign_work_result(mid, after, id, effects);
    assert forall|j: int, q: u32| 0 <= j < before.peers@.len() && #[trigger] before.peers@[j].pending_requests@.contains(q)
        && mid.piece_manager.pending_queue@.contains_key(q) implies mid.peers@[j].pending_requests@.contains(q) by {
        assert(piece_needed(before.piece_manager.bitfield@, q));
    }
    lemma_held_keep(before, mid);
    lemma_assign_work_held(mid, after, id, effects);
}

/// Law: every action keeps each pending piece requested from some peer (so
/// no piece is pending with no peer working on it), for queues that are
/// tracked.
#[verifier::spinoff_prover]
#[verifier::rlimit(50)]
pub proof fn lemma_update_keeps_pending_held(
    before: TorrentState,
    after: TorrentState,
    action: Action,
    effects: Seq<EffectView>,
)
    requires
        before.wf(),
        TorrentState::action_result(before, after, action, effects),
        before.action_allowed(action),
        pieces_tracked(before),
        pending_held(before),
    ensures
        pending_held(after),
{
    let b = before.piece_manager;
    let a = after.piece_manager;
    match action {
        Action::Tick { dt_ms } => {
            assert forall|j: int| 0 <= j < after.peers@.len() implies #[trigger] after.peers@[j].pending_requests
                == before.peers@[j].pending_requests by {
                assert(after.peers@[j] == super::tick_reset(before.peers@[j]));
            }
            lemma_held_frame(before, after);
        },
        Action::RecalculateChokes { upload_slots, random_seed } => {
            let seeding = before.torrent_status == TorrentStatus::Done;
            let order = choose|order: Seq<usize>|
                #![trigger super::ranked(before.peers@, seeding, order)]
                super::ranked(before.peers@, seeding, order) && ({
                    let due = before.optimistic_unchoke_timer matches Some(t) && super::since(before.now, t) > super::OPTIMISTIC_UNCHOKE_MS;
                    let pick = super::optimistic_pick(order, upload_slots as int, due, random_seed);
                    &&& after.peers@.len() == before.peers@.len()
                    &&& forall|j: int| 0 <= j < before.peers@.len() ==> #[trigger] after.peers@[j]
                        == super::after_round(before.peers@[j], super::unchoked_by(order, upload_slots as int, pick, j))
                });
            assert forall|j: int| 0 <= j < after.peers@.len() implies #[trigger] after.peers@[j].pending_requests
                == before.peers@[j].pending_requests by {
                let due = before.optimistic_unchoke_timer matches Some(t) && super::since(before.now, t) > super::OPTIMISTIC_UNCHOKE_MS;
                let pick = super::optimistic_pick(order, upload_slots as int, due, random_seed);
                assert(after.peers@[j] == super::after_round(before.peers@[j], super::unchoked_by(order, upload_slots as int, pick, j)));
            }
            lemma_held_frame(before, after);
        },
        Action::CheckCompletion => {
            assert forall|j: int| 0 <= j < after.peers@.len() implies #[trigger] after.peers@[j].pending_requests
                == before.peers@[j].pending_requests by {
                if after.peers@ != before.peers@ {
                    assert(after.peers@[j] == super::uninterested(before.peers@[j]));
                }
            }
            lemma_held_frame(before, after);
        },
        Action::AssignWork { peer_id } => {
            lemma_assign_work_held(before, after, peer_id, effects);
        },
        Action::PeerSuccessfullyConnected { peer_id } => {
            lemma_held_frame(before, after);
        },
        Action::PeerDisconnected { peer_id } => {
            let i = peer_pos(before.peers@, peer_id@);
            lemma_peer_pos_from(before.peers@, peer_id@, 0);
            if i >= 0 {
                assert forall|q: u32| #[trigger] a.pending_queue@.contains_key(q) implies exists|j: int|
                    0 <= j < after.peers@.len() && #[trigger] after.peers@[j].pending_requests@.contains(q) by {
                    assert(b.pending_queue@.contains_key(q));
                    assert(piece_needed(b.bitfield@, q));
                    let j = choose|j: int| 0 <= j < before.peers@.len() && #[trigger] before.peers@[j].pending_requests@.contains(q);
                    assert(j != i);
                    if j < i {
                        assert(after.peers@[j] == before.peers@[j]);
                    } else {
                        assert(after.peers@[j - 1] == before.peers@[j]);
                    }
                }
            } else {
                lemma_held_frame(before, after);
            }
        },
        Action::UpdatePeerId { peer_addr, new_id } => {
            let i = peer_pos(before.peers@, peer_addr@);
            lemma_peer_pos_from(before.peers@, peer_addr@, 0);
            if i >= 0 {
                assert(after.peers@ == before.peers@.update(i, PeerState { peer_id: new_id, ..before.peers@[i] }));
            }
            lemma_changed_at_keeps_requests(before.peers@, after.peers@, peer_addr@);
            lemma_held_frame(before, after);
        },
        Action::PeerChoked { peer_id } => {
            let i = peer_pos(before.peers@, peer_id@);
            lemma_peer_pos_from(before.peers@, peer_id@, 0);
            if i >= 0 {
                assert(after.peers@ == before.peers@.update(i, PeerState { peer_choking: super::ChokeStatus::Choke, ..before.peers@[i] }));
            }
            lemma_changed_at_keeps_requests(before.peers@, after.peers@, peer_id@);
            lemma_held_frame(before, after);
        },
        Action::PeerInterested { peer_id } => {
            let i = peer_pos(before.peers@, peer_id@);
            lemma_peer_pos_from(before.peers@, peer_id@, 0);
            if i >= 0 {
                assert(after.peers@ == before.peers@.update(i, PeerState { peer_is_interested_in_us: true, ..before.peers@[i] }));
            }
            lemma_changed_at_keeps_requests(before.peers@, after.peers@, peer_id@);
            lemma_held_frame(before, after);
        },
        Action::PeerBitfieldReceived { peer_id, bitfield } => {
            lemma_via_assign_work_held(before, after, peer_id, effects);
        },
        Action::PeerUnchoked { peer_id } => {
            lemma_via_assign_work_held(before, after, peer_id, effects);
        },
        Action::PeerHavePiece { peer_id, piece_index } => {
            lemma_via_assign_work_held(before, after, peer_id, effects);
        },
        Action::IncomingBlock { peer_id, piece_index, block_offset, data } => {
            if !(before.spec_piece_done(piece_index) || before.torrent_status == TorrentStatus::Validating) {
                let i = peer_pos(before.peers@, peer_id@);
                lemma_peer_pos_from(before.peers@, peer_id@, 0);
                if i >= 0 {
                    let len = data@.len() as u64;
                    let p = before.peers@[i];
                    assert(after.peers@ == before.peers@.update(i, PeerState {
                        bytes_downloaded_from_peer: sat_add(p.bytes_downloaded_from_peer, len),
                        bytes_downloaded_in_tick: sat_add(p.bytes_downloaded_in_tick, len),
                        total_bytes_downloaded: sat_add(p.total_bytes_downloaded, len),
                        ..p
                    }));
                }
                lemma_changed_at_keeps_requests(before.peers@, after.peers@, peer_id@);
            }
            lemma_held_frame(before, after);
        },
        Action::PieceVerified { peer_id, piece_index, valid, data } => {
            if valid && before.spec_piece_done(piece_index) {
                lemma_via_assign_work_held(before, after, peer_id, effects);
            } else {
                lemma_held_frame(before, after);
            }
        },
        Action::PieceWrittenToDisk { peer_id, piece_index } => {
            if before.spec_piece_done(piece_index) {
                lemma_via_assign_work_held(before, after, peer_id, effects);
            }
        },
        Action::PieceWriteFailed { piece_index } => {
            lemma_held_keep(before, after);
        },
        Action::RequestUpload { peer_id, piece_index, block_offset, length } => {
            lemma_held_frame(before, after);
        },
        Action::TrackerResponse { url, peers, interval, min_interval } => {
            lemma_held_frame(before, after);
        },
        Action::TrackerError { url } => {
            lemma_held_frame(before, after);
        },
        Action::PeerConnectionFailed { peer_addr } => {
            lemma_held_frame(before, after);
        },
        Action::MetadataReceived { torrent, metadata_length } => {
            if before.torrent is None {
                assert forall|j: int| 0 <= j < after.peers@.len() implies #[trigger] after.peers@[j].pending_requests
                    == before.peers@[j].pending_requests by {
                }
            }
            lemma_held_frame(before, after);
        },
        Action::ValidationComplete { completed_pieces } => {},
        Action::BlockSentToPeer { peer_id, byte_count } => {
            let i = peer_pos(before.peers@, peer_id@);
            lemma_peer_pos_from(before.peers@, peer_id@, 0);
            if i >= 0 {
                assert(after.peers@ =~= before.peers@.update(i, after.peers@[i]));
            }
            lemma_changed_at_keeps_requests(before.peers@, after.peers@, peer_id@);
            lemma_held_frame(before, after);
        },
        Action::CancelUpload { peer_id, piece_index, block_offset, length } => {},
        Action::Cleanup => {
            lemma_held_frame(before, after);
        },
        Action::Pause => {
            assert(a.pending_queue@.dom() =~= Set::<u32>::empty());
        },
        Action::FatalError => {
            assert(a.pending_queue@.dom() =~= Set::<u32>::empty());
        },
        Action::Resume => {
            lemma_held_frame(before, after);
        },
        Action::Delete => {
            assert(a.pending_queue@.dom() =~= Set::<u32>::empty());
        },
        Action::UpdateListenPort => {
            lemma_held_frame(before, after);
        },
        Action::ValidationProgress { count } => {
            lemma_held_frame(before, after);
        },
    }
}

/// The optimistic unchoke timer never lies ahead of the clock.
pub open spec fn timer_not_ahead(s: TorrentState) -> bool {
    s.optimistic_unchoke_timer matches Some(t) ==> t <= s.now
}

/// Law: no action sets the optimistic unchoke timer ahead of the clock (the
/// clock never runs back, and the timer is only ever set to the present).
#[verifier::spinoff_prover]
pub proof fn lemma_update_keeps_timer_not_ahead(
    before: TorrentState,
    after: TorrentState,
    action: Action,
    effects: Seq<EffectView>,
)
    requires
        before.wf(),
        TorrentState::action_result(before, after, action, effects),
        timer_not_ahead(before),
    ensures
        timer_not_ahead(after),
{
    match action {
        Action::Tick { dt_ms } => {},
        Action::RecalculateChokes { upload_slots, random_seed } => {},
        _ => {},
    }
}

/// Pausing moves the pending pieces to the need queue and drops the peers.
proof fn lemma_pause_tracked(before: TorrentState, after: TorrentState, effects: Seq<EffectView>)
    requires
        pieces_tracked(before),
        TorrentState::after_pause(before, after, effects),
    ensures
        pieces_tracked(after),
{
    let b = before.piece_manager;
    let a = after.piece_manager;
    let ks = choose|ks: Seq<u32>|
        #![trigger ks.to_set()]
        ks.to_set() =~= b.pending_queue@.dom() && ks.no_duplicates() && a.need_queue@ =~= b.need_queue@ + ks;
    assert forall|q: u32| #[trigger] a.need_queue@.contains(q) implies piece_needed(a.bitfield@, q) by {
        let k = choose|k: int| 0 <= k < a.need_queue@.len() && a.need_queue@[k] == q;
        if k < b.need_queue@.len() {
            assert(b.need_queue@[k] == q);
            assert(b.need_queue@.contains(q));
        } else {
            assert(ks[k - b.need_queue@.len()] == q);
            assert(ks.contains(q));
            assert(ks.to_set().contains(q));
            assert(b.pending_queue@.contains_key(q));
        }
    }
    assert forall|q: u32| #[trigger] a.pending_queue@.contains_key(q) implies piece_needed(a.bitfield@, q) by {
        assert(a.pending_queue@.dom().contains(q));
    }
}

/// Law: a torrent marked done whose queues are tracked has no needed piece
/// left.
pub proof fn lemma_done_needs_nothing(s: TorrentState)
    requires
        pieces_tracked(s),
        done_is_complete(s),
        s.torrent_status == TorrentStatus::Done,
    ensures
        s.piece_manager.need_queue@.len() == 0,
{
    let need = s.piece_manager.need_queue@;
    if need.len() > 0 {
        assert(need.contains(need[0]));
        assert(s.piece_manager.bitfield@[need[0] as int] == PieceStatus::Done);
    }
}

/// Like `lemma_via_assign_work`, for the needed and pending pieces.
proof fn lemma_via_assign_work_disjoint(before: TorrentState, after: TorrentState, id: String, effects: Seq<EffectView>)
    requires
        exists|mid: TorrentState|
            #![trigger assign_work_result(mid, after, id, effects)]
            same_but_work(before, mid) && same_uploads(before.peers@, mid.peers@)
                && mid.piece_manager == before.piece_manager && mid.torrent_status == before.torrent_status
                && assign_work_result(mid, after, id, effects),
        queues_disjoint(before.piece_manager),
    ensures
        queues_disjoint(after.piece_manager),
{
    let mid = choose|mid: TorrentState|
        #![trigger assign_work_result(mid, after, id, effects)]
        same_but_work(before, mid) && same_uploads(before.peers@, mid.peers@)
            && mid.piece_manager == before.piece_manager && mid.torrent_status == before.torrent_status
            && assign_work_result(mid, after, id, effects);
    lemma_assign_work_disjoint(mid, after, id, effects);
}

/// Everything a torrent keeps between actions: balanced byte counters, a
/// connected count that matches the peer list, a finished torrent that has
/// every piece, disjoint need and pending queues whose pieces are still
/// needed and whose requests are in range, every pending piece requested
/// from some peer, and an unchoke timer that is not ahead of the clock.
pub open spec fn torrent_invariant(s: TorrentState) -> bool {
    &&& books_balance(s)
    &&& count_matches(s)
    &&& done_is_complete(s)
    &&& queues_disjoint(s.piece_manager)
    &&& pieces_tracked(s)
    &&& pending_held(s)
    &&& timer_not_ahead(s)
}

/// The actions after which the invariant is owed: not a sent block that
/// would carry the upload total past `u64::MAX`, a failed write only on a
/// torrent not yet finished and of a piece it has (on a finished torrent it
/// puts a done piece back to needed), not metadata arriving while pieces are
/// pending or describing fewer pieces than are tracked, and a connection
/// report only for a peer already in the list.
pub open spec fn invariant_owed(s: TorrentState, action: Action) -> bool {
    &&& !upload_overflows(s, action)
    &&& action matches Action::PieceWriteFailed { piece_index } ==> (s.torrent_status
        != TorrentStatus::Done && (piece_index as int) < s.piece_manager.bitfield@.len())
    &&& action matches Action::MetadataReceived { torrent, .. } ==> (s.piece_manager.pending_queue@.dom().len()
        == 0 && (s.torrent is None ==> s.piece_manager.bitfield@.len() <= torrent.num_pieces))
    &&& action matches Action::PeerSuccessfullyConnected { peer_id } ==> peer_pos(s.peers@, peer_id@) >= 0
}

/// Law: every action that `update` accepts keeps the whole invariant, on the
/// actions where it is owed; a finished torrent then needs no piece. The
/// connected count may be off before a connection report, whose peer the
/// caller has just added.
pub proof fn lemma_update_keeps_invariant(
    before: TorrentState,
    after: TorrentState,
    action: Action,
    effects: Seq<EffectView>,
)
    requires
        before.wf(),
        TorrentState::action_result(before, after, action, effects),
        before.action_allowed(action),
        torrent_invariant(before) || (action is PeerSuccessfullyConnected && torrent_invariant(
            TorrentState { number_of_successfully_connected_peers: before.peers@.len() as usize, ..before },
        )),
        invariant_owed(before, action),
    ensures
        torrent_invariant(after),
        after.torrent_status == TorrentStatus::Done ==> after.piece_manager.need_queue@.len() == 0,
{
    lemma_update_keeps_books(before, after, action, effects);
    lemma_update_keeps_count(before, after, action, effects);
    lemma_update_keeps_done_complete(before, after, action, effects);
    lemma_update_keeps_queues_disjoint(before, after, action, effects);
    lemma_update_keeps_pieces_tracked(before, after, action, effects);
    lemma_update_keeps_pending_held(before, after, action, effects);
    lemma_update_keeps_timer_not_ahead(before, after, action, effects);
    if after.torrent_status == TorrentStatus::Done {
        lemma_done_needs_nothing(after);
    }
}

/// Law: a block request is served only from a piece we have, to a peer we do
/// not choke: any disk read it asks for is of that piece and block, the piece
/// is marked done, and the asking peer is connected and unchoked. A request
/// for a piece we do not have is answered with nothing.
pub proof fn lemma_upload_only_from_done_pieces(
    before: TorrentState,
    after: TorrentState,
    peer_id: String,
    piece_index: u32,
    block_offset: u32,
    length: u32,
    effects: Seq<EffectView>,
)
    requires
        before.wf(),
        TorrentState::action_result(
            before,
            after,
            Action::RequestUpload { peer_id, piece_index, block_offset, length },
            effects,
        ),
    ensures
        forall|k: int|
            0 <= k < effects.len() && (#[trigger] effects[k]) is ReadFromDisk ==> {
                &&& effects[k] == (EffectView::ReadFromDisk {
                    peer_id,
                    block_info: BlockInfo { piece_index, offset: block_offset, length },
                })
                &&& (piece_index as int) < before.piece_manager.bitfield@.len()
                &&& before.piece_manager.bitfield@[piece_index as int] == PieceStatus::Done
                &&& exists|j: int|
                    0 <= j < before.peers@.len() && #[trigger] before.peers@[j].ip_port@ == peer_id@
                        && before.peers@[j].am_choking == ChokeStatus::Unchoke
            },
        !((piece_index as int) < before.piece_manager.bitfield@.len()
            && before.piece_manager.bitfield@[piece_index as int] == PieceStatus::Done)
            ==> effects == seq![EffectView::DoNothing],
        (before.torrent is Some && length <= MAX_BLOCK_SIZE && (piece_index as int)
            < before.piece_manager.bitfield@.len() && before.piece_manager.bitfield@[piece_index as int]
            == PieceStatus::Done && exists|j: int|
            0 <= j < before.peers@.len() && #[trigger] before.peers@[j].ip_port@ == peer_id@
                && before.peers@[j].am_choking == ChokeStatus::Unchoke) ==> effects == seq![
            EffectView::ReadFromDisk {
                peer_id,
                block_info: BlockInfo { piece_index, offset: block_offset, length },
            },
        ],
        after.piece_manager == before.piece_manager,
{
    lemma_peer_pos_from(before.peers@, peer_id@, 0);
    let i = peer_pos(before.peers@, peer_id@);
    assert forall|k: int|
        0 <= k < effects.len() && (#[trigger] effects[k]) is ReadFromDisk implies {
            &&& effects[k] == (EffectView::ReadFromDisk {
                peer_id,
                block_info: BlockInfo { piece_index, offset: block_offset, length },
            })
            &&& (piece_index as int) < before.piece_manager.bitfield@.len()
            &&& before.piece_manager.bitfield@[piece_index as int] == PieceStatus::Done
            &&& exists|j: int|
                0 <= j < before.peers@.len() && #[trigger] before.peers@[j].ip_port@ == peer_id@
                    && before.peers@[j].am_choking == ChokeStatus::Unchoke
        } by {
        assert(effects.len() == 1);
        assert(before.peers@[i].ip_port@ == peer_id@);
    }
    if exists|j: int|
        0 <= j < before.peers@.len() && #[trigger] before.peers@[j].ip_port@ == peer_id@
            && before.peers@[j].am_choking == ChokeStatus::Unchoke {
        let j = choose|j: int|
            0 <= j < before.peers@.len() && #[trigger] before.peers@[j].ip_port@ == peer_id@
                && before.peers@[j].am_choking == ChokeStatus::Unchoke;
        assert(i >= 0);
        assert(i == j) by {
            if i != j {
                assert(before.peers@[i].ip_port@ == before.peers@[j].ip_port@);
            }
        }
    }
}

/// Law: after a tracker's answer the tracker's next announce is due one
/// interval from now: the leeching interval (one second more than the
/// answer's minimum interval, a minute without one) while the torrent is
/// still downloading, the seeding interval (one second more than the
/// answer's interval, half an hour when that is zero) once it is done.
pub proof fn lemma_tracker_announces_by_download_state(
    before: TorrentState,
    after: TorrentState,
    url: String,
    peers: Vec<(String, u16)>,
    interval: u64,
    min_interval: Option<u64>,
    effects: Seq<EffectView>,
)
    requires
        TorrentState::action_result(before, after, Action::TrackerResponse { url, peers, interval, min_interval }, effects),
        tracker_pos_from(before.trackers@, url@, 0) >= 0,
    ensures
        ({
            let i = tracker_pos_from(before.trackers@, url@, 0);
            let t = after.trackers@[i].state;
            &&& after.trackers@.len() == before.trackers@.len()
            &&& after.trackers@[i].url == before.trackers@[i].url
            &&& t.leeching_interval == Some(
                match min_interval {
                    Some(m) => secs_to_ms(sat_add(m, 1)),
                    None => ANNOUNCE_DELAY_MS,
                },
            )
            &&& t.seeding_interval == Some(
                if interval > 0 {
                    secs_to_ms(sat_add(interval, 1))
                } else {
                    DEFAULT_SEEDING_INTERVAL_MS
                },
            )
            &&& before.torrent_status != TorrentStatus::Done ==> t.next_announce_time == sat_add(
                before.now,
                t.leeching_interval->0,
            )
            &&& before.torrent_status == TorrentStatus::Done ==> t.next_announce_time == sat_add(
                before.now,
                t.seeding_interval->0,
            )
        }),
{
    lemma_tracker_pos_in_range(before.trackers@, url@, 0);
}

proof fn lemma_tracker_pos_in_range(trackers: Seq<super::TrackerEntry>, url: Seq<char>, from: int)
    requires
        0 <= from,
    ensures
        tracker_pos_from(trackers, url, from) == -1 || (from <= tracker_pos_from(trackers, url, from)
            < trackers.len()),
    decreases trackers.len() - from,
{
    if from < trackers.len() {
        lemma_tracker_pos_in_range(trackers, url, from + 1);
    }
}

} // verus!
