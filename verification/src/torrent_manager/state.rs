//! The torrent reducer: one state, updated by actions (protocol messages,
//! disk and tracker results, timers), answering with effects for the
//! session to carry out.
//!
//! Instants are monotonic milliseconds; the clock only moves with `Tick`.
//! Transfer rates (moving averages) are kept by the caller.
use vstd::prelude::*;
use std::collections::HashSet;
use crate::command::TorrentCommand;
use crate::networking::protocol::BlockInfo;
use crate::torrent_manager::{ManagerEvent, ManagerEventView};
use crate::torrent_manager::piece_manager::{PieceManager, PieceStatus};

mod dispatch;
pub mod reporting;
pub mod connect;
pub mod events;
pub use dispatch::{books_balance, count_matches, done_is_complete, upload_overflows};

verus! {

broadcast use vstd::std_specs::hash::group_hash_axioms;

/// Connection attempts after which a peer is forgotten.
pub const MAX_TIMEOUT_COUNT: u32 = 10;

/// Largest block a peer may ask us for.
pub const MAX_BLOCK_SIZE: u32 = 131_072;

/// Delay before announcing again, in milliseconds.
pub const ANNOUNCE_DELAY_MS: u64 = 60_000;

/// Time after which the optimistic unchoke moves on, in milliseconds.
pub const OPTIMISTIC_UNCHOKE_MS: u64 = 30_000;

/// Time a connected peer may take to identify itself, in milliseconds.
pub const HANDSHAKE_GRACE_MS: u64 = 5_000;

/// Default seeding announce interval, in milliseconds.
pub const DEFAULT_SEEDING_INTERVAL_MS: u64 = 1_800_000;

/// Longest tracker back-off, in milliseconds.
pub const MAX_TRACKER_BACKOFF_MS: u64 = 3_600_000;

/// Phase of a torrent's download.
#[derive(PartialEq, Eq, Debug, Default, Clone, Copy, Structural)]
pub enum TorrentStatus {
    #[default]
    Validating,
    Standard,
    Endgame,
    Done,
}

/// Whether one side is choking the other.
#[derive(PartialEq, Eq, Debug, Clone, Copy, Structural)]
pub enum ChokeStatus {
    Choke,
    Unchoke,
}

/// When to announce to a tracker next, and the intervals it asked for.
#[derive(Debug, Clone, Copy, PartialEq, Eq, Structural)]
pub struct TrackerState {
    pub next_announce_time: u64,
    pub leeching_interval: Option<u64>,
    pub seeding_interval: Option<u64>,
}

/// What the torrent did last, for display.
#[derive(Clone, Copy, Debug, Default, PartialEq, Eq, Structural)]
pub enum TorrentActivity {
    #[default]
    Initializing,
    Paused,
    ConnectingToPeers,
    DownloadingPiece(u32),
    SendingPiece(u32),
    VerifyingPiece(u32),
    AnnouncingToTracker,
    SearchingDht,
}

/// What the reducer reads of a torrent's metadata.
#[derive(Debug, Clone, PartialEq, Eq)]
pub struct TorrentSummary {
    pub piece_length: i64,
    /// Total length: the sum of the files' lengths, or the single file's.
    pub total_length: i64,
    /// Number of pieces (one SHA-1 hash each in the info dictionary).
    pub num_pieces: usize,
    pub announce: Option<String>,
}

/// One connected peer.
#[derive(Debug)]
pub struct PeerState {
    pub ip_port: String,
    pub peer_id: Vec<u8>,
    pub bitfield: Vec<bool>,
    pub am_choking: ChokeStatus,
    pub peer_choking: ChokeStatus,
    pub am_interested: bool,
    pub pending_requests: HashSet<u32>,
    pub peer_is_interested_in_us: bool,
    pub bytes_downloaded_from_peer: u64,
    pub bytes_uploaded_to_peer: u64,
    pub bytes_downloaded_in_tick: u64,
    pub bytes_uploaded_in_tick: u64,
    pub total_bytes_downloaded: u64,
    pub total_bytes_uploaded: u64,
    pub download_speed_bps: u64,
    pub upload_speed_bps: u64,
    pub created_at: u64,
}

impl PeerState {
    /// A peer just connected at `created_at`: choked both ways, nothing known.
    pub fn new(ip_port: String, created_at: u64) -> (r: Self)
        ensures
            r.ip_port == ip_port,
            r.peer_id@.len() == 0,
            r.bitfield@.len() == 0,
            r.am_choking == ChokeStatus::Choke,
            r.peer_choking == ChokeStatus::Choke,
            !r.am_interested,
            r.pending_requests@ == Set::<u32>::empty(),
            !r.peer_is_interested_in_us,
            r.bytes_downloaded_from_peer == 0,
            r.bytes_uploaded_to_peer == 0,
            r.bytes_downloaded_in_tick == 0,
            r.bytes_uploaded_in_tick == 0,
            r.total_bytes_downloaded == 0,
            r.total_bytes_uploaded == 0,
            r.download_speed_bps == 0,
            r.upload_speed_bps == 0,
            r.created_at == created_at,
    {
        PeerState {
            ip_port,
            peer_id: Vec::new(),
            bitfield: Vec::new(),
            am_choking: ChokeStatus::Choke,
            peer_choking: ChokeStatus::Choke,
            am_interested: false,
            pending_requests: HashSet::new(),
            peer_is_interested_in_us: false,
            bytes_downloaded_from_peer: 0,
            bytes_uploaded_to_peer: 0,
            bytes_downloaded_in_tick: 0,
            bytes_uploaded_in_tick: 0,
            total_bytes_downloaded: 0,
            total_bytes_uploaded: 0,
            download_speed_bps: 0,
            upload_speed_bps: 0,
            created_at,
        }
    }
}

/// The elements of a set of piece indices, each once.
pub fn set_elements(s: &HashSet<u32>) -> (v: Vec<u32>)
    ensures
        v@.to_set() == s@,
        v@.no_duplicates(),
{
    let mut v: Vec<u32> = Vec::new();
    for x in it: s.iter()
        invariant
            v@ == it.seq().take(it.index() as int).unref(),
            it.seq().unref().to_set() == s@,
            it.seq().unref().no_duplicates(),
            it.index() == it.seq().len() ==> v@.to_set() == s@ && v@.no_duplicates(),
    {
        v.push(*x);
        proof {
            assert(it.seq().take(it.index() as int + 1).unref() =~= v@);
            if it.index() + 1 == it.seq().len() {
                assert(it.seq().take(it.index() as int + 1) =~= it.seq());
            }
            assert(forall|i: int, j: int| 0 <= i < j < v@.len() ==> v@[i] == it.seq().unref()[i] && v@[j] == it.seq().unref()[j]);
        }
    }
    v
}


/// A tracker and when to announce to it.
#[derive(Debug, Clone, PartialEq, Eq)]
pub struct TrackerEntry {
    pub url: String,
    pub state: TrackerState,
}

/// A peer address that failed to connect: how often, and when to try again.
#[derive(Debug, Clone, PartialEq, Eq)]
pub struct TimeoutEntry {
    pub addr: String,
    pub count: u32,
    pub next_attempt: u64,
}

/// Something that happened to the torrent.
#[derive(Debug, Clone)]
pub enum Action {
    Tick { dt_ms: u64 },
    RecalculateChokes { upload_slots: usize, random_seed: u64 },
    CheckCompletion,
    AssignWork { peer_id: String },
    PeerSuccessfullyConnected { peer_id: String },
    PeerDisconnected { peer_id: String },
    UpdatePeerId { peer_addr: String, new_id: Vec<u8> },
    PeerBitfieldReceived { peer_id: String, bitfield: Vec<u8> },
    PeerChoked { peer_id: String },
    PeerUnchoked { peer_id: String },
    PeerInterested { peer_id: String },
    PeerHavePiece { peer_id: String, piece_index: u32 },
    IncomingBlock { peer_id: String, piece_index: u32, block_offset: u32, data: Vec<u8> },
    PieceVerified { peer_id: String, piece_index: u32, valid: bool, data: Vec<u8> },
    PieceWrittenToDisk { peer_id: String, piece_index: u32 },
    PieceWriteFailed { piece_index: u32 },
    RequestUpload { peer_id: String, piece_index: u32, block_offset: u32, length: u32 },
    TrackerResponse {
        url: String,
        peers: Vec<(String, u16)>,
        interval: u64,
        min_interval: Option<u64>,
    },
    TrackerError { url: String },
    PeerConnectionFailed { peer_addr: String },
    MetadataReceived { torrent: TorrentSummary, metadata_length: i64 },
    ValidationComplete { completed_pieces: Vec<u32> },
    BlockSentToPeer { peer_id: String, byte_count: u64 },
    CancelUpload { peer_id: String, piece_index: u32, block_offset: u32, length: u32 },
    Cleanup,
    Pause,
    Resume,
    Delete,
    UpdateListenPort,
    ValidationProgress { count: u32 },
    FatalError,
}

/// Something the session must do.
#[derive(Debug, PartialEq, Eq)]
pub enum Effect {
    DoNothing,
    EmitMetrics { bytes_dl: u64, bytes_ul: u64 },
    EmitManagerEvent(ManagerEvent),
    SendToPeer { peer_id: String, cmd: TorrentCommand },
    DisconnectPeer { peer_id: String },
    AnnounceCompleted { url: String },
    VerifyPiece { peer_id: String, piece_index: u32, data: Vec<u8> },
    WriteToDisk { peer_id: String, piece_index: u32, data: Vec<u8> },
    ReadFromDisk { peer_id: String, block_info: BlockInfo },
    BroadcastHave { piece_index: u32 },
    ConnectToPeer { ip: String, port: u16 },
    /// Connect again to a peer known by its address text, once it parses as an
    /// IPv4 socket address.
    ConnectToPeerAddr { addr: String },
    InitializeStorage,
    StartValidation,
    SendBitfieldToPeers,
    AnnounceToTracker { url: String },
    ConnectToPeersFromTrackers,
    AbortUpload { peer_id: String, block_info: BlockInfo },
    ClearAllUploads,
    DeleteFiles,
    TriggerDhtSearch,
}

/// An effect with its byte fields as sequences.
pub enum EffectView {
    DoNothing,
    EmitMetrics { bytes_dl: u64, bytes_ul: u64 },
    EmitManagerEvent(ManagerEventView),
    SendToPeer { peer_id: String, cmd: TorrentCommand },
    DisconnectPeer { peer_id: String },
    AnnounceCompleted { url: String },
    VerifyPiece { peer_id: String, piece_index: u32, data: Seq<u8> },
    WriteToDisk { peer_id: String, piece_index: u32, data: Seq<u8> },
    ReadFromDisk { peer_id: String, block_info: BlockInfo },
    BroadcastHave { piece_index: u32 },
    ConnectToPeer { ip: String, port: u16 },
    ConnectToPeerAddr { addr: String },
    InitializeStorage,
    StartValidation,
    SendBitfieldToPeers,
    AnnounceToTracker { url: String },
    ConnectToPeersFromTrackers,
    AbortUpload { peer_id: String, block_info: BlockInfo },
    ClearAllUploads,
    DeleteFiles,
    TriggerDhtSearch,
}

impl View for Effect {
    type V = EffectView;

    open spec fn view(&self) -> EffectView {
        match self {
            Effect::DoNothing => EffectView::DoNothing,
            Effect::EmitMetrics { bytes_dl, bytes_ul } => EffectView::EmitMetrics {
                bytes_dl: *bytes_dl,
                bytes_ul: *bytes_ul,
            },
            Effect::EmitManagerEvent(e) => EffectView::EmitManagerEvent(e@),
            Effect::SendToPeer { peer_id, cmd } => EffectView::SendToPeer {
                peer_id: *peer_id,
                cmd: *cmd,
            },
            Effect::DisconnectPeer { peer_id } => EffectView::DisconnectPeer { peer_id: *peer_id },
            Effect::AnnounceCompleted { url } => EffectView::AnnounceCompleted { url: *url },
            Effect::VerifyPiece { peer_id, piece_index, data } => EffectView::VerifyPiece {
                peer_id: *peer_id,
                piece_index: *piece_index,
                data: data@,
            },
            Effect::WriteToDisk { peer_id, piece_index, data } => EffectView::WriteToDisk {
                peer_id: *peer_id,
                piece_index: *piece_index,
                data: data@,
            },
            Effect::ReadFromDisk { peer_id, block_info } => EffectView::ReadFromDisk {
                peer_id: *peer_id,
                block_info: *block_info,
            },
            Effect::BroadcastHave { piece_index } => EffectView::BroadcastHave {
                piece_index: *piece_index,
            },
            Effect::ConnectToPeer { ip, port } => EffectView::ConnectToPeer { ip: *ip, port: *port },
            Effect::ConnectToPeerAddr { addr } => EffectView::ConnectToPeerAddr { addr: *addr },
            Effect::InitializeStorage => EffectView::InitializeStorage,
            Effect::StartValidation => EffectView::StartValidation,
            Effect::SendBitfieldToPeers => EffectView::SendBitfieldToPeers,
            Effect::AnnounceToTracker { url } => EffectView::AnnounceToTracker { url: *url },
            Effect::ConnectToPeersFromTrackers => EffectView::ConnectToPeersFromTrackers,
            Effect::AbortUpload { peer_id, block_info } => EffectView::AbortUpload {
                peer_id: *peer_id,
                block_info: *block_info,
            },
            Effect::ClearAllUploads => EffectView::ClearAllUploads,
            Effect::DeleteFiles => EffectView::DeleteFiles,
            Effect::TriggerDhtSearch => EffectView::TriggerDhtSearch,
        }
    }
}

/// The views of a list of effects.
pub open spec fn views(effects: Seq<Effect>) -> Seq<EffectView> {
    effects.map_values(|e: Effect| e@)
}

/// The whole state of one torrent.
#[derive(Debug)]
pub struct TorrentState {
    pub info_hash: Vec<u8>,
    pub torrent: Option<TorrentSummary>,
    pub torrent_metadata_length: Option<i64>,
    pub is_paused: bool,
    pub torrent_status: TorrentStatus,
    pub torrent_validation_status: bool,
    pub last_activity: TorrentActivity,
    pub has_made_first_connection: bool,
    pub session_total_uploaded: u64,
    pub session_total_downloaded: u64,
    pub bytes_downloaded_in_interval: u64,
    pub bytes_uploaded_in_interval: u64,
    pub number_of_successfully_connected_peers: usize,
    pub peers: Vec<PeerState>,
    pub piece_manager: PieceManager,
    pub trackers: Vec<TrackerEntry>,
    pub timed_out_peers: Vec<TimeoutEntry>,
    pub last_known_peers: Vec<String>,
    pub optimistic_unchoke_timer: Option<u64>,
    pub validation_pieces_found: u32,
    pub now: u64,
}

impl Default for TorrentState {
    /// An empty torrent at time zero: no hash, no metadata, no peers or
    /// trackers, a fresh piece manager, validating, with no unchoke timer.
    fn default() -> (r: Self)
        ensures
            r.wf(),
            r.info_hash@.len() == 0,
            r.torrent is None,
            r.torrent_metadata_length is None,
            !r.is_paused,
            r.torrent_status == TorrentStatus::Validating,
            !r.torrent_validation_status,
            r.last_activity == TorrentActivity::Initializing,
            !r.has_made_first_connection,
            r.session_total_uploaded == 0,
            r.session_total_downloaded == 0,
            r.bytes_downloaded_in_interval == 0,
            r.bytes_uploaded_in_interval == 0,
            r.number_of_successfully_connected_peers == 0,
            r.peers@.len() == 0,
            r.piece_manager.bitfield@.len() == 0,
            r.piece_manager.need_queue@.len() == 0,
            r.piece_manager.pending_queue@ == Map::<u32, Vec<String>>::empty(),
            r.trackers@.len() == 0,
            r.timed_out_peers@.len() == 0,
            r.last_known_peers@.len() == 0,
            r.optimistic_unchoke_timer is None,
            r.validation_pieces_found == 0,
            r.now == 0,
    {
        TorrentState {
            info_hash: Vec::new(),
            torrent: None,
            torrent_metadata_length: None,
            is_paused: false,
            torrent_status: TorrentStatus::Validating,
            torrent_validation_status: false,
            last_activity: TorrentActivity::Initializing,
            has_made_first_connection: false,
            session_total_uploaded: 0,
            session_total_downloaded: 0,
            bytes_downloaded_in_interval: 0,
            bytes_uploaded_in_interval: 0,
            number_of_successfully_connected_peers: 0,
            peers: Vec::new(),
            piece_manager: PieceManager::new(),
            trackers: Vec::new(),
            timed_out_peers: Vec::new(),
            last_known_peers: Vec::new(),
            optimistic_unchoke_timer: None,
            validation_pieces_found: 0,
            now: 0,
        }
    }
}

/// The first position at or after `i` of the peer with address `id`, or -1.
pub open spec fn peer_pos_from(peers: Seq<PeerState>, id: Seq<char>, i: int) -> int
    decreases peers.len() - i,
{
    if i < 0 || i >= peers.len() {
        -1
    } else if peers[i].ip_port@ == id {
        i
    } else {
        peer_pos_from(peers, id, i + 1)
    }
}

/// The position of the peer with address `id`, or -1.
pub open spec fn peer_pos(peers: Seq<PeerState>, id: Seq<char>) -> int {
    peer_pos_from(peers, id, 0)
}

/// No two peers share an address.
pub open spec fn peers_unique(peers: Seq<PeerState>) -> bool {
    forall|i: int, j: int|
        0 <= i < peers.len() && 0 <= j < peers.len() && i != j ==> #[trigger] peers[i].ip_port@
            != #[trigger] peers[j].ip_port@
}

/// The first position at or after `i` of the tracker with `url`, or -1.
pub open spec fn tracker_pos_from(trackers: Seq<TrackerEntry>, url: Seq<char>, i: int) -> int
    decreases trackers.len() - i,
{
    if i < 0 || i >= trackers.len() {
        -1
    } else if trackers[i].url@ == url {
        i
    } else {
        tracker_pos_from(trackers, url, i + 1)
    }
}

/// The first position at or after `i` of the timeout record for `addr`, or -1.
pub open spec fn timeout_pos_from(entries: Seq<TimeoutEntry>, addr: Seq<char>, i: int) -> int
    decreases entries.len() - i,
{
    if i < 0 || i >= entries.len() {
        -1
    } else if entries[i].addr@ == addr {
        i
    } else {
        timeout_pos_from(entries, addr, i + 1)
    }
}

/// `a + b`, capped at `u64::MAX`.
pub open spec fn sat_add(a: u64, b: u64) -> u64 {
    if a + b > u64::MAX {
        u64::MAX
    } else {
        (a + b) as u64
    }
}

/// Milliseconds from `since` to `now`, zero when `now` is earlier.
pub open spec fn since(now: u64, t: u64) -> int {
    if now >= t {
        now - t
    } else {
        0
    }
}

/// Whether every piece is done.
pub open spec fn all_done(b: Seq<PieceStatus>) -> bool {
    forall|i: int| 0 <= i < b.len() ==> #[trigger] b[i] == PieceStatus::Done
}

proof fn lemma_peer_pos_from(peers: Seq<PeerState>, id: Seq<char>, from: int)
    requires
        0 <= from <= peers.len(),
    ensures
        peer_pos_from(peers, id, from) == -1 || (from <= peer_pos_from(peers, id, from)
            < peers.len() && peers[peer_pos_from(peers, id, from)].ip_port@ == id),
        peer_pos_from(peers, id, from) == -1 ==> forall|j: int|
            from <= j < peers.len() ==> peers[j].ip_port@ != id,
    decreases peers.len() - from,
{
    if from < peers.len() {
        lemma_peer_pos_from(peers, id, from + 1);
    }
}

/// Where the peer with address `id` is, if it is connected.
pub fn find_peer(peers: &Vec<PeerState>, id: &String) -> (r: Option<usize>)
    ensures
        match r {
            Some(i) => i as int == peer_pos(peers@, id@) && i < peers@.len() && peers@[i as int].ip_port@
                == id@,
            None => peer_pos(peers@, id@) == -1 && forall|j: int|
                0 <= j < peers@.len() ==> peers@[j].ip_port@ != id@,
        },
{
    let mut i: usize = 0;
    while i < peers.len()
        invariant
            i <= peers@.len(),
            peer_pos(peers@, id@) == peer_pos_from(peers@, id@, i as int),
            forall|j: int| 0 <= j < i ==> peers@[j].ip_port@ != id@,
        decreases peers@.len() - i,
    {
        if peers[i].ip_port == *id {
            return Some(i);
        }
        i = i + 1;
    }
    None
}

/// Where the tracker with `url` is, if there is one.
fn find_tracker(trackers: &Vec<TrackerEntry>, url: &String) -> (r: Option<usize>)
    ensures
        match r {
            Some(i) => i as int == tracker_pos_from(trackers@, url@, 0) && i < trackers@.len()
                && trackers@[i as int].url@ == url@,
            None => tracker_pos_from(trackers@, url@, 0) == -1,
        },
{
    let mut i: usize = 0;
    while i < trackers.len()
        invariant
            i <= trackers@.len(),
            tracker_pos_from(trackers@, url@, 0) == tracker_pos_from(trackers@, url@, i as int),
        decreases trackers@.len() - i,
    {
        if trackers[i].url == *url {
            return Some(i);
        }
        i = i + 1;
    }
    None
}

/// Where the timeout record for `addr` is, if there is one.
fn find_timeout(entries: &Vec<TimeoutEntry>, addr: &String) -> (r: Option<usize>)
    ensures
        match r {
            Some(i) => i as int == timeout_pos_from(entries@, addr@, 0) && i < entries@.len()
                && entries@[i as int].addr@ == addr@,
            None => timeout_pos_from(entries@, addr@, 0) == -1,
        },
{
    let mut i: usize = 0;
    while i < entries.len()
        invariant
            i <= entries@.len(),
            timeout_pos_from(entries@, addr@, 0) == timeout_pos_from(entries@, addr@, i as int),
        decreases entries@.len() - i,
    {
        if entries[i].addr == *addr {
            return Some(i);
        }
        i = i + 1;
    }
    None
}

/// Every tracker, to be announced to at `at`.
pub open spec fn announce_at(trackers: Seq<TrackerEntry>, at: u64) -> Seq<TrackerEntry> {
    trackers.map_values(
        |t: TrackerEntry|
            TrackerEntry { state: TrackerState { next_announce_time: at, ..t.state }, ..t },
    )
}

/// An announce for every tracker, in order.
pub open spec fn announce_effects(trackers: Seq<TrackerEntry>) -> Seq<EffectView> {
    trackers.map_values(|t: TrackerEntry| EffectView::AnnounceToTracker { url: t.url })
}

/// A completion announce for every tracker, in order.
pub open spec fn completed_effects(trackers: Seq<TrackerEntry>) -> Seq<EffectView> {
    trackers.map_values(|t: TrackerEntry| EffectView::AnnounceCompleted { url: t.url })
}

/// Whether a tracker is due for an announce at `now`.
pub open spec fn tracker_due(t: TrackerEntry, now: u64) -> bool {
    now >= t.state.next_announce_time
}

/// The trackers after a tick at `now`: the due ones are rescheduled a minute later.
pub open spec fn tick_trackers(trackers: Seq<TrackerEntry>, now: u64) -> Seq<TrackerEntry> {
    trackers.map_values(
        |t: TrackerEntry|
            if tracker_due(t, now) {
                TrackerEntry {
                    state: TrackerState {
                        next_announce_time: sat_add(now, ANNOUNCE_DELAY_MS),
                        ..t.state
                    },
                    ..t
                }
            } else {
                t
            },
    )
}

/// Announces for the due trackers among the first `k`, in order.
pub open spec fn due_effects(trackers: Seq<TrackerEntry>, now: u64, k: int) -> Seq<EffectView>
    decreases k,
{
    if k <= 0 {
        seq![]
    } else {
        due_effects(trackers, now, k - 1) + if tracker_due(trackers[k - 1], now) {
            seq![EffectView::AnnounceToTracker { url: trackers[k - 1].url }]
        } else {
            seq![]
        }
    }
}

/// A peer with its per-tick counters cleared.
pub open spec fn tick_reset(p: PeerState) -> PeerState {
    PeerState { bytes_downloaded_in_tick: 0, bytes_uploaded_in_tick: 0, ..p }
}

/// "Not interested" for every peer among the first `k` we were interested in.
pub open spec fn not_interested_effects(peers: Seq<PeerState>, k: int) -> Seq<EffectView>
    decreases k,
{
    if k <= 0 {
        seq![]
    } else {
        not_interested_effects(peers, k - 1) + if peers[k - 1].am_interested {
            seq![
                EffectView::SendToPeer {
                    peer_id: peers[k - 1].ip_port,
                    cmd: TorrentCommand::NotInterested,
                },
            ]
        } else {
            seq![]
        }
    }
}

/// A peer we are no longer interested in.
pub open spec fn uninterested(p: PeerState) -> PeerState {
    PeerState { am_interested: false, ..p }
}

/// Whether a connected peer has not identified itself within the grace period.
pub open spec fn peer_stuck(p: PeerState, now: u64) -> bool {
    p.peer_id@.len() == 0 && since(now, p.created_at) > HANDSHAKE_GRACE_MS
}

/// Whether a peer has every piece.
pub open spec fn peer_is_seed(p: PeerState) -> bool {
    p.bitfield@.len() > 0 && forall|i: int| 0 <= i < p.bitfield@.len() ==> #[trigger] p.bitfield@[i]
}

/// Disconnects for the peers among the first `k` that satisfy `pred`, in order.
pub open spec fn disconnect_effects(
    peers: Seq<PeerState>,
    pred: spec_fn(PeerState) -> bool,
    k: int,
) -> Seq<EffectView>
    decreases k,
{
    if k <= 0 {
        seq![]
    } else {
        disconnect_effects(peers, pred, k - 1) + if pred(peers[k - 1]) {
            seq![EffectView::DisconnectPeer { peer_id: peers[k - 1].ip_port }]
        } else {
            seq![]
        }
    }
}

/// The timeout records among the first `k` that may still be retried.
pub open spec fn retriable(entries: Seq<TimeoutEntry>, k: int) -> Seq<TimeoutEntry>
    decreases k,
{
    if k <= 0 {
        seq![]
    } else {
        retriable(entries, k - 1) + if entries[k - 1].count < MAX_TIMEOUT_COUNT {
            seq![entries[k - 1]]
        } else {
            seq![]
        }
    }
}

/// Seconds to wait after the `n`th failed attempt before the base delay is capped.
pub open spec fn doubled_backoff_secs(n: nat) -> nat
    decreases n,
{
    if n <= 1 {
        15
    } else {
        2 * doubled_backoff_secs((n - 1) as nat)
    }
}

/// Milliseconds to wait after the `n`th failed attempt: 15 s doubling, at most 30 min.
pub open spec fn connect_backoff_ms(n: nat) -> u64 {
    let secs = doubled_backoff_secs(n);
    if secs < 1800 {
        (secs * 1000) as u64
    } else {
        1_800_000
    }
}

/// The bitfield `b` cut or padded with `false` to `n` pieces.
pub open spec fn resized_bits(b: Seq<bool>, n: int) -> Seq<bool> {
    Seq::new(n as nat, |i: int| i < b.len() && b[i])
}

/// The bits of a bitfield message, most significant bit first.
pub open spec fn message_bits(bytes: Seq<u8>) -> Seq<bool> {
    Seq::new(8 * bytes.len(), |i: int| (bytes[i / 8] >> ((7 - i % 8) as u8)) & 1u8 == 1u8)
}

/// Cuts or pads a bitfield with `false` to `n` pieces.
pub fn resize_bitfield(b: &mut Vec<bool>, n: usize)
    ensures
        final(b)@ == resized_bits(old(b)@, n as int),
{
    if b.len() > n {
        b.truncate(n);
    } else {
        while b.len() < n
            invariant
                b@.len() <= n,
                old(b)@.len() <= n,
                old(b)@.len() <= b@.len(),
                b@.subrange(0, old(b)@.len() as int) == old(b)@,
                forall|i: int| old(b)@.len() <= i < b@.len() ==> !b@[i],
            decreases n - b@.len(),
        {
            let ghost before = b@;
            b.push(false);
            assert(b@.subrange(0, old(b)@.len() as int) =~= before.subrange(0, old(b)@.len() as int));
        }
    }
    assert(b@ =~= resized_bits(old(b)@, n as int));
}

/// Milliseconds to wait before connecting again after the `n`th failure.
fn connect_backoff(n: u32) -> (r: u64)
    requires
        1 <= n <= MAX_TIMEOUT_COUNT,
    ensures
        r == connect_backoff_ms(n as nat),
{
    let mut secs: u64 = 15;
    let mut k: u32 = 1;
    while k < n
        invariant
            1 <= k <= n,
            n <= MAX_TIMEOUT_COUNT,
            secs == doubled_backoff_secs(k as nat),
            secs <= 15 * 512,
        decreases n - k,
    {
        proof {
            lemma_doubled_backoff_bound(k as nat);
        }
        secs = secs * 2;
        k = k + 1;
    }
    if secs < 1800 {
        secs * 1000
    } else {
        1_800_000
    }
}

proof fn lemma_doubled_backoff_bound(k: nat)
    requires
        1 <= k < 10,
    ensures
        doubled_backoff_secs(k) * 2 <= 15 * 512,
{
    reveal_with_fuel(doubled_backoff_secs, 10);
    if k == 1 {
    } else if k == 2 {
    } else if k == 3 {
    } else if k == 4 {
    } else if k == 5 {
    } else if k == 6 {
    } else if k == 7 {
    } else if k == 8 {
    } else {
        assert(k == 9);
    }
}

/// Views of a list with one more effect.
pub proof fn lemma_views_push(s: Seq<Effect>, e: Effect)
    ensures
        views(s.push(e)) == views(s).push(e@),
{
    assert(views(s.push(e)) =~= views(s).push(e@));
}

/// Whether a peer holds a piece of the need queue.
pub open spec fn peer_has_needed(p: PeerState, need: Seq<u32>) -> bool {
    exists|k: int|
        0 <= k < need.len() && (need[k] as int) < p.bitfield@.len() && #[trigger] p.bitfield@[need[k] as int]
}

/// The bytes uploaded to the listed peers, added up.
pub open spec fn upload_total(peers: Seq<PeerState>) -> int
    decreases peers.len(),
{
    if peers.len() == 0 {
        0
    } else {
        upload_total(peers.drop_last()) + peers.last().total_bytes_uploaded
    }
}

/// Two peer lists of one length whose peers, place by place, uploaded as much.
pub open spec fn same_uploads(a: Seq<PeerState>, b: Seq<PeerState>) -> bool {
    &&& a.len() == b.len()
    &&& forall|j: int| 0 <= j < a.len() ==> #[trigger] a[j].total_bytes_uploaded == b[j].total_bytes_uploaded
}

/// `after` keeps `before`'s byte counters and connected count, and every peer
/// keeps its place and its upload total.
pub open spec fn keeps_books(before: TorrentState, after: TorrentState) -> bool {
    &&& after.session_total_uploaded == before.session_total_uploaded
    &&& after.session_total_downloaded == before.session_total_downloaded
    &&& after.bytes_downloaded_in_interval == before.bytes_downloaded_in_interval
    &&& after.bytes_uploaded_in_interval == before.bytes_uploaded_in_interval
    &&& after.number_of_successfully_connected_peers == before.number_of_successfully_connected_peers
    &&& same_uploads(before.peers@, after.peers@)
}

/// No piece is both needed and pending.
pub open spec fn queues_disjoint(pm: PieceManager) -> bool {
    forall|q: u32| #[trigger] pm.need_queue@.contains(q) ==> !pm.pending_queue@.contains_key(q)
}

proof fn lemma_complete_keeps_disjoint(a: PieceManager, b: PieceManager, p: u32)
    requires
        queues_disjoint(a),
        b.need_queue@ == crate::torrent_manager::piece_manager::without(a.need_queue@, p),
        b.pending_queue@ == a.pending_queue@.remove(p),
    ensures
        queues_disjoint(b),
{
    assert forall|q: u32| #[trigger] b.need_queue@.contains(q) implies !b.pending_queue@.contains_key(q) by {
        crate::torrent_manager::piece_manager::lemma_without_contains(a.need_queue@, p, q);
    }
}

/// Whether `q` is a piece of the torrent that is still needed.
pub open spec fn piece_needed(bits: Seq<PieceStatus>, q: u32) -> bool {
    (q as int) < bits.len() && bits[q as int] == PieceStatus::Need
}

/// Whether the peers of `b` are those of `a`, each with no request `a` did
/// not have.
pub open spec fn requests_within(a: Seq<PeerState>, b: Seq<PeerState>) -> bool {
    &&& a.len() == b.len()
    &&& forall|j: int, q: u32| 0 <= j < b.len() && #[trigger] b[j].pending_requests@.contains(q) ==> a[j].pending_requests@.contains(q)
}

/// Whether the peers of `b` are those of `a`, each still with every request
/// of `a` for a piece that `pm` does not have done.
pub open spec fn requests_kept(a: Seq<PeerState>, b: Seq<PeerState>, pm: PieceManager) -> bool {
    &&& a.len() == b.len()
    &&& forall|j: int, q: u32| 0 <= j < a.len() && #[trigger] a[j].pending_requests@.contains(q) && !pm.spec_is_done(q)
        ==> b[j].pending_requests@.contains(q)
}

/// Every pending piece is requested from some peer.
pub open spec fn pending_held(s: TorrentState) -> bool {
    forall|q: u32| #[trigger] s.piece_manager.pending_queue@.contains_key(q) ==> exists|j: int|
        0 <= j < s.peers@.len() && #[trigger] s.peers@[j].pending_requests@.contains(q)
}

/// Pending pieces stay requested when the peers only lose requests for
/// pieces that are not pending.
proof fn lemma_held_keep(before: TorrentState, after: TorrentState)
    requires
        pending_held(before),
        forall|q: u32| #[trigger] after.piece_manager.pending_queue@.contains_key(q) ==> before.piece_manager.pending_queue@.contains_key(q),
        after.peers@.len() == before.peers@.len(),
        forall|j: int, q: u32| 0 <= j < before.peers@.len() && #[trigger] before.peers@[j].pending_requests@.contains(q)
            && after.piece_manager.pending_queue@.contains_key(q) ==> after.peers@[j].pending_requests@.contains(q),
    ensures
        pending_held(after),
{
    assert forall|q: u32| #[trigger] after.piece_manager.pending_queue@.contains_key(q) implies exists|j: int|
        0 <= j < after.peers@.len() && #[trigger] after.peers@[j].pending_requests@.contains(q) by {
        let j = choose|j: int| 0 <= j < before.peers@.len() && #[trigger] before.peers@[j].pending_requests@.contains(q);
        assert(after.peers@[j].pending_requests@.contains(q));
    }
}

/// Whether every piece requested from a peer is a piece of the torrent.
pub open spec fn requests_in_range(peers: Seq<PeerState>, n: int) -> bool {
    forall|j: int, q: u32| 0 <= j < peers.len() && #[trigger] peers[j].pending_requests@.contains(q) ==> (q as int) < n
}

/// Every queued piece, needed or pending, is a piece of the torrent that is
/// not done; every piece requested from a peer is a piece of the torrent.
pub open spec fn pieces_tracked(s: TorrentState) -> bool {
    let pm = s.piece_manager;
    &&& forall|q: u32| #[trigger] pm.need_queue@.contains(q) ==> piece_needed(pm.bitfield@, q)
    &&& forall|q: u32| #[trigger] pm.pending_queue@.contains_key(q) ==> piece_needed(pm.bitfield@, q)
    &&& requests_in_range(s.peers@, pm.bitfield@.len() as int)
}

/// Requests that only shrink stay in range.
proof fn lemma_requests_shrink(a: Seq<PeerState>, b: Seq<PeerState>, n: int)
    requires
        requests_in_range(a, n),
        requests_within(a, b),
    ensures
        requests_in_range(b, n),
{
    assert forall|j: int, q: u32| 0 <= j < b.len() && #[trigger] b[j].pending_requests@.contains(q) implies (q as int) < n by {
        assert(a[j].pending_requests@.contains(q));
    }
}

/// Marking a needed piece done and unqueueing it keeps the queues tracked.
proof fn lemma_complete_keeps_tracked(before: TorrentState, after: TorrentState, p: u32)
    requires
        pieces_tracked(before),
        (p as int) < before.piece_manager.bitfield@.len(),
        after.piece_manager.bitfield@ == before.piece_manager.bitfield@.update(p as int, PieceStatus::Done),
        after.piece_manager.need_queue@ == crate::torrent_manager::piece_manager::without(before.piece_manager.need_queue@, p),
        after.piece_manager.pending_queue@ == before.piece_manager.pending_queue@.remove(p),
        after.peers@ == before.peers@,
    ensures
        pieces_tracked(after),
{
    let a = before.piece_manager;
    let b = after.piece_manager;
    assert forall|q: u32| #[trigger] b.need_queue@.contains(q) implies piece_needed(b.bitfield@, q) by {
        crate::torrent_manager::piece_manager::lemma_without_contains(a.need_queue@, p, q);
        assert(piece_needed(a.bitfield@, q));
    }
    assert forall|q: u32| #[trigger] b.pending_queue@.contains_key(q) implies piece_needed(b.bitfield@, q) by {
        assert(a.pending_queue@.contains_key(q));
        assert(piece_needed(a.bitfield@, q));
    }
}

proof fn lemma_same_uploads_total(a: Seq<PeerState>, b: Seq<PeerState>)
    requires
        same_uploads(a, b),
    ensures
        upload_total(a) == upload_total(b),
    decreases a.len(),
{
    if a.len() > 0 {
        assert(same_uploads(a.drop_last(), b.drop_last())) by {
            assert forall|j: int| 0 <= j < a.drop_last().len() implies #[trigger] a.drop_last()[j].total_bytes_uploaded
                == b.drop_last()[j].total_bytes_uploaded by {
                assert(a.drop_last()[j] == a[j]);
                assert(b.drop_last()[j] == b[j]);
            }
        }
        lemma_same_uploads_total(a.drop_last(), b.drop_last());
    }
}

proof fn lemma_upload_total_update(s: Seq<PeerState>, i: int, p: PeerState)
    requires
        0 <= i < s.len(),
    ensures
        upload_total(s.update(i, p)) == upload_total(s) - s[i].total_bytes_uploaded + p.total_bytes_uploaded,
    decreases s.len(),
{
    if i == s.len() - 1 {
        assert(s.update(i, p).drop_last() =~= s.drop_last());
    } else {
        assert(s.update(i, p).drop_last() =~= s.drop_last().update(i, p));
        lemma_upload_total_update(s.drop_last(), i, p);
    }
}

proof fn lemma_upload_total_remove(s: Seq<PeerState>, i: int)
    requires
        0 <= i < s.len(),
    ensures
        upload_total(s.remove(i)) == upload_total(s) - s[i].total_bytes_uploaded,
    decreases s.len(),
{
    if i == s.len() - 1 {
        assert(s.remove(i) =~= s.drop_last());
    } else {
        assert(s.remove(i).drop_last() =~= s.drop_last().remove(i));
        assert(s.remove(i).last() == s.last());
        lemma_upload_total_remove(s.drop_last(), i);
    }
}

/// `after` is `before` with only the peers, the piece manager and the status
/// possibly changed.
pub open spec fn same_but_work(before: TorrentState, after: TorrentState) -> bool {
    after == (TorrentState {
        peers: after.peers,
        piece_manager: after.piece_manager,
        torrent_status: after.torrent_status,
        ..before
    })
}

/// What assigning work to the peer `id` does. Nothing while validating, when
/// no piece is needed or pending, or without metadata; nothing for an unknown
/// peer. A peer with no bitfield yet, or choking us, only gets told we are
/// interested (once) if it has a needed piece. Otherwise the chosen piece (if
/// any) is requested from it and marked pending, entering endgame once the
/// need queue is empty.
pub open spec fn assign_work_result(
    before: TorrentState,
    after: TorrentState,
    id: String,
    effects: Seq<EffectView>,
) -> bool {
    let i = peer_pos(before.peers@, id@);
    let pm = before.piece_manager;
    &&& same_but_work(before, after)
    &&& if before.torrent_status == TorrentStatus::Validating || (pm.need_queue@.len() == 0
        && pm.pending_queue@.dom().len() == 0) || before.torrent is None {
        &&& after.peers@ == before.peers@
        &&& after.piece_manager == pm
        &&& after.torrent_status == before.torrent_status
        &&& effects == seq![EffectView::DoNothing]
    } else if i < 0 {
        &&& after.peers@ == before.peers@
        &&& after.piece_manager == pm
        &&& after.torrent_status == before.torrent_status
        &&& effects == Seq::<EffectView>::empty()
    } else {
        let p = before.peers@[i];
        if p.bitfield@.len() == 0 || p.peer_choking == ChokeStatus::Choke {
            let wants = p.peer_choking == ChokeStatus::Choke && !p.am_interested && peer_has_needed(
                p,
                pm.need_queue@,
            );
            &&& after.piece_manager == pm
            &&& after.torrent_status == before.torrent_status
            &&& if wants {
                &&& after.peers@ == before.peers@.update(i, PeerState { am_interested: true, ..p })
                &&& effects == seq![
                    EffectView::SendToPeer { peer_id: id, cmd: TorrentCommand::ClientInterested },
                ]
            } else {
                &&& after.peers@ == before.peers@
                &&& effects == Seq::<EffectView>::empty()
            }
        } else {
            exists|r: Option<u32>|
                #![trigger pm.piece_choice(p.bitfield@, p.pending_requests@, before.torrent_status, r)]
                pm.piece_choice(p.bitfield@, p.pending_requests@, before.torrent_status, r) && match r {
                    None => {
                        &&& after.peers@ == before.peers@
                        &&& after.piece_manager == pm
                        &&& after.torrent_status == before.torrent_status
                        &&& effects == Seq::<EffectView>::empty()
                    },
                    Some(x) => {
                        let t = before.torrent->0;
                        &&& after.peers@.len() == before.peers@.len()
                        &&& forall|j: int| 0 <= j < before.peers@.len() && j != i ==> after.peers@[j] == before.peers@[j]
                        &&& after.peers@[i] == PeerState { pending_requests: after.peers@[i].pending_requests, ..p }
                        &&& after.peers@[i].pending_requests@ == p.pending_requests@.insert(x)
                        &&& after.piece_manager.wf()
                        &&& after.piece_manager.need_queue@ == crate::torrent_manager::piece_manager::without(pm.need_queue@, x)
                        &&& after.piece_manager.pending_queue@.dom() == pm.pending_queue@.dom().insert(x)
                        &&& after.piece_manager.pending_queue@[x]@ == pm.spec_pending_peers(x).push(id)
                        &&& after.piece_manager.bitfield@ == pm.bitfield@
                        &&& after.piece_manager.pieces_remaining == pm.pieces_remaining
                        &&& after.torrent_status == if after.piece_manager.need_queue@.len() == 0
                            && before.torrent_status != TorrentStatus::Endgame {
                            TorrentStatus::Endgame
                        } else {
                            before.torrent_status
                        }
                        &&& effects == seq![
                            EffectView::SendToPeer {
                                peer_id: id,
                                cmd: TorrentCommand::RequestDownload(x, t.piece_length, t.total_length),
                            },
                        ]
                    },
                }
        }
    }
}

/// The single effect that does nothing.
fn do_nothing() -> (r: Vec<Effect>)
    ensures
        views(r@) == seq![EffectView::DoNothing],
{
    let r = vec![Effect::DoNothing];
    assert(views(r@) =~= seq![EffectView::DoNothing]);
    r
}

/// No effect at all.
fn no_effects() -> (r: Vec<Effect>)
    ensures
        views(r@) == Seq::<EffectView>::empty(),
{
    let r: Vec<Effect> = Vec::new();
    assert(views(r@) =~= Seq::<EffectView>::empty());
    r
}

proof fn lemma_bit_position(j: int, k: int)
    requires
        0 <= j,
        0 <= k < 8,
    ensures
        (8 * j + k) / 8 == j,
        (8 * j + k) % 8 == k,
{
    assert((8 * j + k) / 8 == j && (8 * j + k) % 8 == k) by (nonlinear_arith)
        requires
            0 <= j,
            0 <= k < 8,
    ;
}

/// The bits of a bitfield message, most significant bit of each byte first.
pub fn expand_bitfield(bytes: &Vec<u8>) -> (bits: Vec<bool>)
    requires
        bytes@.len() * 8 <= usize::MAX,
    ensures
        bits@ == message_bits(bytes@),
{
    let mut bits: Vec<bool> = Vec::new();
    let mut j: usize = 0;
    while j < bytes.len()
        invariant
            j <= bytes@.len(),
            bytes@.len() * 8 <= usize::MAX,
            bits@.len() == 8 * j,
            forall|q: int| 0 <= q < bits@.len() ==> #[trigger] bits@[q] == message_bits(bytes@)[q],
        decreases bytes@.len() - j,
    {
        let byte = bytes[j];
        let mut k: u8 = 0;
        while k < 8
            invariant
                j < bytes@.len(),
                bytes@.len() * 8 <= usize::MAX,
                byte == bytes@[j as int],
                k <= 8,
                bits@.len() == 8 * j + k,
                forall|q: int| 0 <= q < bits@.len() ==> #[trigger] bits@[q] == message_bits(bytes@)[q],
            decreases 8 - k,
        {
            let bit = (byte >> (7 - k)) & 1u8 == 1u8;
            proof {
                lemma_bit_position(j as int, k as int);
                let q = 8 * j + k;
                assert(q / 8 == j as int);
                assert(q % 8 == k as int);
            }
            bits.push(bit);
            k = k + 1;
        }
        j = j + 1;
    }
    assert(bits@ =~= message_bits(bytes@));
    bits
}

/// The size of a piece: the piece length, shorter for the last piece, zero
/// past the end or without metadata.
pub open spec fn spec_piece_size(torrent: Option<TorrentSummary>, piece_index: u32) -> int {
    match torrent {
        None => 0,
        Some(t) => {
            let piece_len = t.piece_length as u64;
            let total = t.total_length as u64;
            let offset = piece_index * piece_len;
            let remaining = if total >= offset { total - offset } else { 0 };
            if piece_len <= remaining { piece_len as int } else { remaining }
        },
    }
}

/// Whether a block of `len` bytes for `piece_index` fits the 32-bit block
/// arithmetic of the piece manager.
pub open spec fn block_fits(s: TorrentState, piece_index: u32, len: nat) -> bool {
    &&& len <= u32::MAX
    &&& s.piece_manager.block_manager.piece_length == 0 ==> {
        let size = spec_piece_size(s.torrent, piece_index) as usize;
        &&& size <= u32::MAX
        &&& crate::torrent_manager::block_manager::blocks_for((piece_index + 1) * size) <= u32::MAX
    }
}

/// Views of two lists of effects, one after the other.
pub proof fn lemma_views_append(a: Seq<Effect>, b: Seq<Effect>)
    ensures
        views(a + b) == views(a) + views(b),
{
    assert(views(a + b) =~= views(a) + views(b));
}

/// Whether `effects` send `Cancel(piece_index)` to the peer `id`.
pub open spec fn sends_cancel(effects: Seq<EffectView>, id: String, piece_index: u32) -> bool {
    effects.contains(EffectView::SendToPeer { peer_id: id, cmd: TorrentCommand::Cancel(piece_index) })
}

proof fn lemma_sends_cancel_suffix(a: Seq<EffectView>, b: Seq<EffectView>, id: String, piece_index: u32)
    requires
        sends_cancel(b, id, piece_index),
    ensures
        sends_cancel(a + b, id, piece_index),
{
    let e = EffectView::SendToPeer { peer_id: id, cmd: TorrentCommand::Cancel(piece_index) };
    let w = choose|w: int| 0 <= w < b.len() && b[w] == e;
    assert((a + b)[a.len() + w] == e);
}

/// Whether every peer of `to_cancel` other than `writer` that is connected
/// in `peers` is sent `Cancel(piece_index)`, for the first `upto` of them.
pub open spec fn cancels_sent(
    effects: Seq<EffectView>,
    to_cancel: Seq<String>,
    upto: int,
    writer: Seq<char>,
    peers: Seq<PeerState>,
    piece_index: u32,
) -> bool {
    forall|k: int|
        #![trigger to_cancel[k]]
        0 <= k < upto && k < to_cancel.len() && to_cancel[k]@ != writer && (exists|j: int|
            0 <= j < peers.len() && #[trigger] peers[j].ip_port@ == to_cancel[k]@)
            ==> sends_cancel(effects, to_cancel[k], piece_index)
}

proof fn lemma_cancels_kept(
    a: Seq<EffectView>,
    b: Seq<EffectView>,
    to_cancel: Seq<String>,
    upto: int,
    writer: Seq<char>,
    peers: Seq<PeerState>,
    piece_index: u32,
)
    requires
        cancels_sent(a, to_cancel, upto, writer, peers, piece_index),
    ensures
        cancels_sent(a + b, to_cancel, upto, writer, peers, piece_index),
{
    assert forall|k: int|
        #![trigger to_cancel[k]]
        0 <= k < upto && k < to_cancel.len() && to_cancel[k]@ != writer && (exists|j: int|
            0 <= j < peers.len() && #[trigger] peers[j].ip_port@ == to_cancel[k]@)
        implies sends_cancel(a + b, to_cancel[k], piece_index) by {
        let e = EffectView::SendToPeer { peer_id: to_cancel[k], cmd: TorrentCommand::Cancel(piece_index) };
        let w = choose|w: int| 0 <= w < a.len() && a[w] == e;
        assert((a + b)[w] == e);
    }
}

/// Whether piece `p` is done and nowhere requested or queued, and no peer at
/// address `who` has it pending.
pub open spec fn piece_settled(s: TorrentState, p: u32, who: Seq<char>) -> bool {
    &&& s.piece_manager.spec_is_done(p)
    &&& !s.piece_manager.need_queue@.contains(p)
    &&& !s.piece_manager.pending_queue@.contains_key(p)
    &&& forall|j: int|
        0 <= j < s.peers@.len() && #[trigger] s.peers@[j].ip_port@ == who
            ==> !s.peers@[j].pending_requests@.contains(p)
}

/// Assigning work never brings a settled piece back.
pub proof fn lemma_assign_work_keeps_settled(
    before: TorrentState,
    after: TorrentState,
    id: String,
    effects: Seq<EffectView>,
    p: u32,
    who: Seq<char>,
)
    requires
        assign_work_result(before, after, id, effects),
        piece_settled(before, p, who),
    ensures
        piece_settled(after, p, who),
        after.piece_manager.bitfield@ == before.piece_manager.bitfield@,
{
    let i = peer_pos(before.peers@, id@);
    lemma_peer_pos_from(before.peers@, id@, 0);
    let pm = before.piece_manager;
    if before.torrent_status == TorrentStatus::Validating || (pm.need_queue@.len() == 0
        && pm.pending_queue@.dom().len() == 0) || before.torrent is None || i < 0 {
    } else {
        let q = before.peers@[i];
        if q.bitfield@.len() == 0 || q.peer_choking == ChokeStatus::Choke {
            assert(after.peers@.len() == before.peers@.len());
            assert forall|j: int| 0 <= j < after.peers@.len() && #[trigger] after.peers@[j].ip_port@ == who implies !after.peers@[j].pending_requests@.contains(p) by {
                if after.peers@ != before.peers@ {
                    if j == i {
                        assert(after.peers@[j] == PeerState { am_interested: true, ..q });
                    } else {
                        assert(after.peers@[j] == before.peers@[j]);
                    }
                }
            }
        } else {
            let r = choose|r: Option<u32>| #[trigger] pm.piece_choice(q.bitfield@, q.pending_requests@, before.torrent_status, r) && match r {
                None => {
                    &&& after.peers@ == before.peers@
                    &&& after.piece_manager == pm
                    &&& after.torrent_status == before.torrent_status
                    &&& effects == Seq::<EffectView>::empty()
                },
                Some(x) => {
                    let t = before.torrent->0;
                    &&& after.peers@.len() == before.peers@.len()
                    &&& forall|j: int| 0 <= j < before.peers@.len() && j != i ==> after.peers@[j] == before.peers@[j]
                    &&& after.peers@[i] == PeerState { pending_requests: after.peers@[i].pending_requests, ..q }
                    &&& after.peers@[i].pending_requests@ == q.pending_requests@.insert(x)
                    &&& after.piece_manager.wf()
                    &&& after.piece_manager.need_queue@ == crate::torrent_manager::piece_manager::without(pm.need_queue@, x)
                    &&& after.piece_manager.pending_queue@.dom() == pm.pending_queue@.dom().insert(x)
                    &&& after.piece_manager.pending_queue@[x]@ == pm.spec_pending_peers(x).push(id)
                    &&& after.piece_manager.bitfield@ == pm.bitfield@
                    &&& after.piece_manager.pieces_remaining == pm.pieces_remaining
                    &&& after.torrent_status == if after.piece_manager.need_queue@.len() == 0
                        && before.torrent_status != TorrentStatus::Endgame {
                        TorrentStatus::Endgame
                    } else {
                        before.torrent_status
                    }
                    &&& effects == seq![
                        EffectView::SendToPeer {
                            peer_id: id,
                            cmd: TorrentCommand::RequestDownload(x, t.piece_length, t.total_length),
                        },
                    ]
                },
            };
            match r {
                None => {},
                Some(x) => {
                    if before.torrent_status != TorrentStatus::Endgame {
                        let k = choose|k: int| 0 <= k < pm.need_queue@.len() && pm.need_queue@[k] == x;
                        assert(pm.need_queue@.contains(x));
                    }
                    assert(x != p);
                    let nq = pm.need_queue@;
                    assert(!after.piece_manager.need_queue@.contains(p)) by {
                        crate::torrent_manager::piece_manager::lemma_without_contains(nq, x, p);
                    }
                    assert(!after.piece_manager.pending_queue@.dom().contains(p));
                    assert forall|j: int| 0 <= j < after.peers@.len() && #[trigger] after.peers@[j].ip_port@ == who implies !after.peers@[j].pending_requests@.contains(p) by {
                        if j == i {
                            assert(after.peers@[j].ip_port == before.peers@[j].ip_port);
                        } else {
                            assert(after.peers@[j] == before.peers@[j]);
                        }
                    }
                },
            }
        }
    }
}

fn peer_to_cancel_at(peers: &Vec<String>, k: usize) -> (r: String)
    requires
        k < peers@.len(),
    ensures
        r == peers@[k as int],
{
    peers[k].clone()
}

/// Assigning work keeps the pieces that are done, and leaves the status as
/// it was or moves it to endgame.
pub proof fn lemma_assign_work_frame(
    before: TorrentState,
    after: TorrentState,
    id: String,
    effects: Seq<EffectView>,
)
    requires
        assign_work_result(before, after, id, effects),
    ensures
        after.piece_manager.bitfield@ == before.piece_manager.bitfield@,
        after.torrent_status == before.torrent_status || after.torrent_status == TorrentStatus::Endgame,
        after.peers@.len() == before.peers@.len(),
        forall|j: int| 0 <= j < after.peers@.len() ==> #[trigger] after.peers@[j].ip_port == before.peers@[j].ip_port,
        keeps_books(before, after),
{
    let i = peer_pos(before.peers@, id@);
    lemma_peer_pos_from(before.peers@, id@, 0);
    let pm = before.piece_manager;
    if before.torrent_status == TorrentStatus::Validating || (pm.need_queue@.len() == 0
        && pm.pending_queue@.dom().len() == 0) || before.torrent is None || i < 0 {
    } else {
        let q = before.peers@[i];
        if q.bitfield@.len() == 0 || q.peer_choking == ChokeStatus::Choke {
            assert forall|j: int| 0 <= j < after.peers@.len() implies #[trigger] after.peers@[j].ip_port == before.peers@[j].ip_port
                && after.peers@[j].total_bytes_uploaded == before.peers@[j].total_bytes_uploaded by {
                if after.peers@ != before.peers@ && j == i {
                    assert(after.peers@[j] == PeerState { am_interested: true, ..q });
                }
            }
        } else {
            let r = choose|r: Option<u32>| #[trigger] pm.piece_choice(q.bitfield@, q.pending_requests@, before.torrent_status, r) && match r {
                None => {
                    &&& after.peers@ == before.peers@
                    &&& after.piece_manager == pm
                    &&& after.torrent_status == before.torrent_status
                    &&& effects == Seq::<EffectView>::empty()
                },
                Some(x) => {
                    let t = before.torrent->0;
                    &&& after.peers@.len() == before.peers@.len()
                    &&& forall|j: int| 0 <= j < before.peers@.len() && j != i ==> after.peers@[j] == before.peers@[j]
                    &&& after.peers@[i] == PeerState { pending_requests: after.peers@[i].pending_requests, ..q }
                    &&& after.peers@[i].pending_requests@ == q.pending_requests@.insert(x)
                    &&& after.piece_manager.wf()
                    &&& after.piece_manager.need_queue@ == crate::torrent_manager::piece_manager::without(pm.need_queue@, x)
                    &&& after.piece_manager.pending_queue@.dom() == pm.pending_queue@.dom().insert(x)
                    &&& after.piece_manager.pending_queue@[x]@ == pm.spec_pending_peers(x).push(id)
                    &&& after.piece_manager.bitfield@ == pm.bitfield@
                    &&& after.piece_manager.pieces_remaining == pm.pieces_remaining
                    &&& after.torrent_status == if after.piece_manager.need_queue@.len() == 0
                        && before.torrent_status != TorrentStatus::Endgame {
                        TorrentStatus::Endgame
                    } else {
                        before.torrent_status
                    }
                    &&& effects == seq![
                        EffectView::SendToPeer {
                            peer_id: id,
                            cmd: TorrentCommand::RequestDownload(x, t.piece_length, t.total_length),
                        },
                    ]
                },
            };
            match r {
                None => {},
                Some(x) => {
                    assert forall|j: int| 0 <= j < after.peers@.len() implies #[trigger] after.peers@[j].ip_port == before.peers@[j].ip_port
                        && after.peers@[j].total_bytes_uploaded == before.peers@[j].total_bytes_uploaded by {
                        if j != i {
                            assert(after.peers@[j] == before.peers@[j]);
                        }
                    }
                },
            }
        }
    }
}

/// Assigning work keeps the queues tracked: the piece it requests was needed
/// or pending already.
pub proof fn lemma_assign_work_tracked(
    before: TorrentState,
    after: TorrentState,
    id: String,
    effects: Seq<EffectView>,
)
    requires
        assign_work_result(before, after, id, effects),
        pieces_tracked(before),
    ensures
        pieces_tracked(after),
{
    let i = peer_pos(before.peers@, id@);
    lemma_peer_pos_from(before.peers@, id@, 0);
    let pm = before.piece_manager;
    let n = pm.bitfield@.len() as int;
    if before.torrent_status == TorrentStatus::Validating || (pm.need_queue@.len() == 0
        && pm.pending_queue@.dom().len() == 0) || before.torrent is None || i < 0 {
    } else {
        let q = before.peers@[i];
        if q.bitfield@.len() == 0 || q.peer_choking == ChokeStatus::Choke {
            if after.peers@ != before.peers@ {
                assert(after.peers@ == before.peers@.update(i, PeerState { am_interested: true, ..q }));
                lemma_requests_shrink(before.peers@, after.peers@, n);
            }
        } else {
            let r = choose|r: Option<u32>| #[trigger] pm.piece_choice(q.bitfield@, q.pending_requests@, before.torrent_status, r) && match r {
                None => {
                    &&& after.peers@ == before.peers@
                    &&& after.piece_manager == pm
                    &&& after.torrent_status == before.torrent_status
                    &&& effects == Seq::<EffectView>::empty()
                },
                Some(x) => {
                    let t = before.torrent->0;
                    &&& after.peers@.len() == before.peers@.len()
                    &&& forall|j: int| 0 <= j < before.peers@.len() && j != i ==> after.peers@[j] == before.peers@[j]
                    &&& after.peers@[i] == PeerState { pending_requests: after.peers@[i].pending_requests, ..q }
                    &&& after.peers@[i].pending_requests@ == q.pending_requests@.insert(x)
                    &&& after.piece_manager.wf()
                    &&& after.piece_manager.need_queue@ == crate::torrent_manager::piece_manager::without(pm.need_queue@, x)
                    &&& after.piece_manager.pending_queue@.dom() == pm.pending_queue@.dom().insert(x)
                    &&& after.piece_manager.pending_queue@[x]@ == pm.spec_pending_peers(x).push(id)
                    &&& after.piece_manager.bitfield@ == pm.bitfield@
                    &&& after.piece_manager.pieces_remaining == pm.pieces_remaining
                    &&& after.torrent_status == if after.piece_manager.need_queue@.len() == 0
                        && before.torrent_status != TorrentStatus::Endgame {
                        TorrentStatus::Endgame
                    } else {
                        before.torrent_status
                    }
                    &&& effects == seq![
                        EffectView::SendToPeer {
                            peer_id: id,
                            cmd: TorrentCommand::RequestDownload(x, t.piece_length, t.total_length),
                        },
                    ]
                },
            };
            match r {
                None => {},
                Some(x) => {
                    assert(piece_needed(pm.bitfield@, x)) by {
                        if before.torrent_status != TorrentStatus::Endgame {
                            let k = choose|k: int| {
                                &&& 0 <= k < pm.need_queue@.len()
                                &&& pm.need_queue@[k] == x
                                &&& PieceManager::spec_candidate(q.bitfield@, q.pending_requests@, x)
                                &&& forall|j: int|
                                    0 <= j < pm.need_queue@.len() && PieceManager::spec_candidate(q.bitfield@, q.pending_requests@, #[trigger] pm.need_queue@[j])
                                        ==> pm.spec_rarity_key(x) <= pm.spec_rarity_key(pm.need_queue@[j])
                                &&& forall|j: int|
                                    0 <= j < k && PieceManager::spec_candidate(q.bitfield@, q.pending_requests@, #[trigger] pm.need_queue@[j])
                                        ==> pm.spec_rarity_key(x) < pm.spec_rarity_key(pm.need_queue@[j])
                            };
                            assert(pm.need_queue@.contains(x));
                        }
                    }
                    let a = after.piece_manager;
                    assert forall|k: u32| #[trigger] a.need_queue@.contains(k) implies piece_needed(a.bitfield@, k) by {
                        crate::torrent_manager::piece_manager::lemma_without_contains(pm.need_queue@, x, k);
                    }
                    assert forall|k: u32| #[trigger] a.pending_queue@.contains_key(k) implies piece_needed(a.bitfield@, k) by {
                        assert(a.pending_queue@.dom().contains(k));
                        if k != x {
                            assert(pm.pending_queue@.dom().contains(k));
                        }
                    }
                    assert forall|j: int, k: u32| 0 <= j < after.peers@.len() && #[trigger] after.peers@[j].pending_requests@.contains(k)
                        implies (k as int) < n by {
                        if j != i {
                            assert(after.peers@[j] == before.peers@[j]);
                        } else if k != x {
                            assert(q.pending_requests@.contains(k));
                        }
                    }
                },
            }
        }
    }
}

/// Assigning work keeps every pending piece requested from some peer: the
/// piece it marks pending is requested from the peer it assigns.
pub proof fn lemma_assign_work_held(
    before: TorrentState,
    after: TorrentState,
    id: String,
    effects: Seq<EffectView>,
)
    requires
        assign_work_result(before, after, id, effects),
        pending_held(before),
    ensures
        pending_held(after),
{
    let i = peer_pos(before.peers@, id@);
    lemma_peer_pos_from(before.peers@, id@, 0);
    let pm = before.piece_manager;
    if before.torrent_status == TorrentStatus::Validating || (pm.need_queue@.len() == 0
        && pm.pending_queue@.dom().len() == 0) || before.torrent is None || i < 0 {
        lemma_held_keep(before, after);
    } else {
        let q = before.peers@[i];
        if q.bitfield@.len() == 0 || q.peer_choking == ChokeStatus::Choke {
            if after.peers@ != before.peers@ {
                assert(after.peers@ == before.peers@.update(i, PeerState { am_interested: true, ..q }));
            }
            assert forall|j: int, k: u32| 0 <= j < before.peers@.len() && #[trigger] before.peers@[j].pending_requests@.contains(k)
                && after.piece_manager.pending_queue@.contains_key(k) implies after.peers@[j].pending_requests@.contains(k) by {
                if after.peers@ != before.peers@ && j == i {
                    assert(after.peers@[j].pending_requests == q.pending_requests);
                }
            }
            lemma_held_keep(before, after);
        } else {
            let r = choose|r: Option<u32>| #[trigger] pm.piece_choice(q.bitfield@, q.pending_requests@, before.torrent_status, r) && match r {
                None => {
                    &&& after.peers@ == before.peers@
                    &&& after.piece_manager == pm
                    &&& after.torrent_status == before.torrent_status
                    &&& effects == Seq::<EffectView>::empty()
                },
                Some(x) => {
                    let t = before.torrent->0;
                    &&& after.peers@.len() == before.peers@.len()
                    &&& forall|j: int| 0 <= j < before.peers@.len() && j != i ==> after.peers@[j] == before.peers@[j]
                    &&& after.peers@[i] == PeerState { pending_requests: after.peers@[i].pending_requests, ..q }
                    &&& after.peers@[i].pending_requests@ == q.pending_requests@.insert(x)
                    &&& after.piece_manager.wf()
                    &&& after.piece_manager.need_queue@ == crate::torrent_manager::piece_manager::without(pm.need_queue@, x)
                    &&& after.piece_manager.pending_queue@.dom() == pm.pending_queue@.dom().insert(x)
                    &&& after.piece_manager.pending_queue@[x]@ == pm.spec_pending_peers(x).push(id)
                    &&& after.piece_manager.bitfield@ == pm.bitfield@
                    &&& after.piece_manager.pieces_remaining == pm.pieces_remaining
                    &&& after.torrent_status == if after.piece_manager.need_queue@.len() == 0
                        && before.torrent_status != TorrentStatus::Endgame {
                        TorrentStatus::Endgame
                    } else {
                        before.torrent_status
                    }
                    &&& effects == seq![
                        EffectView::SendToPeer {
                            peer_id: id,
                            cmd: TorrentCommand::RequestDownload(x, t.piece_length, t.total_length),
                        },
                    ]
                },
            };
            match r {
                None => {
                    lemma_held_keep(before, after);
                },
                Some(x) => {
                    assert forall|k: u32| #[trigger] after.piece_manager.pending_queue@.contains_key(k) implies exists|j: int|
                        0 <= j < after.peers@.len() && #[trigger] after.peers@[j].pending_requests@.contains(k) by {
                        if k == x {
                            assert(after.peers@[i].pending_requests@.contains(k));
                        } else {
                            assert(after.piece_manager.pending_queue@.dom().contains(k));
                            assert(pm.pending_queue@.contains_key(k));
                            let j = choose|j: int| 0 <= j < before.peers@.len() && #[trigger] before.peers@[j].pending_requests@.contains(k);
                            if j != i {
                                assert(after.peers@[j] == before.peers@[j]);
                            }
                            assert(after.peers@[j].pending_requests@.contains(k));
                        }
                    }
                },
            }
        }
    }
}

/// Assigning work never queues a piece that is neither needed nor pending.
pub proof fn lemma_assign_work_unqueued(
    before: TorrentState,
    after: TorrentState,
    id: String,
    effects: Seq<EffectView>,
    p: u32,
)
    requires
        assign_work_result(before, after, id, effects),
        !before.piece_manager.need_queue@.contains(p),
        !before.piece_manager.pending_queue@.contains_key(p),
    ensures
        !after.piece_manager.need_queue@.contains(p),
        !after.piece_manager.pending_queue@.contains_key(p),
{
    let i = peer_pos(before.peers@, id@);
    let pm = before.piece_manager;
    if before.torrent_status == TorrentStatus::Validating || (pm.need_queue@.len() == 0
        && pm.pending_queue@.dom().len() == 0) || before.torrent is None || i < 0 {
    } else {
        let q = before.peers@[i];
        if q.bitfield@.len() == 0 || q.peer_choking == ChokeStatus::Choke {
        } else {
            let r = choose|r: Option<u32>| #[trigger] pm.piece_choice(q.bitfield@, q.pending_requests@, before.torrent_status, r) && match r {
                None => {
                    &&& after.peers@ == before.peers@
                    &&& after.piece_manager == pm
                    &&& after.torrent_status == before.torrent_status
                    &&& effects == Seq::<EffectView>::empty()
                },
                Some(x) => {
                    let t = before.torrent->0;
                    &&& after.peers@.len() == before.peers@.len()
                    &&& forall|j: int| 0 <= j < before.peers@.len() && j != i ==> after.peers@[j] == before.peers@[j]
                    &&& after.peers@[i] == PeerState { pending_requests: after.peers@[i].pending_requests, ..q }
                    &&& after.peers@[i].pending_requests@ == q.pending_requests@.insert(x)
                    &&& after.piece_manager.wf()
                    &&& after.piece_manager.need_queue@ == crate::torrent_manager::piece_manager::without(pm.need_queue@, x)
                    &&& after.piece_manager.pending_queue@.dom() == pm.pending_queue@.dom().insert(x)
                    &&& after.piece_manager.pending_queue@[x]@ == pm.spec_pending_peers(x).push(id)
                    &&& after.piece_manager.bitfield@ == pm.bitfield@
                    &&& after.piece_manager.pieces_remaining == pm.pieces_remaining
                    &&& after.torrent_status == if after.piece_manager.need_queue@.len() == 0
                        && before.torrent_status != TorrentStatus::Endgame {
                        TorrentStatus::Endgame
                    } else {
                        before.torrent_status
                    }
                    &&& effects == seq![
                        EffectView::SendToPeer {
                            peer_id: id,
                            cmd: TorrentCommand::RequestDownload(x, t.piece_length, t.total_length),
                        },
                    ]
                },
            };
            match r {
                None => {},
                Some(x) => {
                    assert(pm.need_queue@.contains(x) || pm.pending_queue@.contains_key(x)) by {
                        if before.torrent_status != TorrentStatus::Endgame {
                            let k = choose|k: int| {
                                &&& 0 <= k < pm.need_queue@.len()
                                &&& pm.need_queue@[k] == x
                                &&& PieceManager::spec_candidate(q.bitfield@, q.pending_requests@, x)
                                &&& forall|j: int|
                                    0 <= j < pm.need_queue@.len() && PieceManager::spec_candidate(q.bitfield@, q.pending_requests@, #[trigger] pm.need_queue@[j])
                                        ==> pm.spec_rarity_key(x) <= pm.spec_rarity_key(pm.need_queue@[j])
                                &&& forall|j: int|
                                    0 <= j < k && PieceManager::spec_candidate(q.bitfield@, q.pending_requests@, #[trigger] pm.need_queue@[j])
                                        ==> pm.spec_rarity_key(x) < pm.spec_rarity_key(pm.need_queue@[j])
                            };
                            assert(pm.need_queue@.contains(x));
                        }
                    }
                    crate::torrent_manager::piece_manager::lemma_without_contains(pm.need_queue@, x, p);
                    assert(!after.piece_manager.pending_queue@.dom().contains(p));
                },
            }
        }
    }
}

/// Assigning work never leaves a piece both needed and pending.
pub proof fn lemma_assign_work_disjoint(
    before: TorrentState,
    after: TorrentState,
    id: String,
    effects: Seq<EffectView>,
)
    requires
        assign_work_result(before, after, id, effects),
        queues_disjoint(before.piece_manager),
    ensures
        queues_disjoint(after.piece_manager),
{
    let i = peer_pos(before.peers@, id@);
    let pm = before.piece_manager;
    if before.torrent_status == TorrentStatus::Validating || (pm.need_queue@.len() == 0
        && pm.pending_queue@.dom().len() == 0) || before.torrent is None || i < 0 {
    } else {
        let q = before.peers@[i];
        if q.bitfield@.len() == 0 || q.peer_choking == ChokeStatus::Choke {
        } else {
            let r = choose|r: Option<u32>| #[trigger] pm.piece_choice(q.bitfield@, q.pending_requests@, before.torrent_status, r) && match r {
                None => {
                    &&& after.peers@ == before.peers@
                    &&& after.piece_manager == pm
                    &&& after.torrent_status == before.torrent_status
                    &&& effects == Seq::<EffectView>::empty()
                },
                Some(x) => {
                    let t = before.torrent->0;
                    &&& after.peers@.len() == before.peers@.len()
                    &&& forall|j: int| 0 <= j < before.peers@.len() && j != i ==> after.peers@[j] == before.peers@[j]
                    &&& after.peers@[i] == PeerState { pending_requests: after.peers@[i].pending_requests, ..q }
                    &&& after.peers@[i].pending_requests@ == q.pending_requests@.insert(x)
                    &&& after.piece_manager.wf()
                    &&& after.piece_manager.need_queue@ == crate::torrent_manager::piece_manager::without(pm.need_queue@, x)
                    &&& after.piece_manager.pending_queue@.dom() == pm.pending_queue@.dom().insert(x)
                    &&& after.piece_manager.pending_queue@[x]@ == pm.spec_pending_peers(x).push(id)
                    &&& after.piece_manager.bitfield@ == pm.bitfield@
                    &&& after.piece_manager.pieces_remaining == pm.pieces_remaining
                    &&& after.torrent_status == if after.piece_manager.need_queue@.len() == 0
                        && before.torrent_status != TorrentStatus::Endgame {
                        TorrentStatus::Endgame
                    } else {
                        before.torrent_status
                    }
                    &&& effects == seq![
                        EffectView::SendToPeer {
                            peer_id: id,
                            cmd: TorrentCommand::RequestDownload(x, t.piece_length, t.total_length),
                        },
                    ]
                },
            };
            match r {
                None => {},
                Some(x) => {
                    assert forall|k: u32| #[trigger] after.piece_manager.need_queue@.contains(k)
                        implies !after.piece_manager.pending_queue@.contains_key(k) by {
                        crate::torrent_manager::piece_manager::lemma_without_contains(pm.need_queue@, x, k);
                        assert(!after.piece_manager.pending_queue@.dom().contains(k));
                    }
                },
            }
        }
    }
}

/// The decimal digits of `n`.
pub open spec fn decimal(n: nat) -> Seq<char>
    decreases n,
{
    if n < 10 {
        seq![(48 + n) as char]
    } else {
        decimal(n / 10) + seq![(48 + n % 10) as char]
    }
}

/// The text of a peer address: the IP, a colon, the port in decimal.
pub open spec fn addr_text(ip: Seq<char>, port: u16) -> Seq<char> {
    ip + seq![':'] + decimal(port as nat)
}

fn digit_text(d: u16) -> (r: &'static str)
    requires
        d < 10,
    ensures
        r@ == seq![(48 + d) as char],
{
    proof {
        reveal_strlit("0");
        reveal_strlit("1");
        reveal_strlit("2");
        reveal_strlit("3");
        reveal_strlit("4");
        reveal_strlit("5");
        reveal_strlit("6");
        reveal_strlit("7");
        reveal_strlit("8");
        reveal_strlit("9");
    }
    if d == 0 {
        "0"
    } else if d == 1 {
        "1"
    } else if d == 2 {
        "2"
    } else if d == 3 {
        "3"
    } else if d == 4 {
        "4"
    } else if d == 5 {
        "5"
    } else if d == 6 {
        "6"
    } else if d == 7 {
        "7"
    } else if d == 8 {
        "8"
    } else {
        "9"
    }
}

fn push_decimal(s: &mut String, n: u16)
    ensures
        final(s)@ == old(s)@ + decimal(n as nat),
    decreases n,
{
    if n >= 10 {
        push_decimal(s, n / 10);
    }
    s.append(digit_text(n % 10));
}

/// The address text `ip:port` under which failed connections are recorded.
pub fn peer_addr_text(ip: &String, port: u16) -> (r: String)
    ensures
        r@ == addr_text(ip@, port),
{
    let mut r = ip.clone();
    proof {
        reveal_strlit(":");
    }
    r.append(":");
    push_decimal(&mut r, port);
    r
}

/// Whether `addr` is backing off at `now` after failed connections.
pub open spec fn backing_off(entries: Seq<TimeoutEntry>, addr: Seq<char>, now: u64) -> bool {
    let i = timeout_pos_from(entries, addr, 0);
    i >= 0 && now < entries[i].next_attempt
}

/// Connections to the first `k` tracker peers that are not backing off.
pub open spec fn connect_effects(
    peers: Seq<(String, u16)>,
    entries: Seq<TimeoutEntry>,
    now: u64,
    k: int,
) -> Seq<EffectView>
    decreases k,
{
    if k <= 0 {
        seq![]
    } else {
        connect_effects(peers, entries, now, k - 1) + if backing_off(entries, addr_text(peers[k - 1].0@, peers[k - 1].1), now) {
            seq![]
        } else {
            seq![EffectView::ConnectToPeer { ip: peers[k - 1].0, port: peers[k - 1].1 }]
        }
    }
}

/// Milliseconds in `secs` seconds, capped at `u64::MAX`.
pub open spec fn secs_to_ms(secs: u64) -> u64 {
    if secs * 1000 > u64::MAX {
        u64::MAX
    } else {
        (secs * 1000) as u64
    }
}

fn secs_ms(secs: u64) -> (r: u64)
    ensures
        r == secs_to_ms(secs),
{
    if secs > u64::MAX / 1000 {
        u64::MAX
    } else {
        secs * 1000
    }
}

/// What a peer's share of the choking round is measured by: what we uploaded
/// to it when seeding, what it gave us otherwise.
pub open spec fn choke_key(p: PeerState, seeding: bool) -> u64 {
    if seeding {
        p.bytes_uploaded_to_peer
    } else {
        p.bytes_downloaded_from_peer
    }
}

/// Whether peer `i` ranks before peer `j`: a larger share, or an equal one
/// and an earlier place in the list.
pub open spec fn ranks_before(peers: Seq<PeerState>, seeding: bool, i: int, j: int) -> bool {
    choke_key(peers[i], seeding) > choke_key(peers[j], seeding) || (choke_key(peers[i], seeding)
        == choke_key(peers[j], seeding) && i < j)
}

/// `order` lists every peer interested in us, each once, best ranked first.
pub open spec fn ranked(peers: Seq<PeerState>, seeding: bool, order: Seq<usize>) -> bool {
    &&& order.no_duplicates()
    &&& forall|k: int|
        0 <= k < order.len() ==> (#[trigger] order[k] as int) < peers.len()
            && peers[order[k] as int].peer_is_interested_in_us
    &&& forall|j: int|
        0 <= j < peers.len() && #[trigger] peers[j].peer_is_interested_in_us ==> order.contains(
            j as usize,
        )
    &&& forall|a: int, b: int|
        0 <= a < b < order.len() ==> ranks_before(peers, seeding, #[trigger] order[a] as int, #[trigger] order[b] as int)
}

/// The peer given the optimistic slot: when the rotation is due, the one at
/// `seed` (modulo their number) among the ranked peers past the regular slots.
pub open spec fn optimistic_pick(order: Seq<usize>, slots: int, due: bool, seed: u64) -> Option<usize> {
    let m = if slots < order.len() { slots } else { order.len() as int };
    if due && order.len() > m {
        Some(order[m + (seed % ((order.len() - m) as u64)) as int])
    } else {
        None
    }
}

/// Whether peer `j` is unchoked by the round.
pub open spec fn unchoked_by(order: Seq<usize>, slots: int, pick: Option<usize>, j: int) -> bool {
    let m = if slots < order.len() { slots } else { order.len() as int };
    order.take(m).contains(j as usize) || pick == Some(j as usize)
}

/// Choke and unchoke messages for the first `k` peers whose state changes.
pub open spec fn choke_effects(
    peers: Seq<PeerState>,
    order: Seq<usize>,
    slots: int,
    pick: Option<usize>,
    k: int,
) -> Seq<EffectView>
    decreases k,
{
    if k <= 0 {
        seq![]
    } else {
        let j = k - 1;
        choke_effects(peers, order, slots, pick, j) + if unchoked_by(order, slots, pick, j) {
            if peers[j].am_choking == ChokeStatus::Choke {
                seq![EffectView::SendToPeer { peer_id: peers[j].ip_port, cmd: TorrentCommand::PeerUnchoke }]
            } else {
                seq![]
            }
        } else if peers[j].am_choking == ChokeStatus::Unchoke {
            seq![EffectView::SendToPeer { peer_id: peers[j].ip_port, cmd: TorrentCommand::PeerChoke }]
        } else {
            seq![]
        }
    }
}

/// A peer after the round: choked or not, and its round counters cleared.
pub open spec fn after_round(p: PeerState, unchoked: bool) -> PeerState {
    PeerState {
        am_choking: if unchoked { ChokeStatus::Unchoke } else { ChokeStatus::Choke },
        bytes_downloaded_from_peer: 0,
        bytes_uploaded_to_peer: 0,
        ..p
    }
}

impl TorrentState {
    /// The invariant every state keeps: the piece manager is consistent and
    /// no two peers share an address.
    pub open spec fn wf(&self) -> bool {
        &&& self.piece_manager.wf()
        &&& peers_unique(self.peers@)
    }

    /// A torrent with nothing connected or counted yet, validating, whose
    /// first choking round is due for an optimistic unchoke (its timer set
    /// 31 s before `now`, or at `now` when the clock is younger).
    pub fn new(
        info_hash: Vec<u8>,
        torrent: Option<TorrentSummary>,
        torrent_metadata_length: Option<i64>,
        piece_manager: PieceManager,
        trackers: Vec<TrackerEntry>,
        torrent_validation_status: bool,
        now: u64,
    ) -> (r: Self)
        ensures
            r == (TorrentState {
                info_hash,
                torrent,
                torrent_metadata_length,
                piece_manager,
                trackers,
                torrent_validation_status,
                optimistic_unchoke_timer: Some(if now >= 31_000 { (now - 31_000) as u64 } else { now }),
                now,
                ..r
            }),
            r.is_paused == false,
            r.torrent_status == TorrentStatus::Validating,
            r.last_activity == TorrentActivity::Initializing,
            !r.has_made_first_connection,
            r.session_total_uploaded == 0,
            r.session_total_downloaded == 0,
            r.bytes_downloaded_in_interval == 0,
            r.bytes_uploaded_in_interval == 0,
            r.number_of_successfully_connected_peers == 0,
            r.peers@.len() == 0,
            r.timed_out_peers@.len() == 0,
            r.last_known_peers@.len() == 0,
            r.validation_pieces_found == 0,
            r.piece_manager.wf() ==> r.wf(),
    {
        let timer = if now >= 31_000 { now - 31_000 } else { now };
        TorrentState {
            info_hash,
            torrent,
            torrent_metadata_length,
            is_paused: false,
            torrent_status: TorrentStatus::Validating,
            torrent_validation_status,
            last_activity: TorrentActivity::Initializing,
            has_made_first_connection: false,
            session_total_uploaded: 0,
            session_total_downloaded: 0,
            bytes_downloaded_in_interval: 0,
            bytes_uploaded_in_interval: 0,
            number_of_successfully_connected_peers: 0,
            peers: Vec::new(),
            piece_manager,
            trackers,
            timed_out_peers: Vec::new(),
            last_known_peers: Vec::new(),
            optimistic_unchoke_timer: Some(timer),
            validation_pieces_found: 0,
            now,
        }
    }

    /// Whether the piece is marked done.
    pub open spec fn spec_piece_done(&self, piece_index: u32) -> bool {
        self.piece_manager.spec_is_done(piece_index)
    }

    fn piece_done(&self, piece_index: u32) -> (r: bool)
        ensures
            r == self.spec_piece_done(piece_index),
    {
        (piece_index as usize) < self.piece_manager.bitfield.len()
            && self.piece_manager.bitfield[piece_index as usize] == PieceStatus::Done
    }

    /// The state and effects that `on_peer_successfully_connected` leads to.
    pub open spec fn after_peer_successfully_connected(before: TorrentState, after: TorrentState, peer_id: String, effects: Seq<EffectView>) -> bool {
        &&& after == (TorrentState {
            timed_out_peers: after.timed_out_peers,
            number_of_successfully_connected_peers: after.number_of_successfully_connected_peers,
            has_made_first_connection: after.has_made_first_connection,
            ..before
        })
        &&& after.number_of_successfully_connected_peers == if peer_pos(before.peers@, peer_id@) >= 0 {
            before.peers@.len()
        } else {
            before.peers@.len() + 1
        }
        &&& after.has_made_first_connection
        &&& forall|j: int| 0 <= j < after.timed_out_peers@.len() ==> (#[trigger] after.timed_out_peers@[j]).addr@ != peer_id@
        &&& (effects =~= seq![
            EffectView::EmitManagerEvent(
                ManagerEventView::PeerConnected { info_hash: before.info_hash@ },
            ),
        ])
    }

    /// Records that a peer finished its handshake: it no longer counts as timed
    /// out, the connected count is the listed peers together with this one
    /// (counted once, whether or not it is listed yet), and the first
    /// connection is noted.
    pub fn on_peer_successfully_connected(&mut self, peer_id: String) -> (effects: Vec<Effect>)
        requires
            old(self).wf(),
            old(self).peers@.len() < usize::MAX,
        ensures
            final(self).wf(),
            Self::after_peer_successfully_connected(*old(self), *final(self), peer_id, views(effects@)),
    {
        self.remove_timeouts(&peer_id);
        let listed = find_peer(&self.peers, &peer_id).is_some();
        self.number_of_successfully_connected_peers = if listed {
            self.peers.len()
        } else {
            self.peers.len() + 1
        };
        if !self.has_made_first_connection {
            self.has_made_first_connection = true;
        }
        vec![Effect::EmitManagerEvent(ManagerEvent::PeerConnected { info_hash: self.info_hash.clone() })]
    }

    fn remove_timeouts(&mut self, addr: &String)
        requires
            old(self).wf(),
        ensures
            final(self).wf(),
            *final(self) == (TorrentState { timed_out_peers: final(self).timed_out_peers, ..*old(self) }),
            forall|j: int| 0 <= j < final(self).timed_out_peers@.len() ==> (#[trigger] final(self).timed_out_peers@[j]).addr@ != addr@,
            forall|j: int| 0 <= j < final(self).timed_out_peers@.len() ==> old(self).timed_out_peers@.contains(#[trigger] final(self).timed_out_peers@[j]),
    {
        let mut kept: Vec<TimeoutEntry> = Vec::new();
        let mut i: usize = 0;
        while i < self.timed_out_peers.len()
            invariant
                i <= self.timed_out_peers@.len(),
                forall|j: int| 0 <= j < kept@.len() ==> (#[trigger] kept@[j]).addr@ != addr@,
                forall|j: int| 0 <= j < kept@.len() ==> self.timed_out_peers@.contains(#[trigger] kept@[j]),
            decreases self.timed_out_peers@.len() - i,
        {
            if self.timed_out_peers[i].addr != *addr {
                let e = TimeoutEntry {
                    addr: self.timed_out_peers[i].addr.clone(),
                    count: self.timed_out_peers[i].count,
                    next_attempt: self.timed_out_peers[i].next_attempt,
                };
                assert(e == self.timed_out_peers@[i as int]);
                kept.push(e);
            }
            i = i + 1;
        }
        self.timed_out_peers = kept;
    }

    /// The peers after the peer at `id` (if any) is replaced by `f` of it.
    pub open spec fn spec_peer_changed(
        old_peers: Seq<PeerState>,
        new_peers: Seq<PeerState>,
        id: Seq<char>,
        changed: spec_fn(PeerState) -> PeerState,
    ) -> bool {
        let i = peer_pos(old_peers, id);
        if i >= 0 {
            new_peers == old_peers.update(i, changed(old_peers[i]))
        } else {
            new_peers == old_peers
        }
    }

    /// The state and effects that `on_update_peer_id` leads to.
    pub open spec fn after_update_peer_id(before: TorrentState, after: TorrentState, peer_addr: String, new_id: Vec<u8>, effects: Seq<EffectView>) -> bool {
        &&& after == (TorrentState { peers: after.peers, ..before })
        &&& (Self::spec_peer_changed(
            before.peers@,
            after.peers@,
            peer_addr@,
            |p: PeerState| PeerState { peer_id: new_id, ..p },
        ))
        &&& (after.piece_manager == before.piece_manager)
        &&& (effects =~= seq![EffectView::DoNothing])
    }

    /// Records the peer id a peer announced.
    pub fn on_update_peer_id(&mut self, peer_addr: String, new_id: Vec<u8>) -> (effects: Vec<Effect>)
        requires
            old(self).wf(),
        ensures
            final(self).wf(),
            Self::after_update_peer_id(*old(self), *final(self), peer_addr, new_id, views(effects@)),
    {
        match find_peer(&self.peers, &peer_addr) {
            Some(i) => {
                self.peers[i].peer_id = new_id;
            },
            None => {},
        }
        vec![Effect::DoNothing]
    }

    /// The state and effects that `on_peer_choked` leads to.
    pub open spec fn after_peer_choked(before: TorrentState, after: TorrentState, peer_id: String, effects: Seq<EffectView>) -> bool {
        &&& after == (TorrentState { peers: after.peers, ..before })
        &&& (Self::spec_peer_changed(
            before.peers@,
            after.peers@,
            peer_id@,
            |p: PeerState| PeerState { peer_choking: ChokeStatus::Choke, ..p },
        ))
        &&& (after.piece_manager == before.piece_manager)
        &&& (effects =~= seq![EffectView::DoNothing])
    }

    /// The peer chokes us.
    pub fn on_peer_choked(&mut self, peer_id: String) -> (effects: Vec<Effect>)
        requires
            old(self).wf(),
        ensures
            final(self).wf(),
            Self::after_peer_choked(*old(self), *final(self), peer_id, views(effects@)),
    {
        match find_peer(&self.peers, &peer_id) {
            Some(i) => {
                self.peers[i].peer_choking = ChokeStatus::Choke;
            },
            None => {},
        }
        vec![Effect::DoNothing]
    }

    /// The state and effects that `on_peer_interested` leads to.
    pub open spec fn after_peer_interested(before: TorrentState, after: TorrentState, peer_id: String, effects: Seq<EffectView>) -> bool {
        &&& after == (TorrentState { peers: after.peers, ..before })
        &&& (Self::spec_peer_changed(
            before.peers@,
            after.peers@,
            peer_id@,
            |p: PeerState| PeerState { peer_is_interested_in_us: true, ..p },
        ))
        &&& (after.piece_manager == before.piece_manager)
        &&& (effects =~= seq![EffectView::DoNothing])
    }

    /// The peer is interested in what we have.
    pub fn on_peer_interested(&mut self, peer_id: String) -> (effects: Vec<Effect>)
        requires
            old(self).wf(),
        ensures
            final(self).wf(),
            Self::after_peer_interested(*old(self), *final(self), peer_id, views(effects@)),
    {
        match find_peer(&self.peers, &peer_id) {
            Some(i) => {
                self.peers[i].peer_is_interested_in_us = true;
            },
            None => {},
        }
        vec![Effect::DoNothing]
    }

    /// The state and effects that `on_block_sent_to_peer` leads to.
    pub open spec fn after_block_sent_to_peer(before: TorrentState, after: TorrentState, peer_id: String, byte_count: u64, effects: Seq<EffectView>) -> bool {
        &&& after == (TorrentState {
            session_total_uploaded: after.session_total_uploaded,
            bytes_uploaded_in_interval: after.bytes_uploaded_in_interval,
            peers: after.peers,
            ..before
        })
        &&& (after.session_total_uploaded == sat_add(before.session_total_uploaded, byte_count))
        &&& (after.bytes_uploaded_in_interval == sat_add(before.bytes_uploaded_in_interval, byte_count))
        &&& (after.session_total_downloaded == before.session_total_downloaded)
        &&& (after.bytes_downloaded_in_interval == before.bytes_downloaded_in_interval)
        &&& (Self::spec_peer_changed(
            before.peers@,
            after.peers@,
            peer_id@,
            |p: PeerState| PeerState {
                bytes_uploaded_to_peer: sat_add(p.bytes_uploaded_to_peer, byte_count),
                total_bytes_uploaded: sat_add(p.total_bytes_uploaded, byte_count),
                bytes_uploaded_in_tick: sat_add(p.bytes_uploaded_in_tick, byte_count),
                ..p
            },
        ))
        &&& (after.piece_manager == before.piece_manager)
        &&& (after.number_of_successfully_connected_peers == before.number_of_successfully_connected_peers)
        &&& (effects =~= seq![
            EffectView::EmitManagerEvent(ManagerEventView::BlockSent { info_hash: before.info_hash@ }),
        ])
    }

    /// A block went out to a peer: the session, interval and peer counters grow
    /// (saturating at `u64::MAX`).
    pub fn on_block_sent_to_peer(&mut self, peer_id: String, byte_count: u64) -> (effects: Vec<Effect>)
        requires
            old(self).wf(),
        ensures
            final(self).wf(),
            Self::after_block_sent_to_peer(*old(self), *final(self), peer_id, byte_count, views(effects@)),
    {
        self.session_total_uploaded = self.session_total_uploaded.saturating_add(byte_count);
        self.bytes_uploaded_in_interval = self.bytes_uploaded_in_interval.saturating_add(byte_count);
        match find_peer(&self.peers, &peer_id) {
            Some(i) => {
                let a = self.peers[i].bytes_uploaded_to_peer.saturating_add(byte_count);
                let b = self.peers[i].total_bytes_uploaded.saturating_add(byte_count);
                let c = self.peers[i].bytes_uploaded_in_tick.saturating_add(byte_count);
                let ghost before = self.peers@[i as int];
                self.peers[i].bytes_uploaded_to_peer = a;
                self.peers[i].total_bytes_uploaded = b;
                self.peers[i].bytes_uploaded_in_tick = c;
                assert(self.peers@ =~= old(self).peers@.update(
                    i as int,
                    PeerState {
                        bytes_uploaded_to_peer: a,
                        total_bytes_uploaded: b,
                        bytes_uploaded_in_tick: c,
                        ..before
                    },
                ));
            },
            None => {},
        }
        vec![Effect::EmitManagerEvent(ManagerEvent::BlockSent { info_hash: self.info_hash.clone() })]
    }


    /// The state and effects that `on_validation_progress` leads to.
    pub open spec fn after_validation_progress(before: TorrentState, after: TorrentState, count: u32, effects: Seq<EffectView>) -> bool {
        &&& after == (TorrentState { validation_pieces_found: after.validation_pieces_found, ..before })
        &&& (after.validation_pieces_found == count)
        &&& (after.peers@ =~= before.peers@)
        &&& (after.piece_manager == before.piece_manager)
        &&& (effects =~= seq![EffectView::DoNothing])
    }

    /// Notes how many pieces validation has found so far.
    pub fn on_validation_progress(&mut self, count: u32) -> (effects: Vec<Effect>)
        ensures
            Self::after_validation_progress(*old(self), *final(self), count, views(effects@)),
    {
        self.validation_pieces_found = count;
        vec![Effect::DoNothing]
    }

    /// A peer cancelled a block it asked for: abort that upload.
    pub fn on_cancel_upload(
        &self,
        peer_id: String,
        piece_index: u32,
        block_offset: u32,
        length: u32,
    ) -> (effects: Vec<Effect>)
        ensures
            views(effects@) == seq![
                EffectView::AbortUpload {
                    peer_id,
                    block_info: BlockInfo { piece_index, offset: block_offset, length },
                },
            ],
    {
        vec![
            Effect::AbortUpload {
                peer_id,
                block_info: BlockInfo { piece_index, offset: block_offset, length },
            },
        ]
    }

    /// The state and effects that `on_request_upload` leads to.
    pub open spec fn after_request_upload(before: TorrentState, after: TorrentState, peer_id: String, piece_index: u32, block_offset: u32, length: u32, effects: Seq<EffectView>) -> bool {
        &&& after == (TorrentState { last_activity: after.last_activity, ..before })
        &&& (after.peers@ =~= before.peers@)
        &&& (after.piece_manager == before.piece_manager)
        &&& (after.last_activity == if before.torrent is None || length > MAX_BLOCK_SIZE {
            before.last_activity
        } else {
            TorrentActivity::SendingPiece(piece_index)
        })
        &&& ({
            let i = peer_pos(before.peers@, peer_id@);
            let allowed = before.torrent is Some && length <= MAX_BLOCK_SIZE && i >= 0
                && before.peers@[i].am_choking == ChokeStatus::Unchoke
                && before.spec_piece_done(piece_index);
            effects =~= if allowed {
                seq![
                    EffectView::ReadFromDisk {
                        peer_id,
                        block_info: BlockInfo { piece_index, offset: block_offset, length },
                    },
                ]
            } else {
                seq![EffectView::DoNothing]
            }
        })
    }

    /// A peer asks for a block: served (read from disk) only when we know the
    /// torrent, the block is not oversized, we do not choke the peer and we
    /// have the piece.
    pub fn on_request_upload(
        &mut self,
        peer_id: String,
        piece_index: u32,
        block_offset: u32,
        length: u32,
    ) -> (effects: Vec<Effect>)
        requires
            old(self).wf(),
        ensures
            final(self).wf(),
            Self::after_request_upload(*old(self), *final(self), peer_id, piece_index, block_offset, length, views(effects@)),
    {
        if self.torrent.is_none() {
            return vec![Effect::DoNothing];
        }
        if length > MAX_BLOCK_SIZE {
            return vec![Effect::DoNothing];
        }
        self.last_activity = TorrentActivity::SendingPiece(piece_index);
        let allowed = match find_peer(&self.peers, &peer_id) {
            Some(i) => self.peers[i].am_choking == ChokeStatus::Unchoke && self.piece_done(piece_index),
            None => false,
        };
        if allowed {
            vec![
                Effect::ReadFromDisk {
                    peer_id,
                    block_info: BlockInfo { piece_index, offset: block_offset, length },
                },
            ]
        } else {
            vec![Effect::DoNothing]
        }
    }

    /// The state and effects that `on_piece_write_failed` leads to.
    pub open spec fn after_piece_write_failed(before: TorrentState, after: TorrentState, piece_index: u32, effects: Seq<EffectView>) -> bool {
        &&& after == (TorrentState { piece_manager: after.piece_manager, ..before })
        &&& (after.peers@ =~= before.peers@)
        &&& (after.piece_manager.pending_queue@ =~= before.piece_manager.pending_queue@.remove(piece_index))
        &&& (after.piece_manager.bitfield@ =~= (if (piece_index as int) < before.piece_manager.bitfield@.len() {
            before.piece_manager.bitfield@.update(piece_index as int, PieceStatus::Need)
        } else {
            before.piece_manager.bitfield@
        }))
        &&& (after.piece_manager.need_queue@ =~= (if before.piece_manager.need_queue@.contains(piece_index) {
            before.piece_manager.need_queue@
        } else {
            before.piece_manager.need_queue@.push(piece_index)
        }))
        &&& (effects =~= seq![EffectView::EmitManagerEvent(ManagerEventView::DiskWriteFinished)])
    }

    /// Writing a piece failed: it goes back to the needed pieces.
    pub fn on_piece_write_failed(&mut self, piece_index: u32) -> (effects: Vec<Effect>)
        requires
            old(self).wf(),
            old(self).piece_manager.spec_is_done(piece_index) ==> old(self).piece_manager.pieces_remaining
                < usize::MAX,
        ensures
            final(self).wf(),
            Self::after_piece_write_failed(*old(self), *final(self), piece_index, views(effects@)),
    {
        self.piece_manager.requeue_pending_to_need(piece_index);
        vec![Effect::EmitManagerEvent(ManagerEvent::DiskWriteFinished)]
    }

    /// The state and effects that `on_tracker_error` leads to.
    pub open spec fn after_tracker_error(before: TorrentState, after: TorrentState, url: String, effects: Seq<EffectView>) -> bool {
        &&& after == (TorrentState { trackers: after.trackers, ..before })
        &&& (after.peers@ =~= before.peers@)
        &&& (after.piece_manager == before.piece_manager)
        &&& ({
            let i = tracker_pos_from(before.trackers@, url@, 0);
            if i >= 0 {
                let t = before.trackers@[i].state;
                let current = if before.torrent_status != TorrentStatus::Done {
                    match t.leeching_interval { Some(v) => v, None => ANNOUNCE_DELAY_MS }
                } else {
                    match t.seeding_interval { Some(v) => v, None => DEFAULT_SEEDING_INTERVAL_MS }
                };
                let doubled = sat_add(current, current);
                let backoff = if doubled < MAX_TRACKER_BACKOFF_MS { doubled } else { MAX_TRACKER_BACKOFF_MS };
                after.trackers@ =~= before.trackers@.update(
                    i,
                    TrackerEntry {
                        state: TrackerState { next_announce_time: sat_add(before.now, backoff), ..t },
                        ..before.trackers@[i]
                    },
                )
            } else {
                after.trackers@ =~= before.trackers@
            }
        })
        &&& (effects =~= seq![EffectView::DoNothing])
    }

    /// A tracker announce failed: try again after twice the current interval
    /// (the leeching one while downloading, the seeding one when done), at
    /// most an hour.
    pub fn on_tracker_error(&mut self, url: String) -> (effects: Vec<Effect>)
        requires
            old(self).wf(),
        ensures
            final(self).wf(),
            Self::after_tracker_error(*old(self), *final(self), url, views(effects@)),
    {
        match find_tracker(&self.trackers, &url) {
            Some(i) => {
                let t = self.trackers[i].state;
                let current = if self.torrent_status != TorrentStatus::Done {
                    match t.leeching_interval {
                        Some(v) => v,
                        None => ANNOUNCE_DELAY_MS,
                    }
                } else {
                    match t.seeding_interval {
                        Some(v) => v,
                        None => DEFAULT_SEEDING_INTERVAL_MS,
                    }
                };
                let doubled = current.saturating_add(current);
                let backoff = if doubled < MAX_TRACKER_BACKOFF_MS {
                    doubled
                } else {
                    MAX_TRACKER_BACKOFF_MS
                };
                self.trackers[i].state.next_announce_time = self.now.saturating_add(backoff);
            },
            None => {},
        }
        vec![Effect::DoNothing]
    }


    /// Schedules an announce to every tracker at `at`.
    fn announce_all(&mut self, at: u64) -> (effects: Vec<Effect>)
        requires
            old(self).wf(),
        ensures
            final(self).wf(),
            final(self).trackers@ == announce_at(old(self).trackers@, at),
            views(effects@) == announce_effects(old(self).trackers@),
            *final(self) == (TorrentState { trackers: final(self).trackers, ..*old(self) }),
    {
        let mut effects: Vec<Effect> = Vec::new();
        let ghost orig = self.trackers@;
        let mut i: usize = 0;
        while i < self.trackers.len()
            invariant
                self.wf(),
                i <= self.trackers@.len(),
                self.trackers@.len() == orig.len(),
                orig == old(self).trackers@,
                forall|j: int| 0 <= j < i ==> self.trackers@[j] == announce_at(orig, at)[j],
                forall|j: int| i <= j < orig.len() ==> self.trackers@[j] == orig[j],
                views(effects@) == announce_effects(orig.take(i as int)),
                *self == (TorrentState { trackers: self.trackers, ..*old(self) }),
            decreases orig.len() - i,
        {
            self.trackers[i].state.next_announce_time = at;
            let url = self.trackers[i].url.clone();
            let ghost before = effects@;
            effects.push(Effect::AnnounceToTracker { url });
            proof {
                lemma_views_push(before, effects@.last());
                assert(orig.take(i + 1) =~= orig.take(i as int).push(orig[i as int]));
                assert(announce_effects(orig.take(i + 1)) =~= announce_effects(orig.take(i as int)).push(EffectView::AnnounceToTracker { url: orig[i as int].url }));
            }
            i = i + 1;
        }
        proof {
            assert(self.trackers@ =~= announce_at(orig, at));
            assert(orig.take(i as int) =~= orig);
        }
        effects
    }

    /// The state and effects that `on_update_listen_port` leads to.
    pub open spec fn after_update_listen_port(before: TorrentState, after: TorrentState, effects: Seq<EffectView>) -> bool {
        &&& after == (TorrentState { trackers: after.trackers, ..before })
        &&& (after.trackers@ =~= announce_at(before.trackers@, sat_add(before.now, ANNOUNCE_DELAY_MS)))
        &&& (effects =~= announce_effects(before.trackers@))
        &&& (after.peers@ =~= before.peers@)
        &&& (after.piece_manager == before.piece_manager)
    }

    /// The listen port changed: announce to every tracker, again in a minute.
    pub fn on_update_listen_port(&mut self) -> (effects: Vec<Effect>)
        requires
            old(self).wf(),
        ensures
            final(self).wf(),
            Self::after_update_listen_port(*old(self), *final(self), views(effects@)),
    {
        let at = self.now.saturating_add(ANNOUNCE_DELAY_MS);
        self.announce_all(at)
    }

    /// The state and effects that `on_peer_connection_failed` leads to.
    pub open spec fn after_peer_connection_failed(before: TorrentState, after: TorrentState, peer_addr: String, effects: Seq<EffectView>) -> bool {
        &&& after == (TorrentState { timed_out_peers: after.timed_out_peers, ..before })
        &&& (after.peers@ =~= before.peers@)
        &&& (after.piece_manager == before.piece_manager)
        &&& ({
            let i = timeout_pos_from(before.timed_out_peers@, peer_addr@, 0);
            let count0 = if i >= 0 { before.timed_out_peers@[i].count as int } else { 0int };
            let n = if count0 + 1 < MAX_TIMEOUT_COUNT { count0 + 1 } else { MAX_TIMEOUT_COUNT as int };
            let entry = TimeoutEntry {
                addr: peer_addr,
                count: n as u32,
                next_attempt: sat_add(before.now, connect_backoff_ms(n as nat)),
            };
            after.timed_out_peers@ =~= if i >= 0 {
                before.timed_out_peers@.update(i, entry)
            } else {
                before.timed_out_peers@.push(entry)
            }
        })
        &&& (effects =~= seq![EffectView::DoNothing])
    }

    /// A connection attempt failed: count it (up to the limit) and wait longer
    /// before the next one, 15 s doubling per failure, at most 30 min.
    pub fn on_peer_connection_failed(&mut self, peer_addr: String) -> (effects: Vec<Effect>)
        requires
            old(self).wf(),
        ensures
            final(self).wf(),
            Self::after_peer_connection_failed(*old(self), *final(self), peer_addr, views(effects@)),
    {
        let pos = find_timeout(&self.timed_out_peers, &peer_addr);
        let count = match pos {
            Some(i) => self.timed_out_peers[i].count,
            None => 0,
        };
        let new_count = if count < MAX_TIMEOUT_COUNT - 1 {
            count + 1
        } else {
            MAX_TIMEOUT_COUNT
        };
        let next_attempt = self.now.saturating_add(connect_backoff(new_count));
        let entry = TimeoutEntry { addr: peer_addr, count: new_count, next_attempt };
        match pos {
            Some(i) => {
                self.timed_out_peers.set(i, entry);
            },
            None => {
                self.timed_out_peers.push(entry);
            },
        }
        vec![Effect::DoNothing]
    }

    /// The state and effects that `on_tick` leads to.
    pub open spec fn after_tick(before: TorrentState, after: TorrentState, dt_ms: u64, effects: Seq<EffectView>) -> bool {
        &&& after == (TorrentState {
            now: after.now,
            bytes_downloaded_in_interval: after.bytes_downloaded_in_interval,
            bytes_uploaded_in_interval: after.bytes_uploaded_in_interval,
            peers: after.peers,
            trackers: after.trackers,
            last_activity: after.last_activity,
            ..before
        })
        &&& (after.now == sat_add(before.now, dt_ms))
        &&& (after.bytes_downloaded_in_interval == 0)
        &&& (after.bytes_uploaded_in_interval == 0)
        &&& (after.session_total_downloaded == before.session_total_downloaded)
        &&& (after.session_total_uploaded == before.session_total_uploaded)
        &&& (after.peers@ =~= before.peers@.map_values(|p: PeerState| tick_reset(p)))
        &&& (after.piece_manager == before.piece_manager)
        &&& (after.number_of_successfully_connected_peers == before.number_of_successfully_connected_peers)
        &&& (after.torrent_status == before.torrent_status)
        &&& ({
            let skip = before.torrent_status == TorrentStatus::Validating || before.is_paused;
            let due = exists|j: int| 0 <= j < before.trackers@.len() && tracker_due(#[trigger] before.trackers@[j], after.now);
            &&& after.trackers@ =~= if skip { before.trackers@ } else { tick_trackers(before.trackers@, after.now) }
            &&& effects =~= seq![
                EffectView::EmitMetrics {
                    bytes_dl: before.bytes_downloaded_in_interval,
                    bytes_ul: before.bytes_uploaded_in_interval,
                },
            ] + if skip { Seq::<EffectView>::empty() } else { due_effects(before.trackers@, after.now, before.trackers@.len() as int) }
            &&& after.last_activity == if !skip && due { TorrentActivity::AnnouncingToTracker } else { before.last_activity }
        })
    }

    /// Time passes: the clock moves on, the interval counters are reported and
    /// cleared, the peers' per-tick counters are cleared, and, unless the
    /// torrent is validating or paused, every due tracker is announced to and
    /// rescheduled a minute later.
    pub fn on_tick(&mut self, dt_ms: u64) -> (effects: Vec<Effect>)
        requires
            old(self).wf(),
        ensures
            final(self).wf(),
            Self::after_tick(*old(self), *final(self), dt_ms, views(effects@)),
    {
        self.now = self.now.saturating_add(dt_ms);
        let dl_tick = self.bytes_downloaded_in_interval;
        let ul_tick = self.bytes_uploaded_in_interval;
        self.bytes_downloaded_in_interval = 0;
        self.bytes_uploaded_in_interval = 0;
        let ghost peers0 = self.peers@;
        let mut i: usize = 0;
        while i < self.peers.len()
            invariant
                *self == (TorrentState {
                    now: self.now,
                    bytes_downloaded_in_interval: self.bytes_downloaded_in_interval,
                    bytes_uploaded_in_interval: self.bytes_uploaded_in_interval,
                    peers: self.peers,
                    trackers: self.trackers,
                    last_activity: self.last_activity,
                    ..*old(self)
                }),
                self.wf(),
                i <= self.peers@.len(),
                self.peers@.len() == peers0.len(),
                peers0 == old(self).peers@,
                forall|j: int| 0 <= j < i ==> self.peers@[j] == tick_reset(peers0[j]),
                forall|j: int| i <= j < peers0.len() ==> self.peers@[j] == peers0[j],
                self.piece_manager == old(self).piece_manager,
                self.trackers@ == old(self).trackers@,
                self.now == sat_add(old(self).now, dt_ms),
                self.bytes_downloaded_in_interval == 0,
                self.bytes_uploaded_in_interval == 0,
                self.session_total_downloaded == old(self).session_total_downloaded,
                self.session_total_uploaded == old(self).session_total_uploaded,
                self.number_of_successfully_connected_peers == old(self).number_of_successfully_connected_peers,
                self.torrent_status == old(self).torrent_status,
                self.is_paused == old(self).is_paused,
                self.last_activity == old(self).last_activity,
            decreases peers0.len() - i,
        {
            self.peers[i].bytes_downloaded_in_tick = 0;
            self.peers[i].bytes_uploaded_in_tick = 0;
            proof {
                assert(self.peers@[i as int] == tick_reset(peers0[i as int]));
            }
            i = i + 1;
        }
        proof {
            assert(self.peers@ =~= peers0.map_values(|p: PeerState| tick_reset(p)));
        }
        let mut effects: Vec<Effect> = vec![Effect::EmitMetrics { bytes_dl: dl_tick, bytes_ul: ul_tick }];
        if self.torrent_status == TorrentStatus::Validating || self.is_paused {
            return effects;
        }
        let ghost orig = self.trackers@;
        let ghost first = views(effects@);
        let mut k: usize = 0;
        while k < self.trackers.len()
            invariant
                *self == (TorrentState {
                    now: self.now,
                    bytes_downloaded_in_interval: self.bytes_downloaded_in_interval,
                    bytes_uploaded_in_interval: self.bytes_uploaded_in_interval,
                    peers: self.peers,
                    trackers: self.trackers,
                    last_activity: self.last_activity,
                    ..*old(self)
                }),
                self.wf(),
                k <= self.trackers@.len(),
                self.trackers@.len() == orig.len(),
                orig == old(self).trackers@,
                forall|j: int| 0 <= j < k ==> self.trackers@[j] == tick_trackers(orig, self.now)[j],
                forall|j: int| k <= j < orig.len() ==> self.trackers@[j] == orig[j],
                views(effects@) == first + due_effects(orig, self.now, k as int),
                first == seq![EffectView::EmitMetrics { bytes_dl: old(self).bytes_downloaded_in_interval, bytes_ul: old(self).bytes_uploaded_in_interval }],
                self.last_activity == if exists|j: int| 0 <= j < k && tracker_due(#[trigger] orig[j], self.now) { TorrentActivity::AnnouncingToTracker } else { old(self).last_activity },
                self.peers@ == peers0.map_values(|p: PeerState| tick_reset(p)),
                self.piece_manager == old(self).piece_manager,
                self.now == sat_add(old(self).now, dt_ms),
                self.bytes_downloaded_in_interval == 0,
                self.bytes_uploaded_in_interval == 0,
                self.session_total_downloaded == old(self).session_total_downloaded,
                self.session_total_uploaded == old(self).session_total_uploaded,
                self.number_of_successfully_connected_peers == old(self).number_of_successfully_connected_peers,
                self.torrent_status == old(self).torrent_status,
            decreases orig.len() - k,
        {
            let ghost before = effects@;
            if self.now >= self.trackers[k].state.next_announce_time {
                self.last_activity = TorrentActivity::AnnouncingToTracker;
                self.trackers[k].state.next_announce_time = self.now.saturating_add(ANNOUNCE_DELAY_MS);
                let url = self.trackers[k].url.clone();
                effects.push(Effect::AnnounceToTracker { url });
                proof {
                    lemma_views_push(before, effects@.last());
                }
            }
            proof {
                assert(views(effects@) =~= first + due_effects(orig, self.now, k + 1));
                assert(self.trackers@[k as int] == tick_trackers(orig, self.now)[k as int]);
            }
            k = k + 1;
        }
        proof {
            assert(self.trackers@ =~= tick_trackers(orig, self.now));
        }
        effects
    }


    /// Whether every piece is done.
    fn all_pieces_done(&self) -> (r: bool)
        ensures
            r == all_done(self.piece_manager.bitfield@),
    {
        let mut i: usize = 0;
        while i < self.piece_manager.bitfield.len()
            invariant
                i <= self.piece_manager.bitfield@.len(),
                forall|j: int| 0 <= j < i ==> #[trigger] self.piece_manager.bitfield@[j] == PieceStatus::Done,
            decreases self.piece_manager.bitfield@.len() - i,
        {
            if self.piece_manager.bitfield[i] != PieceStatus::Done {
                return false;
            }
            i = i + 1;
        }
        true
    }

    /// The state and effects that `on_check_completion` leads to.
    pub open spec fn after_check_completion(before: TorrentState, after: TorrentState, effects: Seq<EffectView>) -> bool {
        &&& after == (TorrentState {
            torrent_status: after.torrent_status,
            trackers: after.trackers,
            peers: after.peers,
            ..before
        })
        &&& (after.piece_manager == before.piece_manager)
        &&& (after.now == before.now)
        &&& (after.is_paused == before.is_paused)
        &&& (after.number_of_successfully_connected_peers == before.number_of_successfully_connected_peers)
        &&& (after.session_total_uploaded == before.session_total_uploaded)
        &&& (after.session_total_downloaded == before.session_total_downloaded)
        &&& (after.bytes_downloaded_in_interval == before.bytes_downloaded_in_interval)
        &&& (after.bytes_uploaded_in_interval == before.bytes_uploaded_in_interval)
        &&& (if before.torrent_status != TorrentStatus::Done && all_done(before.piece_manager.bitfield@) {
            &&& after.torrent_status == TorrentStatus::Done
            &&& after.trackers@ =~= announce_at(before.trackers@, before.now)
            &&& after.peers@ =~= before.peers@.map_values(|p: PeerState| uninterested(p))
            &&& effects =~= completed_effects(before.trackers@) + not_interested_effects(
                before.peers@,
                before.peers@.len() as int,
            )
        } else {
            &&& after.torrent_status == before.torrent_status
            &&& after.trackers@ =~= before.trackers@
            &&& after.peers@ =~= before.peers@
            &&& effects =~= seq![EffectView::DoNothing]
        })
    }

    /// Once every piece is done the torrent is complete: every tracker is told
    /// now, and every peer we were interested in is told we no longer are.
    pub fn on_check_completion(&mut self) -> (effects: Vec<Effect>)
        requires
            old(self).wf(),
        ensures
            final(self).wf(),
            Self::after_check_completion(*old(self), *final(self), views(effects@)),
            pieces_tracked(*old(self)) ==> pieces_tracked(*final(self)),
            pending_held(*old(self)) ==> pending_held(*final(self)),
    {
        if self.torrent_status == TorrentStatus::Done {
            return vec![Effect::DoNothing];
        }
        if !self.all_pieces_done() {
            return vec![Effect::DoNothing];
        }
        self.torrent_status = TorrentStatus::Done;
        let mut effects: Vec<Effect> = Vec::new();
        let ghost orig = self.trackers@;
        let mut i: usize = 0;
        while i < self.trackers.len()
            invariant
                *self == (TorrentState {
                    torrent_status: self.torrent_status,
                    trackers: self.trackers,
                    peers: self.peers,
                    ..*old(self)
                }),
                self.wf(),
                i <= self.trackers@.len(),
                self.trackers@.len() == orig.len(),
                orig == old(self).trackers@,
                forall|j: int| 0 <= j < i ==> self.trackers@[j] == announce_at(orig, self.now)[j],
                forall|j: int| i <= j < orig.len() ==> self.trackers@[j] == orig[j],
                views(effects@) == completed_effects(orig.take(i as int)),
                self.peers@ == old(self).peers@,
                self.piece_manager == old(self).piece_manager,
                self.now == old(self).now,
                self.is_paused == old(self).is_paused,
                self.torrent_status == TorrentStatus::Done,
                self.number_of_successfully_connected_peers == old(self).number_of_successfully_connected_peers,
                self.session_total_uploaded == old(self).session_total_uploaded,
                self.session_total_downloaded == old(self).session_total_downloaded,
                self.bytes_downloaded_in_interval == old(self).bytes_downloaded_in_interval,
                self.bytes_uploaded_in_interval == old(self).bytes_uploaded_in_interval,
            decreases orig.len() - i,
        {
            self.trackers[i].state.next_announce_time = self.now;
            let url = self.trackers[i].url.clone();
            let ghost before = effects@;
            effects.push(Effect::AnnounceCompleted { url });
            proof {
                lemma_views_push(before, effects@.last());
                assert(orig.take(i + 1) =~= orig.take(i as int).push(orig[i as int]));
                assert(completed_effects(orig.take(i + 1)) =~= completed_effects(orig.take(i as int)).push(EffectView::AnnounceCompleted { url: orig[i as int].url }));
            }
            i = i + 1;
        }
        proof {
            assert(self.trackers@ =~= announce_at(orig, self.now));
            assert(orig.take(i as int) =~= orig);
        }
        let ghost first = views(effects@);
        let ghost peers0 = self.peers@;
        let mut k: usize = 0;
        while k < self.peers.len()
            invariant
                *self == (TorrentState {
                    torrent_status: self.torrent_status,
                    trackers: self.trackers,
                    peers: self.peers,
                    ..*old(self)
                }),
                self.wf(),
                k <= self.peers@.len(),
                self.peers@.len() == peers0.len(),
                peers0 == old(self).peers@,
                forall|j: int| 0 <= j < k ==> self.peers@[j] == uninterested(peers0[j]),
                forall|j: int| k <= j < peers0.len() ==> self.peers@[j] == peers0[j],
                views(effects@) == first + not_interested_effects(peers0, k as int),
                first == completed_effects(old(self).trackers@),
                self.trackers@ == announce_at(old(self).trackers@, old(self).now),
                self.piece_manager == old(self).piece_manager,
                self.now == old(self).now,
                self.is_paused == old(self).is_paused,
                self.torrent_status == TorrentStatus::Done,
                self.number_of_successfully_connected_peers == old(self).number_of_successfully_connected_peers,
                self.session_total_uploaded == old(self).session_total_uploaded,
                self.session_total_downloaded == old(self).session_total_downloaded,
                self.bytes_downloaded_in_interval == old(self).bytes_downloaded_in_interval,
                self.bytes_uploaded_in_interval == old(self).bytes_uploaded_in_interval,
            decreases peers0.len() - k,
        {
            let ghost before = effects@;
            if self.peers[k].am_interested {
                self.peers[k].am_interested = false;
                let peer_id = self.peers[k].ip_port.clone();
                effects.push(Effect::SendToPeer { peer_id, cmd: TorrentCommand::NotInterested });
                proof {
                    lemma_views_push(before, effects@.last());
                }
            }
            proof {
                assert(self.peers@[k as int] == uninterested(peers0[k as int]));
                assert(views(effects@) =~= first + not_interested_effects(peers0, k + 1));
            }
            k = k + 1;
        }
        proof {
            assert(self.peers@ =~= peers0.map_values(|p: PeerState| uninterested(p)));
            if pieces_tracked(*old(self)) {
                assert forall|j: int, q: u32| 0 <= j < self.peers@.len() && #[trigger] self.peers@[j].pending_requests@.contains(q)
                    implies peers0[j].pending_requests@.contains(q) by {
                    assert(self.peers@[j] == uninterested(peers0[j]));
                }
                lemma_requests_shrink(peers0, self.peers@, self.piece_manager.bitfield@.len() as int);
            }
            if pending_held(*old(self)) {
                assert forall|j: int, q: u32| 0 <= j < peers0.len() && #[trigger] peers0[j].pending_requests@.contains(q)
                    && self.piece_manager.pending_queue@.contains_key(q) implies self.peers@[j].pending_requests@.contains(q) by {
                    assert(self.peers@[j] == uninterested(peers0[j]));
                }
                lemma_held_keep(*old(self), *self);
            }
        }
        effects
    }


    /// The state and effects that `on_cleanup` leads to.
    pub open spec fn after_cleanup(before: TorrentState, after: TorrentState, effects: Seq<EffectView>) -> bool {
        &&& after == (TorrentState {
            timed_out_peers: after.timed_out_peers,
            torrent_status: after.torrent_status,
            ..before
        })
        &&& (after.peers@ =~= before.peers@)
        &&& (after.piece_manager == before.piece_manager)
        &&& (after.trackers@ =~= before.trackers@)
        &&& (after.number_of_successfully_connected_peers == before.number_of_successfully_connected_peers)
        &&& (after.session_total_uploaded == before.session_total_uploaded)
        &&& (after.session_total_downloaded == before.session_total_downloaded)
        &&& (after.bytes_downloaded_in_interval == before.bytes_downloaded_in_interval)
        &&& (after.bytes_uploaded_in_interval == before.bytes_uploaded_in_interval)
        &&& (after.timed_out_peers@ =~= retriable(before.timed_out_peers@, before.timed_out_peers@.len() as int))
        &&& ({
            let seeding = before.piece_manager.bitfield@.len() > 0 && all_done(before.piece_manager.bitfield@);
            let n = before.peers@.len() as int;
            &&& after.torrent_status == if seeding { TorrentStatus::Done } else { before.torrent_status }
            &&& effects =~= disconnect_effects(before.peers@, |p: PeerState| peer_stuck(p, before.now), n)
                + (if seeding && before.torrent_status != TorrentStatus::Done { seq![EffectView::DoNothing] } else { Seq::<EffectView>::empty() })
                + (if seeding { disconnect_effects(before.peers@, |p: PeerState| peer_is_seed(p), n) } else { Seq::<EffectView>::empty() })
        })
    }

    /// Periodic housekeeping: forget addresses that failed too often, drop
    /// peers that never identified themselves, and once every piece is done,
    /// mark the torrent complete and drop peers that are seeds too.
    pub fn on_cleanup(&mut self) -> (effects: Vec<Effect>)
        requires
            old(self).wf(),
        ensures
            final(self).wf(),
            Self::after_cleanup(*old(self), *final(self), views(effects@)),
    {
        let mut kept: Vec<TimeoutEntry> = Vec::new();
        let mut t: usize = 0;
        while t < self.timed_out_peers.len()
            invariant
                *self == (TorrentState {
                    timed_out_peers: self.timed_out_peers,
                    torrent_status: self.torrent_status,
                    ..*old(self)
                }),
                t <= self.timed_out_peers@.len(),
                kept@ == retriable(self.timed_out_peers@, t as int),
            decreases self.timed_out_peers@.len() - t,
        {
            if self.timed_out_peers[t].count < MAX_TIMEOUT_COUNT {
                let e = TimeoutEntry {
                    addr: self.timed_out_peers[t].addr.clone(),
                    count: self.timed_out_peers[t].count,
                    next_attempt: self.timed_out_peers[t].next_attempt,
                };
                kept.push(e);
            }
            t = t + 1;
        }
        self.timed_out_peers = kept;
        let mut effects: Vec<Effect> = Vec::new();
        let mut i: usize = 0;
        while i < self.peers.len()
            invariant
                *self == (TorrentState {
                    timed_out_peers: self.timed_out_peers,
                    torrent_status: self.torrent_status,
                    ..*old(self)
                }),
                i <= self.peers@.len(),
                views(effects@) == disconnect_effects(self.peers@, |p: PeerState| peer_stuck(p, self.now), i as int),
            decreases self.peers@.len() - i,
        {
            if self.peers[i].peer_id.len() == 0 && self.now >= self.peers[i].created_at
                && self.now - self.peers[i].created_at > HANDSHAKE_GRACE_MS {
                let peer_id = self.peers[i].ip_port.clone();
                let ghost before = effects@;
                effects.push(Effect::DisconnectPeer { peer_id });
                proof {
                    lemma_views_push(before, effects@.last());
                }
            }
            proof {
                assert(views(effects@) =~= disconnect_effects(self.peers@, |p: PeerState| peer_stuck(p, self.now), i + 1));
            }
            i = i + 1;
        }
        let am_seeding = self.piece_manager.bitfield.len() > 0 && self.all_pieces_done();
        let ghost first = views(effects@);
        if am_seeding && self.torrent_status != TorrentStatus::Done {
            self.torrent_status = TorrentStatus::Done;
            let ghost before = effects@;
            effects.push(Effect::DoNothing);
            proof {
                lemma_views_push(before, effects@.last());
            }
        }
        let ghost second = views(effects@);
        if am_seeding {
            let mut k: usize = 0;
            while k < self.peers.len()
                invariant
                    *self == (TorrentState {
                        timed_out_peers: self.timed_out_peers,
                        torrent_status: self.torrent_status,
                        ..*old(self)
                    }),
                    k <= self.peers@.len(),
                    views(effects@) == second + disconnect_effects(self.peers@, |p: PeerState| peer_is_seed(p), k as int),
                decreases self.peers@.len() - k,
            {
                let mut seed = self.peers[k].bitfield.len() > 0;
                let mut j: usize = 0;
                while j < self.peers[k].bitfield.len()
                    invariant
                        *self == (TorrentState {
                            timed_out_peers: self.timed_out_peers,
                            torrent_status: self.torrent_status,
                            ..*old(self)
                        }),
                        k < self.peers@.len(),
                        j <= self.peers@[k as int].bitfield@.len(),
                        seed == (self.peers@[k as int].bitfield@.len() > 0 && forall|q: int| 0 <= q < j ==> #[trigger] self.peers@[k as int].bitfield@[q]),
                    decreases self.peers@[k as int].bitfield@.len() - j,
                {
                    if !self.peers[k].bitfield[j] {
                        seed = false;
                    }
                    j = j + 1;
                }
                if seed {
                    let peer_id = self.peers[k].ip_port.clone();
                    let ghost before = effects@;
                    effects.push(Effect::DisconnectPeer { peer_id });
                    proof {
                        lemma_views_push(before, effects@.last());
                    }
                }
                proof {
                    assert(views(effects@) =~= second + disconnect_effects(self.peers@, |p: PeerState| peer_is_seed(p), k + 1));
                }
                k = k + 1;
            }
        }
        effects
    }

    /// The state and effects that `on_delete` leads to.
    pub open spec fn after_delete(before: TorrentState, after: TorrentState, effects: Seq<EffectView>) -> bool {
        &&& after == (TorrentState {
            peers: after.peers,
            last_known_peers: after.last_known_peers,
            timed_out_peers: after.timed_out_peers,
            number_of_successfully_connected_peers: after.number_of_successfully_connected_peers,
            session_total_downloaded: after.session_total_downloaded,
            session_total_uploaded: after.session_total_uploaded,
            bytes_downloaded_in_interval: after.bytes_downloaded_in_interval,
            bytes_uploaded_in_interval: after.bytes_uploaded_in_interval,
            is_paused: after.is_paused,
            torrent_status: after.torrent_status,
            last_activity: after.last_activity,
            piece_manager: after.piece_manager,
            ..before
        })
        &&& (after.peers@.len() == 0)
        &&& (after.last_known_peers@.len() == 0)
        &&& (after.timed_out_peers@.len() == 0)
        &&& (after.number_of_successfully_connected_peers == 0)
        &&& (after.session_total_downloaded == 0)
        &&& (after.session_total_uploaded == 0)
        &&& (after.bytes_downloaded_in_interval == 0)
        &&& (after.bytes_uploaded_in_interval == 0)
        &&& (after.is_paused)
        &&& (after.torrent_status == TorrentStatus::Validating)
        &&& (after.last_activity == TorrentActivity::Initializing)
        &&& (after.piece_manager.bitfield@ =~= Seq::new(before.piece_manager.bitfield@.len(), |i: int| PieceStatus::Need))
        &&& (after.piece_manager.need_queue@.len() == 0)
        &&& (after.piece_manager.pending_queue@ =~= Map::<u32, Vec<String>>::empty())
        &&& (after.piece_manager.piece_rarity@ =~= Map::<u32, usize>::empty())
        &&& (after.piece_manager.block_manager.legacy_buffers@.len() == 0)
        &&& (after.trackers@ =~= before.trackers@)
        &&& (effects =~= seq![EffectView::DeleteFiles])
    }

    /// The torrent's data is deleted: peers, addresses and counters are
    /// forgotten, every piece is needed again with nothing queued, and the
    /// torrent waits paused for validation.
    pub fn on_delete(&mut self) -> (effects: Vec<Effect>)
        requires
            old(self).wf(),
        ensures
            final(self).wf(),
            Self::after_delete(*old(self), *final(self), views(effects@)),
    {
        self.peers = Vec::new();
        self.last_known_peers = Vec::new();
        self.timed_out_peers = Vec::new();
        let num_pieces = self.piece_manager.bitfield.len();
        self.piece_manager = PieceManager::new();
        if num_pieces > 0 {
            self.piece_manager.set_initial_fields(num_pieces, false);
        }
        self.piece_manager.pending_queue.clear();
        self.piece_manager.need_queue.clear();
        proof {
            assert(self.piece_manager.bitfield@ =~= Seq::new(num_pieces as nat, |i: int| PieceStatus::Need));
        }
        self.number_of_successfully_connected_peers = 0;
        self.session_total_downloaded = 0;
        self.session_total_uploaded = 0;
        self.bytes_downloaded_in_interval = 0;
        self.bytes_uploaded_in_interval = 0;
        self.is_paused = true;
        self.torrent_status = TorrentStatus::Validating;
        self.last_activity = TorrentActivity::Initializing;
        vec![Effect::DeleteFiles]
    }

    /// The state and effects that `on_pause` leads to.
    pub open spec fn after_pause(before: TorrentState, after: TorrentState, effects: Seq<EffectView>) -> bool {
        &&& after == (TorrentState {
            last_activity: after.last_activity,
            is_paused: after.is_paused,
            last_known_peers: after.last_known_peers,
            peers: after.peers,
            number_of_successfully_connected_peers: after.number_of_successfully_connected_peers,
            bytes_downloaded_in_interval: after.bytes_downloaded_in_interval,
            bytes_uploaded_in_interval: after.bytes_uploaded_in_interval,
            piece_manager: after.piece_manager,
            ..before
        })
        &&& (after.last_activity == TorrentActivity::Paused)
        &&& (after.is_paused)
        &&& (after.last_known_peers@ =~= before.peers@.map_values(|p: PeerState| p.ip_port))
        &&& (after.peers@.len() == 0)
        &&& (after.number_of_successfully_connected_peers == 0)
        &&& (after.bytes_downloaded_in_interval == 0)
        &&& (after.bytes_uploaded_in_interval == 0)
        &&& (after.session_total_downloaded == before.session_total_downloaded)
        &&& (after.session_total_uploaded == before.session_total_uploaded)
        &&& (after.torrent_status == before.torrent_status)
        &&& (after.trackers@ =~= before.trackers@)
        &&& (after.piece_manager.pending_queue@ =~= Map::<u32, Vec<String>>::empty())
        &&& (exists|ks: Seq<u32>|
            #![trigger ks.to_set()]
            ks.to_set() =~= before.piece_manager.pending_queue@.dom() && ks.no_duplicates()
                && after.piece_manager.need_queue@ =~= before.piece_manager.need_queue@ + ks)
        &&& (after.piece_manager.bitfield@ =~= before.piece_manager.bitfield@)
        &&& (after.piece_manager.pieces_remaining == before.piece_manager.pieces_remaining)
        &&& (effects =~= seq![
            EffectView::EmitMetrics { bytes_dl: 0, bytes_ul: 0 },
            EffectView::ClearAllUploads,
            EffectView::EmitManagerEvent(ManagerEventView::PeerDisconnected { info_hash: before.info_hash@ }),
        ])
    }

    /// The torrent is paused: the peers are remembered by address and
    /// dropped, every requested piece is needed again, the counters clear.
    pub fn on_pause(&mut self) -> (effects: Vec<Effect>)
        requires
            old(self).wf(),
        ensures
            final(self).wf(),
            Self::after_pause(*old(self), *final(self), views(effects@)),
    {
        self.last_activity = TorrentActivity::Paused;
        self.is_paused = true;
        let mut known: Vec<String> = Vec::new();
        let mut i: usize = 0;
        while i < self.peers.len()
            invariant
                *self == (TorrentState {
                    last_activity: self.last_activity,
                    is_paused: self.is_paused,
                    last_known_peers: self.last_known_peers,
                    peers: self.peers,
                    number_of_successfully_connected_peers: self.number_of_successfully_connected_peers,
                    bytes_downloaded_in_interval: self.bytes_downloaded_in_interval,
                    bytes_uploaded_in_interval: self.bytes_uploaded_in_interval,
                    piece_manager: self.piece_manager,
                    ..*old(self)
                }),
                i <= self.peers@.len(),
                known@ == self.peers@.take(i as int).map_values(|p: PeerState| p.ip_port),
            decreases self.peers@.len() - i,
        {
            known.push(self.peers[i].ip_port.clone());
            proof {
                assert(self.peers@.take(i + 1) =~= self.peers@.take(i as int).push(self.peers@[i as int]));
                assert(known@ =~= self.peers@.take(i + 1).map_values(|p: PeerState| p.ip_port));
            }
            i = i + 1;
        }
        proof {
            assert(self.peers@.take(i as int) =~= self.peers@);
        }
        self.last_known_peers = known;
        self.piece_manager.drain_pending_to_need();
        self.peers = Vec::new();
        self.number_of_successfully_connected_peers = 0;
        self.bytes_downloaded_in_interval = 0;
        self.bytes_uploaded_in_interval = 0;
        vec![
            Effect::EmitMetrics { bytes_dl: 0, bytes_ul: 0 },
            Effect::ClearAllUploads,
            Effect::EmitManagerEvent(ManagerEvent::PeerDisconnected { info_hash: self.info_hash.clone() }),
        ]
    }

    /// The state and effects that `on_resume` leads to.
    pub open spec fn after_resume(before: TorrentState, after: TorrentState, effects: Seq<EffectView>) -> bool {
        &&& after == (TorrentState {
            is_paused: after.is_paused,
            last_activity: after.last_activity,
            trackers: after.trackers,
            last_known_peers: after.last_known_peers,
            ..before
        })
        &&& (!after.is_paused)
        &&& (after.last_activity == TorrentActivity::ConnectingToPeers)
        &&& (after.peers@ =~= before.peers@)
        &&& (after.piece_manager == before.piece_manager)
        &&& (after.torrent_status == before.torrent_status)
        &&& (after.number_of_successfully_connected_peers == before.number_of_successfully_connected_peers)
        &&& (after.session_total_downloaded == before.session_total_downloaded)
        &&& (after.session_total_uploaded == before.session_total_uploaded)
        &&& (after.bytes_downloaded_in_interval == before.bytes_downloaded_in_interval)
        &&& (after.bytes_uploaded_in_interval == before.bytes_uploaded_in_interval)
        &&& (if before.torrent_status == TorrentStatus::Validating {
            &&& after.trackers@ =~= before.trackers@
            &&& after.last_known_peers@ =~= before.last_known_peers@
            &&& effects =~= seq![EffectView::DoNothing]
        } else {
            &&& after.trackers@ =~= announce_at(before.trackers@, sat_add(before.now, ANNOUNCE_DELAY_MS))
            &&& after.last_known_peers@.len() == 0
            &&& effects =~= seq![EffectView::TriggerDhtSearch] + announce_effects(before.trackers@)
                + before.last_known_peers@.map_values(|a: String| EffectView::ConnectToPeerAddr { addr: a })
        })
    }

    /// The torrent resumes: unless it is validating, search the DHT, announce
    /// to every tracker (again in a minute) and reconnect to the peers known
    /// before the pause.
    pub fn on_resume(&mut self) -> (effects: Vec<Effect>)
        requires
            old(self).wf(),
        ensures
            final(self).wf(),
            Self::after_resume(*old(self), *final(self), views(effects@)),
    {
        self.last_activity = TorrentActivity::ConnectingToPeers;
        self.is_paused = false;
        if self.torrent_status == TorrentStatus::Validating {
            return vec![Effect::DoNothing];
        }
        let at = self.now.saturating_add(ANNOUNCE_DELAY_MS);
        let announces = self.announce_all(at);
        let mut effects: Vec<Effect> = vec![Effect::TriggerDhtSearch];
        let ghost head = views(effects@);
        let mut announces = announces;
        let ghost ann = views(announces@);
        effects.append(&mut announces);
        proof {
            assert(views(effects@) =~= head + ann);
        }
        let mut known: Vec<String> = Vec::new();
        std::mem::swap(&mut known, &mut self.last_known_peers);
        let ghost first = views(effects@);
        let mut i: usize = 0;
        while i < known.len()
            invariant
                *self == (TorrentState {
                    is_paused: self.is_paused,
                    last_activity: self.last_activity,
                    trackers: self.trackers,
                    last_known_peers: self.last_known_peers,
                    ..*old(self)
                }),
                i <= known@.len(),
                views(effects@) == first + known@.take(i as int).map_values(|a: String| EffectView::ConnectToPeerAddr { addr: a }),
            decreases known@.len() - i,
        {
            let addr = known[i].clone();
            let ghost before = effects@;
            effects.push(Effect::ConnectToPeerAddr { addr });
            proof {
                lemma_views_push(before, effects@.last());
                assert(known@.take(i + 1) =~= known@.take(i as int).push(known@[i as int]));
                assert(views(effects@) =~= first + known@.take(i + 1).map_values(|a: String| EffectView::ConnectToPeerAddr { addr: a }));
            }
            i = i + 1;
        }
        proof {
            assert(known@.take(i as int) =~= known@);
        }
        effects
    }


    fn peer_has_needed_piece(&self, i: usize) -> (r: bool)
        requires
            i < self.peers@.len(),
        ensures
            r == peer_has_needed(self.peers@[i as int], self.piece_manager.need_queue@),
    {
        let mut k: usize = 0;
        while k < self.piece_manager.need_queue.len()
            invariant
                i < self.peers@.len(),
                k <= self.piece_manager.need_queue@.len(),
                forall|q: int| 0 <= q < k ==> !((self.piece_manager.need_queue@[q] as int) < self.peers@[i as int].bitfield@.len()
                    && #[trigger] self.peers@[i as int].bitfield@[self.piece_manager.need_queue@[q] as int]),
            decreases self.piece_manager.need_queue@.len() - k,
        {
            let p = self.piece_manager.need_queue[k] as usize;
            if p < self.peers[i].bitfield.len() && self.peers[i].bitfield[p] {
                return true;
            }
            k = k + 1;
        }
        false
    }

    /// The state and effects that `on_assign_work` leads to.
    pub open spec fn after_assign_work(before: TorrentState, after: TorrentState, peer_id: String, effects: Seq<EffectView>) -> bool {
        &&& (assign_work_result(before, after, peer_id, effects))
    }

    /// Assigns the next piece to request from a peer; see `assign_work_result`.
    pub fn on_assign_work(&mut self, peer_id: String) -> (effects: Vec<Effect>)
        requires
            old(self).wf(),
        ensures
            final(self).wf(),
            Self::after_assign_work(*old(self), *final(self), peer_id, views(effects@)),
    {
        if self.torrent_status == TorrentStatus::Validating {
            return do_nothing();
        }
        if self.piece_manager.need_queue.len() == 0 && self.piece_manager.pending_queue.is_empty() {
            return do_nothing();
        }
        let (piece_length, total_size) = match &self.torrent {
            Some(t) => (t.piece_length, t.total_length),
            None => {
                return do_nothing();
            },
        };
        let i = match find_peer(&self.peers, &peer_id) {
            Some(i) => i,
            None => {
                return no_effects();
            },
        };
        if self.peers[i].bitfield.len() == 0 || self.peers[i].peer_choking == ChokeStatus::Choke {
            if self.peers[i].peer_choking == ChokeStatus::Choke && !self.peers[i].am_interested
                && self.peer_has_needed_piece(i) {
                self.peers[i].am_interested = true;
                let ghost id = peer_id;
                let r = vec![Effect::SendToPeer { peer_id, cmd: TorrentCommand::ClientInterested }];
                proof {
                    assert(views(r@) =~= seq![EffectView::SendToPeer { peer_id: id, cmd: TorrentCommand::ClientInterested }]);
                }
                return r;
            }
            return no_effects();
        }
        let choice = self.piece_manager.choose_piece_for_peer(
            self.peers[i].bitfield.as_slice(),
            &self.peers[i].pending_requests,
            &self.torrent_status,
        );
        let ghost before = *self;
        proof {
            assert(old(self).piece_manager.piece_choice(
                old(self).peers@[i as int].bitfield@,
                old(self).peers@[i as int].pending_requests@,
                old(self).torrent_status,
                choice,
            ));
        }
        match choice {
            None => {
                no_effects()
            },
            Some(piece_index) => {
                self.peers[i].pending_requests.insert(piece_index);
                self.piece_manager.mark_as_pending(piece_index, peer_id.clone());
                if self.piece_manager.need_queue.len() == 0 && self.torrent_status != TorrentStatus::Endgame {
                    self.torrent_status = TorrentStatus::Endgame;
                }
                proof {
                    assert(peers_unique(self.peers@)) by {
                        assert forall|a: int, b: int| 0 <= a < self.peers@.len() && 0 <= b < self.peers@.len() && a != b implies #[trigger] self.peers@[a].ip_port@ != #[trigger] self.peers@[b].ip_port@ by {
                            assert(self.peers@[a].ip_port == before.peers@[a].ip_port);
                            assert(self.peers@[b].ip_port == before.peers@[b].ip_port);
                        }
                    }
                }
                let ghost id = peer_id;
                let r = vec![
                    Effect::SendToPeer {
                        peer_id,
                        cmd: TorrentCommand::RequestDownload(piece_index, piece_length, total_size),
                    },
                ];
                proof {
                    assert(views(r@) =~= seq![
                        EffectView::SendToPeer {
                            peer_id: id,
                            cmd: TorrentCommand::RequestDownload(piece_index, piece_length, total_size),
                        },
                    ]);
                }
                r
            },
        }
    }


    /// The state and effects that `on_peer_unchoked` leads to.
    pub open spec fn after_peer_unchoked(before: TorrentState, after: TorrentState, peer_id: String, effects: Seq<EffectView>) -> bool {
        &&& (exists|mid: TorrentState|
            #![trigger assign_work_result(mid, after, peer_id, effects)]
            Self::spec_peer_changed(
                before.peers@,
                mid.peers@,
                peer_id@,
                |p: PeerState| PeerState { peer_choking: ChokeStatus::Unchoke, ..p },
            ) && same_but_work(before, mid) && same_uploads(before.peers@, mid.peers@) && requests_within(before.peers@, mid.peers@)
                && requests_kept(before.peers@, mid.peers@, before.piece_manager)
                && mid.piece_manager == before.piece_manager
                && mid.torrent_status == before.torrent_status && assign_work_result(
                mid,
                after,
                peer_id,
                effects,
            ))
    }

    /// The peer unchokes us: note it and assign it work.
    pub fn on_peer_unchoked(&mut self, peer_id: String) -> (effects: Vec<Effect>)
        requires
            old(self).wf(),
        ensures
            final(self).wf(),
            Self::after_peer_unchoked(*old(self), *final(self), peer_id, views(effects@)),
    {
        match find_peer(&self.peers, &peer_id) {
            Some(i) => {
                self.peers[i].peer_choking = ChokeStatus::Unchoke;
            },
            None => {},
        }
        proof {
            assert(same_uploads(old(self).peers@, self.peers@)) by {
                assert forall|j: int| 0 <= j < self.peers@.len() implies #[trigger] old(self).peers@[j].total_bytes_uploaded
                    == self.peers@[j].total_bytes_uploaded by {
                }
            }
        }
        proof {
            assert forall|j: int, q: u32| 0 <= j < self.peers@.len() && #[trigger] self.peers@[j].pending_requests@.contains(q)
                implies old(self).peers@[j].pending_requests@.contains(q) by {
            }
            assert(requests_within(old(self).peers@, self.peers@));
            assert forall|j: int, q: u32| 0 <= j < old(self).peers@.len() && #[trigger] old(self).peers@[j].pending_requests@.contains(q)
                && !old(self).piece_manager.spec_is_done(q) implies self.peers@[j].pending_requests@.contains(q) by {
            }
            assert(requests_kept(old(self).peers@, self.peers@, old(self).piece_manager));
        }
        let ghost mid = *self;
        let effects = self.on_assign_work(peer_id);
        proof {
            assert(assign_work_result(mid, *self, peer_id, views(effects@)));
        }
        effects
    }

    /// The state and effects that `on_peer_have_piece` leads to.
    pub open spec fn after_peer_have_piece(before: TorrentState, after: TorrentState, peer_id: String, piece_index: u32, effects: Seq<EffectView>) -> bool {
        &&& (exists|mid: TorrentState|
            #![trigger assign_work_result(mid, after, peer_id, effects)]
            ({
                let i = peer_pos(before.peers@, peer_id@);
                if i >= 0 && (piece_index as int) < before.peers@[i].bitfield@.len() {
                    &&& mid.peers@.len() == before.peers@.len()
                    &&& forall|j: int| 0 <= j < mid.peers@.len() && j != i ==> mid.peers@[j] == before.peers@[j]
                    &&& mid.peers@[i] == PeerState { bitfield: mid.peers@[i].bitfield, ..before.peers@[i] }
                    &&& mid.peers@[i].bitfield@ =~= before.peers@[i].bitfield@.update(piece_index as int, true)
                } else {
                    mid.peers@ =~= before.peers@
                }
            }) && same_but_work(before, mid) && same_uploads(before.peers@, mid.peers@) && requests_within(before.peers@, mid.peers@)
                && requests_kept(before.peers@, mid.peers@, before.piece_manager)
                && mid.piece_manager == before.piece_manager
                && mid.torrent_status == before.torrent_status && assign_work_result(
                mid,
                after,
                peer_id,
                effects,
            ))
    }

    /// The peer announces a piece: note it (when within its bitfield) and
    /// assign it work.
    pub fn on_peer_have_piece(&mut self, peer_id: String, piece_index: u32) -> (effects: Vec<Effect>)
        requires
            old(self).wf(),
        ensures
            final(self).wf(),
            Self::after_peer_have_piece(*old(self), *final(self), peer_id, piece_index, views(effects@)),
    {
        match find_peer(&self.peers, &peer_id) {
            Some(i) => {
                if (piece_index as usize) < self.peers[i].bitfield.len() {
                    self.peers[i].bitfield.set(piece_index as usize, true);
                }
            },
            None => {},
        }
        proof {
            assert(same_uploads(old(self).peers@, self.peers@)) by {
                assert forall|j: int| 0 <= j < self.peers@.len() implies #[trigger] old(self).peers@[j].total_bytes_uploaded
                    == self.peers@[j].total_bytes_uploaded by {
                }
            }
        }
        proof {
            assert forall|j: int, q: u32| 0 <= j < self.peers@.len() && #[trigger] self.peers@[j].pending_requests@.contains(q)
                implies old(self).peers@[j].pending_requests@.contains(q) by {
            }
            assert(requests_within(old(self).peers@, self.peers@));
            assert forall|j: int, q: u32| 0 <= j < old(self).peers@.len() && #[trigger] old(self).peers@[j].pending_requests@.contains(q)
                && !old(self).piece_manager.spec_is_done(q) implies self.peers@[j].pending_requests@.contains(q) by {
            }
            assert(requests_kept(old(self).peers@, self.peers@, old(self).piece_manager));
        }
        let ghost mid = *self;
        let effects = self.on_assign_work(peer_id);
        proof {
            assert(assign_work_result(mid, *self, peer_id, views(effects@)));
        }
        effects
    }

    /// The state and effects that `on_peer_bitfield_received` leads to.
    pub open spec fn after_peer_bitfield_received(before: TorrentState, after: TorrentState, peer_id: String, bitfield: Vec<u8>, effects: Seq<EffectView>) -> bool {
        &&& (exists|mid: TorrentState|
            #![trigger assign_work_result(mid, after, peer_id, effects)]
            ({
                let i = peer_pos(before.peers@, peer_id@);
                if i >= 0 {
                    &&& mid.peers@.len() == before.peers@.len()
                    &&& forall|j: int| 0 <= j < mid.peers@.len() && j != i ==> mid.peers@[j] == before.peers@[j]
                    &&& mid.peers@[i] == PeerState { bitfield: mid.peers@[i].bitfield, ..before.peers@[i] }
                    &&& mid.peers@[i].bitfield@ =~= match before.torrent {
                        Some(t) => resized_bits(message_bits(bitfield@), t.num_pieces as int),
                        None => message_bits(bitfield@),
                    }
                } else {
                    mid.peers@ =~= before.peers@
                }
            }) && same_but_work(before, mid) && same_uploads(before.peers@, mid.peers@) && requests_within(before.peers@, mid.peers@)
                && requests_kept(before.peers@, mid.peers@, before.piece_manager)
                && mid.piece_manager == before.piece_manager
                && mid.torrent_status == before.torrent_status && assign_work_result(
                mid,
                after,
                peer_id,
                effects,
            ))
    }

    /// The peer sends its bitfield: it replaces what we knew (cut or padded to
    /// the number of pieces when the metadata is known), then work is assigned.
    pub fn on_peer_bitfield_received(&mut self, peer_id: String, bitfield: Vec<u8>) -> (effects: Vec<Effect>)
        requires
            old(self).wf(),
            bitfield@.len() * 8 <= usize::MAX,
        ensures
            final(self).wf(),
            Self::after_peer_bitfield_received(*old(self), *final(self), peer_id, bitfield, views(effects@)),
    {
        match find_peer(&self.peers, &peer_id) {
            Some(i) => {
                let bits = expand_bitfield(&bitfield);
                self.peers[i].bitfield = bits;
                match &self.torrent {
                    Some(t) => {
                        let n = t.num_pieces;
                        resize_bitfield(&mut self.peers[i].bitfield, n);
                    },
                    None => {},
                }
            },
            None => {},
        }
        proof {
            assert(same_uploads(old(self).peers@, self.peers@)) by {
                assert forall|j: int| 0 <= j < self.peers@.len() implies #[trigger] old(self).peers@[j].total_bytes_uploaded
                    == self.peers@[j].total_bytes_uploaded by {
                }
            }
        }
        proof {
            assert forall|j: int, q: u32| 0 <= j < self.peers@.len() && #[trigger] self.peers@[j].pending_requests@.contains(q)
                implies old(self).peers@[j].pending_requests@.contains(q) by {
            }
            assert(requests_within(old(self).peers@, self.peers@));
            assert forall|j: int, q: u32| 0 <= j < old(self).peers@.len() && #[trigger] old(self).peers@[j].pending_requests@.contains(q)
                && !old(self).piece_manager.spec_is_done(q) implies self.peers@[j].pending_requests@.contains(q) by {
            }
            assert(requests_kept(old(self).peers@, self.peers@, old(self).piece_manager));
        }
        let ghost mid = *self;
        let effects = self.on_assign_work(peer_id);
        proof {
            assert(assign_work_result(mid, *self, peer_id, views(effects@)));
        }
        effects
    }


    /// The state and effects that `on_peer_disconnected` leads to.
    pub open spec fn after_peer_disconnected(before: TorrentState, after: TorrentState, peer_id: String, effects: Seq<EffectView>) -> bool {
        &&& after == (TorrentState {
            peers: after.peers,
            piece_manager: after.piece_manager,
            number_of_successfully_connected_peers: after.number_of_successfully_connected_peers,
            ..before
        })
        &&& (after.trackers@ =~= before.trackers@)
        &&& (after.torrent_status == before.torrent_status)
        &&& (after.session_total_uploaded == before.session_total_uploaded)
        &&& (after.session_total_downloaded == before.session_total_downloaded)
        &&& (after.bytes_downloaded_in_interval == before.bytes_downloaded_in_interval)
        &&& (after.bytes_uploaded_in_interval == before.bytes_uploaded_in_interval)
        &&& (after.piece_manager.bitfield@ =~= before.piece_manager.bitfield@)
        &&& ({
            let i = peer_pos(before.peers@, peer_id@);
            if i < 0 {
                &&& after.peers@ =~= before.peers@
                &&& after.piece_manager == before.piece_manager
                &&& after.number_of_successfully_connected_peers == before.number_of_successfully_connected_peers
                &&& effects =~= Seq::<EffectView>::empty()
            } else {
                let requeued = |q: u32| before.peers@[i].pending_requests@.contains(q) && !before.spec_piece_done(q);
                &&& after.peers@ =~= before.peers@.remove(i)
                &&& after.number_of_successfully_connected_peers == after.peers@.len()
                &&& forall|q: u32| #[trigger] after.piece_manager.pending_queue@.contains_key(q) <==> (before.piece_manager.pending_queue@.contains_key(q) && !requeued(q))
                &&& forall|q: u32| after.piece_manager.pending_queue@.contains_key(q) ==> #[trigger] after.piece_manager.pending_queue@[q] == before.piece_manager.pending_queue@[q]
                &&& forall|q: u32| #[trigger] after.piece_manager.need_queue@.contains(q) <==> (before.piece_manager.need_queue@.contains(q) || requeued(q))
                &&& effects =~= seq![
                    EffectView::DisconnectPeer { peer_id },
                    EffectView::EmitManagerEvent(ManagerEventView::PeerDisconnected { info_hash: before.info_hash@ }),
                ]
            }
        })
    }

    /// A peer went away: it is dropped, the connected count follows the peer
    /// list, and every piece it had requested that is not done is needed again.
    pub fn on_peer_disconnected(&mut self, peer_id: String) -> (effects: Vec<Effect>)
        requires
            old(self).wf(),
        ensures
            final(self).wf(),
            Self::after_peer_disconnected(*old(self), *final(self), peer_id, views(effects@)),
    {
        let i = match find_peer(&self.peers, &peer_id) {
            Some(i) => i,
            None => {
                return no_effects();
            },
        };
        let removed = self.peers.remove(i);
        self.number_of_successfully_connected_peers = self.peers.len();
        proof {
            assert forall|a: int, b: int| 0 <= a < self.peers@.len() && 0 <= b < self.peers@.len() && a != b implies #[trigger] self.peers@[a].ip_port@ != #[trigger] self.peers@[b].ip_port@ by {
                let oa = if a < i { a } else { a + 1 };
                let ob = if b < i { b } else { b + 1 };
                assert(self.peers@[a] == old(self).peers@[oa]);
                assert(self.peers@[b] == old(self).peers@[ob]);
            }
        }
        let pieces = set_elements(&removed.pending_requests);
        let ghost req = |q: u32| removed.pending_requests@.contains(q) && !old(self).spec_piece_done(q);
        let mut k: usize = 0;
        while k < pieces.len()
            invariant
                *self == (TorrentState {
                    peers: self.peers,
                    piece_manager: self.piece_manager,
                    number_of_successfully_connected_peers: self.number_of_successfully_connected_peers,
                    ..*old(self)
                }),
                self.wf(),
                k <= pieces@.len(),
                pieces@.to_set() == removed.pending_requests@,
                pieces@.no_duplicates(),
                removed == old(self).peers@[i as int],
                self.info_hash == old(self).info_hash,
                self.peers@ == old(self).peers@.remove(i as int),
                self.number_of_successfully_connected_peers == self.peers@.len(),
                self.trackers@ == old(self).trackers@,
                self.torrent_status == old(self).torrent_status,
                self.session_total_uploaded == old(self).session_total_uploaded,
                self.session_total_downloaded == old(self).session_total_downloaded,
                self.bytes_downloaded_in_interval == old(self).bytes_downloaded_in_interval,
                self.bytes_uploaded_in_interval == old(self).bytes_uploaded_in_interval,
                self.piece_manager.bitfield@ == old(self).piece_manager.bitfield@,
                forall|q: u32| #[trigger] self.piece_manager.pending_queue@.contains_key(q) <==> (old(self).piece_manager.pending_queue@.contains_key(q)
                    && !(pieces@.take(k as int).contains(q) && !old(self).spec_piece_done(q))),
                forall|q: u32| self.piece_manager.pending_queue@.contains_key(q) ==> #[trigger] self.piece_manager.pending_queue@[q] == old(self).piece_manager.pending_queue@[q],
                forall|q: u32| #[trigger] self.piece_manager.need_queue@.contains(q) <==> (old(self).piece_manager.need_queue@.contains(q)
                    || (pieces@.take(k as int).contains(q) && !old(self).spec_piece_done(q))),
            decreases pieces@.len() - k,
        {
            let q = pieces[k];
            let ghost before_pm = self.piece_manager;
            if !self.piece_done(q) {
                self.piece_manager.requeue_pending_to_need(q);
                proof {
                    if (q as int) < before_pm.bitfield@.len() {
                        assert(before_pm.bitfield@[q as int] == PieceStatus::Need);
                        assert(self.piece_manager.bitfield@ =~= before_pm.bitfield@);
                    }
                    assert forall|x: u32| #[trigger] self.piece_manager.need_queue@.contains(x) <==> (before_pm.need_queue@.contains(x) || x == q) by {
                        if !before_pm.need_queue@.contains(q) {
                            crate::torrent_manager::piece_manager::lemma_push_contains(before_pm.need_queue@, q, x);
                        }
                    }
                }
            }
            proof {
                assert(pieces@.take(k + 1) =~= pieces@.take(k as int).push(q));
                assert forall|x: u32| pieces@.take(k + 1).contains(x) <==> (pieces@.take(k as int).contains(x) || x == q) by {
                    crate::torrent_manager::piece_manager::lemma_push_contains(pieces@.take(k as int), q, x);
                }
            }
            k = k + 1;
        }
        proof {
            assert(pieces@.take(k as int) =~= pieces@);
            assert forall|x: u32| pieces@.contains(x) <==> removed.pending_requests@.contains(x) by {
                if pieces@.contains(x) {
                    assert(pieces@.to_set().contains(x));
                }
                if removed.pending_requests@.contains(x) {
                    assert(pieces@.to_set().contains(x));
                }
            }
        }
        let ghost id = peer_id;
        let r = vec![
            Effect::DisconnectPeer { peer_id: peer_id.clone() },
            Effect::EmitManagerEvent(ManagerEvent::PeerDisconnected { info_hash: self.info_hash.clone() }),
        ];
        proof {
            assert(views(r@) =~= seq![
                EffectView::DisconnectPeer { peer_id: id },
                EffectView::EmitManagerEvent(ManagerEventView::PeerDisconnected { info_hash: old(self).info_hash@ }),
            ]);
        }
        r
    }

    /// The state and effects that `on_metadata_received` leads to.
    pub open spec fn after_metadata_received(before: TorrentState, after: TorrentState, torrent: TorrentSummary, metadata_length: i64, effects: Seq<EffectView>) -> bool {
        &&& (if before.torrent is Some {
            &&& after == before
            &&& effects =~= seq![EffectView::DoNothing]
        } else {
            let n = torrent.num_pieces as int;
            &&& after == (TorrentState {
                torrent: after.torrent,
                torrent_metadata_length: after.torrent_metadata_length,
                piece_manager: after.piece_manager,
                peers: after.peers,
                trackers: after.trackers,
                validation_pieces_found: after.validation_pieces_found,
                torrent_status: after.torrent_status,
                ..before
            })
            &&& after.torrent == Some(torrent)
            &&& after.torrent_metadata_length == Some(metadata_length)
            &&& after.piece_manager.pending_queue@ =~= before.piece_manager.pending_queue@
            &&& after.piece_manager.bitfield@ =~= Seq::new(n as nat, |i: int| if before.torrent_validation_status { PieceStatus::Done } else { PieceStatus::Need })
            &&& after.piece_manager.need_queue@ =~= (if before.torrent_validation_status { Seq::<u32>::empty() } else { Seq::new(n as nat, |i: int| i as u32) })
            &&& after.peers@.len() == before.peers@.len()
            &&& forall|j: int| 0 <= j < before.peers@.len() ==> #[trigger] after.peers@[j] == (PeerState { bitfield: after.peers@[j].bitfield, ..before.peers@[j] })
                && after.peers@[j].bitfield@ =~= resized_bits(before.peers@[j].bitfield@, n)
            &&& after.trackers@ =~= match torrent.announce {
                Some(a) => {
                    let i = tracker_pos_from(before.trackers@, a@, 0);
                    let fresh = TrackerState { next_announce_time: before.now, leeching_interval: None, seeding_interval: None };
                    if i >= 0 {
                        before.trackers@.update(i, TrackerEntry { state: fresh, ..before.trackers@[i] })
                    } else {
                        before.trackers@.push(TrackerEntry { url: a, state: fresh })
                    }
                },
                None => before.trackers@,
            }
            &&& after.validation_pieces_found == 0
            &&& after.torrent_status == TorrentStatus::Validating
            &&& effects =~= seq![EffectView::InitializeStorage, EffectView::StartValidation]
        })
    }

    /// The metadata arrived (for a torrent started from a magnet link): the
    /// piece bookkeeping is set up, the peers' bitfields are cut or padded to
    /// the piece count, the announce tracker is added (due now), and storage
    /// initialisation and validation start. Ignored once metadata is known.
    pub fn on_metadata_received(&mut self, torrent: TorrentSummary, metadata_length: i64) -> (effects: Vec<Effect>)
        requires
            old(self).wf(),
        ensures
            final(self).wf(),
            Self::after_metadata_received(*old(self), *final(self), torrent, metadata_length, views(effects@)),
    {
        if self.torrent.is_some() {
            return do_nothing();
        }
        let n = torrent.num_pieces;
        let announce = match &torrent.announce {
            Some(a) => Some(a.clone()),
            None => None,
        };
        let ghost torrent_snapshot = torrent;
        self.torrent = Some(torrent);
        self.torrent_metadata_length = Some(metadata_length);
        let validated = self.torrent_validation_status;
        self.piece_manager.set_initial_fields(n, validated);
        let ghost peers0 = self.peers@;
        let ghost pm0 = self.piece_manager;
        let mut j: usize = 0;
        while j < self.peers.len()
            invariant
                self.piece_manager == pm0,
                pm0.wf(),
                self.torrent == Some(torrent_snapshot),
                self.torrent_metadata_length == Some(metadata_length),
                *self == (TorrentState {
                    torrent: self.torrent,
                    torrent_metadata_length: self.torrent_metadata_length,
                    piece_manager: self.piece_manager,
                    peers: self.peers,
                    ..*old(self)
                }),
                announce == torrent_snapshot.announce,
                j <= self.peers@.len(),
                self.peers@.len() == peers0.len(),
                forall|q: int| 0 <= q < j ==> #[trigger] self.peers@[q] == (PeerState { bitfield: self.peers@[q].bitfield, ..peers0[q] })
                    && self.peers@[q].bitfield@ == resized_bits(peers0[q].bitfield@, n as int),
                forall|q: int| j <= q < peers0.len() ==> self.peers@[q] == peers0[q],
                peers_unique(peers0),
            decreases peers0.len() - j,
        {
            resize_bitfield(&mut self.peers[j].bitfield, n);
            j = j + 1;
        }
        proof {
            assert forall|a: int, b: int| 0 <= a < self.peers@.len() && 0 <= b < self.peers@.len() && a != b implies #[trigger] self.peers@[a].ip_port@ != #[trigger] self.peers@[b].ip_port@ by {
                assert(self.peers@[a].ip_port == peers0[a].ip_port);
                assert(self.peers@[b].ip_port == peers0[b].ip_port);
            }
        }
        match announce {
            Some(a) => {
                let fresh = TrackerState { next_announce_time: self.now, leeching_interval: None, seeding_interval: None };
                match find_tracker(&self.trackers, &a) {
                    Some(i) => {
                        self.trackers[i].state = fresh;
                    },
                    None => {
                        self.trackers.push(TrackerEntry { url: a, state: fresh });
                    },
                }
            },
            None => {},
        }
        self.validation_pieces_found = 0;
        self.torrent_status = TorrentStatus::Validating;
        let r = vec![Effect::InitializeStorage, Effect::StartValidation];
        proof {
            assert(views(r@) =~= seq![EffectView::InitializeStorage, EffectView::StartValidation]);
        }
        r
    }


    fn piece_size(&self, piece_index: u32) -> (r: usize)
        ensures
            r == spec_piece_size(self.torrent, piece_index) as usize,
    {
        match &self.torrent {
            None => 0,
            Some(t) => {
                let piece_len = t.piece_length as u64;
                let total = t.total_length as u64;
                proof {
                    let a = piece_index as int;
                    let b = piece_len as int;
                    assert(a * b <= 0xffff_ffff * 0xffff_ffff_ffff_ffff) by (nonlinear_arith)
                        requires
                            0 <= a <= 0xffff_ffff,
                            0 <= b <= 0xffff_ffff_ffff_ffff,
                    ;
                }
                let offset = (piece_index as u128) * (piece_len as u128);
                let remaining: u64 = if (total as u128) >= offset {
                    (total as u128 - offset) as u64
                } else {
                    0
                };
                if piece_len <= remaining {
                    piece_len as usize
                } else {
                    remaining as usize
                }
            },
        }
    }

    /// The state and effects that `on_incoming_block` leads to.
    pub open spec fn after_incoming_block(before: TorrentState, after: TorrentState, peer_id: String, piece_index: u32, block_offset: u32, data: Vec<u8>, effects: Seq<EffectView>) -> bool {
        &&& after == (TorrentState {
            session_total_downloaded: after.session_total_downloaded,
            bytes_downloaded_in_interval: after.bytes_downloaded_in_interval,
            peers: after.peers,
            piece_manager: after.piece_manager,
            last_activity: after.last_activity,
            ..before
        })
        &&& (after.trackers@ =~= before.trackers@)
        &&& (after.torrent_status == before.torrent_status)
        &&& (after.number_of_successfully_connected_peers == before.number_of_successfully_connected_peers)
        &&& (after.session_total_uploaded == before.session_total_uploaded)
        &&& (after.bytes_uploaded_in_interval == before.bytes_uploaded_in_interval)
        &&& (if before.spec_piece_done(piece_index) || before.torrent_status == TorrentStatus::Validating {
            &&& after.peers@ =~= before.peers@
            &&& after.piece_manager == before.piece_manager
            &&& after.session_total_downloaded == before.session_total_downloaded
            &&& after.bytes_downloaded_in_interval == before.bytes_downloaded_in_interval
            &&& effects =~= Seq::<EffectView>::empty()
        } else {
            let len = data@.len() as u64;
            let received = EffectView::EmitManagerEvent(ManagerEventView::BlockReceived { info_hash: before.info_hash@ });
            &&& after.session_total_downloaded == sat_add(before.session_total_downloaded, len)
            &&& after.bytes_downloaded_in_interval == sat_add(before.bytes_downloaded_in_interval, len)
            &&& Self::spec_peer_changed(
                before.peers@,
                after.peers@,
                peer_id@,
                |p: PeerState| PeerState {
                    bytes_downloaded_from_peer: sat_add(p.bytes_downloaded_from_peer, len),
                    bytes_downloaded_in_tick: sat_add(p.bytes_downloaded_in_tick, len),
                    total_bytes_downloaded: sat_add(p.total_bytes_downloaded, len),
                    ..p
                },
            )
            &&& after.piece_manager.bitfield@ =~= before.piece_manager.bitfield@
            &&& after.piece_manager.need_queue@ =~= before.piece_manager.need_queue@
            &&& after.piece_manager.pending_queue@ =~= before.piece_manager.pending_queue@
            &&& after.piece_manager.pieces_remaining == before.piece_manager.pieces_remaining
            &&& exists|r: Option<Vec<u8>>|
                #![trigger PieceManager::spec_block_handled(&before.piece_manager.block_manager, &after.piece_manager.block_manager, piece_index, block_offset, data@, spec_piece_size(before.torrent, piece_index) as usize, r)]
                PieceManager::spec_block_handled(
                    &before.piece_manager.block_manager,
                    &after.piece_manager.block_manager,
                    piece_index,
                    block_offset,
                    data@,
                    spec_piece_size(before.torrent, piece_index) as usize,
                    r,
                ) && match r {
                    None => effects =~= seq![received] && after.last_activity == TorrentActivity::DownloadingPiece(piece_index),
                    Some(d) => effects =~= seq![received, EffectView::VerifyPiece { peer_id, piece_index, data: d@ }]
                        && after.last_activity == TorrentActivity::VerifyingPiece(piece_index),
                }
        })
    }

    /// A block arrived. Ignored for a piece already done or while validating.
    /// Otherwise the download counters grow (saturating), the block is
    /// buffered, and a completed piece is sent for verification.
    pub fn on_incoming_block(
        &mut self,
        peer_id: String,
        piece_index: u32,
        block_offset: u32,
        data: Vec<u8>,
    ) -> (effects: Vec<Effect>)
        requires
            old(self).wf(),
            block_fits(*old(self), piece_index, data@.len()),
        ensures
            final(self).wf(),
            Self::after_incoming_block(*old(self), *final(self), peer_id, piece_index, block_offset, data, views(effects@)),
    {
        if self.piece_done(piece_index) {
            return no_effects();
        }
        if self.torrent_status == TorrentStatus::Validating {
            return no_effects();
        }
        self.last_activity = TorrentActivity::DownloadingPiece(piece_index);
        let len = data.len() as u64;
        self.bytes_downloaded_in_interval = self.bytes_downloaded_in_interval.saturating_add(len);
        self.session_total_downloaded = self.session_total_downloaded.saturating_add(len);
        match find_peer(&self.peers, &peer_id) {
            Some(i) => {
                let a = self.peers[i].bytes_downloaded_from_peer.saturating_add(len);
                let b = self.peers[i].bytes_downloaded_in_tick.saturating_add(len);
                let c = self.peers[i].total_bytes_downloaded.saturating_add(len);
                let ghost before = self.peers@[i as int];
                self.peers[i].bytes_downloaded_from_peer = a;
                self.peers[i].bytes_downloaded_in_tick = b;
                self.peers[i].total_bytes_downloaded = c;
                assert(self.peers@ =~= old(self).peers@.update(
                    i as int,
                    PeerState {
                        bytes_downloaded_from_peer: a,
                        bytes_downloaded_in_tick: b,
                        total_bytes_downloaded: c,
                        ..before
                    },
                ));
            },
            None => {},
        }
        let mut effects: Vec<Effect> = vec![
            Effect::EmitManagerEvent(ManagerEvent::BlockReceived { info_hash: self.info_hash.clone() }),
        ];
        let piece_size = self.piece_size(piece_index);
        match self.piece_manager.handle_block(piece_index, block_offset, data.as_slice(), piece_size) {
            Some(complete) => {
                self.last_activity = TorrentActivity::VerifyingPiece(piece_index);
                let ghost d = complete@;
                let ghost id = peer_id;
                effects.push(Effect::VerifyPiece { peer_id, piece_index, data: complete });
                proof {
                    assert(views(effects@) =~= seq![
                        EffectView::EmitManagerEvent(ManagerEventView::BlockReceived { info_hash: old(self).info_hash@ }),
                        EffectView::VerifyPiece { peer_id: id, piece_index, data: d },
                    ]);
                }
            },
            None => {
                proof {
                    assert(views(effects@) =~= seq![
                        EffectView::EmitManagerEvent(ManagerEventView::BlockReceived { info_hash: old(self).info_hash@ }),
                    ]);
                }
            },
        }
        effects
    }

    /// The state and effects that `on_piece_verified` leads to.
    pub open spec fn after_piece_verified(before: TorrentState, after: TorrentState, peer_id: String, piece_index: u32, valid: bool, data: Vec<u8>, effects: Seq<EffectView>) -> bool {
        &&& (if valid && before.spec_piece_done(piece_index) {
            exists|mid: TorrentState|
                #![trigger assign_work_result(mid, after, peer_id, effects)]
                ({
                    let i = peer_pos(before.peers@, peer_id@);
                    if i >= 0 {
                        &&& mid.peers@.len() == before.peers@.len()
                        &&& forall|j: int| 0 <= j < mid.peers@.len() && j != i ==> mid.peers@[j] == before.peers@[j]
                        &&& mid.peers@[i] == (PeerState { pending_requests: mid.peers@[i].pending_requests, ..before.peers@[i] })
                        &&& mid.peers@[i].pending_requests@ =~= before.peers@[i].pending_requests@.remove(piece_index)
                    } else {
                        mid.peers@ =~= before.peers@
                    }
                }) && same_but_work(before, mid) && same_uploads(before.peers@, mid.peers@) && requests_within(before.peers@, mid.peers@)
                && requests_kept(before.peers@, mid.peers@, before.piece_manager)
                && mid.piece_manager == before.piece_manager
                    && mid.torrent_status == before.torrent_status
                    && assign_work_result(mid, after, peer_id, effects)
        } else if valid {
            &&& after == before
            &&& effects =~= seq![EffectView::WriteToDisk { peer_id, piece_index, data: data@ }]
        } else {
            &&& after == (TorrentState { piece_manager: after.piece_manager, ..before })
            &&& after.piece_manager.block_manager.legacy_buffers@
                == before.piece_manager.block_manager.legacy_buffers@.remove(piece_index)
            &&& after.piece_manager.bitfield@ =~= before.piece_manager.bitfield@
            &&& after.piece_manager.need_queue@ =~= before.piece_manager.need_queue@
            &&& after.piece_manager.pending_queue@ =~= before.piece_manager.pending_queue@
            &&& effects =~= seq![EffectView::DisconnectPeer { peer_id }]
        })
    }

    /// A piece was hashed. A valid piece is written to disk, unless it is
    /// already done, in which case the peer's request is dropped and it gets
    /// new work. An invalid piece is discarded and the peer disconnected.
    pub fn on_piece_verified(&mut self, peer_id: String, piece_index: u32, valid: bool, data: Vec<u8>) -> (effects: Vec<Effect>)
        requires
            old(self).wf(),
        ensures
            final(self).wf(),
            Self::after_piece_verified(*old(self), *final(self), peer_id, piece_index, valid, data, views(effects@)),
    {
        if valid {
            if self.piece_done(piece_index) {
                match find_peer(&self.peers, &peer_id) {
                    Some(i) => {
                        self.peers[i].pending_requests.remove(&piece_index);
                        proof {
                            assert forall|a: int, b: int| 0 <= a < self.peers@.len() && 0 <= b < self.peers@.len() && a != b implies #[trigger] self.peers@[a].ip_port@ != #[trigger] self.peers@[b].ip_port@ by {
                                assert(self.peers@[a].ip_port == old(self).peers@[a].ip_port);
                                assert(self.peers@[b].ip_port == old(self).peers@[b].ip_port);
                            }
                        }
                    },
                    None => {},
                }
                proof {
                    assert(same_uploads(old(self).peers@, self.peers@)) by {
                        assert forall|j: int| 0 <= j < self.peers@.len() implies #[trigger] old(self).peers@[j].total_bytes_uploaded
                            == self.peers@[j].total_bytes_uploaded by {
                        }
                    }
                }
                proof {
                    assert forall|j: int, q: u32| 0 <= j < self.peers@.len() && #[trigger] self.peers@[j].pending_requests@.contains(q)
                        implies old(self).peers@[j].pending_requests@.contains(q) by {
                    }
                    assert(requests_within(old(self).peers@, self.peers@));
                    assert forall|j: int, q: u32| 0 <= j < old(self).peers@.len() && #[trigger] old(self).peers@[j].pending_requests@.contains(q)
                        && !old(self).piece_manager.spec_is_done(q) implies self.peers@[j].pending_requests@.contains(q) by {
                    }
                    assert(requests_kept(old(self).peers@, self.peers@, old(self).piece_manager));
                }
                let ghost mid = *self;
                let effects = self.on_assign_work(peer_id);
                proof {
                    assert(assign_work_result(mid, *self, peer_id, views(effects@)));
                }
                effects
            } else {
                let ghost id = peer_id;
                let ghost d = data@;
                let r = vec![Effect::WriteToDisk { peer_id, piece_index, data }];
                proof {
                    assert(views(r@) =~= seq![EffectView::WriteToDisk { peer_id: id, piece_index, data: d }]);
                }
                r
            }
        } else {
            self.piece_manager.reset_piece_assembly(piece_index);
            let ghost id = peer_id;
            let r = vec![Effect::DisconnectPeer { peer_id }];
            proof {
                assert(views(r@) =~= seq![EffectView::DisconnectPeer { peer_id: id }]);
            }
            r
        }
    }


    /// The state and effects that `on_piece_written_to_disk` leads to.
    /// The peers with the request for `piece` dropped at the peer whose
    /// address is `id`; nothing changes when no peer has that address.
    pub open spec fn request_dropped(before: Seq<PeerState>, after: Seq<PeerState>, id: Seq<char>, piece: u32) -> bool {
        let i = peer_pos(before, id);
        if i >= 0 {
            &&& after.len() == before.len()
            &&& forall|j: int| 0 <= j < after.len() && j != i ==> after[j] == before[j]
            &&& after[i] == (PeerState { pending_requests: after[i].pending_requests, ..before[i] })
            &&& after[i].pending_requests@ == before[i].pending_requests@.remove(piece)
        } else {
            after == before
        }
    }

    /// One step of cancelling a written piece at the peer `p` that had it
    /// pending, from `s` to `next` with effects `e`: nothing for the writer
    /// itself; otherwise the peer's request is dropped (giving `mid`), a
    /// connected peer is sent `Cancel`, and the peer is given new work.
    pub open spec fn cancel_step(
        s: TorrentState,
        mid: TorrentState,
        next: TorrentState,
        p: String,
        writer: Seq<char>,
        piece: u32,
        e: Seq<EffectView>,
    ) -> bool {
        if p@ == writer {
            next == s && e.len() == 0
        } else {
            let pre: Seq<EffectView> = if peer_pos(s.peers@, p@) >= 0 {
                seq![EffectView::SendToPeer { peer_id: p, cmd: TorrentCommand::Cancel(piece) }]
            } else {
                Seq::empty()
            };
            &&& mid == (TorrentState { peers: mid.peers, ..s })
            &&& Self::request_dropped(s.peers@, mid.peers@, p@, piece)
            &&& pre.len() <= e.len()
            &&& e.subrange(0, pre.len() as int) == pre
            &&& assign_work_result(mid, next, p, e.subrange(pre.len() as int, e.len() as int))
        }
    }

    /// The cancel steps for the peers `to_cancel`, in order: `states[k]` to
    /// `states[k + 1]` with effects `segs[k]`.
    pub open spec fn cancel_chain(
        states: Seq<TorrentState>,
        mids: Seq<TorrentState>,
        segs: Seq<Seq<EffectView>>,
        to_cancel: Seq<String>,
        writer: Seq<char>,
        piece: u32,
    ) -> bool {
        &&& states.len() == to_cancel.len() + 1
        &&& mids.len() == to_cancel.len()
        &&& segs.len() == to_cancel.len()
        &&& forall|k: int|
            0 <= k < to_cancel.len() ==> #[trigger] Self::cancel_step(
                states[k],
                mids[k],
                states[k + 1],
                to_cancel[k],
                writer,
                piece,
                segs[k],
            )
    }

    /// The whole of writing a piece that was not done, through the states it
    /// passes: the piece is marked complete and the writer's request dropped
    /// (`s1`); the writer is given work (effects `e_writer`); each peer that
    /// had the piece pending is cancelled and given work in turn; every peer
    /// is told we have the piece; completion is checked (effects `e_done`).
    pub open spec fn written_chain(
        before: TorrentState,
        after: TorrentState,
        peer_id: String,
        piece: u32,
        effects: Seq<EffectView>,
        s1: TorrentState,
        states: Seq<TorrentState>,
        mids: Seq<TorrentState>,
        segs: Seq<Seq<EffectView>>,
        e_writer: Seq<EffectView>,
        e_done: Seq<EffectView>,
    ) -> bool {
        &&& s1 == (TorrentState { peers: s1.peers, piece_manager: s1.piece_manager, ..before })
        &&& PieceManager::marked_complete(before.piece_manager, s1.piece_manager, piece)
        &&& Self::request_dropped(before.peers@, s1.peers@, peer_id@, piece)
        &&& Self::cancel_chain(states, mids, segs, before.piece_manager.spec_pending_peers(piece), peer_id@, piece)
        &&& assign_work_result(s1, states[0], peer_id, e_writer)
        &&& Self::after_check_completion(states.last(), after, e_done)
        &&& effects == seq![EffectView::EmitManagerEvent(ManagerEventView::DiskWriteFinished)] + e_writer
            + segs.flatten() + seq![EffectView::BroadcastHave { piece_index: piece }] + e_done
    }

    pub open spec fn after_piece_written_to_disk(before: TorrentState, after: TorrentState, peer_id: String, piece_index: u32, effects: Seq<EffectView>) -> bool {
        &&& after == (TorrentState {
            peers: after.peers,
            piece_manager: after.piece_manager,
            torrent_status: after.torrent_status,
            trackers: after.trackers,
            ..before
        })
        &&& (after.piece_manager.bitfield@ =~= before.piece_manager.bitfield@.update(piece_index as int, PieceStatus::Done))
        &&& (before.spec_piece_done(piece_index) ==> exists|mid: TorrentState|
            #![trigger assign_work_result(mid, after, peer_id, effects)]
            ({
                let i = peer_pos(before.peers@, peer_id@);
                if i >= 0 {
                    &&& mid.peers@.len() == before.peers@.len()
                    &&& forall|j: int| 0 <= j < mid.peers@.len() && j != i ==> mid.peers@[j] == before.peers@[j]
                    &&& mid.peers@[i] == (PeerState { pending_requests: mid.peers@[i].pending_requests, ..before.peers@[i] })
                    &&& mid.peers@[i].pending_requests@ =~= before.peers@[i].pending_requests@.remove(piece_index)
                } else {
                    mid.peers@ =~= before.peers@
                }
            }) && same_but_work(before, mid) && same_uploads(before.peers@, mid.peers@) && requests_within(before.peers@, mid.peers@)
                && requests_kept(before.peers@, mid.peers@, before.piece_manager)
                && mid.piece_manager == before.piece_manager
                && mid.torrent_status == before.torrent_status
                && assign_work_result(mid, after, peer_id, effects))
        &&& (!before.spec_piece_done(piece_index) ==> {
            &&& keeps_books(before, after)
            &&& queues_disjoint(before.piece_manager) ==> queues_disjoint(after.piece_manager)
            &&& pieces_tracked(before) ==> pieces_tracked(after)
            &&& pending_held(before) ==> pending_held(after)
            &&& after.torrent_status == TorrentStatus::Done ==> before.torrent_status == TorrentStatus::Done
                || all_done(after.piece_manager.bitfield@)
            &&& piece_settled(after, piece_index, peer_id@)
            &&& effects.len() > 0
            &&& effects[0] == EffectView::EmitManagerEvent(ManagerEventView::DiskWriteFinished)
            &&& effects.contains(EffectView::BroadcastHave { piece_index })
            &&& exists|s1: TorrentState, states: Seq<TorrentState>, mids: Seq<TorrentState>,
                segs: Seq<Seq<EffectView>>, e_writer: Seq<EffectView>, e_done: Seq<EffectView>|
                #[trigger] Self::written_chain(before, after, peer_id, piece_index, effects, s1, states, mids, segs, e_writer, e_done)
            &&& cancels_sent(
                effects,
                before.piece_manager.spec_pending_peers(piece_index),
                before.piece_manager.spec_pending_peers(piece_index).len() as int,
                peer_id@,
                before.peers@,
                piece_index,
            )
            &&& exists|mid: TorrentState, assigned: TorrentState, end: int|
                #![trigger assign_work_result(mid, assigned, peer_id, effects.subrange(1, end))]
                1 <= end <= effects.len()
                && piece_settled(mid, piece_index, peer_id@)
                && mid.piece_manager.bitfield@ == after.piece_manager.bitfield@
                && assign_work_result(mid, assigned, peer_id, effects.subrange(1, end))
            &&& all_done(after.piece_manager.bitfield@) ==> after.torrent_status == TorrentStatus::Done
            &&& exists|mid: TorrentState, split: int|
                #![trigger TorrentState::after_check_completion(mid, after, effects.subrange(split, effects.len() as int))]
                0 < split <= effects.len()
                && effects[split - 1] == EffectView::BroadcastHave { piece_index }
                && TorrentState::after_check_completion(mid, after, effects.subrange(split, effects.len() as int))
        })
    }

    /// A piece reached the disk. If it was already done, the writer's request
    /// is dropped and it gets new work. Otherwise the piece is marked done and
    /// unqueued, its requests are cancelled at every other peer that had it,
    /// each of those peers and the writer get new work, every peer is told we
    /// have it, and completion is checked.
    pub fn on_piece_written_to_disk(&mut self, peer_id: String, piece_index: u32) -> (effects: Vec<Effect>)
        requires
            old(self).wf(),
            (piece_index as int) < old(self).piece_manager.bitfield@.len(),
        ensures
            final(self).wf(),
            Self::after_piece_written_to_disk(*old(self), *final(self), peer_id, piece_index, views(effects@)),
    {
        if self.piece_done(piece_index) {
            self.drop_request(&peer_id, piece_index);
            proof {
                assert(same_uploads(old(self).peers@, self.peers@)) by {
                    assert forall|j: int| 0 <= j < self.peers@.len() implies #[trigger] old(self).peers@[j].total_bytes_uploaded
                        == self.peers@[j].total_bytes_uploaded by {
                    }
                }
            }
            proof {
                assert forall|j: int, q: u32| 0 <= j < self.peers@.len() && #[trigger] self.peers@[j].pending_requests@.contains(q)
                    implies old(self).peers@[j].pending_requests@.contains(q) by {
                }
                assert(requests_within(old(self).peers@, self.peers@));
                assert forall|j: int, q: u32| 0 <= j < old(self).peers@.len() && #[trigger] old(self).peers@[j].pending_requests@.contains(q)
                    && !old(self).piece_manager.spec_is_done(q) implies self.peers@[j].pending_requests@.contains(q) by {
                }
                assert(requests_kept(old(self).peers@, self.peers@, old(self).piece_manager));
            }
            let ghost mid = *self;
            let effects = self.on_assign_work(peer_id);
            proof {
                assert(old(self).piece_manager.bitfield@.update(piece_index as int, PieceStatus::Done) =~= old(self).piece_manager.bitfield@);
                assert(assign_work_result(mid, *self, peer_id, views(effects@)));
            }
            return effects;
        }
        let peers_to_cancel = self.piece_manager.mark_as_complete(piece_index);
        let ghost marked = *self;
        proof {
            if queues_disjoint(old(self).piece_manager) {
                lemma_complete_keeps_disjoint(old(self).piece_manager, self.piece_manager, piece_index);
            }
            if pieces_tracked(*old(self)) {
                lemma_complete_keeps_tracked(*old(self), *self, piece_index);
            }
            if pending_held(*old(self)) {
                lemma_held_keep(*old(self), *self);
            }
            let nq = old(self).piece_manager.need_queue@;
            assert(!self.piece_manager.need_queue@.contains(piece_index)) by {
                if self.piece_manager.need_queue@.contains(piece_index) {
                    let k = choose|k: int| 0 <= k < self.piece_manager.need_queue@.len() && self.piece_manager.need_queue@[k] == piece_index;
                    nq.lemma_filter_pred(|y: u32| y != piece_index, k);
                }
            }
        }
        let mut effects: Vec<Effect> = vec![Effect::EmitManagerEvent(ManagerEvent::DiskWriteFinished)];
        proof {
            assert(views(effects@) =~= seq![EffectView::EmitManagerEvent(ManagerEventView::DiskWriteFinished)]);
        }
        self.drop_request(&peer_id, piece_index);
        proof {
            assert(piece_settled(*self, piece_index, peer_id@));
            assert(keeps_books(*old(self), *self));
        }
        let ghost mid = *self;
        let mut more = self.on_assign_work(peer_id.clone());
        proof {
            lemma_assign_work_keeps_settled(mid, *self, peer_id, views(more@), piece_index, peer_id@);
            lemma_assign_work_frame(mid, *self, peer_id, views(more@));
            if queues_disjoint(mid.piece_manager) {
                lemma_assign_work_disjoint(mid, *self, peer_id, views(more@));
            }
            if pieces_tracked(mid) {
                lemma_assign_work_tracked(mid, *self, peer_id, views(more@));
            }
            if pending_held(mid) {
                lemma_assign_work_held(mid, *self, peer_id, views(more@));
            }
            lemma_views_append(effects@, more@);
            assert(assign_work_result(mid, *self, peer_id, views(more@)));
        }
        let ghost assigned = *self;
        let ghost more_views = views(more@);
        effects.append(&mut more);
        let ghost prefix = views(effects@);
        proof {
            assert(prefix.subrange(1, prefix.len() as int) =~= more_views);
        }
        let ghost bits = self.piece_manager.bitfield@;
        let ghost to_cancel = old(self).piece_manager.spec_pending_peers(piece_index);
        let ghost mut states: Seq<TorrentState> = seq![*self];
        let ghost mut mids: Seq<TorrentState> = Seq::empty();
        let ghost mut segs: Seq<Seq<EffectView>> = Seq::empty();
        proof {
            assert(views(effects@) =~= prefix + segs.flatten());
            assert(Self::cancel_chain(states, mids, segs, to_cancel.take(0), peer_id@, piece_index));
        }
        proof {
            assert forall|j: int| 0 <= j < self.peers@.len() implies #[trigger] self.peers@[j].ip_port
                == old(self).peers@[j].ip_port by {
                assert(self.peers@[j].ip_port == mid.peers@[j].ip_port);
            }
        }
        let mut k: usize = 0;
        while k < peers_to_cancel.len()
            invariant
                peers_to_cancel@ == to_cancel,
                states.len() == k + 1,
                states[0] == assigned,
                states.last() == *self,
                Self::cancel_chain(states, mids, segs, to_cancel.take(k as int), peer_id@, piece_index),
                views(effects@) == prefix + segs.flatten(),
                self.peers@.len() == old(self).peers@.len(),
                forall|j: int| 0 <= j < self.peers@.len() ==> #[trigger] self.peers@[j].ip_port
                    == old(self).peers@[j].ip_port,
                cancels_sent(views(effects@), to_cancel, k as int, peer_id@, old(self).peers@, piece_index),
                prefix.len() <= views(effects@).len(),
                views(effects@).subrange(0, prefix.len() as int) == prefix,
                *self == (TorrentState {
                    peers: self.peers,
                    piece_manager: self.piece_manager,
                    torrent_status: self.torrent_status,
                    trackers: self.trackers,
                    ..*old(self)
                }),
                self.wf(),
                k <= peers_to_cancel@.len(),
                piece_settled(*self, piece_index, peer_id@),
                keeps_books(*old(self), *self),
                queues_disjoint(old(self).piece_manager) ==> queues_disjoint(self.piece_manager),
                pieces_tracked(*old(self)) ==> pieces_tracked(*self),
                pending_held(*old(self)) ==> pending_held(*self),
                self.torrent_status == old(self).torrent_status || self.torrent_status == TorrentStatus::Endgame,
                self.piece_manager.bitfield@ == bits,
                bits == old(self).piece_manager.bitfield@.update(piece_index as int, PieceStatus::Done),
                views(effects@).len() > 0,
                views(effects@)[0] == EffectView::EmitManagerEvent(ManagerEventView::DiskWriteFinished),
            decreases peers_to_cancel@.len() - k,
        {
            let other = peer_to_cancel_at(&peers_to_cancel, k);
            let ghost s_k = *self;
            let ghost e_start = views(effects@);
            let mut e = self.cancel_written_at(other, &peer_id, piece_index);
            let ghost seg = views(e@);
            proof {
                let seg = views(e@);
                lemma_views_append(effects@, e@);
                lemma_cancels_kept(e_start, seg, to_cancel, k as int, peer_id@, old(self).peers@, piece_index);
                assert((e_start + seg).subrange(0, prefix.len() as int) =~= e_start.subrange(0, prefix.len() as int));
                assert(other == to_cancel[k as int]);
                if other@ != peer_id@ && (exists|j: int| 0 <= j < old(self).peers@.len() && #[trigger] old(self).peers@[j].ip_port@ == other@) {
                    let j = choose|j: int| 0 <= j < old(self).peers@.len() && #[trigger] old(self).peers@[j].ip_port@ == other@;
                    assert(s_k.peers@[j].ip_port == old(self).peers@[j].ip_port);
                    assert(sends_cancel(seg, other, piece_index));
                    lemma_sends_cancel_suffix(e_start, seg, other, piece_index);
                }
                assert(cancels_sent(e_start + seg, to_cancel, k + 1, peer_id@, old(self).peers@, piece_index));
                assert forall|j: int| 0 <= j < self.peers@.len() implies #[trigger] self.peers@[j].ip_port
                    == old(self).peers@[j].ip_port by {
                    assert(self.peers@[j].ip_port == s_k.peers@[j].ip_port);
                }
                assert(views(effects@ + e@)[0] == e_start[0]);
            }
            effects.append(&mut e);
            proof {
                let mid_k = choose|mid: TorrentState| #[trigger] Self::cancel_step(s_k, mid, *self, other, peer_id@, piece_index, seg);
                let old_states = states;
                let old_mids = mids;
                let old_segs = segs;
                states = states.push(*self);
                mids = mids.push(mid_k);
                segs = segs.push(seg);
                old_segs.lemma_flatten_push(seg);
                assert(views(effects@) =~= prefix + segs.flatten());
                assert(to_cancel.take(k + 1) =~= to_cancel.take(k as int).push(other));
                assert forall|j: int| 0 <= j < k + 1 implies #[trigger] Self::cancel_step(
                    states[j],
                    mids[j],
                    states[j + 1],
                    to_cancel.take(k + 1)[j],
                    peer_id@,
                    piece_index,
                    segs[j],
                ) by {
                    if j < k {
                        assert(states[j] == old_states[j]);
                        assert(states[j + 1] == old_states[j + 1]);
                        assert(mids[j] == old_mids[j]);
                        assert(segs[j] == old_segs[j]);
                        assert(to_cancel.take(k + 1)[j] == to_cancel.take(k as int)[j]);
                    } else {
                        assert(states[j] == s_k);
                        assert(states[j + 1] == *self);
                    }
                }
                assert(Self::cancel_chain(states, mids, segs, to_cancel.take(k + 1), peer_id@, piece_index));
            }
            k = k + 1;
        }
        proof {
            assert(to_cancel.take(k as int) =~= to_cancel);
        }
        let ghost flat = segs.flatten();
        let ghost before = effects@;
        effects.push(Effect::BroadcastHave { piece_index });
        proof {
            lemma_views_push(before, effects@.last());
            assert(views(effects@) =~= views(before) + seq![views(effects@).last()]);
            lemma_cancels_kept(views(before), seq![views(effects@).last()], to_cancel, to_cancel.len() as int, peer_id@, old(self).peers@, piece_index);
            assert(views(effects@).subrange(0, prefix.len() as int) =~= views(before).subrange(0, prefix.len() as int));
            assert(views(effects@)[views(effects@).len() - 1] == EffectView::BroadcastHave { piece_index });
        }
        let ghost with_have = views(effects@);
        let ghost before_check = *self;
        let mut done = self.on_check_completion();
        proof {
            lemma_views_append(effects@, done@);
            lemma_cancels_kept(views(effects@), views(done@), to_cancel, to_cancel.len() as int, peer_id@, old(self).peers@, piece_index);
            assert((views(effects@) + views(done@)).subrange(0, prefix.len() as int) =~= views(effects@).subrange(0, prefix.len() as int));
            assert forall|j: int| 0 <= j < self.peers@.len() && #[trigger] self.peers@[j].ip_port@ == peer_id@ implies !self.peers@[j].pending_requests@.contains(piece_index) by {
                if self.peers@ != before_check.peers@ {
                    assert(self.peers@[j] == uninterested(before_check.peers@[j]));
                }
            }
            assert(same_uploads(before_check.peers@, self.peers@)) by {
                assert forall|j: int| 0 <= j < self.peers@.len() implies #[trigger] before_check.peers@[j].total_bytes_uploaded
                    == self.peers@[j].total_bytes_uploaded by {
                    if self.peers@ != before_check.peers@ {
                        assert(self.peers@[j] == uninterested(before_check.peers@[j]));
                    }
                }
            }
        }
        let ghost done_views = views(done@);
        effects.append(&mut done);
        proof {
            assert(views(effects@).contains(EffectView::BroadcastHave { piece_index })) by {
                assert(views(effects@)[with_have.len() - 1] == with_have[with_have.len() - 1]);
            }
            let all = views(effects@);
            assert(all.subrange(with_have.len() as int, all.len() as int) =~= done_views);
            assert(Self::after_check_completion(before_check, *self, all.subrange(with_have.len() as int, all.len() as int)));
            assert(all.subrange(0, prefix.len() as int) == prefix);
            assert(all.subrange(1, prefix.len() as int) =~= more_views);
            assert(assign_work_result(mid, assigned, peer_id, all.subrange(1, prefix.len() as int)));
            assert(prefix =~= seq![EffectView::EmitManagerEvent(ManagerEventView::DiskWriteFinished)] + more_views);
            assert(all =~= seq![EffectView::EmitManagerEvent(ManagerEventView::DiskWriteFinished)] + more_views
                + flat + seq![EffectView::BroadcastHave { piece_index }] + done_views);
            assert(PieceManager::marked_complete(old(self).piece_manager, marked.piece_manager, piece_index));
            assert(mid == (TorrentState { peers: mid.peers, piece_manager: mid.piece_manager, ..*old(self) }));
            assert(Self::written_chain(*old(self), *self, peer_id, piece_index, all, mid, states, mids, segs, more_views, done_views));
        }
        effects
    }

    /// Cancels the written piece `piece` at the peer `other` that had it
    /// pending (see `cancel_step`): nothing for the writer; otherwise its
    /// request is dropped, a connected peer is sent `Cancel`, and the peer is
    /// given new work.
    fn cancel_written_at(&mut self, other: String, writer: &String, piece: u32) -> (e: Vec<Effect>)
        requires
            old(self).wf(),
            piece_settled(*old(self), piece, writer@),
        ensures
            final(self).wf(),
            *final(self) == (TorrentState {
                peers: final(self).peers,
                piece_manager: final(self).piece_manager,
                torrent_status: final(self).torrent_status,
                trackers: final(self).trackers,
                ..*old(self)
            }),
            exists|mid: TorrentState| #[trigger] Self::cancel_step(*old(self), mid, *final(self), other, writer@, piece, views(e@)),
            final(self).peers@.len() == old(self).peers@.len(),
            forall|j: int| 0 <= j < final(self).peers@.len() ==> #[trigger] final(self).peers@[j].ip_port == old(self).peers@[j].ip_port,
            piece_settled(*final(self), piece, writer@),
            keeps_books(*old(self), *final(self)),
            queues_disjoint(old(self).piece_manager) ==> queues_disjoint(final(self).piece_manager),
            pieces_tracked(*old(self)) ==> pieces_tracked(*final(self)),
            pending_held(*old(self)) ==> pending_held(*final(self)),
            final(self).torrent_status == old(self).torrent_status || final(self).torrent_status == TorrentStatus::Endgame,
            final(self).piece_manager.bitfield@ == old(self).piece_manager.bitfield@,
            other@ != writer@ && (exists|j: int| 0 <= j < old(self).peers@.len() && #[trigger] old(self).peers@[j].ip_port@ == other@)
                ==> sends_cancel(views(e@), other, piece),
    {
        let mut effects: Vec<Effect> = Vec::new();
        if other == *writer {
            proof {
                assert(views(effects@) =~= Seq::<EffectView>::empty());
                assert(same_uploads(old(self).peers@, self.peers@));
                assert(Self::cancel_step(*old(self), *self, *self, other, writer@, piece, views(effects@)));
            }
            return effects;
        }
        let piece_index = piece;
        let ghost before_cancel = *self;
        match find_peer(&self.peers, &other) {
            Some(i) => {
                self.peers[i].pending_requests.remove(&piece_index);
                proof {
                    assert forall|a: int, b: int| 0 <= a < self.peers@.len() && 0 <= b < self.peers@.len() && a != b implies #[trigger] self.peers@[a].ip_port@ != #[trigger] self.peers@[b].ip_port@ by {
                        assert(self.peers@[a].ip_port == before_cancel.peers@[a].ip_port);
                        assert(self.peers@[b].ip_port == before_cancel.peers@[b].ip_port);
                    }
                    if pieces_tracked(before_cancel) {
                        assert forall|j: int, q: u32| 0 <= j < self.peers@.len() && #[trigger] self.peers@[j].pending_requests@.contains(q)
                            implies before_cancel.peers@[j].pending_requests@.contains(q) by {
                            if j != i {
                                assert(self.peers@[j] == before_cancel.peers@[j]);
                            }
                        }
                        lemma_requests_shrink(before_cancel.peers@, self.peers@, self.piece_manager.bitfield@.len() as int);
                    }
                    if pending_held(before_cancel) {
                        assert forall|j: int, q: u32| 0 <= j < before_cancel.peers@.len() && #[trigger] before_cancel.peers@[j].pending_requests@.contains(q)
                            && self.piece_manager.pending_queue@.contains_key(q) implies self.peers@[j].pending_requests@.contains(q) by {
                            if j != i {
                                assert(self.peers@[j] == before_cancel.peers@[j]);
                            }
                        }
                        lemma_held_keep(before_cancel, *self);
                    }
                    assert forall|j: int| 0 <= j < self.peers@.len() && #[trigger] self.peers@[j].ip_port@ == writer@ implies !self.peers@[j].pending_requests@.contains(piece_index) by {
                        assert(self.peers@[j].ip_port == before_cancel.peers@[j].ip_port);
                    }
                    assert(same_uploads(before_cancel.peers@, self.peers@)) by {
                        assert forall|j: int| 0 <= j < self.peers@.len() implies #[trigger] before_cancel.peers@[j].total_bytes_uploaded
                            == self.peers@[j].total_bytes_uploaded by {
                            assert(self.peers@[j].total_bytes_uploaded == before_cancel.peers@[j].total_bytes_uploaded);
                        }
                    }
                    assert(Self::request_dropped(before_cancel.peers@, self.peers@, other@, piece));
                }
                effects.push(Effect::SendToPeer { peer_id: other.clone(), cmd: TorrentCommand::Cancel(piece_index) });
                proof {
                    assert(views(effects@) =~= seq![EffectView::SendToPeer { peer_id: other, cmd: TorrentCommand::Cancel(piece) }]);
                }
            },
            None => {
                proof {
                    assert(same_uploads(before_cancel.peers@, self.peers@));
                    assert(views(effects@) =~= Seq::<EffectView>::empty());
                }
            },
        }
        let ghost mid2 = *self;
        let ghost e_mid = views(effects@);
        let mut again = self.on_assign_work(other);
        proof {
            lemma_assign_work_keeps_settled(mid2, *self, other, views(again@), piece_index, writer@);
            lemma_assign_work_frame(mid2, *self, other, views(again@));
            assert forall|j: int| 0 <= j < self.peers@.len() implies #[trigger] self.peers@[j].ip_port
                == before_cancel.peers@[j].ip_port by {
                assert(self.peers@[j].ip_port == mid2.peers@[j].ip_port);
            }
            if queues_disjoint(mid2.piece_manager) {
                lemma_assign_work_disjoint(mid2, *self, other, views(again@));
            }
            if pieces_tracked(mid2) {
                lemma_assign_work_tracked(mid2, *self, other, views(again@));
            }
            if pending_held(mid2) {
                lemma_assign_work_held(mid2, *self, other, views(again@));
            }
            lemma_views_append(effects@, again@);
        }
        let ghost again_views = views(again@);
        effects.append(&mut again);
        proof {
            let all = views(effects@);
            assert(all =~= e_mid + again_views);
            assert(all.subrange(0, e_mid.len() as int) =~= e_mid);
            assert(all.subrange(e_mid.len() as int, all.len() as int) =~= again_views);
            assert(Self::cancel_step(before_cancel, mid2, *self, other, writer@, piece, all));
            if exists|j: int| 0 <= j < old(self).peers@.len() && #[trigger] old(self).peers@[j].ip_port@ == other@ {
                assert(peer_pos(old(self).peers@, other@) >= 0);
                assert(all[0] == EffectView::SendToPeer { peer_id: other, cmd: TorrentCommand::Cancel(piece) });
            }
        }
        effects
    }

    /// Drops `piece_index` from the requests pending at the peer `peer_id`.
    fn drop_request(&mut self, peer_id: &String, piece_index: u32)
        requires
            old(self).wf(),
        ensures
            final(self).wf(),
            same_but_work(*old(self), *final(self)),
            final(self).piece_manager == old(self).piece_manager,
            final(self).torrent_status == old(self).torrent_status,
            ({
                let i = peer_pos(old(self).peers@, peer_id@);
                if i >= 0 {
                    &&& final(self).peers@.len() == old(self).peers@.len()
                    &&& forall|j: int| 0 <= j < final(self).peers@.len() && j != i ==> final(self).peers@[j] == old(self).peers@[j]
                    &&& final(self).peers@[i] == (PeerState { pending_requests: final(self).peers@[i].pending_requests, ..old(self).peers@[i] })
                    &&& final(self).peers@[i].pending_requests@ == old(self).peers@[i].pending_requests@.remove(piece_index)
                } else {
                    final(self).peers@ == old(self).peers@
                }
            }),
            forall|j: int| 0 <= j < final(self).peers@.len() && #[trigger] final(self).peers@[j].ip_port@ == peer_id@
                ==> !final(self).peers@[j].pending_requests@.contains(piece_index),
            pieces_tracked(*old(self)) ==> pieces_tracked(*final(self)),
            pending_held(*old(self)) && !old(self).piece_manager.pending_queue@.contains_key(piece_index)
                ==> pending_held(*final(self)),
    {
        match find_peer(&self.peers, peer_id) {
            Some(i) => {
                self.peers[i].pending_requests.remove(&piece_index);
                proof {
                    if pending_held(*old(self)) && !old(self).piece_manager.pending_queue@.contains_key(piece_index) {
                        assert forall|j: int, q: u32| 0 <= j < old(self).peers@.len() && #[trigger] old(self).peers@[j].pending_requests@.contains(q)
                            && self.piece_manager.pending_queue@.contains_key(q) implies self.peers@[j].pending_requests@.contains(q) by {
                            if j != i {
                                assert(self.peers@[j] == old(self).peers@[j]);
                            }
                        }
                        lemma_held_keep(*old(self), *self);
                    }
                    if pieces_tracked(*old(self)) {
                        assert forall|j: int, q: u32| 0 <= j < self.peers@.len() && #[trigger] self.peers@[j].pending_requests@.contains(q)
                            implies old(self).peers@[j].pending_requests@.contains(q) by {
                            if j != i {
                                assert(self.peers@[j] == old(self).peers@[j]);
                            }
                        }
                        lemma_requests_shrink(old(self).peers@, self.peers@, self.piece_manager.bitfield@.len() as int);
                    }
                    assert forall|a: int, b: int| 0 <= a < self.peers@.len() && 0 <= b < self.peers@.len() && a != b implies #[trigger] self.peers@[a].ip_port@ != #[trigger] self.peers@[b].ip_port@ by {
                        assert(self.peers@[a].ip_port == old(self).peers@[a].ip_port);
                        assert(self.peers@[b].ip_port == old(self).peers@[b].ip_port);
                    }
                    assert forall|j: int| 0 <= j < self.peers@.len() && #[trigger] self.peers@[j].ip_port@ == peer_id@ implies !self.peers@[j].pending_requests@.contains(piece_index) by {
                        if j != i {
                            assert(self.peers@[j].ip_port == old(self).peers@[j].ip_port);
                        }
                    }
                }
            },
            None => {},
        }
    }


    /// The state and effects that `on_tracker_response` leads to.
    pub open spec fn after_tracker_response(before: TorrentState, after: TorrentState, url: String, peers: Vec<(String, u16)>, interval: u64, min_interval: Option<u64>, effects: Seq<EffectView>) -> bool {
        &&& after == (TorrentState { trackers: after.trackers, ..before })
        &&& ({
            let i = tracker_pos_from(before.trackers@, url@, 0);
            let seeding = if interval > 0 { secs_to_ms(sat_add(interval, 1)) } else { DEFAULT_SEEDING_INTERVAL_MS };
            let leeching = match min_interval { Some(m) => secs_to_ms(sat_add(m, 1)), None => ANNOUNCE_DELAY_MS };
            let next = if before.torrent_status != TorrentStatus::Done { leeching } else { seeding };
            if i >= 0 {
                after.trackers@ =~= before.trackers@.update(
                    i,
                    TrackerEntry {
                        state: TrackerState {
                            next_announce_time: sat_add(before.now, next),
                            leeching_interval: Some(leeching),
                            seeding_interval: Some(seeding),
                        },
                        ..before.trackers@[i]
                    },
                )
            } else {
                after.trackers@ =~= before.trackers@
            }
        })
        &&& (effects =~= connect_effects(peers@, before.timed_out_peers@, before.now, peers@.len() as int))
    }

    /// A tracker answered: it asked for a seeding interval (one second more
    /// than `interval`, or 30 min when zero) and a leeching one (one second
    /// more than `min_interval`, or a minute); the next announce comes after
    /// the interval that fits the download state. Every peer it gave is
    /// connected to unless its address is still backing off.
    pub fn on_tracker_response(
        &mut self,
        url: String,
        peers: Vec<(String, u16)>,
        interval: u64,
        min_interval: Option<u64>,
    ) -> (effects: Vec<Effect>)
        requires
            old(self).wf(),
        ensures
            final(self).wf(),
            Self::after_tracker_response(*old(self), *final(self), url, peers, interval, min_interval, views(effects@)),
    {
        match find_tracker(&self.trackers, &url) {
            Some(i) => {
                let seeding = if interval > 0 {
                    secs_ms(interval.saturating_add(1))
                } else {
                    DEFAULT_SEEDING_INTERVAL_MS
                };
                let leeching = match min_interval {
                    Some(m) => secs_ms(m.saturating_add(1)),
                    None => ANNOUNCE_DELAY_MS,
                };
                let next = if self.torrent_status != TorrentStatus::Done {
                    leeching
                } else {
                    seeding
                };
                let url_kept = self.trackers[i].url.clone();
                self.trackers.set(
                    i,
                    TrackerEntry {
                        url: url_kept,
                        state: TrackerState {
                            next_announce_time: self.now.saturating_add(next),
                            leeching_interval: Some(leeching),
                            seeding_interval: Some(seeding),
                        },
                    },
                );
            },
            None => {},
        }
        let mut effects: Vec<Effect> = Vec::new();
        let mut k: usize = 0;
        while k < peers.len()
            invariant
                k <= peers@.len(),
                views(effects@) == connect_effects(peers@, self.timed_out_peers@, self.now, k as int),
                *self == (TorrentState { trackers: self.trackers, ..*old(self) }),
            decreases peers@.len() - k,
        {
            let addr = peer_addr_text(&peers[k].0, peers[k].1);
            let backing = match find_timeout(&self.timed_out_peers, &addr) {
                Some(t) => self.now < self.timed_out_peers[t].next_attempt,
                None => false,
            };
            if !backing {
                let ghost before = effects@;
                effects.push(Effect::ConnectToPeer { ip: peers[k].0.clone(), port: peers[k].1 });
                proof {
                    lemma_views_push(before, effects@.last());
                }
            }
            proof {
                assert(views(effects@) =~= connect_effects(peers@, self.timed_out_peers@, self.now, k + 1));
            }
            k = k + 1;
        }
        effects
    }

    /// Whether two piece managers hold the same pieces, queues, counts,
    /// blocks and rarities.
    pub open spec fn pm_unchanged(a: PieceManager, b: PieceManager) -> bool {
        &&& b.bitfield@ == a.bitfield@
        &&& b.need_queue@ == a.need_queue@
        &&& b.pending_queue@ == a.pending_queue@
        &&& b.pieces_remaining == a.pieces_remaining
        &&& b.block_manager == a.block_manager
        &&& b.piece_rarity@ == a.piece_rarity@
    }

    /// One step of cancelling a piece found by validation at the peer `p`,
    /// from `s` to `next` with effects `e`: the peer's request is dropped
    /// (giving `mid`), a connected peer that had it requested is sent
    /// `Cancel`, and the peer is given new work.
    pub open spec fn validated_cancel_step(
        s: TorrentState,
        mid: TorrentState,
        next: TorrentState,
        p: String,
        piece: u32,
        e: Seq<EffectView>,
    ) -> bool {
        let i = peer_pos(s.peers@, p@);
        let pre: Seq<EffectView> = if i >= 0 && s.peers@[i].pending_requests@.contains(piece) {
            seq![EffectView::SendToPeer { peer_id: p, cmd: TorrentCommand::Cancel(piece) }]
        } else {
            Seq::empty()
        };
        &&& mid == (TorrentState { peers: mid.peers, ..s })
        &&& Self::request_dropped(s.peers@, mid.peers@, p@, piece)
        &&& pre.len() <= e.len()
        &&& e.subrange(0, pre.len() as int) == pre
        &&& assign_work_result(mid, next, p, e.subrange(pre.len() as int, e.len() as int))
    }

    /// Marking one piece found by validation, from `s` to `next` with effects
    /// `e`: a piece already done changes nothing; otherwise it is marked
    /// complete (giving `marked`) and each peer that had it pending is
    /// cancelled in turn (`states[k]` to `states[k + 1]`, effects `segs[k]`).
    pub open spec fn validated_piece_chain(
        s: TorrentState,
        next: TorrentState,
        piece: u32,
        e: Seq<EffectView>,
        marked: TorrentState,
        states: Seq<TorrentState>,
        mids: Seq<TorrentState>,
        segs: Seq<Seq<EffectView>>,
    ) -> bool {
        if s.piece_manager.spec_is_done(piece) {
            &&& next == (TorrentState { piece_manager: next.piece_manager, ..s })
            &&& Self::pm_unchanged(s.piece_manager, next.piece_manager)
            &&& e.len() == 0
        } else {
            let to_cancel = s.piece_manager.spec_pending_peers(piece);
            &&& marked == (TorrentState { piece_manager: marked.piece_manager, ..s })
            &&& PieceManager::marked_complete(s.piece_manager, marked.piece_manager, piece)
            &&& states.len() == to_cancel.len() + 1
            &&& mids.len() == to_cancel.len()
            &&& segs.len() == to_cancel.len()
            &&& states[0] == marked
            &&& states.last() == next
            &&& forall|k: int|
                0 <= k < to_cancel.len() ==> #[trigger] Self::validated_cancel_step(
                    states[k],
                    mids[k],
                    states[k + 1],
                    to_cancel[k],
                    piece,
                    segs[k],
                )
            &&& e == segs.flatten()
        }
    }

    /// Whether marking `piece` takes `s` to `next` with effects `e`.
    pub open spec fn validated_piece(s: TorrentState, next: TorrentState, piece: u32, e: Seq<EffectView>) -> bool {
        exists|marked: TorrentState, states: Seq<TorrentState>, mids: Seq<TorrentState>, segs: Seq<Seq<EffectView>>|
            #[trigger] Self::validated_piece_chain(s, next, piece, e, marked, states, mids, segs)
    }

    /// The whole of completing validation, through the states it passes:
    /// each piece found is marked in turn (`pstates`, effects `psegs`); the
    /// torrent downloads normally; a running torrent sends its bitfield and
    /// connects to the trackers' peers; completion is checked (reaching
    /// `astates[0]`, effects `e_done`); then every peer, in list order, is
    /// given work (`astates`, effects `asegs`).
    pub open spec fn validation_chain(
        before: TorrentState,
        after: TorrentState,
        completed: Seq<u32>,
        effects: Seq<EffectView>,
        pstates: Seq<TorrentState>,
        psegs: Seq<Seq<EffectView>>,
        e_done: Seq<EffectView>,
        astates: Seq<TorrentState>,
        asegs: Seq<Seq<EffectView>>,
    ) -> bool {
        let peers = astates[0].peers@;
        &&& pstates.len() == completed.len() + 1
        &&& psegs.len() == completed.len()
        &&& pstates[0] == before
        &&& forall|k: int|
            0 <= k < completed.len() ==> #[trigger] Self::validated_piece(pstates[k], pstates[k + 1], completed[k], psegs[k])
        &&& Self::after_check_completion(
            TorrentState { torrent_status: TorrentStatus::Standard, ..pstates.last() },
            astates[0],
            e_done,
        )
        &&& astates.len() == peers.len() + 1
        &&& asegs.len() == peers.len()
        &&& forall|q: int| 0 <= q < peers.len() ==> #[trigger] assign_work_result(astates[q], astates[q + 1], peers[q].ip_port, asegs[q])
        &&& astates.last() == after
        &&& effects == psegs.flatten() + (if before.is_paused {
            Seq::<EffectView>::empty()
        } else {
            seq![EffectView::SendBitfieldToPeers, EffectView::ConnectToPeersFromTrackers]
        }) + e_done + asegs.flatten()
    }

    /// The state and effects that `on_validation_complete` leads to.
    pub open spec fn after_validation_complete(before: TorrentState, after: TorrentState, completed_pieces: Vec<u32>, effects: Seq<EffectView>) -> bool {
        &&& after == (TorrentState {
            peers: after.peers,
            piece_manager: after.piece_manager,
            torrent_status: after.torrent_status,
            trackers: after.trackers,
            ..before
        })
        &&& (after.piece_manager.bitfield@.len() == before.piece_manager.bitfield@.len())
        &&& (forall|i: int| 0 <= i < before.piece_manager.bitfield@.len() ==> #[trigger] after.piece_manager.bitfield@[i]
            == if i <= u32::MAX && completed_pieces@.contains(i as u32) { PieceStatus::Done } else { before.piece_manager.bitfield@[i] })
        &&& (after.torrent_status != TorrentStatus::Validating)
        &&& (after.torrent_status == TorrentStatus::Done ==> all_done(after.piece_manager.bitfield@))
        &&& keeps_books(before, after)
        &&& (queues_disjoint(before.piece_manager) ==> queues_disjoint(after.piece_manager))
        &&& (pieces_tracked(before) ==> pieces_tracked(after))
        &&& (pending_held(before) ==> pending_held(after))
        &&& (!before.is_paused ==> effects.contains(EffectView::SendBitfieldToPeers)
            && effects.contains(EffectView::ConnectToPeersFromTrackers))
        &&& exists|pstates: Seq<TorrentState>, psegs: Seq<Seq<EffectView>>, e_done: Seq<EffectView>,
            astates: Seq<TorrentState>, asegs: Seq<Seq<EffectView>>|
            #[trigger] Self::validation_chain(before, after, completed_pieces@, effects, pstates, psegs, e_done, astates, asegs)
    }

    /// Validation finished: the pieces found are marked done (their requests
    /// cancelled where peers still had them, those peers given new work), the
    /// torrent downloads normally, a running torrent sends its bitfield and
    /// connects to the trackers' peers, completion is checked, and every peer
    /// is given work.
    /// Cancels a piece found by validation at the peer `id` (see
    /// `validated_cancel_step`).
    fn validated_cancel_at(&mut self, id: String, piece: u32) -> (e: Vec<Effect>)
        requires
            old(self).wf(),
            !old(self).piece_manager.need_queue@.contains(piece),
            !old(self).piece_manager.pending_queue@.contains_key(piece),
        ensures
            final(self).wf(),
            *final(self) == (TorrentState {
                peers: final(self).peers,
                piece_manager: final(self).piece_manager,
                torrent_status: final(self).torrent_status,
                trackers: final(self).trackers,
                ..*old(self)
            }),
            exists|mid: TorrentState| #[trigger] Self::validated_cancel_step(*old(self), mid, *final(self), id, piece, views(e@)),
            final(self).piece_manager.bitfield@ == old(self).piece_manager.bitfield@,
            keeps_books(*old(self), *final(self)),
            queues_disjoint(old(self).piece_manager) ==> queues_disjoint(final(self).piece_manager),
            pieces_tracked(*old(self)) ==> pieces_tracked(*final(self)),
            pending_held(*old(self)) ==> pending_held(*final(self)),
            !final(self).piece_manager.need_queue@.contains(piece),
            !final(self).piece_manager.pending_queue@.contains_key(piece),
    {
        let mut effects: Vec<Effect> = Vec::new();
        let ghost s0 = *self;
        match find_peer(&self.peers, &id) {
            Some(i) => {
                let ghost before_cancel = self.peers@;
                let ghost st_cancel = *self;
                let was_pending = self.peers[i].pending_requests.remove(&piece);
                proof {
                    if pending_held(st_cancel) {
                        assert forall|j: int, q: u32| 0 <= j < before_cancel.len() && #[trigger] before_cancel[j].pending_requests@.contains(q)
                            && self.piece_manager.pending_queue@.contains_key(q) implies self.peers@[j].pending_requests@.contains(q) by {
                            if j != i {
                                assert(self.peers@[j] == before_cancel[j]);
                            }
                        }
                        lemma_held_keep(st_cancel, *self);
                    }
                    if pieces_tracked(st_cancel) {
                        assert forall|j: int, q: u32| 0 <= j < self.peers@.len() && #[trigger] self.peers@[j].pending_requests@.contains(q)
                            implies before_cancel[j].pending_requests@.contains(q) by {
                            if j != i {
                                assert(self.peers@[j] == before_cancel[j]);
                            }
                        }
                        lemma_requests_shrink(before_cancel, self.peers@, self.piece_manager.bitfield@.len() as int);
                    }
                    assert forall|a: int, b: int| 0 <= a < self.peers@.len() && 0 <= b < self.peers@.len() && a != b implies #[trigger] self.peers@[a].ip_port@ != #[trigger] self.peers@[b].ip_port@ by {
                        assert(self.peers@[a].ip_port == before_cancel[a].ip_port);
                        assert(self.peers@[b].ip_port == before_cancel[b].ip_port);
                    }
                    assert(same_uploads(before_cancel, self.peers@)) by {
                        assert forall|j: int| 0 <= j < self.peers@.len() implies #[trigger] before_cancel[j].total_bytes_uploaded
                            == self.peers@[j].total_bytes_uploaded by {
                            assert(self.peers@[j].total_bytes_uploaded == before_cancel[j].total_bytes_uploaded);
                        }
                    }
                    assert(Self::request_dropped(s0.peers@, self.peers@, id@, piece));
                }
                if was_pending {
                    effects.push(Effect::SendToPeer { peer_id: id.clone(), cmd: TorrentCommand::Cancel(piece) });
                    proof {
                        assert(views(effects@) =~= seq![EffectView::SendToPeer { peer_id: id, cmd: TorrentCommand::Cancel(piece) }]);
                    }
                } else {
                    proof {
                        assert(views(effects@) =~= Seq::<EffectView>::empty());
                    }
                }
            },
            None => {
                proof {
                    assert(same_uploads(s0.peers@, self.peers@));
                    assert(views(effects@) =~= Seq::<EffectView>::empty());
                }
            },
        }
        let ghost mid = *self;
        let ghost e_mid = views(effects@);
        let mut more = self.on_assign_work(id);
        proof {
            lemma_assign_work_frame(mid, *self, id, views(more@));
            if queues_disjoint(mid.piece_manager) {
                lemma_assign_work_disjoint(mid, *self, id, views(more@));
            }
            if pieces_tracked(mid) {
                lemma_assign_work_tracked(mid, *self, id, views(more@));
            }
            if pending_held(mid) {
                lemma_assign_work_held(mid, *self, id, views(more@));
            }
            lemma_assign_work_unqueued(mid, *self, id, views(more@), piece);
            lemma_views_append(effects@, more@);
        }
        let ghost more_views = views(more@);
        effects.append(&mut more);
        proof {
            let all = views(effects@);
            assert(all =~= e_mid + more_views);
            assert(all.subrange(0, e_mid.len() as int) =~= e_mid);
            assert(all.subrange(e_mid.len() as int, all.len() as int) =~= more_views);
            assert(Self::validated_cancel_step(s0, mid, *self, id, piece, all));
        }
        effects
    }

    /// Marks one piece found by validation (see `validated_piece`).
    fn validated_mark(&mut self, piece: u32) -> (e: Vec<Effect>)
        requires
            old(self).wf(),
            (piece as int) < old(self).piece_manager.bitfield@.len(),
        ensures
            final(self).wf(),
            *final(self) == (TorrentState {
                peers: final(self).peers,
                piece_manager: final(self).piece_manager,
                torrent_status: final(self).torrent_status,
                trackers: final(self).trackers,
                ..*old(self)
            }),
            Self::validated_piece(*old(self), *final(self), piece, views(e@)),
            final(self).piece_manager.bitfield@ == old(self).piece_manager.bitfield@.update(piece as int, PieceStatus::Done),
            keeps_books(*old(self), *final(self)),
            queues_disjoint(old(self).piece_manager) ==> queues_disjoint(final(self).piece_manager),
            pieces_tracked(*old(self)) ==> pieces_tracked(*final(self)),
            pending_held(*old(self)) ==> pending_held(*final(self)),
    {
        let ghost bits_before = self.piece_manager.bitfield@;
        let ghost pm_before = self.piece_manager;
        let ghost st_before = *self;
        let to_cancel = self.piece_manager.mark_as_complete(piece);
        proof {
            assert(self.piece_manager.bitfield@ =~= bits_before.update(piece as int, PieceStatus::Done));
            if queues_disjoint(pm_before) && !pm_before.spec_is_done(piece) {
                lemma_complete_keeps_disjoint(pm_before, self.piece_manager, piece);
            }
            if pieces_tracked(st_before) && !pm_before.spec_is_done(piece) {
                lemma_complete_keeps_tracked(st_before, *self, piece);
            }
            if !pm_before.spec_is_done(piece) {
                crate::torrent_manager::piece_manager::lemma_without_contains(pm_before.need_queue@, piece, piece);
                if pending_held(st_before) {
                    lemma_held_keep(st_before, *self);
                }
            }
        }
        let ghost marked = *self;
        let ghost bits_marked = self.piece_manager.bitfield@;
        let mut effects: Vec<Effect> = Vec::new();
        let ghost mut states: Seq<TorrentState> = seq![*self];
        let ghost mut mids: Seq<TorrentState> = Seq::empty();
        let ghost mut segs: Seq<Seq<EffectView>> = Seq::empty();
        proof {
            assert(views(effects@) =~= segs.flatten());
        }
        let mut k: usize = 0;
        while k < to_cancel.len()
            invariant
                *self == (TorrentState {
                    peers: self.peers,
                    piece_manager: self.piece_manager,
                    torrent_status: self.torrent_status,
                    trackers: self.trackers,
                    ..*old(self)
                }),
                self.wf(),
                k <= to_cancel@.len(),
                self.piece_manager.bitfield@ == bits_marked,
                keeps_books(*old(self), *self),
                queues_disjoint(old(self).piece_manager) ==> queues_disjoint(self.piece_manager),
                pieces_tracked(*old(self)) ==> pieces_tracked(*self),
                pending_held(*old(self)) ==> pending_held(*self),
                to_cancel@.len() == 0 || (!self.piece_manager.need_queue@.contains(piece)
                    && !self.piece_manager.pending_queue@.contains_key(piece)),
                states.len() == k + 1,
                mids.len() == k,
                segs.len() == k,
                states[0] == marked,
                states.last() == *self,
                forall|j: int|
                    0 <= j < k ==> #[trigger] Self::validated_cancel_step(
                        states[j],
                        mids[j],
                        states[j + 1],
                        to_cancel@[j],
                        piece,
                        segs[j],
                    ),
                views(effects@) == segs.flatten(),
            decreases to_cancel@.len() - k,
        {
            let id = peer_to_cancel_at(&to_cancel, k);
            let ghost s_k = *self;
            let mut e = self.validated_cancel_at(id, piece);
            let ghost seg = views(e@);
            proof {
                lemma_views_append(effects@, e@);
            }
            effects.append(&mut e);
            proof {
                let mid_k = choose|mid: TorrentState| #[trigger] Self::validated_cancel_step(s_k, mid, *self, id, piece, seg);
                let old_states = states;
                let old_mids = mids;
                let old_segs = segs;
                states = states.push(*self);
                mids = mids.push(mid_k);
                segs = segs.push(seg);
                old_segs.lemma_flatten_push(seg);
                assert(views(effects@) =~= segs.flatten());
                assert forall|j: int| 0 <= j < k + 1 implies #[trigger] Self::validated_cancel_step(
                    states[j],
                    mids[j],
                    states[j + 1],
                    to_cancel@[j],
                    piece,
                    segs[j],
                ) by {
                    if j < k {
                        assert(states[j] == old_states[j]);
                        assert(states[j + 1] == old_states[j + 1]);
                        assert(mids[j] == old_mids[j]);
                        assert(segs[j] == old_segs[j]);
                    } else {
                        assert(states[j] == s_k);
                        assert(states[j + 1] == *self);
                    }
                }
            }
            k = k + 1;
        }
        proof {
            if pm_before.spec_is_done(piece) {
                assert(views(effects@) =~= Seq::<EffectView>::empty());
                assert(Self::validated_piece_chain(st_before, *self, piece, views(effects@), marked, states, mids, segs));
            } else {
                assert(Self::validated_piece_chain(st_before, *self, piece, views(effects@), marked, states, mids, segs));
            }
        }
        effects
    }

    /// Validation finished: the pieces found are marked done (their requests
    /// cancelled where peers still had them, those peers given new work), the
    /// torrent downloads normally, a running torrent sends its bitfield and
    /// connects to the trackers' peers, completion is checked, and every peer
    /// is given work.
    pub fn on_validation_complete(&mut self, completed_pieces: Vec<u32>) -> (effects: Vec<Effect>)
        requires
            old(self).wf(),
            forall|j: int| 0 <= j < completed_pieces@.len() ==> (#[trigger] completed_pieces@[j] as int) < old(self).piece_manager.bitfield@.len(),
        ensures
            final(self).wf(),
            Self::after_validation_complete(*old(self), *final(self), completed_pieces, views(effects@)),
    {
        let ghost bits0 = self.piece_manager.bitfield@;
        let mut effects: Vec<Effect> = Vec::new();
        let ghost mut pstates: Seq<TorrentState> = seq![*self];
        let ghost mut psegs: Seq<Seq<EffectView>> = Seq::empty();
        proof {
            assert(views(effects@) =~= psegs.flatten());
        }
        let mut c: usize = 0;
        while c < completed_pieces.len()
            invariant
                *self == (TorrentState {
                    peers: self.peers,
                    piece_manager: self.piece_manager,
                    torrent_status: self.torrent_status,
                    trackers: self.trackers,
                    ..*old(self)
                }),
                self.wf(),
                c <= completed_pieces@.len(),
                bits0 == old(self).piece_manager.bitfield@,
                self.is_paused == old(self).is_paused,
                keeps_books(*old(self), *self),
                queues_disjoint(old(self).piece_manager) ==> queues_disjoint(self.piece_manager),
                pieces_tracked(*old(self)) ==> pieces_tracked(*self),
                pending_held(*old(self)) ==> pending_held(*self),
                self.piece_manager.bitfield@.len() == bits0.len(),
                forall|j: int| 0 <= j < completed_pieces@.len() ==> (#[trigger] completed_pieces@[j] as int) < bits0.len(),
                forall|i: int| 0 <= i < bits0.len() ==> #[trigger] self.piece_manager.bitfield@[i]
                    == if i <= u32::MAX && completed_pieces@.take(c as int).contains(i as u32) { PieceStatus::Done } else { bits0[i] },
                pstates.len() == c + 1,
                psegs.len() == c,
                pstates[0] == *old(self),
                pstates.last() == *self,
                forall|k: int|
                    0 <= k < c ==> #[trigger] Self::validated_piece(pstates[k], pstates[k + 1], completed_pieces@[k], psegs[k]),
                views(effects@) == psegs.flatten(),
            decreases completed_pieces@.len() - c,
        {
            let piece = completed_pieces[c];
            let ghost s_c = *self;
            let mut e = self.validated_mark(piece);
            let ghost seg = views(e@);
            proof {
                lemma_views_append(effects@, e@);
            }
            effects.append(&mut e);
            proof {
                let old_pstates = pstates;
                let old_psegs = psegs;
                pstates = pstates.push(*self);
                psegs = psegs.push(seg);
                old_psegs.lemma_flatten_push(seg);
                assert(views(effects@) =~= psegs.flatten());
                assert forall|k: int| 0 <= k < c + 1 implies #[trigger] Self::validated_piece(
                    pstates[k],
                    pstates[k + 1],
                    completed_pieces@[k],
                    psegs[k],
                ) by {
                    if k < c {
                        assert(pstates[k] == old_pstates[k]);
                        assert(pstates[k + 1] == old_pstates[k + 1]);
                        assert(psegs[k] == old_psegs[k]);
                    } else {
                        assert(pstates[k] == s_c);
                        assert(pstates[k + 1] == *self);
                    }
                }
                assert(completed_pieces@.take(c + 1) =~= completed_pieces@.take(c as int).push(piece));
                assert forall|i: int| 0 <= i < bits0.len() implies #[trigger] self.piece_manager.bitfield@[i]
                    == if i <= u32::MAX && completed_pieces@.take(c + 1).contains(i as u32) { PieceStatus::Done } else { bits0[i] } by {
                    crate::torrent_manager::piece_manager::lemma_push_contains(completed_pieces@.take(c as int), piece, i as u32);
                    if i == piece as int {
                    } else if i <= u32::MAX {
                        assert((i as u32) as int == i);
                        assert((i as u32) != piece);
                    }
                }
            }
            c = c + 1;
        }
        proof {
            assert(completed_pieces@.take(c as int) =~= completed_pieces@);
        }
        let ghost marks_views = views(effects@);
        self.torrent_status = TorrentStatus::Standard;
        if !self.is_paused {
            effects.push(Effect::SendBitfieldToPeers);
            effects.push(Effect::ConnectToPeersFromTrackers);
        }
        let ghost marker = effects@;
        proof {
            if !old(self).is_paused {
                assert(views(marker) =~= marks_views + seq![EffectView::SendBitfieldToPeers, EffectView::ConnectToPeersFromTrackers]);
            } else {
                assert(views(marker) =~= marks_views);
            }
        }
        let ghost before_check = *self;
        let mut done = self.on_check_completion();
        proof {
            assert(same_uploads(before_check.peers@, self.peers@)) by {
                assert forall|j: int| 0 <= j < self.peers@.len() implies #[trigger] before_check.peers@[j].total_bytes_uploaded
                    == self.peers@[j].total_bytes_uploaded by {
                    if self.peers@ != before_check.peers@ {
                        assert(self.peers@[j] == uninterested(before_check.peers@[j]));
                    }
                }
            }
            lemma_views_append(effects@, done@);
        }
        let ghost done_views = views(done@);
        effects.append(&mut done);
        let ghost checked = *self;
        let ghost head = views(effects@);
        let mut ids: Vec<String> = Vec::new();
        let mut p: usize = 0;
        while p < self.peers.len()
            invariant
                *self == checked,
                p <= self.peers@.len(),
                ids@.len() == p,
                forall|j: int| 0 <= j < p ==> #[trigger] ids@[j] == checked.peers@[j].ip_port,
            decreases self.peers@.len() - p,
        {
            ids.push(self.peers[p].ip_port.clone());
            p = p + 1;
        }
        let ghost mut astates: Seq<TorrentState> = seq![*self];
        let ghost mut asegs: Seq<Seq<EffectView>> = Seq::empty();
        proof {
            assert(head =~= head + asegs.flatten());
        }
        let mut q: usize = 0;
        while q < ids.len()
            invariant
                *self == (TorrentState {
                    peers: self.peers,
                    piece_manager: self.piece_manager,
                    torrent_status: self.torrent_status,
                    trackers: self.trackers,
                    ..*old(self)
                }),
                self.wf(),
                q <= ids@.len(),
                ids@.len() == checked.peers@.len(),
                forall|j: int| 0 <= j < ids@.len() ==> #[trigger] ids@[j] == checked.peers@[j].ip_port,
                self.piece_manager.bitfield@.len() == bits0.len(),
                forall|i: int| 0 <= i < bits0.len() ==> #[trigger] self.piece_manager.bitfield@[i]
                    == if i <= u32::MAX && completed_pieces@.contains(i as u32) { PieceStatus::Done } else { bits0[i] },
                self.torrent_status != TorrentStatus::Validating,
                self.torrent_status == TorrentStatus::Done ==> all_done(self.piece_manager.bitfield@),
                keeps_books(*old(self), *self),
                queues_disjoint(old(self).piece_manager) ==> queues_disjoint(self.piece_manager),
                pieces_tracked(*old(self)) ==> pieces_tracked(*self),
                pending_held(*old(self)) ==> pending_held(*self),
                effects@.len() >= marker.len(),
                effects@.subrange(0, marker.len() as int) == marker,
                astates.len() == q + 1,
                asegs.len() == q,
                astates[0] == checked,
                astates.last() == *self,
                forall|j: int| 0 <= j < q ==> #[trigger] assign_work_result(astates[j], astates[j + 1], checked.peers@[j].ip_port, asegs[j]),
                views(effects@) == head + asegs.flatten(),
            decreases ids@.len() - q,
        {
            let id = peer_to_cancel_at(&ids, q);
            let ghost mid = *self;
            let ghost before = effects@;
            let mut more = self.on_assign_work(id);
            proof {
                lemma_assign_work_frame(mid, *self, id, views(more@));
                if queues_disjoint(mid.piece_manager) {
                    lemma_assign_work_disjoint(mid, *self, id, views(more@));
                }
                if pieces_tracked(mid) {
                    lemma_assign_work_tracked(mid, *self, id, views(more@));
                }
                if pending_held(mid) {
                    lemma_assign_work_held(mid, *self, id, views(more@));
                }
                lemma_views_append(effects@, more@);
            }
            let ghost seg = views(more@);
            effects.append(&mut more);
            proof {
                assert(effects@.subrange(0, marker.len() as int) =~= before.subrange(0, marker.len() as int));
                let old_astates = astates;
                let old_asegs = asegs;
                astates = astates.push(*self);
                asegs = asegs.push(seg);
                old_asegs.lemma_flatten_push(seg);
                assert(views(effects@) =~= head + asegs.flatten());
                assert forall|j: int| 0 <= j < q + 1 implies #[trigger] assign_work_result(
                    astates[j],
                    astates[j + 1],
                    checked.peers@[j].ip_port,
                    asegs[j],
                ) by {
                    if j < q {
                        assert(astates[j] == old_astates[j]);
                        assert(astates[j + 1] == old_astates[j + 1]);
                        assert(asegs[j] == old_asegs[j]);
                    } else {
                        assert(astates[j] == mid);
                        assert(astates[j + 1] == *self);
                    }
                }
            }
            q = q + 1;
        }
        proof {
            if !old(self).is_paused {
                let n = marker.len() as int;
                assert(marker[n - 2] == Effect::SendBitfieldToPeers);
                assert(marker[n - 1] == Effect::ConnectToPeersFromTrackers);
                assert(effects@[n - 2] == marker[n - 2]);
                assert(effects@[n - 1] == marker[n - 1]);
                assert(views(effects@)[n - 2] == EffectView::SendBitfieldToPeers);
                assert(views(effects@)[n - 1] == EffectView::ConnectToPeersFromTrackers);
            }
            assert(head =~= views(marker) + done_views);
            assert(before_check == (TorrentState { torrent_status: TorrentStatus::Standard, ..pstates.last() }));
            assert(Self::validation_chain(*old(self), *self, completed_pieces@, views(effects@), pstates, psegs, done_views, astates, asegs));
        }
        effects
    }


    /// Ranks the interested peers, best first (ties in list order).
    fn rank_interested(&self, seeding: bool) -> (order: Vec<usize>)
        ensures
            ranked(self.peers@, seeding, order@),
    {
        let ghost peers = self.peers@;
        let mut pool: Vec<usize> = Vec::new();
        let mut j: usize = 0;
        while j < self.peers.len()
            invariant
                j <= peers.len(),
                peers == self.peers@,
                forall|a: int, b: int| 0 <= a < b < pool@.len() ==> pool@[a] < pool@[b],
                forall|k: int| 0 <= k < pool@.len() ==> (#[trigger] pool@[k] as int) < j && peers[pool@[k] as int].peer_is_interested_in_us,
                forall|q: int| 0 <= q < j && #[trigger] peers[q].peer_is_interested_in_us ==> pool@.contains(q as usize),
            decreases peers.len() - j,
        {
            if self.peers[j].peer_is_interested_in_us {
                let ghost before = pool@;
                pool.push(j);
                proof {
                    assert forall|q: int| 0 <= q < j + 1 && #[trigger] peers[q].peer_is_interested_in_us implies pool@.contains(q as usize) by {
                        if q == j {
                            assert(pool@[before.len() as int] == j);
                        } else {
                            assert(before.contains(q as usize));
                            let k = choose|k: int| 0 <= k < before.len() && before[k] == q as usize;
                            assert(pool@[k] == q as usize);
                        }
                    }
                }
            }
            j = j + 1;
        }
        let mut order: Vec<usize> = Vec::new();
        while pool.len() > 0
            invariant
                peers == self.peers@,
                forall|a: int, b: int| 0 <= a < b < pool@.len() ==> pool@[a] < pool@[b],
                forall|k: int| 0 <= k < pool@.len() ==> (#[trigger] pool@[k] as int) < peers.len() && peers[pool@[k] as int].peer_is_interested_in_us,
                forall|k: int| 0 <= k < order@.len() ==> (#[trigger] order@[k] as int) < peers.len() && peers[order@[k] as int].peer_is_interested_in_us,
                forall|q: int| 0 <= q < peers.len() && #[trigger] peers[q].peer_is_interested_in_us ==> pool@.contains(q as usize) || order@.contains(q as usize),
                forall|a: int, b: int| 0 <= a < order@.len() && 0 <= b < pool@.len() ==> ranks_before(peers, seeding, #[trigger] order@[a] as int, #[trigger] pool@[b] as int),
                forall|a: int, b: int| 0 <= a < b < order@.len() ==> ranks_before(peers, seeding, #[trigger] order@[a] as int, #[trigger] order@[b] as int),
                order@.no_duplicates(),
                forall|a: int, b: int| 0 <= a < order@.len() && 0 <= b < pool@.len() ==> #[trigger] order@[a] != #[trigger] pool@[b],
            decreases pool@.len(),
        {
            let mut best: usize = 0;
            let mut best_key: u64 = if seeding {
                self.peers[pool[0]].bytes_uploaded_to_peer
            } else {
                self.peers[pool[0]].bytes_downloaded_from_peer
            };
            let mut b: usize = 1;
            while b < pool.len()
                invariant
                    peers == self.peers@,
                    1 <= b <= pool@.len(),
                    best < b,
                    forall|k: int| 0 <= k < pool@.len() ==> (#[trigger] pool@[k] as int) < peers.len(),
                    best_key == choke_key(peers[pool@[best as int] as int], seeding),
                    forall|k: int| 0 <= k < b ==> choke_key(peers[#[trigger] pool@[k] as int], seeding) <= best_key,
                    forall|k: int| 0 <= k < best ==> choke_key(peers[#[trigger] pool@[k] as int], seeding) < best_key,
                decreases pool@.len() - b,
            {
                let key = if seeding {
                    self.peers[pool[b]].bytes_uploaded_to_peer
                } else {
                    self.peers[pool[b]].bytes_downloaded_from_peer
                };
                if key > best_key {
                    best = b;
                    best_key = key;
                }
                b = b + 1;
            }
            let chosen = pool[best];
            let ghost pool0 = pool@;
            let ghost order0 = order@;
            proof {
                assert forall|k: int| 0 <= k < pool0.len() && k != best implies ranks_before(peers, seeding, chosen as int, #[trigger] pool0[k] as int) by {
                    if k < best {
                        assert(pool0[k] < pool0[best as int]);
                    } else {
                        assert(pool0[best as int] < pool0[k]);
                    }
                }
            }
            pool.remove(best);
            order.push(chosen);
            proof {
                assert forall|k: int| 0 <= k < pool@.len() implies #[trigger] pool@[k] == if k < best { pool0[k] } else { pool0[k + 1] } by {}
                assert forall|a: int, b2: int| 0 <= a < b2 < pool@.len() implies pool@[a] < pool@[b2] by {
                    let oa = if a < best { a } else { a + 1 };
                    let ob = if b2 < best { b2 } else { b2 + 1 };
                    assert(pool@[a] == pool0[oa]);
                    assert(pool@[b2] == pool0[ob]);
                }
                assert forall|a: int, b2: int| 0 <= a < order@.len() && 0 <= b2 < pool@.len() implies ranks_before(peers, seeding, #[trigger] order@[a] as int, #[trigger] pool@[b2] as int) by {
                    let ob = if b2 < best { b2 } else { b2 + 1 };
                    assert(pool@[b2] == pool0[ob]);
                    if a < order0.len() {
                        assert(order@[a] == order0[a]);
                    } else {
                        assert(order@[a] == chosen);
                    }
                }
                assert forall|a: int, b2: int| 0 <= a < b2 < order@.len() implies ranks_before(peers, seeding, #[trigger] order@[a] as int, #[trigger] order@[b2] as int) by {
                    if b2 == order0.len() {
                        assert(order@[b2] == chosen);
                        assert(order@[a] == order0[a]);
                        assert(ranks_before(peers, seeding, order0[a] as int, pool0[best as int] as int));
                    } else {
                        assert(order@[a] == order0[a]);
                        assert(order@[b2] == order0[b2]);
                    }
                }
                assert forall|a: int, b2: int| 0 <= a < order@.len() && 0 <= b2 < pool@.len() implies #[trigger] order@[a] != #[trigger] pool@[b2] by {
                    let ob = if b2 < best { b2 } else { b2 + 1 };
                    assert(pool@[b2] == pool0[ob]);
                    if a < order0.len() {
                        assert(order@[a] == order0[a]);
                    } else {
                        assert(pool0[best as int] != pool0[ob]);
                    }
                }
                assert(order@.no_duplicates()) by {
                    assert forall|a: int, b2: int| 0 <= a < order@.len() && 0 <= b2 < order@.len() && a != b2 implies order@[a] != order@[b2] by {
                        if a < order0.len() && b2 < order0.len() {
                        } else if a < order0.len() {
                            assert(order0[a] != pool0[best as int]);
                        } else if b2 < order0.len() {
                            assert(order0[b2] != pool0[best as int]);
                        }
                    }
                }
                assert forall|q: int| 0 <= q < peers.len() && #[trigger] peers[q].peer_is_interested_in_us implies pool@.contains(q as usize) || order@.contains(q as usize) by {
                    if order0.contains(q as usize) {
                        let k = choose|k: int| 0 <= k < order0.len() && order0[k] == q as usize;
                        assert(order@[k] == q as usize);
                    } else {
                        let k = choose|k: int| 0 <= k < pool0.len() && pool0[k] == q as usize;
                        if k == best {
                            assert(order@[order0.len() as int] == q as usize);
                        } else if k < best {
                            assert(pool@[k] == q as usize);
                        } else {
                            assert(pool@[k - 1] == q as usize);
                        }
                    }
                }
            }
        }
        order
    }


    /// The state and effects that `on_recalculate_chokes` leads to.
    pub open spec fn after_recalculate_chokes(before: TorrentState, after: TorrentState, upload_slots: usize, random_seed: u64, effects: Seq<EffectView>) -> bool {
        &&& after == (TorrentState {
            peers: after.peers,
            optimistic_unchoke_timer: after.optimistic_unchoke_timer,
            ..before
        })
        &&& same_uploads(before.peers@, after.peers@)
        &&& ({
            let seeding = before.torrent_status == TorrentStatus::Done;
            let due = before.optimistic_unchoke_timer matches Some(t) && since(before.now, t) > OPTIMISTIC_UNCHOKE_MS;
            exists|order: Seq<usize>|
                #![trigger ranked(before.peers@, seeding, order)]
                ranked(before.peers@, seeding, order) && ({
                    let pick = optimistic_pick(order, upload_slots as int, due, random_seed);
                    &&& after.peers@.len() == before.peers@.len()
                    &&& forall|j: int| 0 <= j < before.peers@.len() ==> #[trigger] after.peers@[j]
                        == after_round(before.peers@[j], unchoked_by(order, upload_slots as int, pick, j))
                    &&& effects =~= choke_effects(before.peers@, order, upload_slots as int, pick, before.peers@.len() as int)
                    &&& after.optimistic_unchoke_timer == if due { Some(before.now) } else { before.optimistic_unchoke_timer }
                })
        })
    }

    /// The choking round: the `upload_slots` best ranked interested peers are
    /// unchoked (ranked by what they gave us, or by what we sent them when
    /// seeding); every 30 s one more, picked by `random_seed` among the rest,
    /// gets the optimistic slot. Everyone else is choked; only changes are
    /// sent. The round counters start again from zero.
    #[verifier::spinoff_prover]
    pub fn on_recalculate_chokes(&mut self, upload_slots: usize, random_seed: u64) -> (effects: Vec<Effect>)
        requires
            old(self).wf(),
        ensures
            final(self).wf(),
            Self::after_recalculate_chokes(*old(self), *final(self), upload_slots, random_seed, views(effects@)),
    {
        let seeding = self.torrent_status == TorrentStatus::Done;
        let order = self.rank_interested(seeding);
        let m = if upload_slots < order.len() {
            upload_slots
        } else {
            order.len()
        };
        let due = match self.optimistic_unchoke_timer {
            Some(t) => self.now >= t && self.now - t > OPTIMISTIC_UNCHOKE_MS,
            None => false,
        };
        let mut pick: Option<usize> = None;
        if due {
            if order.len() > m {
                let rest = (order.len() - m) as u64;
                let offset = (random_seed % rest) as usize;
                pick = Some(order[m + offset]);
            }
            self.optimistic_unchoke_timer = Some(self.now);
        }
        proof {
            assert(pick == optimistic_pick(order@, upload_slots as int, due, random_seed));
        }
        let ghost peers0 = self.peers@;
        let mut effects: Vec<Effect> = Vec::new();
        let mut j: usize = 0;
        while j < self.peers.len()
            invariant
                j <= self.peers@.len(),
                self.peers@.len() == peers0.len(),
                peers_unique(peers0),
                ranked(peers0, seeding, order@),
                m == if upload_slots < order@.len() { upload_slots as int } else { order@.len() as int },
                forall|q: int| 0 <= q < j ==> #[trigger] self.peers@[q] == after_round(peers0[q], unchoked_by(order@, upload_slots as int, pick, q)),
                forall|q: int| j <= q < peers0.len() ==> self.peers@[q] == peers0[q],
                views(effects@) == choke_effects(peers0, order@, upload_slots as int, pick, j as int),
                peers0 == old(self).peers@,
                *self == (TorrentState {
                    peers: self.peers,
                    optimistic_unchoke_timer: self.optimistic_unchoke_timer,
                    ..*old(self)
                }),
                self.optimistic_unchoke_timer == if due { Some(old(self).now) } else { old(self).optimistic_unchoke_timer },
                pick == optimistic_pick(order@, upload_slots as int, due, random_seed),
                due == (old(self).optimistic_unchoke_timer matches Some(t) && since(old(self).now, t) > OPTIMISTIC_UNCHOKE_MS),
                seeding == (old(self).torrent_status == TorrentStatus::Done),
            decreases peers0.len() - j,
        {
            let mut chosen = match pick {
                Some(x) => x == j,
                None => false,
            };
            let mut k: usize = 0;
            while k < m
                invariant
                    k <= m,
                    m <= order@.len(),
                    chosen == (pick == Some(j) || order@.take(k as int).contains(j)),
                decreases m - k,
            {
                if order[k] == j {
                    chosen = true;
                }
                proof {
                    assert(order@.take(k + 1) =~= order@.take(k as int).push(order@[k as int]));
                    crate::torrent_manager::piece_manager::lemma_push_contains(order@.take(k as int), order@[k as int], j);
                }
                k = k + 1;
            }
            let ghost before = effects@;
            if chosen {
                if self.peers[j].am_choking == ChokeStatus::Choke {
                    self.peers[j].am_choking = ChokeStatus::Unchoke;
                    effects.push(Effect::SendToPeer { peer_id: self.peers[j].ip_port.clone(), cmd: TorrentCommand::PeerUnchoke });
                    proof {
                        lemma_views_push(before, effects@.last());
                    }
                }
            } else if self.peers[j].am_choking == ChokeStatus::Unchoke {
                self.peers[j].am_choking = ChokeStatus::Choke;
                effects.push(Effect::SendToPeer { peer_id: self.peers[j].ip_port.clone(), cmd: TorrentCommand::PeerChoke });
                proof {
                    lemma_views_push(before, effects@.last());
                }
            }
            self.peers[j].bytes_downloaded_from_peer = 0;
            self.peers[j].bytes_uploaded_to_peer = 0;
            proof {
                assert(self.peers@[j as int] == after_round(peers0[j as int], unchoked_by(order@, upload_slots as int, pick, j as int)));
                assert(views(effects@) =~= choke_effects(peers0, order@, upload_slots as int, pick, j + 1));
            }
            j = j + 1;
        }
        proof {
            assert forall|a: int, b: int| 0 <= a < self.peers@.len() && 0 <= b < self.peers@.len() && a != b implies #[trigger] self.peers@[a].ip_port@ != #[trigger] self.peers@[b].ip_port@ by {
                assert(self.peers@[a].ip_port == peers0[a].ip_port);
                assert(self.peers@[b].ip_port == peers0[b].ip_port);
            }
            assert(ranked(old(self).peers@, seeding, order@));
            assert(views(effects@) =~= choke_effects(peers0, order@, upload_slots as int, pick, peers0.len() as int));
            let ord = order@;
            assert(forall|q: int| 0 <= q < peers0.len() ==> #[trigger] self.peers@[q] == after_round(peers0[q], unchoked_by(ord, upload_slots as int, pick, q)));
            assert(same_uploads(peers0, self.peers@)) by {
                assert forall|q: int| 0 <= q < peers0.len() implies #[trigger] peers0[q].total_bytes_uploaded
                    == self.peers@[q].total_bytes_uploaded by {
                    assert(self.peers@[q] == after_round(peers0[q], unchoked_by(ord, upload_slots as int, pick, q)));
                }
            }
            assert(self.optimistic_unchoke_timer == if due { Some(old(self).now) } else { old(self).optimistic_unchoke_timer });
            assert(Self::after_recalculate_chokes(*old(self), *self, upload_slots, random_seed, views(effects@)));
        }
        effects
    }

}

} // verus!
