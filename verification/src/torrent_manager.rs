//! One torrent's download and upload bookkeeping: blocks, pieces, and the
//! reducer that turns protocol and disk events into effects.
use vstd::prelude::*;

pub mod block_manager;
pub mod piece_manager;
pub mod state;
pub mod merkle;
pub mod piece_check;
pub mod locations;

verus! {

/// A disk read or write of part of a piece.
#[derive(Debug, Clone, Copy, PartialEq, Eq, Structural)]
pub struct DiskIoOperation {
    pub piece_index: u32,
    pub offset: u64,
    pub length: usize,
}

/// What a torrent reports to the application.
#[derive(Debug, PartialEq, Eq)]
pub enum ManagerEvent {
    DeletionComplete(Vec<u8>, Result<(), String>),
    DiskReadStarted { info_hash: Vec<u8>, op: DiskIoOperation },
    DiskReadFinished,
    DiskWriteStarted { info_hash: Vec<u8>, op: DiskIoOperation },
    DiskWriteFinished,
    /// Disk work is backing off for this many milliseconds.
    DiskIoBackoff { duration_ms: u64 },
    PeerDiscovered { info_hash: Vec<u8> },
    PeerConnected { info_hash: Vec<u8> },
    PeerDisconnected { info_hash: Vec<u8> },
    BlockReceived { info_hash: Vec<u8> },
    BlockSent { info_hash: Vec<u8> },
}

/// A manager event with its byte fields as sequences.
pub enum ManagerEventView {
    DeletionComplete(Seq<u8>, Result<(), String>),
    DiskReadStarted { info_hash: Seq<u8>, op: DiskIoOperation },
    DiskReadFinished,
    DiskWriteStarted { info_hash: Seq<u8>, op: DiskIoOperation },
    DiskWriteFinished,
    DiskIoBackoff { duration_ms: u64 },
    PeerDiscovered { info_hash: Seq<u8> },
    PeerConnected { info_hash: Seq<u8> },
    PeerDisconnected { info_hash: Seq<u8> },
    BlockReceived { info_hash: Seq<u8> },
    BlockSent { info_hash: Seq<u8> },
}

impl View for ManagerEvent {
    type V = ManagerEventView;

    open spec fn view(&self) -> ManagerEventView {
        match self {
            ManagerEvent::DeletionComplete(h, r) => ManagerEventView::DeletionComplete(h@, *r),
            ManagerEvent::DiskReadStarted { info_hash, op } => ManagerEventView::DiskReadStarted {
                info_hash: info_hash@,
                op: *op,
            },
            ManagerEvent::DiskReadFinished => ManagerEventView::DiskReadFinished,
            ManagerEvent::DiskWriteStarted { info_hash, op } => ManagerEventView::DiskWriteStarted {
                info_hash: info_hash@,
                op: *op,
            },
            ManagerEvent::DiskWriteFinished => ManagerEventView::DiskWriteFinished,
            ManagerEvent::DiskIoBackoff { duration_ms } => ManagerEventView::DiskIoBackoff {
                duration_ms: *duration_ms,
            },
            ManagerEvent::PeerDiscovered { info_hash } => ManagerEventView::PeerDiscovered {
                info_hash: info_hash@,
            },
            ManagerEvent::PeerConnected { info_hash } => ManagerEventView::PeerConnected {
                info_hash: info_hash@,
            },
            ManagerEvent::PeerDisconnected { info_hash } => ManagerEventView::PeerDisconnected {
                info_hash: info_hash@,
            },
            ManagerEvent::BlockReceived { info_hash } => ManagerEventView::BlockReceived {
                info_hash: info_hash@,
            },
            ManagerEvent::BlockSent { info_hash } => ManagerEventView::BlockSent {
                info_hash: info_hash@,
            },
        }
    }
}

} // verus!
