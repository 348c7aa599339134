//! Commands the torrent logic sends to a peer session.
use vstd::prelude::*;

verus! {

/// A command for one peer session.
#[derive(Debug, PartialEq, Eq, Clone)]
pub enum TorrentCommand {
    /// Stop choking the peer.
    PeerUnchoke,
    /// Choke the peer.
    PeerChoke,
    /// Tell the peer we are not interested any more.
    NotInterested,
    /// Tell the peer we are interested.
    ClientInterested,
    /// Download a piece: its index, the piece length and the torrent's total length.
    RequestDownload(u32, i64, i64),
    /// Cancel the requests for a piece.
    Cancel(u32),
}

} // verus!
