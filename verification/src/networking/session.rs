//! Peer sessions: who opened the connection, and the extension messages a
//! session answers itself.
use vstd::prelude::*;

pub mod extension;
pub mod events;

verus! {

/// Who opened a peer connection.
#[derive(Debug, Clone, Copy, PartialEq, Eq, Structural)]
pub enum ConnectionType {
    /// We dialled the peer.
    Outgoing,
    /// The peer dialled us.
    Incoming,
}

} // verus!
