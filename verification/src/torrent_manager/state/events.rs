//! What a torrent's timers and its controller's commands turn into: the
//! actions handed to `TorrentState::update`, and the peer-exchange list.
use vstd::prelude::*;
use super::{Action, PeerState, TorrentState, TorrentStatus};

verus! {

/// Something that reaches a running torrent from outside the protocol.
#[derive(Debug, Clone)]
pub enum ManagerInput {
    /// The data timer fired, `dt_ms` after the last time.
    DataTick { dt_ms: u64 },
    /// The cleanup timer fired.
    CleanupTick,
    /// The choking timer fired.
    ChokeTick { upload_slots: usize, random_seed: u64 },
    /// The client asks the torrent to listen on `new_port`; it listens on
    /// `current_port` now.
    ListenPort { current_port: u16, new_port: u16 },
    Pause,
    Resume,
    Delete,
}

/// The addresses of the peers whose requests are all answered, in order.
pub open spec fn idle_peers(peers: Seq<PeerState>) -> Seq<String>
    decreases peers.len(),
{
    if peers.len() == 0 {
        seq![]
    } else {
        let prev = idle_peers(peers.drop_last());
        if peers.last().pending_requests@.len() == 0 {
            prev.push(peers.last().ip_port)
        } else {
            prev
        }
    }
}

/// Work for each of the given peers, in order.
pub open spec fn assign_all(ids: Seq<String>) -> Seq<Action> {
    ids.map_values(|id: String| Action::AssignWork { peer_id: id })
}

impl TorrentState {
    /// The actions an input gives, in the order they are applied. Timers do
    /// nothing while the torrent is paused. On a data tick in endgame every
    /// idle peer is first given work; a listen port is only updated when it
    /// changes.
    pub open spec fn spec_input_actions(self, input: ManagerInput) -> Seq<Action> {
        match input {
            ManagerInput::DataTick { dt_ms } => if self.is_paused {
                seq![]
            } else if self.torrent_status == TorrentStatus::Endgame {
                assign_all(idle_peers(self.peers@)).push(Action::Tick { dt_ms })
            } else {
                seq![Action::Tick { dt_ms }]
            },
            ManagerInput::CleanupTick => if self.is_paused {
                seq![]
            } else {
                seq![Action::Cleanup]
            },
            ManagerInput::ChokeTick { upload_slots, random_seed } => if self.is_paused {
                seq![]
            } else {
                seq![Action::RecalculateChokes { upload_slots, random_seed }]
            },
            ManagerInput::ListenPort { current_port, new_port } => if current_port != new_port {
                seq![Action::UpdateListenPort]
            } else {
                seq![]
            },
            ManagerInput::Pause => seq![Action::Pause],
            ManagerInput::Resume => seq![Action::Resume],
            ManagerInput::Delete => seq![Action::Delete],
        }
    }

    /// The actions an input gives (see `spec_input_actions`).
    pub fn input_actions(&self, input: ManagerInput) -> (r: Vec<Action>)
        ensures
            r@ == self.spec_input_actions(input),
    {
        let mut r: Vec<Action> = Vec::new();
        match input {
            ManagerInput::DataTick { dt_ms } => {
                if self.is_paused {
                    return r;
                }
                if self.torrent_status == TorrentStatus::Endgame {
                    let mut i: usize = 0;
                    while i < self.peers.len()
                        invariant
                            i <= self.peers@.len(),
                            r@ == assign_all(idle_peers(self.peers@.take(i as int))),
                        decreases self.peers@.len() - i,
                    {
                        proof {
                            assert(self.peers@.take(i + 1).drop_last() =~= self.peers@.take(i as int));
                        }
                        if self.peers[i].pending_requests.len() == 0 {
                            let ghost before = r@;
                            r.push(Action::AssignWork { peer_id: self.peers[i].ip_port.clone() });
                            proof {
                                assert(r@ =~= assign_all(idle_peers(self.peers@.take(i + 1))));
                            }
                        } else {
                            proof {
                                assert(r@ =~= assign_all(idle_peers(self.peers@.take(i + 1))));
                            }
                        }
                        i = i + 1;
                    }
                    proof {
                        assert(self.peers@.take(i as int) =~= self.peers@);
                    }
                }
                r.push(Action::Tick { dt_ms });
            },
            ManagerInput::CleanupTick => {
                if !self.is_paused {
                    r.push(Action::Cleanup);
                }
            },
            ManagerInput::ChokeTick { upload_slots, random_seed } => {
                if !self.is_paused {
                    r.push(Action::RecalculateChokes { upload_slots, random_seed });
                }
            },
            ManagerInput::ListenPort { current_port, new_port } => {
                if current_port != new_port {
                    r.push(Action::UpdateListenPort);
                }
            },
            ManagerInput::Pause => {
                r.push(Action::Pause);
            },
            ManagerInput::Resume => {
                r.push(Action::Resume);
            },
            ManagerInput::Delete => {
                r.push(Action::Delete);
            },
        }
        proof {
            assert(r@ =~= self.spec_input_actions(input));
        }
        r
    }

    /// The peer-exchange list sent to every peer when the exchange timer
    /// fires: every peer's address, in order; nothing while paused or with
    /// fewer than two peers.
    pub fn pex_peers(&self) -> (r: Option<Vec<String>>)
        ensures
            match r {
                None => self.is_paused || self.peers@.len() < 2,
                Some(v) => !self.is_paused && self.peers@.len() >= 2 && v@ == self.peers@.map_values(
                    |p: PeerState| p.ip_port,
                ),
            },
    {
        if self.is_paused || self.peers.len() < 2 {
            return None;
        }
        let mut v: Vec<String> = Vec::new();
        let mut i: usize = 0;
        while i < self.peers.len()
            invariant
                i <= self.peers@.len(),
                v@ == self.peers@.take(i as int).map_values(|p: PeerState| p.ip_port),
            decreases self.peers@.len() - i,
        {
            v.push(self.peers[i].ip_port.clone());
            i = i + 1;
            proof {
                assert(v@ =~= self.peers@.take(i as int).map_values(|p: PeerState| p.ip_port));
            }
        }
        proof {
            assert(self.peers@.take(i as int) =~= self.peers@);
        }
        Some(v)
    }
}

} // verus!
