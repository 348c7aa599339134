//! Whether to open a connection to a peer's address.
use vstd::prelude::*;
use super::{find_peer, peer_pos, peers_unique, ChokeStatus, PeerState, TorrentState};

verus! {

impl TorrentState {
    /// Whether the address `addr` is backing off after failed connections:
    /// one of its timeout entries names a next attempt after `now`.
    pub open spec fn backing_off(self, addr: Seq<char>) -> bool {
        exists|j: int|
            0 <= j < self.timed_out_peers@.len() && (#[trigger] self.timed_out_peers@[j]).addr@ == addr
                && self.now < self.timed_out_peers@[j].next_attempt
    }

    /// Whether the address `addr` is backing off now.
    pub fn is_backing_off(&self, addr: &String) -> (r: bool)
        ensures
            r == self.backing_off(addr@),
    {
        let mut i: usize = 0;
        while i < self.timed_out_peers.len()
            invariant
                i <= self.timed_out_peers@.len(),
                forall|j: int| 0 <= j < i ==> !((#[trigger] self.timed_out_peers@[j]).addr@ == addr@
                    && self.now < self.timed_out_peers@[j].next_attempt),
            decreases self.timed_out_peers@.len() - i,
        {
            let entry = &self.timed_out_peers[i];
            if entry.addr == *addr && self.now < entry.next_attempt {
                assert(self.timed_out_peers@[i as int].addr@ == addr@);
                return true;
            }
            i = i + 1;
        }
        false
    }

    /// Whether to open a connection to the address `addr`: never when a
    /// session with it exists, and, when `respect_backoff` is set, not while
    /// it is backing off after failed attempts.
    pub fn should_connect(&self, addr: &String, respect_backoff: bool) -> (r: bool)
        ensures
            r == (peer_pos(self.peers@, addr@) == -1 && !(respect_backoff && self.backing_off(addr@))),
    {
        if respect_backoff && self.is_backing_off(addr) {
            return false;
        }
        find_peer(&self.peers, addr).is_none()
    }

    /// Starts tracking a peer we are about to dial at `addr`: an address
    /// already tracked is left as it is (false); otherwise a fresh peer,
    /// choked both ways and created now, joins the end of the list (true).
    pub fn add_dialled_peer(&mut self, addr: String) -> (r: bool)
        requires
            old(self).wf(),
        ensures
            final(self).wf(),
            r == (peer_pos(old(self).peers@, addr@) == -1),
            !r ==> *final(self) == *old(self),
            r ==> {
                &&& *final(self) == (TorrentState { peers: final(self).peers, ..*old(self) })
                &&& final(self).peers@.len() == old(self).peers@.len() + 1
                &&& final(self).peers@.drop_last() == old(self).peers@
                &&& final(self).peers@.last().ip_port == addr
                &&& final(self).peers@.last().am_choking == ChokeStatus::Choke
                &&& final(self).peers@.last().peer_choking == ChokeStatus::Choke
                &&& final(self).peers@.last().pending_requests@.len() == 0
                &&& final(self).peers@.last().bitfield@.len() == 0
                &&& final(self).peers@.last().total_bytes_uploaded == 0
                &&& final(self).peers@.last().created_at == old(self).now
            },
    {
        if find_peer(&self.peers, &addr).is_some() {
            return false;
        }
        let ghost before = self.peers@;
        let peer = PeerState::new(addr, self.now);
        self.peers.push(peer);
        proof {
            assert(self.peers@.drop_last() =~= before);
            assert(peers_unique(self.peers@)) by {
                assert forall|a: int, b: int|
                    0 <= a < self.peers@.len() && 0 <= b < self.peers@.len() && a != b implies
                    #[trigger] self.peers@[a].ip_port@ != #[trigger] self.peers@[b].ip_port@ by {
                    if a < before.len() && b < before.len() {
                        assert(self.peers@[a] == before[a]);
                        assert(self.peers@[b] == before[b]);
                    } else if a < before.len() {
                        assert(self.peers@[a] == before[a]);
                    } else {
                        assert(self.peers@[b] == before[b]);
                    }
                }
            }
        }
        true
    }
}

} // verus!
