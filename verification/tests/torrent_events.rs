use superseedr_core::torrent_manager::state::events::ManagerInput;
use superseedr_core::torrent_manager::state::{Action, PeerState, TorrentState, TorrentStatus};

fn state_with(peers: &[&str]) -> TorrentState {
    let mut state = TorrentState::default();
    for p in peers {
        state.peers.push(PeerState::new(p.to_string(), 0));
    }
    state
}

#[test]
fn endgame_data_tick_gives_idle_peers_work_first() {
    let mut state = state_with(&["a:1", "b:2"]);
    state.torrent_status = TorrentStatus::Endgame;
    state.peers[1].pending_requests.insert(3);
    let actions = state.input_actions(ManagerInput::DataTick { dt_ms: 250 });
    assert_eq!(actions.len(), 2);
    assert!(matches!(&actions[0], Action::AssignWork { peer_id } if peer_id == "a:1"));
    assert!(matches!(actions[1], Action::Tick { dt_ms: 250 }));
    state.torrent_status = TorrentStatus::Standard;
    let actions = state.input_actions(ManagerInput::DataTick { dt_ms: 250 });
    assert_eq!(actions.len(), 1);
}

#[test]
fn timers_do_nothing_while_paused() {
    let mut state = state_with(&["a:1", "b:2"]);
    state.is_paused = true;
    assert!(state.input_actions(ManagerInput::DataTick { dt_ms: 1 }).is_empty());
    assert!(state.input_actions(ManagerInput::CleanupTick).is_empty());
    assert!(state.input_actions(ManagerInput::ChokeTick { upload_slots: 4, random_seed: 1 }).is_empty());
    assert_eq!(state.pex_peers(), None);
    assert_eq!(state.input_actions(ManagerInput::Resume).len(), 1);
}

#[test]
fn listen_port_updates_only_when_it_changes() {
    let state = state_with(&[]);
    assert!(state.input_actions(ManagerInput::ListenPort { current_port: 6881, new_port: 6881 }).is_empty());
    let actions = state.input_actions(ManagerInput::ListenPort { current_port: 6881, new_port: 6882 });
    assert!(matches!(actions.as_slice(), [Action::UpdateListenPort]));
}

#[test]
fn peer_exchange_needs_two_peers() {
    assert_eq!(state_with(&["a:1"]).pex_peers(), None);
    assert_eq!(
        state_with(&["a:1", "b:2"]).pex_peers(),
        Some(vec!["a:1".to_string(), "b:2".to_string()])
    );
}
