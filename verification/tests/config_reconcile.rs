use superseedr_core::config::{FilePriority, Settings, TorrentControlState, TorrentSettings};
use superseedr_core::config_reconcile::{
    configured_watch_path_changes, diff_torrent_configs, effective_torrent_runtime_config,
    TorrentConfigChange,
};

fn priority_of(list: &[(usize, FilePriority)], file: usize) -> Option<FilePriority> {
    list.iter().find(|(i, _)| *i == file).map(|(_, p)| *p)
}

#[test]
fn effective_runtime_config_uses_default_download_folder_when_torrent_override_is_missing() {
    let settings = Settings {
        default_download_folder: Some("/downloads".to_string()),
        ..Default::default()
    };
    let torrent = TorrentSettings {
        file_priorities: vec![(1, FilePriority::High)],
        container_name: Some("sample".to_string()),
        ..Default::default()
    };

    let config = effective_torrent_runtime_config(&settings, &torrent).expect("runtime config");
    assert_eq!(config.torrent_data_path, "/downloads");
    assert_eq!(priority_of(&config.file_priorities, 1), Some(FilePriority::High));
    assert_eq!(config.container_name.as_deref(), Some("sample"));
}

#[test]
fn diff_torrent_configs_materializes_runtime_update_for_default_folder_torrent() {
    let old_settings = Settings {
        default_download_folder: Some("/downloads".to_string()),
        torrents: vec![TorrentSettings {
            torrent_or_magnet: "magnet:?xt=urn:btih:1111111111111111111111111111111111111111".to_string(),
            name: "Sample".to_string(),
            ..Default::default()
        }],
        ..Default::default()
    };
    let new_settings = Settings {
        default_download_folder: Some("/downloads".to_string()),
        torrents: vec![TorrentSettings {
            torrent_or_magnet: "magnet:?xt=urn:btih:1111111111111111111111111111111111111111".to_string(),
            name: "Sample".to_string(),
            file_priorities: vec![(2, FilePriority::Skip)],
            container_name: Some("sample".to_string()),
            torrent_control_state: TorrentControlState::Paused,
            ..Default::default()
        }],
        ..Default::default()
    };

    let changes = diff_torrent_configs(&old_settings, &new_settings);
    assert_eq!(changes.len(), 1);
    match &changes[0] {
        TorrentConfigChange::Updated { runtime_config, control_state_changed, .. } => {
            let runtime_config = runtime_config.as_ref().expect("runtime config");
            assert_eq!(runtime_config.torrent_data_path, "/downloads");
            assert_eq!(priority_of(&runtime_config.file_priorities, 2), Some(FilePriority::Skip));
            assert_eq!(runtime_config.container_name.as_deref(), Some("sample"));
            assert!(*control_state_changed);
        }
        other => panic!("expected updated change, got {other:?}"),
    }
}

#[test]
fn configured_watch_path_changes_tracks_additions_and_removals() {
    let old_settings = Settings { watch_folder: Some("/watch-a".to_string()), ..Default::default() };
    let new_settings = Settings { watch_folder: Some("/watch-b".to_string()), ..Default::default() };

    let changes = configured_watch_path_changes(&old_settings, &new_settings);
    assert!(changes.removed.contains(&"/watch-a".to_string()));
    assert!(changes.added.contains(&"/watch-b".to_string()));
}

#[test]
fn unchanged_watch_folder_is_no_change() {
    let settings = Settings { watch_folder: Some("/watch".to_string()), ..Default::default() };
    let changes = configured_watch_path_changes(&settings, &settings.clone());
    assert!(changes.added.is_empty());
    assert!(changes.removed.is_empty());
}

fn magnet_torrent(hash: &str, name: &str) -> TorrentSettings {
    TorrentSettings {
        torrent_or_magnet: format!("magnet:?xt=urn:btih:{hash}"),
        name: name.to_string(),
        ..Default::default()
    }
}

#[test]
fn diff_reports_additions_and_removals_by_info_hash() {
    let a = "a".repeat(40);
    let b = "b".repeat(40);
    let old_settings = Settings { torrents: vec![magnet_torrent(&a, "A")], ..Default::default() };
    let new_settings = Settings { torrents: vec![magnet_torrent(&b, "B")], ..Default::default() };
    let changes = diff_torrent_configs(&old_settings, &new_settings);
    assert_eq!(changes.len(), 2);
    match &changes[0] {
        TorrentConfigChange::Removed { info_hash, previous } => {
            assert_eq!(info_hash, &vec![0xaa; 20]);
            assert_eq!(previous.name, "A");
        }
        other => panic!("expected a removal, got {other:?}"),
    }
    match &changes[1] {
        TorrentConfigChange::Added { info_hash, current } => {
            assert_eq!(info_hash, &vec![0xbb; 20]);
            assert_eq!(current.name, "B");
        }
        other => panic!("expected an addition, got {other:?}"),
    }
}

#[test]
fn diff_ignores_identical_torrents_and_unparsable_sources() {
    let a = "A".repeat(40);
    let mut settings = Settings { torrents: vec![magnet_torrent(&a, "A")], ..Default::default() };
    settings.torrents.push(TorrentSettings {
        torrent_or_magnet: "/files/some.torrent".to_string(),
        ..Default::default()
    });
    assert!(diff_torrent_configs(&settings, &settings.clone()).is_empty());
}

#[test]
fn base32_and_hex_sources_name_the_same_hash() {
    // 20 zero bytes: 40 hex zeros, or 32 base32 'a's (any case).
    let hex = "0".repeat(40);
    let b32 = "a".repeat(32);
    let old_settings = Settings { torrents: vec![magnet_torrent(&hex, "X")], ..Default::default() };
    let new_settings = Settings { torrents: vec![magnet_torrent(&b32, "X")], ..Default::default() };
    let changes = diff_torrent_configs(&old_settings, &new_settings);
    assert!(matches!(&changes[0], TorrentConfigChange::Updated { .. }));
    assert_eq!(changes.len(), 1);
}
