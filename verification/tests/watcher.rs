use sha1::{Digest, Sha1};
use superseedr_core::integrations::cli::watch_file_name;
use superseedr_core::integrations::rss_url_safety::{ip_is_safe, resolved_ips_are_safe, IpAddress};
use superseedr_core::theme::ThemeName;
use superseedr_core::config::{get_watch_path, Settings};
use superseedr_core::integrations::watcher::{path_to_command, AppCommand};

#[test]
fn test_path_to_command_extensions() {
    let cmd = path_to_command("/tmp/watch/ubuntu.torrent", true);
    assert!(matches!(cmd, Some(AppCommand::AddTorrentFromFile(_))));
    let cmd = path_to_command("/tmp/watch/meta.magnet", true);
    assert!(matches!(cmd, Some(AppCommand::AddMagnetFromFile(_))));
    let cmd = path_to_command("/tmp/watch/job.path", true);
    assert!(matches!(cmd, Some(AppCommand::AddTorrentFromPathFile(_))));
}

#[test]
fn test_path_to_command_special_files() {
    let cmd = path_to_command("/tmp/watch/forwarded_port", true);
    assert!(matches!(cmd, Some(AppCommand::PortFileChanged(_))));
    let cmd = path_to_command("/tmp/watch/shutdown.cmd", true);
    assert!(matches!(cmd, Some(AppCommand::ClientShutdown(_))));
}

#[test]
fn test_path_to_command_ignored() {
    assert!(path_to_command("/tmp/watch/file.torrent.tmp", true).is_none());
    assert!(path_to_command("/tmp/watch/image.png", true).is_none());
    assert!(path_to_command("/tmp/test_dir_ignore", false).is_none());
}

#[test]
fn hidden_and_other_commands_are_ignored() {
    assert!(path_to_command("/tmp/watch/.hidden.torrent", true).is_none());
    assert!(path_to_command("/tmp/watch/other.cmd", true).is_none());
    assert!(path_to_command("/tmp/watch/noext", true).is_none());
    assert!(path_to_command("/tmp/watch/..", true).is_none());
}

#[test]
fn command_carries_the_path() {
    match path_to_command("w/a.torrent", true) {
        Some(AppCommand::AddTorrentFromFile(p)) => assert_eq!(p, "w/a.torrent"),
        other => panic!("unexpected {other:?}"),
    }
}

#[test]
fn watch_paths_live_in_the_data_folder() {
    let paths = Some(("/cfg".to_string(), "/data".to_string()));
    let (watch, processed) = get_watch_path(&paths).unwrap();
    assert_eq!(watch, "/data/watch_files");
    assert_eq!(processed, "/data/processed_files");
    let slash = Some(("/cfg".to_string(), "/data/".to_string()));
    assert_eq!(get_watch_path(&slash).unwrap().0, "/data/watch_files");
    assert!(get_watch_path(&None).is_none());
}

#[test]
fn default_settings_values() {
    let s = Settings::default();
    assert_eq!(s.client_port, 6681);
    assert_eq!(s.max_connected_peers, 2000);
    assert_eq!(s.bootstrap_nodes.len(), 5);
    assert_eq!(s.upload_slots, 8);
    assert!(s.torrents.is_empty());
}

#[test]
fn watch_file_names_hash_the_content() {
    let magnet = "magnet:?xt=urn:btih:0000000000000000000000000000000000000000";
    let expected = format!("{}.magnet", hex::encode(Sha1::digest(magnet.as_bytes())));
    assert_eq!(watch_file_name(magnet, "magnet"), expected);
    assert_eq!(watch_file_name("", "path"), "da39a3ee5e6b4b0d3255bfef95601890afd80709.path");
}

#[test]
fn default_theme_is_catppuccin() {
    assert_eq!(ThemeName::default(), ThemeName::CatppuccinMocha);
}


#[test]
fn ip_guard_rejects_private_and_accepts_public_literals() {
    assert!(!ip_is_safe(IpAddress::V4([127, 0, 0, 1])));
    assert!(!ip_is_safe(IpAddress::V4([192, 168, 1, 20])));
    assert!(!ip_is_safe(IpAddress::V6([0, 0, 0, 0, 0, 0, 0, 1])));
    assert!(ip_is_safe(IpAddress::V4([8, 8, 8, 8])));
}

#[test]
fn resolved_host_guard_rejects_any_private_result() {
    let mixed = vec![IpAddress::V4([93, 184, 216, 34]), IpAddress::V4([10, 0, 0, 8])];
    assert!(!resolved_ips_are_safe(&mixed));
}

#[test]
fn resolved_host_guard_accepts_all_public_results() {
    let public = vec![IpAddress::V4([93, 184, 216, 34]), IpAddress::V4([1, 1, 1, 1])];
    assert!(resolved_ips_are_safe(&public));
    assert!(!resolved_ips_are_safe(&Vec::new()));
}

#[test]
fn v6_internal_ranges() {
    assert!(!ip_is_safe(IpAddress::V6([0xfe80, 0, 0, 0, 0, 0, 0, 1])));
    assert!(!ip_is_safe(IpAddress::V6([0xfd00, 1, 0, 0, 0, 0, 0, 1])));
    assert!(!ip_is_safe(IpAddress::V6([0xff02, 0, 0, 0, 0, 0, 0, 1])));
    assert!(ip_is_safe(IpAddress::V6([0x2001, 0x4860, 0, 0, 0, 0, 0, 0x8888])));
}
