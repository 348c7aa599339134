use superseedr_core::torrent_identity::{
    info_hash_from_hash_text, info_hash_from_torrent_source, magnet_http_trackers,
    magnet_tracker_entries,
};

fn bytes_0_to_19() -> Vec<u8> {
    (0u8..20).collect()
}

#[test]
fn hex_hash_text_decodes_in_either_case() {
    let lower = "000102030405060708090a0b0c0d0e0f10111213";
    assert_eq!(info_hash_from_hash_text(lower), Some(bytes_0_to_19()));
    assert_eq!(info_hash_from_hash_text(&lower.to_uppercase()), Some(bytes_0_to_19()));
    assert_eq!(info_hash_from_hash_text("zz0102030405060708090a0b0c0d0e0f10111213"), None);
}

#[test]
fn base32_hash_text_decodes_in_either_case() {
    // 20 bytes 0..20 in base32.
    let text = "AAAQEAYEAUDAOCAJBIFQYDIOB4IBCEQT";
    assert_eq!(info_hash_from_hash_text(text), Some(bytes_0_to_19()));
    assert_eq!(info_hash_from_hash_text(&text.to_lowercase()), Some(bytes_0_to_19()));
    assert_eq!(info_hash_from_hash_text("AAAQEAYEAUDAOCAJBIFQYDIOB4IBCEQ1"), None);
}

#[test]
fn hash_text_of_other_lengths_is_refused() {
    assert_eq!(info_hash_from_hash_text(""), None);
    assert_eq!(info_hash_from_hash_text("0001"), None);
}

#[test]
fn magnet_links_give_their_info_hash() {
    let magnet = "magnet:?xt=urn:btih:000102030405060708090a0b0c0d0e0f10111213&dn=test";
    assert_eq!(info_hash_from_torrent_source(magnet), Some(bytes_0_to_19()));
    let base32 = "magnet:?xt=urn:btih:AAAQEAYEAUDAOCAJBIFQYDIOB4IBCEQT";
    assert_eq!(info_hash_from_torrent_source(base32), Some(bytes_0_to_19()));
    assert_eq!(info_hash_from_torrent_source("/tmp/file.torrent"), None);
}

#[test]
fn magnet_trackers_keep_decoded_http_ones_once() {
    let link = "magnet:?xt=urn:btih:0000000000000000000000000000000000000000\
        &tr=http%3A%2F%2Ftracker.example%2Fannounce\
        &tr=udp%3A%2F%2Fudp.example%3A80\
        &tr=http%3A%2F%2Ftracker.example%2Fannounce\
        &tr=https://b.example/ann\
        &tr=http%FF";
    assert_eq!(
        magnet_http_trackers(link),
        vec!["http://tracker.example/announce".to_string(), "https://b.example/ann".to_string()]
    );
    assert!(magnet_http_trackers("tr=http://a.example/").is_empty());
}

#[test]
fn magnet_tracker_table_is_due_now() {
    let link = "magnet:?xt=urn:btih:0000000000000000000000000000000000000000&tr=http://a.example/ann";
    let entries = magnet_tracker_entries(link, 5);
    assert_eq!(entries.len(), 1);
    assert_eq!(entries[0].url, "http://a.example/ann");
    assert_eq!(entries[0].state.next_announce_time, 5);
    assert_eq!(entries[0].state.leeching_interval, None);
    assert_eq!(entries[0].state.seeding_interval, None);
}

#[test]
fn magnet_links_of_other_hash_types_name_no_info_hash() {
    let sha256_topic = "magnet:?xt=urn:sha256:000102030405060708090a0b0c0d0e0f10111213";
    assert_eq!(info_hash_from_torrent_source(sha256_topic), None);
    assert_eq!(info_hash_from_torrent_source("xt=urn:btih:000102030405060708090a0b0c0d0e0f10111213"), None);
}
