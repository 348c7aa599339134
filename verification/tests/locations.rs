use superseedr_core::torrent_manager::locations::{should_remove_content_folder, web_seed_full_url};

#[test]
fn web_seed_folder_urls_get_the_torrent_name() {
    assert_eq!(web_seed_full_url("http://seed.example/files/", "movie.mkv"), "http://seed.example/files/movie.mkv");
    assert_eq!(web_seed_full_url("http://seed.example/movie.mkv", "movie.mkv"), "http://seed.example/movie.mkv");
    assert_eq!(web_seed_full_url("", "x"), "");
}

#[test]
fn content_folder_goes_only_with_all_files_of_a_multi_file_torrent() {
    assert!(should_remove_content_folder(true, 2, true));
    assert!(!should_remove_content_folder(true, 1, true));
    assert!(!should_remove_content_folder(false, 3, true));
    assert!(!should_remove_content_folder(true, 3, false));
}
