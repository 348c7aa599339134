use superseedr_core::storage::MultiFileInfo;
use superseedr_core::torrent_file::InfoFile;

fn info_file(length: i64, path: &[&str], attr: Option<&str>) -> InfoFile {
    InfoFile {
        length,
        md5sum: None,
        path: path.iter().map(|s| s.to_string()).collect(),
        attr: attr.map(|a| a.to_string()),
    }
}

#[test]
fn test_multi_file_info_new_single() {
    let mfi = MultiFileInfo::new("/data", "single_file.txt", None, Some(100));
    assert_eq!(mfi.files.len(), 1);
    assert_eq!(mfi.total_size, 100);
    assert_eq!(mfi.files[0].length, 100);
    assert_eq!(mfi.files[0].global_start_offset, 0);
    assert_eq!(mfi.files[0].path, "/data/single_file.txt");
    assert!(!mfi.files[0].is_padding);
}

#[test]
fn test_multi_file_info_new_multi() {
    let files = vec![info_file(50, &["file_a.txt"], None), info_file(70, &["subdir", "file_b.txt"], None)];
    let mfi = MultiFileInfo::new("/data", "multi", Some(&files), None);
    assert_eq!(mfi.files.len(), 2);
    assert_eq!(mfi.total_size, 120);
    assert_eq!(mfi.files[0].length, 50);
    assert_eq!(mfi.files[0].global_start_offset, 0);
    assert_eq!(mfi.files[0].path, "/data/file_a.txt");
    assert!(!mfi.files[0].is_padding);
    assert_eq!(mfi.files[1].length, 70);
    assert_eq!(mfi.files[1].global_start_offset, 50);
    assert_eq!(mfi.files[1].path, "/data/subdir/file_b.txt");
    assert!(!mfi.files[1].is_padding);
}

#[test]
fn padding_files_are_marked() {
    let files = vec![
        info_file(10, &["a"], None),
        info_file(6, &[".pad", "6"], Some("p")),
        info_file(16, &["b"], Some("x")),
    ];
    let mfi = MultiFileInfo::new("root", "t", Some(&files), None);
    assert!(!mfi.files[0].is_padding);
    assert!(mfi.files[1].is_padding);
    assert!(!mfi.files[2].is_padding);
    assert_eq!(mfi.files[2].global_start_offset, 16);
    assert_eq!(mfi.total_size, 32);
}

#[test]
fn spans_cross_file_boundaries() {
    let files = vec![info_file(50, &["a"], None), info_file(70, &["b"], None)];
    let mfi = MultiFileInfo::new("/d", "t", Some(&files), None);
    assert_eq!(mfi.file_spans(40, 20), Some(vec![(0, 40, 10), (1, 0, 10)]));
    assert_eq!(mfi.file_spans(0, 120), Some(vec![(0, 0, 50), (1, 0, 70)]));
    assert_eq!(mfi.file_spans(60, 5), Some(vec![(1, 10, 5)]));
}

#[test]
fn spans_past_the_end_fail() {
    let files = vec![info_file(50, &["a"], None), info_file(70, &["b"], None)];
    let mfi = MultiFileInfo::new("/d", "t", Some(&files), None);
    assert_eq!(mfi.file_spans(100, 30), None);
    assert_eq!(mfi.file_spans(200, 1), None);
}
