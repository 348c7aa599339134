use superseedr_core::torrent_file::metainfo::{metainfo_info_dict, MetainfoError};
use superseedr_core::torrent_file::parser::polyfill_v2_files;
use superseedr_core::torrent_file::{BencodeValue, Info, InfoFile, Torrent};

fn create_test_info(meta_version: Option<i64>) -> Info {
    Info {
        piece_length: 16384,
        pieces: Vec::new(),
        private: None,
        files: Vec::new(),
        name: "test_torrent".to_string(),
        length: 0,
        md5sum: None,
        meta_version,
        file_tree: None,
    }
}

fn build_v2_file_node(length: i64, root: Vec<u8>) -> BencodeValue {
    let meta = vec![
        (b"length".to_vec(), BencodeValue::Int(length)),
        (b"pieces root".to_vec(), BencodeValue::Bytes(root)),
    ];
    BencodeValue::Dict(vec![(vec![], BencodeValue::Dict(meta))])
}

fn torrent_with(info: Info) -> Torrent {
    Torrent {
        info_dict_bencode: vec![],
        info,
        announce: None,
        announce_list: None,
        url_list: None,
        creation_date: None,
        comment: None,
        created_by: None,
        encoding: None,
        piece_layers: None,
    }
}

#[test]
fn test_v2_piece_count_calculation() {
    let mut torrent = torrent_with(create_test_info(Some(2)));
    let tree = vec![
        (b"a.txt".to_vec(), build_v2_file_node(1000, vec![0xAA; 32])),
        (b"b.txt".to_vec(), build_v2_file_node(1000, vec![0xBB; 32])),
    ];
    torrent.info.file_tree = Some(BencodeValue::Dict(tree));

    let mapping = torrent.calculate_v2_mapping();

    assert_eq!(mapping.piece_count, 2);
    assert_eq!(torrent.total_piece_count(mapping.piece_count), 2);
    let roots_0 = mapping.piece_to_roots.get(0).unwrap();
    let roots_1 = mapping.piece_to_roots.get(1).unwrap();
    assert_eq!(roots_0[0].2, vec![0xAA; 32]);
    assert_eq!(roots_1[0].2, vec![0xBB; 32]);
}

#[test]
fn test_hybrid_piece_count_prioritizes_v1_string() {
    let mut torrent = torrent_with(create_test_info(Some(2)));
    torrent.info.pieces = vec![0u8; 200];
    let v2_count = 5;
    assert_eq!(torrent.total_piece_count(v2_count), 10);
}

#[test]
fn test_deterministic_v2_sorting() {
    let mut torrent = torrent_with(create_test_info(Some(2)));
    let tree = vec![
        (b"z.txt".to_vec(), build_v2_file_node(1000, vec![0x5A; 32])),
        (b"a.txt".to_vec(), build_v2_file_node(1000, vec![0xAA; 32])),
    ];
    torrent.info.file_tree = Some(BencodeValue::Dict(tree));

    let mapping = torrent.calculate_v2_mapping();

    let roots_0 = mapping.piece_to_roots.get(0).expect("Piece 0 mapping missing");
    assert_eq!(roots_0[0].2, vec![0xAA; 32]);
    let roots_1 = mapping.piece_to_roots.get(1).expect("Piece 1 mapping missing");
    assert_eq!(roots_1[0].2, vec![0x5A; 32]);
}

#[test]
fn test_v2_mapping_with_empty_files() {
    let mut torrent = torrent_with(create_test_info(Some(2)));
    let tree = vec![
        (b"empty.txt".to_vec(), build_v2_file_node(0, vec![0x00; 32])),
        (b"real.txt".to_vec(), build_v2_file_node(1000, vec![0xAA; 32])),
    ];
    torrent.info.file_tree = Some(BencodeValue::Dict(tree));

    let mapping = torrent.calculate_v2_mapping();

    assert_eq!(mapping.piece_count, 1);
    assert_eq!(mapping.piece_to_roots.get(0).unwrap()[0].2, vec![0xAA; 32]);
}

fn hybrid_tree() -> BencodeValue {
    let folder = BencodeValue::Dict(vec![(b"file_a.txt".to_vec(), build_v2_file_node(1000, vec![0xAA; 32]))]);
    BencodeValue::Dict(vec![
        (b"folder".to_vec(), folder),
        (b"file_b.txt".to_vec(), build_v2_file_node(2000, vec![0xBB; 32])),
    ])
}

#[test]
fn polyfill_turns_a_v2_tree_into_padded_files() {
    let mut info = create_test_info(Some(2));
    info.name = "v2_test_torrent".to_string();
    info.file_tree = Some(hybrid_tree());
    let mut torrent = torrent_with(info);

    polyfill_v2_files(&mut torrent);

    assert_eq!(torrent.info.files.len(), 4, "Should have 2 real files + 2 padding files");
    let paths: Vec<Vec<String>> = torrent.info.files.iter().map(|f| f.path.clone()).collect();
    assert!(paths.contains(&vec!["file_b.txt".to_string()]));
    assert!(paths.contains(&vec!["folder".to_string(), "file_a.txt".to_string()]));
    let len_sum: i64 = torrent.info.files.iter().map(|f| f.length).sum();
    assert_eq!(len_sum, 32768);
    assert_eq!(torrent.info.total_length(), 32768);
    // Sorted by path: "file_b.txt" before "folder/file_a.txt".
    assert_eq!(torrent.info.files[0].path, vec!["file_b.txt".to_string()]);
    assert_eq!(torrent.info.files[1].path, vec![".pad".to_string(), "14384".to_string()]);
    assert_eq!(torrent.info.files[1].attr.as_deref(), Some("p"));
}

#[test]
fn polyfill_leaves_v1_file_lists_alone() {
    let mut info = create_test_info(None);
    info.files = vec![InfoFile { length: 5, md5sum: None, path: vec!["x".to_string()], attr: None }];
    info.file_tree = Some(hybrid_tree());
    let mut torrent = torrent_with(info);
    polyfill_v2_files(&mut torrent);
    assert_eq!(torrent.info.files.len(), 1);
}

#[test]
fn v2_roots_and_tree_size() {
    let mut info = create_test_info(Some(2));
    info.file_tree = Some(hybrid_tree());
    let torrent = torrent_with(info);
    let roots = torrent.get_v2_roots();
    assert_eq!(roots.len(), 2);
    assert!(roots.contains(&("folder/file_a.txt".to_string(), 1000, vec![0xAA; 32])));
    assert!(roots.contains(&("file_b.txt".to_string(), 2000, vec![0xBB; 32])));
    assert_eq!(torrent.info.total_length(), 3000);
}

#[test]
fn layer_hashes_are_found_by_root() {
    let mut torrent = torrent_with(create_test_info(Some(2)));
    torrent.piece_layers = Some(BencodeValue::Dict(vec![
        (vec![0xAA; 32], BencodeValue::Bytes(vec![0x11; 32])),
        (vec![0xBB; 32], BencodeValue::Int(3)),
    ]));
    assert_eq!(torrent.get_layer_hashes(&[0xAA; 32]), Some(vec![0x11; 32]));
    assert_eq!(torrent.get_layer_hashes(&[0xBB; 32]), None);
    assert_eq!(torrent.get_layer_hashes(&[0xCC; 32]), None);
}

#[test]
fn piece_count_falls_back_to_length() {
    let mut info = create_test_info(None);
    info.length = 16385;
    let torrent = torrent_with(info);
    assert_eq!(torrent.total_piece_count(0), 2);
    let mut one_file = create_test_info(None);
    one_file.files = vec![
        InfoFile { length: 10, md5sum: None, path: vec!["a".to_string()], attr: None },
        InfoFile { length: 20, md5sum: None, path: vec!["b".to_string()], attr: None },
    ];
    assert_eq!(one_file.total_length(), 30);
}

#[test]
fn mapping_offsets_follow_file_starts() {
    let mut torrent = torrent_with(create_test_info(Some(2)));
    let tree = vec![
        (b"a".to_vec(), build_v2_file_node(40000, vec![1; 32])),
        (b"b".to_vec(), build_v2_file_node(10, vec![2; 32])),
    ];
    torrent.info.file_tree = Some(BencodeValue::Dict(tree));
    let mapping = torrent.calculate_v2_mapping();
    assert_eq!(mapping.piece_count, 4);
    assert_eq!(mapping.piece_to_roots[2][0], (0, 40000, vec![1; 32]));
    assert_eq!(mapping.piece_to_roots[3][0], (3 * 16384, 10, vec![2; 32]));
}

#[test]
fn checked_total_length_reports_overflow() {
    let mut files = create_test_info(None);
    files.files = vec![
        InfoFile { length: 10, md5sum: None, path: vec!["a".to_string()], attr: None },
        InfoFile { length: 20, md5sum: None, path: vec!["b".to_string()], attr: None },
    ];
    assert_eq!(files.checked_total_length(), Some(30));
    files.files[1].length = i64::MAX;
    assert_eq!(files.checked_total_length(), None);

    let mut tree = create_test_info(Some(2));
    tree.file_tree = Some(BencodeValue::Dict(vec![
        (b"a".to_vec(), build_v2_file_node(40000, vec![1; 32])),
        (b"b".to_vec(), build_v2_file_node(10, vec![2; 32])),
    ]));
    assert_eq!(tree.checked_total_length(), Some(40010));
    tree.file_tree = Some(BencodeValue::Dict(vec![
        (b"a".to_vec(), build_v2_file_node(i64::MAX, vec![1; 32])),
        (b"b".to_vec(), build_v2_file_node(10, vec![2; 32])),
    ]));
    assert_eq!(tree.checked_total_length(), None);

    let mut single = create_test_info(None);
    single.length = 7;
    assert_eq!(single.checked_total_length(), Some(7));
}

#[test]
fn info_dictionary_is_taken_from_the_metainfo_bytes() {
    assert_eq!(
        metainfo_info_dict(b"d8:announce3:url4:infod6:lengthi5ee3:fooi1ee"),
        Ok(b"d6:lengthi5ee".to_vec())
    );
    // The dictionary is written back with its keys in order.
    assert_eq!(metainfo_info_dict(b"d4:infod1:bi1e1:ai2eee"), Ok(b"d1:ai2e1:bi1ee".to_vec()));
    assert_eq!(metainfo_info_dict(b"d3:fooi1ee"), Err(MetainfoError::MissingInfoDict));
    assert_eq!(metainfo_info_dict(b"li1ee"), Err(MetainfoError::MissingInfoDict));
    assert_eq!(metainfo_info_dict(b"not bencode"), Err(MetainfoError::NotBencode));
}
