use superseedr_core::networking::session::extension::{
    decode_compact_peers, MetadataAssembly, MetadataStep,
};

#[test]
fn compact_peer_list_decodes_whole_entries() {
    let bytes = [192, 168, 1, 10, 0x1A, 0xE1, 10, 0, 0, 1, 0, 80, 7];
    assert_eq!(
        decode_compact_peers(&bytes),
        vec![("192.168.1.10".to_string(), 6881), ("10.0.0.1".to_string(), 80)]
    );
    assert!(decode_compact_peers(&[1, 2, 3, 4, 5]).is_empty());
    assert_eq!(decode_compact_peers(&[255, 255, 255, 255, 255, 255]), vec![("255.255.255.255".to_string(), 65535)]);
}

#[test]
fn metadata_arrives_piece_by_piece() {
    let header = b"d8:msg_typei1e5:piecei0e10:total_sizei20000ee".to_vec();
    let mut assembly = MetadataAssembly::new();
    let mut first = header.clone();
    first.extend(vec![1u8; 16384]);
    assert_eq!(assembly.accept_piece(20000, &first), MetadataStep::RequestPiece(1));
    assert_eq!(assembly.bytes.len(), 16384);
    assert_eq!(assembly.accept_piece(20000, &[2u8; 100]), MetadataStep::Ignored);
    assert_eq!(assembly.bytes.len(), 16384);
    let mut second = header;
    second.extend(vec![3u8; 3616]);
    assert_eq!(assembly.accept_piece(20000, &second), MetadataStep::Complete);
    assert_eq!(assembly.bytes.len(), 20000);
    assert_eq!(assembly.bytes[16383], 1);
    assert_eq!(assembly.bytes[16384], 3);
    assert_eq!(assembly.piece_count, 1);
}
