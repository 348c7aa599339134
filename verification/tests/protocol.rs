use superseedr_core::networking::protocol::{
    calculate_blocks_for_piece, generate_message, parse_message_from_bytes, BlockInfo,
    ClientExtendedId, Message, ProtocolParseError,
};

fn roundtrip(msg: Message) {
    let bytes = generate_message(msg.clone()).unwrap();
    let (parsed, used) = parse_message_from_bytes(&bytes).unwrap();
    assert_eq!(used, bytes.len());
    assert_eq!(msg, parsed);
}

#[test]
fn test_generate_handshake() {
    let my_peer_id = b"-SS1000-69fG2wk6wWLc";
    let info_hash = [0u8; 20].to_vec();
    let peer_id_vec = my_peer_id.to_vec();

    let actual_result =
        generate_message(Message::Handshake(info_hash.clone(), peer_id_vec.clone())).unwrap();

    let mut expected_reserved = [0u8; 8];
    expected_reserved[5] |= 0x10;

    assert_eq!(actual_result.len(), 68);
    assert_eq!(actual_result[0], 19);
    assert_eq!(&actual_result[1..20], b"BitTorrent protocol");
    assert_eq!(&actual_result[20..28], &expected_reserved);
    assert_eq!(&actual_result[28..48], &info_hash[..]);
    assert_eq!(&actual_result[48..68], &peer_id_vec[..]);
}

#[test]
fn test_all_message_roundtrips() {
    roundtrip(Message::KeepAlive);
    roundtrip(Message::Choke);
    roundtrip(Message::Unchoke);
    roundtrip(Message::Interested);
    roundtrip(Message::NotInterested);
    roundtrip(Message::Have(123));
    roundtrip(Message::Bitfield(vec![0b10101010, 0b01010101]));
    roundtrip(Message::Request(1, 16384, 16384));
    roundtrip(Message::Piece(1, 16384, vec![1, 2, 3, 4, 5]));
    roundtrip(Message::Cancel(1, 16384, 16384));
    roundtrip(Message::Port(6881));
    roundtrip(Message::Extended(1, vec![10, 20, 30]));
}

#[test]
fn test_extended_handshake_parsing() {
    let metadata_size = 12345;
    let generated = generate_message(Message::ExtendedHandshake(Some(metadata_size))).unwrap();
    let (parsed, used) = parse_message_from_bytes(&generated).unwrap();
    assert_eq!(used, generated.len());
    match parsed {
        Message::Extended(id, payload) => {
            assert_eq!(id, ClientExtendedId::Handshake.id());
            let value: serde_bencode::value::Value =
                serde_bencode::from_bytes(&payload).unwrap();
            let serde_bencode::value::Value::Dict(dict) = value else {
                panic!("handshake payload is not a dictionary");
            };
            assert_eq!(
                dict.get(&b"metadata_size".to_vec()),
                Some(&serde_bencode::value::Value::Int(metadata_size))
            );
            let Some(serde_bencode::value::Value::Dict(m)) = dict.get(&b"m".to_vec()) else {
                panic!("no extension dictionary");
            };
            assert_eq!(
                m.get(&b"ut_pex".to_vec()),
                Some(&serde_bencode::value::Value::Int(1))
            );
            assert_eq!(
                m.get(&b"ut_metadata".to_vec()),
                Some(&serde_bencode::value::Value::Int(2))
            );
            assert!(!m.contains_key(&b"handshake".to_vec()));
        }
        _ => panic!("ExtendedHandshake did not parse back as Message::Extended"),
    }
}

#[test]
fn extended_handshake_without_size_omits_the_key() {
    let generated = generate_message(Message::ExtendedHandshake(None)).unwrap();
    let expected: &[u8] = b"d1:md11:ut_metadatai2e6:ut_pexi1eee";
    assert_eq!(&generated[6..], expected);
    assert_eq!(&generated[..6], &[0, 0, 0, (expected.len() + 2) as u8, 20, 0]);
}

#[test]
fn frames_have_expected_bytes() {
    assert_eq!(generate_message(Message::KeepAlive).unwrap(), vec![0, 0, 0, 0]);
    assert_eq!(generate_message(Message::Choke).unwrap(), vec![0, 0, 0, 1, 0]);
    assert_eq!(
        generate_message(Message::Have(0x01020304)).unwrap(),
        vec![0, 0, 0, 5, 4, 1, 2, 3, 4]
    );
    assert_eq!(
        generate_message(Message::Piece(1, 2, vec![9])).unwrap(),
        vec![0, 0, 0, 10, 7, 0, 0, 0, 1, 0, 0, 0, 2, 9]
    );
}

#[test]
fn parse_reports_incomplete_and_invalid_frames() {
    assert_eq!(
        parse_message_from_bytes(&[0, 0, 0]),
        Err(ProtocolParseError::Incomplete)
    );
    assert_eq!(
        parse_message_from_bytes(&[0, 0, 0, 5, 4, 1]),
        Err(ProtocolParseError::Incomplete)
    );
    assert_eq!(
        parse_message_from_bytes(&[0, 0, 0, 2, 4, 1]),
        Err(ProtocolParseError::InvalidPayloadSize(4))
    );
    assert_eq!(
        parse_message_from_bytes(&[0, 0, 0, 2, 6, 1]),
        Err(ProtocolParseError::InvalidPayloadSize(6))
    );
    assert_eq!(
        parse_message_from_bytes(&[0, 0, 0, 2, 7, 1]),
        Err(ProtocolParseError::InvalidPayloadSize(7))
    );
    assert_eq!(
        parse_message_from_bytes(&[0, 0, 0, 1, 20]),
        Err(ProtocolParseError::EmptyExtendedPayload)
    );
    assert_eq!(
        parse_message_from_bytes(&[0, 0, 0, 1, 42]),
        Err(ProtocolParseError::UnknownMessageId(42))
    );
}

#[test]
fn parse_consumes_only_the_first_frame() {
    let mut bytes = generate_message(Message::Unchoke).unwrap();
    bytes.extend(generate_message(Message::Have(7)).unwrap());
    let (first, used) = parse_message_from_bytes(&bytes).unwrap();
    assert_eq!(first, Message::Unchoke);
    assert_eq!(used, 5);
    let (second, used2) = parse_message_from_bytes(&bytes[used..]).unwrap();
    assert_eq!(second, Message::Have(7));
    assert_eq!(used2, 9);
}

#[test]
fn extension_ids_and_names() {
    assert_eq!(ClientExtendedId::Handshake.id(), 0);
    assert_eq!(ClientExtendedId::UtPex.id(), 1);
    assert_eq!(ClientExtendedId::UtMetadata.id(), 2);
    assert_eq!(ClientExtendedId::UtMetadata.as_str(), "ut_metadata");
    assert_eq!(ClientExtendedId::UtPex.as_str(), "ut_pex");
}

#[test]
fn blocks_cover_the_piece_in_order() {
    let blocks = calculate_blocks_for_piece(3, 40_000);
    assert_eq!(
        blocks,
        vec![
            BlockInfo { piece_index: 3, offset: 0, length: 16384 },
            BlockInfo { piece_index: 3, offset: 16384, length: 16384 },
            BlockInfo { piece_index: 3, offset: 32768, length: 7232 },
        ]
    );
    assert!(calculate_blocks_for_piece(0, 0).is_empty());
    assert_eq!(calculate_blocks_for_piece(0, 16384).len(), 1);
}

