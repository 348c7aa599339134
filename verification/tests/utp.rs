use superseedr_core::networking::utp::{
    acknowledged_count, can_send_payload, parse_extension_chain, seq_lte, UtpDecodeError,
    UtpDriverState, UtpIncomingStep, UtpPacket, HEADER_LEN, RECEIVE_WINDOW, TYPE_DATA, TYPE_FIN,
    TYPE_RESET, TYPE_STATE,
};

fn sample_packet() -> UtpPacket {
    UtpPacket {
        packet_type: TYPE_DATA,
        connection_id: 123,
        timestamp_microseconds: 456,
        timestamp_difference_microseconds: 789,
        wnd_size: 1_024,
        seq_nr: 65_530,
        ack_nr: 42,
        payload: b"hello".to_vec(),
    }
}

#[test]
fn packet_round_trips() {
    let packet = sample_packet();

    let decoded = UtpPacket::decode(&packet.encode()).unwrap();

    assert_eq!(decoded, packet);
}

#[test]
fn decode_skips_extension_chain() {
    let packet = sample_packet();
    let mut bytes = packet.encode();
    bytes[1] = 1;
    bytes.splice(HEADER_LEN..HEADER_LEN, [0, 3, 1, 2, 3]);

    let decoded = UtpPacket::decode(&bytes).unwrap();

    assert_eq!(decoded, packet);
}

#[test]
fn sequence_comparison_wraps() {
    assert!(seq_lte(65_535, 0));
    assert!(seq_lte(0, 1));
    assert!(!seq_lte(10, 9));
}

#[test]
fn encode_writes_big_endian_header() {
    let bytes = sample_packet().encode();
    assert_eq!(bytes.len(), HEADER_LEN + 5);
    assert_eq!(bytes[0], 0x01);
    assert_eq!(bytes[1], 0);
    assert_eq!(&bytes[2..4], &[0, 123]);
    assert_eq!(&bytes[4..8], &[0, 0, 1, 200]);
    assert_eq!(&bytes[16..18], &[0xff, 0xfa]);
    assert_eq!(&bytes[20..], b"hello");
}

#[test]
fn decode_rejects_malformed_packets() {
    assert_eq!(
        UtpPacket::decode(&[0x01; 19]),
        Err(UtpDecodeError::ShorterThanHeader)
    );
    let mut bytes = sample_packet().encode();
    bytes[0] = 0x02;
    assert_eq!(
        UtpPacket::decode(&bytes),
        Err(UtpDecodeError::UnsupportedVersion)
    );
    bytes[0] = 0x51;
    assert_eq!(UtpPacket::decode(&bytes), Err(UtpDecodeError::UnsupportedType));
    let mut header_only = sample_packet().encode();
    header_only.truncate(HEADER_LEN + 1);
    header_only[1] = 1;
    assert_eq!(
        UtpPacket::decode(&header_only),
        Err(UtpDecodeError::ExtensionHeaderTruncated)
    );
    let mut short_body = sample_packet().encode();
    short_body[1] = 1;
    short_body.truncate(HEADER_LEN);
    short_body.extend_from_slice(&[0, 9, 1]);
    assert_eq!(
        UtpPacket::decode(&short_body),
        Err(UtpDecodeError::ExtensionBodyTruncated)
    );
}

#[test]
fn extension_chain_offset_counts_every_extension() {
    let mut bytes = vec![0u8; HEADER_LEN];
    bytes.extend_from_slice(&[2, 1, 9, 0, 2, 7, 7, 42]);
    assert_eq!(parse_extension_chain(&bytes, 1), Ok(HEADER_LEN + 7));
    assert_eq!(parse_extension_chain(&bytes, 0), Ok(HEADER_LEN));
}

#[test]
fn acknowledgement_covers_leading_packets_only() {
    assert_eq!(acknowledged_count(&[10, 11, 12, 13], 11), 2);
    assert_eq!(acknowledged_count(&[65_534, 65_535, 0, 1], 0), 3);
    assert_eq!(acknowledged_count(&[5, 6], 4), 0);
    assert_eq!(acknowledged_count(&[], 4), 0);
}

#[test]
fn inflight_budget_limits_sends() {
    assert!(can_send_payload(&[1_200; 10], 1_200));
    assert!(!can_send_payload(&[32_768, 32_768], 1));
    assert!(can_send_payload(&[32_768, 32_767], 1));
    assert!(!can_send_payload(&[1; 64], 1));
}

fn driver() -> UtpDriverState {
    UtpDriverState {
        send_connection_id: 8,
        receive_connection_id: 7,
        next_send_seq_nr: 100,
        last_remote_seq_nr: 65_535,
        last_remote_timestamp_microseconds: 0,
    }
}

#[test]
fn incoming_packets_drive_the_connection_state() {
    let mut state = driver();
    let mut packet = sample_packet();
    packet.connection_id = 7;
    packet.seq_nr = 0;
    packet.timestamp_microseconds = 99;
    assert_eq!(
        state.process_incoming(&packet),
        UtpIncomingStep::Data { deliver: true }
    );
    assert_eq!(state.last_remote_seq_nr, 0);
    assert_eq!(state.last_remote_timestamp_microseconds, 99);

    // A duplicate is acknowledged again but not delivered.
    assert_eq!(
        state.process_incoming(&packet),
        UtpIncomingStep::Data { deliver: false }
    );

    packet.packet_type = TYPE_STATE;
    packet.ack_nr = 100;
    assert_eq!(
        state.process_incoming(&packet),
        UtpIncomingStep::Acknowledge { ack_nr: 100 }
    );

    packet.packet_type = TYPE_FIN;
    packet.seq_nr = 1;
    assert_eq!(state.process_incoming(&packet), UtpIncomingStep::Closed);
    assert_eq!(state.last_remote_seq_nr, 1);

    packet.packet_type = TYPE_RESET;
    assert_eq!(state.process_incoming(&packet), UtpIncomingStep::Reset);

    packet.connection_id = 3;
    let before = state;
    assert_eq!(state.process_incoming(&packet), UtpIncomingStep::Ignore);
    assert_eq!(state, before);
}

#[test]
fn outgoing_packets_carry_connection_state() {
    let mut state = driver();
    state.last_remote_timestamp_microseconds = 10;
    let seq = state.take_send_seq_nr();
    assert_eq!(seq, 100);
    assert_eq!(state.next_send_seq_nr, 101);
    let p = state.outgoing_packet(TYPE_DATA, seq, 5, vec![1, 2]);
    assert_eq!(p.connection_id, 8);
    assert_eq!(p.ack_nr, 65_535);
    assert_eq!(p.timestamp_difference_microseconds, 5u32.wrapping_sub(10));
    assert_eq!(p.wnd_size, RECEIVE_WINDOW);
    assert_eq!(p.payload, vec![1, 2]);
}
