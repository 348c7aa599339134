use superseedr_core::networking::protocol::summary::MessageSummary;
use superseedr_core::networking::protocol::Message;

#[test]
fn bulky_messages_are_summarized_by_length() {
    let bitfield = Message::Bitfield(vec![0xFF; 12]);
    assert_eq!(MessageSummary(&bitfield).to_text(), "BITFIELD(len: 12)");
    let piece = Message::Piece(3, 16384, vec![7; 100]);
    assert_eq!(MessageSummary(&piece).to_text(), "PIECE(index: 3, begin: 16384, len: 100)");
    let handshake = Message::Handshake(vec![1; 20], vec![2; 20]);
    assert_eq!(MessageSummary(&handshake).to_text(), "HANDSHAKE(...)");
}

#[test]
fn other_messages_read_as_their_debug_form() {
    let messages = vec![
        Message::KeepAlive,
        Message::Choke,
        Message::Unchoke,
        Message::Interested,
        Message::NotInterested,
        Message::Have(42),
        Message::Request(1, 16384, 16384),
        Message::Cancel(0, 0, 4294967295),
        Message::Port(6881),
        Message::ExtendedHandshake(None),
        Message::ExtendedHandshake(Some(123)),
        Message::ExtendedHandshake(Some(-9223372036854775808)),
        Message::Extended(1, vec![]),
        Message::Extended(2, vec![0, 10, 255]),
    ];
    for m in &messages {
        assert_eq!(MessageSummary(m).to_text(), format!("{:?}", m));
    }
}
