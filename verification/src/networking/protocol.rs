//! The BitTorrent peer wire protocol: message framing and parsing.
use vstd::prelude::*;
use crate::networking::wire::{
    be32, from_be32, lemma_be32_roundtrip, push_be32, read_be32,
};

pub mod summary;

verus! {

/// Size of a standard block request.
pub const STANDARD_BLOCK_SIZE: u32 = 16384;

#[verifier::external_type_specification]
#[verifier::external_body]
pub struct ExBencodeError(serde_bencode::Error);

/// Why a message could not be written.
#[derive(Debug)]
pub enum MessageGenerationError {
    PayloadTooLarge(String),
    BencodeError(serde_bencode::Error),
}

/// The extension messages this client speaks (BEP 10).
#[derive(Debug, Clone, Copy, PartialEq, Eq, Structural)]
pub enum ClientExtendedId {
    Handshake,
    UtPex,
    UtMetadata,
}

/// The numeric id of an extension message.
pub open spec fn spec_extended_id(e: ClientExtendedId) -> u8 {
    match e {
        ClientExtendedId::Handshake => 0,
        ClientExtendedId::UtPex => 1,
        ClientExtendedId::UtMetadata => 2,
    }
}

/// The name of an extension message in the handshake dictionary.
pub open spec fn spec_extended_name(e: ClientExtendedId) -> Seq<char> {
    match e {
        ClientExtendedId::Handshake => "handshake"@,
        ClientExtendedId::UtPex => "ut_pex"@,
        ClientExtendedId::UtMetadata => "ut_metadata"@,
    }
}

impl ClientExtendedId {
    /// Returns the integer ID for the extension message.
    pub fn id(&self) -> (r: u8)
        ensures
            r == spec_extended_id(*self),
    {
        match self {
            ClientExtendedId::Handshake => 0,
            ClientExtendedId::UtPex => 1,
            ClientExtendedId::UtMetadata => 2,
        }
    }

    /// Returns the string name for the extension message.
    pub fn as_str(&self) -> (r: &'static str)
        ensures
            r@ == spec_extended_name(*self),
    {
        match self {
            ClientExtendedId::Handshake => "handshake",
            ClientExtendedId::UtPex => "ut_pex",
            ClientExtendedId::UtMetadata => "ut_metadata",
        }
    }

    /// All extension messages, in declaration order.
    pub fn all() -> (r: Vec<ClientExtendedId>)
        ensures
            r@ == seq![
                ClientExtendedId::Handshake,
                ClientExtendedId::UtPex,
                ClientExtendedId::UtMetadata,
            ],
    {
        vec![ClientExtendedId::Handshake, ClientExtendedId::UtPex, ClientExtendedId::UtMetadata]
    }
}

/// Peer exchange message (BEP 11): compact peer lists.
#[derive(Debug, Default)]
pub struct PexMessage {
    pub added: Vec<u8>,
    pub added_f: Vec<u8>,
    pub dropped: Vec<u8>,
}

/// Metadata exchange message (BEP 9).
#[derive(Debug, PartialEq)]
pub struct MetadataMessage {
    /// 0 for request, 1 for data, 2 for reject.
    pub msg_type: u8,
    /// The zero-indexed piece number.
    pub piece: usize,
    /// The total size of the metadata file; only in data messages.
    pub total_size: Option<usize>,
}

/// The extended handshake dictionary: extension names to their ids, and the
/// size of the info dictionary when it is known.
#[derive(Debug, Clone)]
pub struct ExtendedHandshakePayload {
    pub m: Vec<(String, u8)>,
    pub metadata_size: Option<i64>,
}

/// A peer wire message.
#[derive(Debug, PartialEq, Clone)]
pub enum Message {
    Handshake(Vec<u8>, Vec<u8>),
    KeepAlive,
    Choke,
    Unchoke,
    Interested,
    NotInterested,
    Have(u32),
    Bitfield(Vec<u8>),
    Request(u32, u32, u32),
    Piece(u32, u32, Vec<u8>),
    Cancel(u32, u32, u32),
    Port(u32),
    ExtendedHandshake(Option<i64>),
    Extended(u8, Vec<u8>),
}

/// A message with its byte fields as sequences.
pub enum MessageView {
    Handshake(Seq<u8>, Seq<u8>),
    KeepAlive,
    Choke,
    Unchoke,
    Interested,
    NotInterested,
    Have(u32),
    Bitfield(Seq<u8>),
    Request(u32, u32, u32),
    Piece(u32, u32, Seq<u8>),
    Cancel(u32, u32, u32),
    Port(u32),
    ExtendedHandshake(Option<i64>),
    Extended(u8, Seq<u8>),
}

impl View for Message {
    type V = MessageView;

    open spec fn view(&self) -> MessageView {
        match self {
            Message::Handshake(a, b) => MessageView::Handshake(a@, b@),
            Message::KeepAlive => MessageView::KeepAlive,
            Message::Choke => MessageView::Choke,
            Message::Unchoke => MessageView::Unchoke,
            Message::Interested => MessageView::Interested,
            Message::NotInterested => MessageView::NotInterested,
            Message::Have(i) => MessageView::Have(*i),
            Message::Bitfield(b) => MessageView::Bitfield(b@),
            Message::Request(i, b, l) => MessageView::Request(*i, *b, *l),
            Message::Piece(i, b, d) => MessageView::Piece(*i, *b, d@),
            Message::Cancel(i, b, l) => MessageView::Cancel(*i, *b, *l),
            Message::Port(p) => MessageView::Port(*p),
            Message::ExtendedHandshake(s) => MessageView::ExtendedHandshake(*s),
            Message::Extended(id, p) => MessageView::Extended(*id, p@),
        }
    }
}

/// A requested or served block of a piece.
#[derive(Debug, Hash, PartialEq, Eq, Clone, Copy, Structural)]
pub struct BlockInfo {
    pub piece_index: u32,
    pub offset: u32,
    pub length: u32,
}

/// The bencoded extended handshake dictionary with entries `m` and, when
/// present, `metadata_size`, as serde_bencode writes it.
pub uninterp spec fn bencoded_extended_handshake(
    m: Seq<(Seq<char>, u8)>,
    metadata_size: Option<i64>,
) -> Seq<u8>;

/// The extensions announced in the extended handshake: every one but the
/// handshake itself, by name and id.
pub open spec fn announced_extensions() -> Seq<(Seq<char>, u8)> {
    seq![("ut_pex"@, 1u8), ("ut_metadata"@, 2u8)]
}

/// The handshake dictionary entries for a list of extensions: all but the
/// handshake itself, in order.
pub open spec fn extension_entries(s: Seq<ClientExtendedId>) -> Seq<(Seq<char>, u8)>
    decreases s.len(),
{
    if s.len() == 0 {
        seq![]
    } else if s.last() == ClientExtendedId::Handshake {
        extension_entries(s.drop_last())
    } else {
        extension_entries(s.drop_last()).push((spec_extended_name(s.last()), spec_extended_id(s.last())))
    }
}

/// Calls `serde_bencode::to_bytes` on the dictionary `{"m": {name: id, ..},
/// "metadata_size": n}` (the second key only when `metadata_size` is given),
/// built as a `serde_bencode::value::Value`. Serializing a dictionary of
/// integers and of dictionaries of integers always succeeds there (only
/// floats and misused map serializers fail), and its keys are written sorted;
/// the bytes are those that `bencoded_extended_handshake` names.
#[verifier::external_body]
fn bencode_extended_handshake(m: &Vec<(&'static str, u8)>, metadata_size: Option<i64>) -> (r:
    Result<Vec<u8>, serde_bencode::Error>)
    ensures
        r is Ok,
        r matches Ok(bytes) ==> bytes@ == bencoded_extended_handshake(
            m@.map_values(|e: (&'static str, u8)| (e.0@, e.1)),
            metadata_size,
        ),
{
    let names: std::collections::HashMap<Vec<u8>, serde_bencode::value::Value> = m.iter().map(
        |(name, id)| (name.as_bytes().to_vec(), serde_bencode::value::Value::Int(*id as i64)),
    ).collect();
    let mut dict = std::collections::HashMap::new();
    dict.insert(b"m".to_vec(), serde_bencode::value::Value::Dict(names));
    dict.extend(metadata_size.map(|n| (b"metadata_size".to_vec(), serde_bencode::value::Value::Int(n))));
    serde_bencode::to_bytes(&serde_bencode::value::Value::Dict(dict))
}

/// The length prefix of a frame whose body (id and payload) has `body_len` bytes.
pub open spec fn length_prefix(body_len: nat) -> Seq<u8> {
    be32((body_len % 0x1_0000_0000) as u32)
}

/// The protocol header of the initial handshake: length 19, then the name.
pub open spec fn handshake_prefix() -> Seq<u8> {
    seq![19u8] + "BitTorrent protocol"@.map_values(|c: char| c as u8)
}

/// Reserved handshake bytes: only the extension protocol bit (BEP 10) is set.
pub open spec fn handshake_reserved() -> Seq<u8> {
    seq![0u8, 0u8, 0u8, 0u8, 0u8, 0x10u8, 0u8, 0u8]
}

/// Whether the message's length prefix can hold its body.
pub open spec fn generation_fits(m: MessageView) -> bool {
    match m {
        MessageView::Bitfield(b) => 1 + b.len() <= u32::MAX,
        MessageView::Piece(_, _, d) => 9 + d.len() <= u32::MAX,
        _ => true,
    }
}

/// The bytes written for a message (when it fits).
pub open spec fn spec_generate(m: MessageView) -> Seq<u8> {
    match m {
        MessageView::Handshake(info_hash, client_id) => handshake_prefix() + handshake_reserved()
            + info_hash + client_id,
        MessageView::KeepAlive => seq![0u8, 0u8, 0u8, 0u8],
        MessageView::Choke => seq![0u8, 0u8, 0u8, 1u8, 0u8],
        MessageView::Unchoke => seq![0u8, 0u8, 0u8, 1u8, 1u8],
        MessageView::Interested => seq![0u8, 0u8, 0u8, 1u8, 2u8],
        MessageView::NotInterested => seq![0u8, 0u8, 0u8, 1u8, 3u8],
        MessageView::Have(i) => seq![0u8, 0u8, 0u8, 5u8, 4u8] + be32(i),
        MessageView::Bitfield(b) => length_prefix(1 + b.len()) + seq![5u8] + b,
        MessageView::Request(i, b, l) => seq![0u8, 0u8, 0u8, 13u8, 6u8] + be32(i) + be32(b) + be32(
            l,
        ),
        MessageView::Piece(i, b, d) => length_prefix(9 + d.len()) + seq![7u8] + be32(i) + be32(b)
            + d,
        MessageView::Cancel(i, b, l) => seq![0u8, 0u8, 0u8, 13u8, 8u8] + be32(i) + be32(b) + be32(
            l,
        ),
        MessageView::Port(p) => seq![0u8, 0u8, 0u8, 5u8, 9u8] + be32(p),
        MessageView::ExtendedHandshake(size) => {
            let payload = bencoded_extended_handshake(announced_extensions(), size);
            length_prefix(2 + payload.len()) + seq![20u8, 0u8] + payload
        },
        MessageView::Extended(id, p) => length_prefix(2 + p.len()) + seq![20u8, id] + p,
    }
}

fn push_all(out: &mut Vec<u8>, bytes: &[u8])
    ensures
        final(out)@ == old(out)@ + bytes@,
{
    let ghost start = out@;
    let mut i: usize = 0;
    while i < bytes.len()
        invariant
            i <= bytes@.len(),
            out@ == start + bytes@.subrange(0, i as int),
        decreases bytes@.len() - i,
    {
        out.push(bytes[i]);
        i = i + 1;
        assert(bytes@.subrange(0, i as int) == bytes@.subrange(0, i - 1) + seq![bytes@[i - 1]]);
    }
    assert(bytes@.subrange(0, i as int) == bytes@);
}

fn fixed_frame(len_byte: u8, id: u8) -> (r: Vec<u8>)
    ensures
        r@ == seq![0u8, 0u8, 0u8, len_byte, id],
{
    let mut r: Vec<u8> = Vec::new();
    r.push(0);
    r.push(0);
    r.push(0);
    r.push(len_byte);
    r.push(id);
    r
}

proof fn lemma_truncate_u32(x: u64)
    ensures
        (x as u32) == x % 0x1_0000_0000,
{
    assert((x as u32) == x % 0x1_0000_0000) by (bit_vector);
}

/// Frame length `extra + len` written as a truncated 32-bit prefix.
fn truncated_length(len: usize, extra: u32) -> (r: u32)
    requires
        extra <= 9,
    ensures
        r as int == (extra + len) % 0x1_0000_0000,
{
    let wide = len as u64;
    proof {
        lemma_truncate_u32(wide);
    }
    let r = (wide as u32).wrapping_add(extra);
    proof {
        let l = len as int;
        assert(((l % 0x1_0000_0000) + extra) % 0x1_0000_0000 == (l + extra) % 0x1_0000_0000)
            by (nonlinear_arith);
    }
    r
}

fn handshake_bytes(info_hash: &Vec<u8>, client_id: &Vec<u8>) -> (r: Vec<u8>)
    ensures
        r@ == handshake_prefix() + handshake_reserved() + info_hash@ + client_id@,
{
    let mut handshake: Vec<u8> = Vec::new();
    handshake.push(19);
    let protocol: [u8; 19] = [
        66, 105, 116, 84, 111, 114, 114, 101, 110, 116, 32, 112, 114, 111, 116, 111, 99, 111, 108,
    ];
    push_all(&mut handshake, &protocol);
    let reserved: [u8; 8] = [0, 0, 0, 0, 0, 0x10, 0, 0];
    push_all(&mut handshake, &reserved);
    push_all(&mut handshake, info_hash.as_slice());
    push_all(&mut handshake, client_id.as_slice());
    proof {
        reveal_strlit("BitTorrent protocol");
        assert(protocol@ == "BitTorrent protocol"@.map_values(|c: char| c as u8));
        assert(reserved@ == handshake_reserved());
    }
    handshake
}

/// Writes a message as it goes on the wire.
pub fn generate_message(message: Message) -> (r: Result<Vec<u8>, MessageGenerationError>)
    ensures
        match r {
            Ok(bytes) => generation_fits(message@) && bytes@ == spec_generate(message@),
            Err(MessageGenerationError::PayloadTooLarge(_)) => !generation_fits(message@),
            Err(MessageGenerationError::BencodeError(_)) => false,
        },
        generation_fits(message@) ==> r is Ok,
{
    match message {
        Message::Handshake(info_hash, client_id) => Ok(handshake_bytes(&info_hash, &client_id)),
        Message::KeepAlive => {
            let mut r: Vec<u8> = Vec::new();
            r.push(0);
            r.push(0);
            r.push(0);
            r.push(0);
            Ok(r)
        },
        Message::Choke => Ok(fixed_frame(1, 0)),
        Message::Unchoke => Ok(fixed_frame(1, 1)),
        Message::Interested => Ok(fixed_frame(1, 2)),
        Message::NotInterested => Ok(fixed_frame(1, 3)),
        Message::Have(index) => {
            let mut r = fixed_frame(5, 4);
            push_be32(&mut r, index);
            Ok(r)
        },
        Message::Bitfield(bitfield) => {
            if bitfield.len() > (u32::MAX - 1) as usize {
                return Err(MessageGenerationError::PayloadTooLarge(String::from_str("Bitfield")));
            }
            let mut r: Vec<u8> = Vec::new();
            push_be32(&mut r, (1 + bitfield.len()) as u32);
            r.push(5);
            push_all(&mut r, bitfield.as_slice());
            Ok(r)
        },
        Message::Request(index, begin, length) => {
            let mut r = fixed_frame(13, 6);
            push_be32(&mut r, index);
            push_be32(&mut r, begin);
            push_be32(&mut r, length);
            Ok(r)
        },
        Message::Piece(index, begin, block) => {
            if block.len() > (u32::MAX - 9) as usize {
                return Err(MessageGenerationError::PayloadTooLarge(String::from_str("Piece")));
            }
            let mut r: Vec<u8> = Vec::new();
            push_be32(&mut r, (9 + block.len()) as u32);
            r.push(7);
            push_be32(&mut r, index);
            push_be32(&mut r, begin);
            push_all(&mut r, block.as_slice());
            Ok(r)
        },
        Message::Cancel(index, begin, length) => {
            let mut r = fixed_frame(13, 8);
            push_be32(&mut r, index);
            push_be32(&mut r, begin);
            push_be32(&mut r, length);
            Ok(r)
        },
        Message::Port(port) => {
            let mut r = fixed_frame(5, 9);
            push_be32(&mut r, port);
            Ok(r)
        },
        Message::ExtendedHandshake(metadata_size) => {
            let mut m: Vec<(&'static str, u8)> = Vec::new();
            let all = ClientExtendedId::all();
            let mut i: usize = 0;
            while i < all.len()
                invariant
                    i <= all@.len(),
                    all@ == seq![
                        ClientExtendedId::Handshake,
                        ClientExtendedId::UtPex,
                        ClientExtendedId::UtMetadata,
                    ],
                    m@.map_values(|e: (&'static str, u8)| (e.0@, e.1)) == extension_entries(
                        all@.subrange(0, i as int),
                    ),
                decreases all@.len() - i,
            {
                let variant = all[i];
                let ghost before = all@.subrange(0, i as int);
                if variant != ClientExtendedId::Handshake {
                    m.push((variant.as_str(), variant.id()));
                }
                i = i + 1;
                proof {
                    assert(all@.subrange(0, i as int) == before.push(variant));
                    assert(before.push(variant).drop_last() == before);
                    assert(m@.map_values(|e: (&'static str, u8)| (e.0@, e.1)) =~= extension_entries(
                        all@.subrange(0, i as int),
                    ));
                }
            }
            proof {
                assert(all@.subrange(0, 3) == all@);
                reveal_with_fuel(extension_entries, 4);
                assert(m@.map_values(|e: (&'static str, u8)| (e.0@, e.1)) =~= announced_extensions());
            }
            match bencode_extended_handshake(&m, metadata_size) {
                Err(e) => Err(MessageGenerationError::BencodeError(e)),
                Ok(payload) => {
                    let mut r: Vec<u8> = Vec::new();
                    push_be32(&mut r, truncated_length(payload.len(), 2));
                    r.push(20);
                    r.push(0);
                    push_all(&mut r, payload.as_slice());
                    Ok(r)
                },
            }
        },
        Message::Extended(extended_id, payload) => {
            let mut r: Vec<u8> = Vec::new();
            push_be32(&mut r, truncated_length(payload.len(), 2));
            r.push(20);
            r.push(extended_id);
            push_all(&mut r, payload.as_slice());
            Ok(r)
        },
    }
}

/// Why bytes do not (yet) hold a message.
#[derive(Debug, Clone, Copy, PartialEq, Eq, Structural)]
pub enum ProtocolParseError {
    /// The frame is not complete: more bytes are needed.
    Incomplete,
    /// The payload of a message with this id has the wrong size.
    InvalidPayloadSize(u8),
    /// An extension message without its extension id.
    EmptyExtendedPayload,
    /// No message has this id.
    UnknownMessageId(u8),
}

/// The message that starts `bytes` and how many bytes it takes, or why
/// there is none.
pub open spec fn spec_parse(bytes: Seq<u8>) -> Result<(MessageView, nat), ProtocolParseError> {
    if bytes.len() < 4 {
        Err(ProtocolParseError::Incomplete)
    } else {
        let n = from_be32(bytes[0], bytes[1], bytes[2], bytes[3]) as int;
        if n == 0 {
            Ok((MessageView::KeepAlive, 4nat))
        } else if bytes.len() - 4 < n {
            Err(ProtocolParseError::Incomplete)
        } else {
            let id = bytes[4];
            let p = bytes.subrange(5, 4 + n);
            let used = (4 + n) as nat;
            if id == 0 {
                Ok((MessageView::Choke, used))
            } else if id == 1 {
                Ok((MessageView::Unchoke, used))
            } else if id == 2 {
                Ok((MessageView::Interested, used))
            } else if id == 3 {
                Ok((MessageView::NotInterested, used))
            } else if id == 4 {
                if p.len() != 4 {
                    Err(ProtocolParseError::InvalidPayloadSize(4))
                } else {
                    Ok((MessageView::Have(from_be32(p[0], p[1], p[2], p[3])), used))
                }
            } else if id == 5 {
                Ok((MessageView::Bitfield(p), used))
            } else if id == 6 || id == 8 {
                if p.len() != 12 {
                    Err(ProtocolParseError::InvalidPayloadSize(id))
                } else {
                    let i = from_be32(p[0], p[1], p[2], p[3]);
                    let b = from_be32(p[4], p[5], p[6], p[7]);
                    let l = from_be32(p[8], p[9], p[10], p[11]);
                    if id == 6 {
                        Ok((MessageView::Request(i, b, l), used))
                    } else {
                        Ok((MessageView::Cancel(i, b, l), used))
                    }
                }
            } else if id == 7 {
                if p.len() < 8 {
                    Err(ProtocolParseError::InvalidPayloadSize(7))
                } else {
                    Ok(
                        (
                            MessageView::Piece(
                                from_be32(p[0], p[1], p[2], p[3]),
                                from_be32(p[4], p[5], p[6], p[7]),
                                p.subrange(8, p.len() as int),
                            ),
                            used,
                        ),
                    )
                }
            } else if id == 9 {
                if p.len() != 4 {
                    Err(ProtocolParseError::InvalidPayloadSize(9))
                } else {
                    Ok((MessageView::Port(from_be32(p[0], p[1], p[2], p[3])), used))
                }
            } else if id == 20 {
                if p.len() == 0 {
                    Err(ProtocolParseError::EmptyExtendedPayload)
                } else {
                    Ok((MessageView::Extended(p[0], p.subrange(1, p.len() as int)), used))
                }
            } else {
                Err(ProtocolParseError::UnknownMessageId(id))
            }
        }
    }
}

fn copy_range(bytes: &[u8], start: usize, end: usize) -> (r: Vec<u8>)
    requires
        start <= end <= bytes@.len(),
    ensures
        r@ == bytes@.subrange(start as int, end as int),
{
    let mut r: Vec<u8> = Vec::new();
    let mut i: usize = start;
    while i < end
        invariant
            start <= i <= end,
            end <= bytes@.len(),
            r@ == bytes@.subrange(start as int, i as int),
        decreases end - i,
    {
        r.push(bytes[i]);
        i = i + 1;
        assert(bytes@.subrange(start as int, i as int) == bytes@.subrange(start as int, i - 1)
            + seq![bytes@[i - 1]]);
    }
    r
}

/// Parses the message at the start of `bytes`; on success also returns how
/// many bytes it took. `Incomplete` asks for more bytes.
pub fn parse_message_from_bytes(bytes: &[u8]) -> (r: Result<(Message, usize), ProtocolParseError>)
    ensures
        match r {
            Ok((m, n)) => spec_parse(bytes@) == Ok::<(MessageView, nat), ProtocolParseError>(
                (m@, n as nat),
            ),
            Err(e) => spec_parse(bytes@) == Err::<(MessageView, nat), ProtocolParseError>(e),
        },
{
    if bytes.len() < 4 {
        return Err(ProtocolParseError::Incomplete);
    }
    let message_len = read_be32(bytes[0], bytes[1], bytes[2], bytes[3]);
    if message_len == 0 {
        return Ok((Message::KeepAlive, 4));
    }
    if ((bytes.len() - 4) as u64) < message_len as u64 {
        return Err(ProtocolParseError::Incomplete);
    }
    let end: usize = 4 + message_len as usize;
    let message_id = bytes[4];
    let payload_len: usize = message_len as usize - 1;
    let ghost p = bytes@.subrange(5, end as int);
    if message_id == 0 {
        Ok((Message::Choke, end))
    } else if message_id == 1 {
        Ok((Message::Unchoke, end))
    } else if message_id == 2 {
        Ok((Message::Interested, end))
    } else if message_id == 3 {
        Ok((Message::NotInterested, end))
    } else if message_id == 4 {
        if payload_len != 4 {
            return Err(ProtocolParseError::InvalidPayloadSize(4));
        }
        Ok((Message::Have(read_be32(bytes[5], bytes[6], bytes[7], bytes[8])), end))
    } else if message_id == 5 {
        Ok((Message::Bitfield(copy_range(bytes, 5, end)), end))
    } else if message_id == 6 || message_id == 8 {
        if payload_len != 12 {
            return Err(ProtocolParseError::InvalidPayloadSize(message_id));
        }
        let i = read_be32(bytes[5], bytes[6], bytes[7], bytes[8]);
        let b = read_be32(bytes[9], bytes[10], bytes[11], bytes[12]);
        let l = read_be32(bytes[13], bytes[14], bytes[15], bytes[16]);
        if message_id == 6 {
            Ok((Message::Request(i, b, l), end))
        } else {
            Ok((Message::Cancel(i, b, l), end))
        }
    } else if message_id == 7 {
        if payload_len < 8 {
            return Err(ProtocolParseError::InvalidPayloadSize(7));
        }
        let i = read_be32(bytes[5], bytes[6], bytes[7], bytes[8]);
        let b = read_be32(bytes[9], bytes[10], bytes[11], bytes[12]);
        let data = copy_range(bytes, 13, end);
        proof {
            assert(data@ == p.subrange(8, p.len() as int));
        }
        Ok((Message::Piece(i, b, data), end))
    } else if message_id == 9 {
        if payload_len != 4 {
            return Err(ProtocolParseError::InvalidPayloadSize(9));
        }
        Ok((Message::Port(read_be32(bytes[5], bytes[6], bytes[7], bytes[8])), end))
    } else if message_id == 20 {
        if payload_len == 0 {
            return Err(ProtocolParseError::EmptyExtendedPayload);
        }
        let extended_id = bytes[5];
        let extended_payload = copy_range(bytes, 6, end);
        proof {
            assert(extended_payload@ == p.subrange(1, p.len() as int));
        }
        Ok((Message::Extended(extended_id, extended_payload), end))
    } else {
        Err(ProtocolParseError::UnknownMessageId(message_id))
    }
}

/// The blocks of a piece of `piece_size` bytes, in order of offset: standard
/// blocks, the last one shorter when the size is not a multiple.
pub open spec fn spec_block(piece_index: u32, piece_size: u32, i: int) -> BlockInfo {
    let offset = i * STANDARD_BLOCK_SIZE;
    BlockInfo {
        piece_index,
        offset: offset as u32,
        length: (if piece_size - offset < STANDARD_BLOCK_SIZE {
            piece_size - offset
        } else {
            STANDARD_BLOCK_SIZE as int
        }) as u32,
    }
}

/// Splits a piece into the blocks to request, in order of offset.
pub fn calculate_blocks_for_piece(piece_index: u32, piece_size: u32) -> (blocks: Vec<BlockInfo>)
    ensures
        blocks@.len() == (piece_size + STANDARD_BLOCK_SIZE - 1) / STANDARD_BLOCK_SIZE as int,
        forall|i: int|
            0 <= i < blocks@.len() ==> #[trigger] blocks@[i] == spec_block(
                piece_index,
                piece_size,
                i,
            ),
{
    let mut blocks: Vec<BlockInfo> = Vec::new();
    let mut current_offset: u32 = 0;
    while current_offset < piece_size
        invariant
            current_offset <= piece_size,
            current_offset as int == blocks@.len() * STANDARD_BLOCK_SIZE || current_offset
                == piece_size,
            current_offset < piece_size ==> current_offset as int == blocks@.len()
                * STANDARD_BLOCK_SIZE,
            blocks@.len() == (current_offset + STANDARD_BLOCK_SIZE - 1) / STANDARD_BLOCK_SIZE as int,
            forall|i: int|
                0 <= i < blocks@.len() ==> #[trigger] blocks@[i] == spec_block(
                    piece_index,
                    piece_size,
                    i,
                ),
        decreases piece_size - current_offset,
    {
        let remaining = piece_size - current_offset;
        let block_length = if remaining < STANDARD_BLOCK_SIZE {
            remaining
        } else {
            STANDARD_BLOCK_SIZE
        };
        let ghost k = blocks@.len();
        blocks.push(BlockInfo { piece_index, offset: current_offset, length: block_length });
        current_offset = current_offset + block_length;
        proof {
            assert(blocks@[k as int] == spec_block(piece_index, piece_size, k as int));
            if current_offset < piece_size {
                assert(current_offset as int == (k + 1) * STANDARD_BLOCK_SIZE) by (nonlinear_arith)
                    requires
                        current_offset as int == k * STANDARD_BLOCK_SIZE + STANDARD_BLOCK_SIZE,
                ;
                assert(blocks@.len() == (current_offset + STANDARD_BLOCK_SIZE - 1)
                    / STANDARD_BLOCK_SIZE as int) by (nonlinear_arith)
                    requires
                        current_offset as int == (k + 1) * STANDARD_BLOCK_SIZE,
                        blocks@.len() == k + 1,
                ;
            } else {
                assert(blocks@.len() == (current_offset + STANDARD_BLOCK_SIZE - 1)
                    / STANDARD_BLOCK_SIZE as int) by (nonlinear_arith)
                    requires
                        k * STANDARD_BLOCK_SIZE < current_offset as int <= k * STANDARD_BLOCK_SIZE
                            + STANDARD_BLOCK_SIZE,
                        blocks@.len() == k + 1,
                ;
            }
        }
    }
    blocks
}

/// A parse of the bytes `generate_message` writes gives the message back,
/// whatever follows it, for every message sent after the handshake whose
/// length fits its prefix.
pub proof fn lemma_parse_generate_roundtrip(m: MessageView, rest: Seq<u8>)
    requires
        !(m is Handshake),
        !(m is ExtendedHandshake),
        generation_fits(m),
        m matches MessageView::Extended(_, p) ==> 2 + p.len() <= u32::MAX,
    ensures
        spec_parse(spec_generate(m) + rest) == Ok::<(MessageView, nat), ProtocolParseError>(
            (m, spec_generate(m).len()),
        ),
{
    lemma_parse_frame(m, rest);
}

/// The extended handshake reads back as the extension message with id 0
/// carrying the bencoded dictionary.
pub proof fn lemma_extended_handshake_reads_as_extended(
    metadata_size: Option<i64>,
    rest: Seq<u8>,
)
    requires
        2 + bencoded_extended_handshake(announced_extensions(), metadata_size).len() <= u32::MAX,
    ensures
        ({
            let m = MessageView::ExtendedHandshake(metadata_size);
            let payload = bencoded_extended_handshake(announced_extensions(), metadata_size);
            spec_parse(spec_generate(m) + rest) == Ok::<(MessageView, nat), ProtocolParseError>(
                (MessageView::Extended(0, payload), spec_generate(m).len()),
            )
        }),
{
    let payload = bencoded_extended_handshake(announced_extensions(), metadata_size);
    let e = MessageView::Extended(0, payload);
    assert(spec_generate(MessageView::ExtendedHandshake(metadata_size)) == spec_generate(e));
    lemma_parse_frame(e, rest);
}

proof fn lemma_be32_small(x: u32, b0: u8, b1: u8, b2: u8, b3: u8)
    requires
        b0 == 0u8,
        b1 == 0u8,
        b2 == 0u8,
        b3 == x,
        x < 256,
    ensures
        from_be32(b0, b1, b2, b3) == x,
{
    assert(b0 == 0u8 && b1 == 0u8 && b2 == 0u8 && b3 as u32 == x ==> from_be32(b0, b1, b2, b3)
        == x) by (bit_vector);
}

proof fn lemma_parse_frame(m: MessageView, rest: Seq<u8>)
    requires
        !(m is Handshake),
        !(m is ExtendedHandshake),
        generation_fits(m),
        m matches MessageView::Extended(_, p) ==> 2 + p.len() <= u32::MAX,
    ensures
        spec_parse(spec_generate(m) + rest) == Ok::<(MessageView, nat), ProtocolParseError>(
            (m, spec_generate(m).len()),
        ),
{
    let g = spec_generate(m);
    let bytes = g + rest;
    assert(bytes.subrange(0, g.len() as int) == g);
    match m {
        MessageView::KeepAlive => {
            lemma_be32_small(0, bytes[0], bytes[1], bytes[2], bytes[3]);
        },
        MessageView::Choke => {
            lemma_be32_small(1, bytes[0], bytes[1], bytes[2], bytes[3]);
        },
        MessageView::Unchoke => {
            lemma_be32_small(1, bytes[0], bytes[1], bytes[2], bytes[3]);
        },
        MessageView::Interested => {
            lemma_be32_small(1, bytes[0], bytes[1], bytes[2], bytes[3]);
        },
        MessageView::NotInterested => {
            lemma_be32_small(1, bytes[0], bytes[1], bytes[2], bytes[3]);
        },
        MessageView::Have(i) => {
            lemma_be32_small(5, bytes[0], bytes[1], bytes[2], bytes[3]);
            lemma_be32_roundtrip(i);
            assert(bytes.subrange(5, 9) == be32(i));
        },
        MessageView::Port(i) => {
            lemma_be32_small(5, bytes[0], bytes[1], bytes[2], bytes[3]);
            lemma_be32_roundtrip(i);
            assert(bytes.subrange(5, 9) == be32(i));
        },
        MessageView::Request(i, b, l) => {
            lemma_be32_small(13, bytes[0], bytes[1], bytes[2], bytes[3]);
            lemma_be32_roundtrip(i);
            lemma_be32_roundtrip(b);
            lemma_be32_roundtrip(l);
            let p = bytes.subrange(5, 17);
            assert(p.subrange(0, 4) == be32(i));
            assert(p.subrange(4, 8) == be32(b));
            assert(p.subrange(8, 12) == be32(l));
        },
        MessageView::Cancel(i, b, l) => {
            lemma_be32_small(13, bytes[0], bytes[1], bytes[2], bytes[3]);
            lemma_be32_roundtrip(i);
            lemma_be32_roundtrip(b);
            lemma_be32_roundtrip(l);
            let p = bytes.subrange(5, 17);
            assert(p.subrange(0, 4) == be32(i));
            assert(p.subrange(4, 8) == be32(b));
            assert(p.subrange(8, 12) == be32(l));
        },
        MessageView::Bitfield(b) => {
            let n = (1 + b.len()) as u32;
            lemma_be32_roundtrip(n);
            assert(bytes.subrange(0, 4) == be32(n));
            assert(bytes.subrange(5, 4 + n) == b);
        },
        MessageView::Piece(i, b, d) => {
            let n = (9 + d.len()) as u32;
            lemma_be32_roundtrip(n);
            lemma_be32_roundtrip(i);
            lemma_be32_roundtrip(b);
            assert(bytes.subrange(0, 4) == be32(n));
            let p = bytes.subrange(5, 4 + n);
            assert(p.subrange(0, 4) == be32(i));
            assert(p.subrange(4, 8) == be32(b));
            assert(p.subrange(8, p.len() as int) == d);
        },
        MessageView::Extended(id, d) => {
            let n = (2 + d.len()) as u32;
            lemma_be32_roundtrip(n);
            assert(bytes.subrange(0, 4) == be32(n));
            let p = bytes.subrange(5, 4 + n);
            assert(p[0] == id);
            assert(p.subrange(1, p.len() as int) == d);
        },
        _ => {},
    }
}

} // verus!
