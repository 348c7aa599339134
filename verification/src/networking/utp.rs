//! The uTP (BEP 29) packet codec and the decisions of the outbound driver.
//!
//! The socket, the timers and the local stream live with the caller; this
//! module frames and parses packets, compares wrapping sequence numbers and
//! reduces each incoming packet to the next driver state and what to do.
use vstd::prelude::*;
use crate::networking::wire::{
    be16, be32, from_be16, from_be32, lemma_be16_roundtrip, lemma_be32_roundtrip, push_be16,
    push_be32, read_be16, read_be32,
};

verus! {

/// Length of the fixed uTP header.
pub const HEADER_LEN: usize = 20;

/// The only protocol version understood here.
pub const UTP_VERSION: u8 = 1;

pub const TYPE_DATA: u8 = 0;

pub const TYPE_FIN: u8 = 1;

pub const TYPE_STATE: u8 = 2;

pub const TYPE_RESET: u8 = 3;

pub const TYPE_SYN: u8 = 4;

/// Receive window advertised in every packet.
pub const RECEIVE_WINDOW: u32 = 1_048_576;

/// Largest payload carried by one data packet.
pub const MAX_PAYLOAD: usize = 1_200;

/// Payload bytes that may be in flight, unacknowledged.
pub const MAX_INFLIGHT_BYTES: usize = 65536;

/// Packets that may be in flight, unacknowledged.
pub const MAX_INFLIGHT_PACKETS: usize = 64;

/// Transmissions of one packet after which the connection gives up.
pub const MAX_RETRANSMITS: u8 = 8;

/// Outbound uTP transport; connecting is done by the application, which drives
/// the socket with the codec and the reducer of this module.
pub struct UtpPeerTransport;

/// Why a datagram is not a uTP packet this codec accepts.
#[derive(Debug, Clone, Copy, PartialEq, Eq, Structural)]
pub enum UtpDecodeError {
    ShorterThanHeader,
    UnsupportedVersion,
    UnsupportedType,
    ExtensionHeaderTruncated,
    ExtensionBodyTruncated,
}

/// One uTP packet. Extensions are skipped on decode and never written.
#[derive(Debug, Clone, PartialEq, Eq)]
pub struct UtpPacket {
    pub packet_type: u8,
    pub connection_id: u16,
    pub timestamp_microseconds: u32,
    pub timestamp_difference_microseconds: u32,
    pub wnd_size: u32,
    pub seq_nr: u16,
    pub ack_nr: u16,
    pub payload: Vec<u8>,
}

/// A packet with its payload as a sequence.
pub struct UtpPacketView {
    pub packet_type: u8,
    pub connection_id: u16,
    pub timestamp_microseconds: u32,
    pub timestamp_difference_microseconds: u32,
    pub wnd_size: u32,
    pub seq_nr: u16,
    pub ack_nr: u16,
    pub payload: Seq<u8>,
}

impl View for UtpPacket {
    type V = UtpPacketView;

    open spec fn view(&self) -> UtpPacketView {
        UtpPacketView {
            packet_type: self.packet_type,
            connection_id: self.connection_id,
            timestamp_microseconds: self.timestamp_microseconds,
            timestamp_difference_microseconds: self.timestamp_difference_microseconds,
            wnd_size: self.wnd_size,
            seq_nr: self.seq_nr,
            ack_nr: self.ack_nr,
            payload: self.payload@,
        }
    }
}

/// The first byte of a packet: its type in the high nibble, the version in the low one.
pub open spec fn type_version_byte(packet_type: u8) -> u8 {
    ((packet_type << 4u8) | UTP_VERSION) as u8
}

/// The wire form of a packet: the 20-byte header (no extension) then the payload.
pub open spec fn spec_encode(p: UtpPacketView) -> Seq<u8> {
    seq![type_version_byte(p.packet_type), 0u8] + be16(p.connection_id) + be32(
        p.timestamp_microseconds,
    ) + be32(p.timestamp_difference_microseconds) + be32(p.wnd_size) + be16(p.seq_nr) + be16(
        p.ack_nr,
    ) + p.payload
}

/// Where the payload starts once the extension chain that begins at `offset`
/// with extension type `ext` has been skipped, or why the chain is cut short.
pub open spec fn extension_chain_end(bytes: Seq<u8>, ext: u8, offset: int) -> Result<
    int,
    UtpDecodeError,
>
    decreases bytes.len() - offset,
{
    if ext == 0 {
        Ok(offset)
    } else if bytes.len() < offset + 2 {
        Err(UtpDecodeError::ExtensionHeaderTruncated)
    } else if bytes.len() < offset + 2 + bytes[offset + 1] {
        Err(UtpDecodeError::ExtensionBodyTruncated)
    } else {
        extension_chain_end(bytes, bytes[offset], offset + 2 + bytes[offset + 1])
    }
}

/// What decoding `bytes` gives.
pub open spec fn spec_decode(bytes: Seq<u8>) -> Result<UtpPacketView, UtpDecodeError> {
    if bytes.len() < HEADER_LEN {
        Err(UtpDecodeError::ShorterThanHeader)
    } else if bytes[0] & 0x0fu8 != UTP_VERSION {
        Err(UtpDecodeError::UnsupportedVersion)
    } else if bytes[0] >> 4u8 > TYPE_SYN {
        Err(UtpDecodeError::UnsupportedType)
    } else {
        match extension_chain_end(bytes, bytes[1], HEADER_LEN as int) {
            Err(e) => Err(e),
            Ok(offset) => Ok(
                UtpPacketView {
                    packet_type: bytes[0] >> 4u8,
                    connection_id: from_be16(bytes[2], bytes[3]),
                    timestamp_microseconds: from_be32(bytes[4], bytes[5], bytes[6], bytes[7]),
                    timestamp_difference_microseconds: from_be32(
                        bytes[8],
                        bytes[9],
                        bytes[10],
                        bytes[11],
                    ),
                    wnd_size: from_be32(bytes[12], bytes[13], bytes[14], bytes[15]),
                    seq_nr: from_be16(bytes[16], bytes[17]),
                    ack_nr: from_be16(bytes[18], bytes[19]),
                    payload: bytes.subrange(offset, bytes.len() as int),
                },
            ),
        }
    }
}

impl UtpPacket {
    /// Writes the packet: header without extensions, then the payload.
    pub fn encode(&self) -> (bytes: Vec<u8>)
        ensures
            bytes@ == spec_encode(self@),
    {
        let mut bytes: Vec<u8> = Vec::new();
        bytes.push(((self.packet_type << 4u8) | UTP_VERSION) as u8);
        bytes.push(0);
        push_be16(&mut bytes, self.connection_id);
        push_be32(&mut bytes, self.timestamp_microseconds);
        push_be32(&mut bytes, self.timestamp_difference_microseconds);
        push_be32(&mut bytes, self.wnd_size);
        push_be16(&mut bytes, self.seq_nr);
        push_be16(&mut bytes, self.ack_nr);
        let ghost header = bytes@;
        let mut i: usize = 0;
        while i < self.payload.len()
            invariant
                i <= self.payload@.len(),
                bytes@ == header + self.payload@.subrange(0, i as int),
            decreases self.payload@.len() - i,
        {
            bytes.push(self.payload[i]);
            i = i + 1;
            assert(self.payload@.subrange(0, i as int) == self.payload@.subrange(0, i - 1) + seq![
                self.payload@[i - 1],
            ]);
        }
        assert(self.payload@.subrange(0, i as int) == self.payload@);
        assert(header == seq![type_version_byte(self.packet_type), 0u8] + be16(self.connection_id)
            + be32(self.timestamp_microseconds) + be32(self.timestamp_difference_microseconds)
            + be32(self.wnd_size) + be16(self.seq_nr) + be16(self.ack_nr));
        bytes
    }

    /// Parses a datagram, skipping any extension headers.
    pub fn decode(bytes: &[u8]) -> (r: Result<UtpPacket, UtpDecodeError>)
        ensures
            match r {
                Ok(p) => spec_decode(bytes@) == Ok::<UtpPacketView, UtpDecodeError>(p@),
                Err(e) => spec_decode(bytes@) == Err::<UtpPacketView, UtpDecodeError>(e),
            },
    {
        if bytes.len() < HEADER_LEN {
            return Err(UtpDecodeError::ShorterThanHeader);
        }
        let packet_type = bytes[0] >> 4u8;
        let version = bytes[0] & 0x0fu8;
        if version != UTP_VERSION {
            return Err(UtpDecodeError::UnsupportedVersion);
        }
        if packet_type > TYPE_SYN {
            return Err(UtpDecodeError::UnsupportedType);
        }
        let payload_offset = match parse_extension_chain(bytes, bytes[1]) {
            Ok(o) => o,
            Err(e) => {
                return Err(e);
            },
        };
        let mut payload: Vec<u8> = Vec::new();
        let mut i: usize = payload_offset;
        while i < bytes.len()
            invariant
                payload_offset <= i <= bytes@.len(),
                payload@ == bytes@.subrange(payload_offset as int, i as int),
            decreases bytes@.len() - i,
        {
            payload.push(bytes[i]);
            i = i + 1;
            assert(bytes@.subrange(payload_offset as int, i as int) == bytes@.subrange(
                payload_offset as int,
                i - 1,
            ) + seq![bytes@[i - 1]]);
        }
        Ok(
            UtpPacket {
                packet_type,
                connection_id: read_be16(bytes[2], bytes[3]),
                timestamp_microseconds: read_be32(bytes[4], bytes[5], bytes[6], bytes[7]),
                timestamp_difference_microseconds: read_be32(bytes[8], bytes[9], bytes[10], bytes[11]),
                wnd_size: read_be32(bytes[12], bytes[13], bytes[14], bytes[15]),
                seq_nr: read_be16(bytes[16], bytes[17]),
                ack_nr: read_be16(bytes[18], bytes[19]),
                payload,
            },
        )
    }
}

/// Skips the extension chain that starts right after the header; returns
/// the offset of the payload.
pub fn parse_extension_chain(bytes: &[u8], first_extension: u8) -> (r: Result<
    usize,
    UtpDecodeError,
>)
    requires
        bytes@.len() >= HEADER_LEN,
    ensures
        match r {
            Ok(o) => extension_chain_end(bytes@, first_extension, HEADER_LEN as int) == Ok::<
                int,
                UtpDecodeError,
            >(o as int) && HEADER_LEN <= o <= bytes@.len(),
            Err(e) => extension_chain_end(bytes@, first_extension, HEADER_LEN as int) == Err::<
                int,
                UtpDecodeError,
            >(e),
        },
{
    let mut extension = first_extension;
    let mut offset: usize = HEADER_LEN;
    while extension != 0
        invariant
            HEADER_LEN <= offset <= bytes@.len(),
            extension_chain_end(bytes@, first_extension, HEADER_LEN as int)
                == extension_chain_end(bytes@, extension, offset as int),
        decreases bytes@.len() - offset,
    {
        if bytes.len() - offset < 2 {
            return Err(UtpDecodeError::ExtensionHeaderTruncated);
        }
        let next_extension = bytes[offset];
        let extension_len = bytes[offset + 1] as usize;
        offset = offset + 2;
        if bytes.len() - offset < extension_len {
            return Err(UtpDecodeError::ExtensionBodyTruncated);
        }
        offset = offset + extension_len;
        extension = next_extension;
    }
    Ok(offset)
}

/// Whether sequence number `lhs` comes at or before `rhs`, reading the 16-bit
/// space as a circle: `rhs` lies less than half the space ahead of `lhs`.
pub open spec fn spec_seq_lte(lhs: u16, rhs: u16) -> bool {
    lhs == rhs || ((rhs - lhs) % 0x10000) < 0x8000
}

pub fn seq_lte(lhs: u16, rhs: u16) -> (r: bool)
    ensures
        r == spec_seq_lte(lhs, rhs),
{
    lhs == rhs || rhs.wrapping_sub(lhs) < 0x8000
}

/// How many packets at the front of the unacknowledged queue (given by their
/// sequence numbers, oldest first) an acknowledgement of `ack_nr` covers: the
/// longest prefix whose every sequence number is at or before `ack_nr`.
pub fn acknowledged_count(unacked_seq_nrs: &[u16], ack_nr: u16) -> (n: usize)
    ensures
        n <= unacked_seq_nrs@.len(),
        forall|i: int| 0 <= i < n ==> spec_seq_lte(#[trigger] unacked_seq_nrs@[i], ack_nr),
        n < unacked_seq_nrs@.len() ==> !spec_seq_lte(unacked_seq_nrs@[n as int], ack_nr),
{
    let mut n: usize = 0;
    while n < unacked_seq_nrs.len()
        invariant
            n <= unacked_seq_nrs@.len(),
            forall|i: int| 0 <= i < n ==> spec_seq_lte(#[trigger] unacked_seq_nrs@[i], ack_nr),
        decreases unacked_seq_nrs@.len() - n,
    {
        if !seq_lte(unacked_seq_nrs[n], ack_nr) {
            return n;
        }
        n = n + 1;
    }
    n
}

/// The sum of a list of payload lengths.
pub open spec fn total_len(lens: Seq<usize>) -> int
    decreases lens.len(),
{
    if lens.len() == 0 {
        0
    } else {
        total_len(lens.drop_last()) + lens.last()
    }
}

/// Whether one more payload of `payload_len` bytes may be sent while the
/// packets in flight carry `inflight_payload_lens`.
pub fn can_send_payload(inflight_payload_lens: &[usize], payload_len: usize) -> (r: bool)
    ensures
        r == (total_len(inflight_payload_lens@) + payload_len <= MAX_INFLIGHT_BYTES
            && inflight_payload_lens@.len() < MAX_INFLIGHT_PACKETS),
{
    if inflight_payload_lens.len() >= MAX_INFLIGHT_PACKETS {
        return false;
    }
    let mut sum: usize = 0;
    let mut i: usize = 0;
    while i < inflight_payload_lens.len()
        invariant
            i <= inflight_payload_lens@.len(),
            sum == total_len(inflight_payload_lens@.subrange(0, i as int)),
            sum <= MAX_INFLIGHT_BYTES,
        decreases inflight_payload_lens@.len() - i,
    {
        assert(inflight_payload_lens@.subrange(0, i + 1).drop_last()
            == inflight_payload_lens@.subrange(0, i as int));
        if inflight_payload_lens[i] > MAX_INFLIGHT_BYTES - sum {
            proof {
                lemma_total_len_prefix_monotone(inflight_payload_lens@, i + 1);
            }
            return false;
        }
        sum = sum + inflight_payload_lens[i];
        i = i + 1;
    }
    assert(inflight_payload_lens@.subrange(0, i as int) == inflight_payload_lens@);
    payload_len <= MAX_INFLIGHT_BYTES - sum
}

proof fn lemma_total_len_prefix_monotone(s: Seq<usize>, k: int)
    requires
        0 <= k <= s.len(),
    ensures
        total_len(s.subrange(0, k)) <= total_len(s),
    decreases s.len() - k,
{
    if k < s.len() {
        lemma_total_len_prefix_monotone(s, k + 1);
        assert(s.subrange(0, k + 1).drop_last() == s.subrange(0, k));
    } else {
        assert(s.subrange(0, k) == s);
    }
}

/// The connection state the driver keeps between packets.
#[derive(Debug, Clone, Copy, PartialEq, Eq, Structural)]
pub struct UtpDriverState {
    pub send_connection_id: u16,
    pub receive_connection_id: u16,
    pub next_send_seq_nr: u16,
    pub last_remote_seq_nr: u16,
    pub last_remote_timestamp_microseconds: u32,
}

/// What the driver does about one incoming packet.
#[derive(Debug, Clone, Copy, PartialEq, Eq, Structural)]
pub enum UtpIncomingStep {
    /// Not for this connection, or nothing to do.
    Ignore,
    /// Drop the unacknowledged packets that `ack_nr` covers.
    Acknowledge { ack_nr: u16 },
    /// Hand the payload to the local stream if `deliver` holds, then send a state packet.
    Data { deliver: bool },
    /// Send a state packet, then end the stream: the peer closed it.
    Closed,
    /// End the stream: the peer reset it.
    Reset,
}

/// The next driver state and step for an incoming packet with the given header fields.
pub open spec fn spec_incoming(
    s: UtpDriverState,
    packet_type: u8,
    connection_id: u16,
    timestamp: u32,
    seq_nr: u16,
    ack_nr: u16,
    payload_is_empty: bool,
) -> (UtpDriverState, UtpIncomingStep) {
    let expected = ((s.last_remote_seq_nr + 1) % 0x10000) as u16;
    let stamped = UtpDriverState { last_remote_timestamp_microseconds: timestamp, ..s };
    let advanced = if seq_nr == expected {
        UtpDriverState { last_remote_seq_nr: seq_nr, ..stamped }
    } else {
        stamped
    };
    if connection_id != s.receive_connection_id {
        (s, UtpIncomingStep::Ignore)
    } else if packet_type == TYPE_STATE {
        (stamped, UtpIncomingStep::Acknowledge { ack_nr })
    } else if packet_type == TYPE_DATA {
        (advanced, UtpIncomingStep::Data { deliver: seq_nr == expected && !payload_is_empty })
    } else if packet_type == TYPE_FIN {
        (advanced, UtpIncomingStep::Closed)
    } else if packet_type == TYPE_RESET {
        (s, UtpIncomingStep::Reset)
    } else {
        (s, UtpIncomingStep::Ignore)
    }
}

impl UtpDriverState {
    /// Reduces one incoming packet: updates what is known of the remote side
    /// and says what the driver must do.
    pub fn process_incoming(&mut self, packet: &UtpPacket) -> (step: UtpIncomingStep)
        ensures
            (*final(self), step) == spec_incoming(
                *old(self),
                packet.packet_type,
                packet.connection_id,
                packet.timestamp_microseconds,
                packet.seq_nr,
                packet.ack_nr,
                packet.payload@.len() == 0,
            ),
    {
        if packet.connection_id != self.receive_connection_id {
            return UtpIncomingStep::Ignore;
        }
        if packet.packet_type == TYPE_STATE {
            self.last_remote_timestamp_microseconds = packet.timestamp_microseconds;
            UtpIncomingStep::Acknowledge { ack_nr: packet.ack_nr }
        } else if packet.packet_type == TYPE_DATA {
            self.last_remote_timestamp_microseconds = packet.timestamp_microseconds;
            let expected = self.last_remote_seq_nr.wrapping_add(1);
            let in_order = packet.seq_nr == expected;
            if in_order {
                self.last_remote_seq_nr = packet.seq_nr;
            }
            UtpIncomingStep::Data { deliver: in_order && packet.payload.len() > 0 }
        } else if packet.packet_type == TYPE_FIN {
            self.last_remote_timestamp_microseconds = packet.timestamp_microseconds;
            let expected = self.last_remote_seq_nr.wrapping_add(1);
            if packet.seq_nr == expected {
                self.last_remote_seq_nr = packet.seq_nr;
            }
            UtpIncomingStep::Closed
        } else if packet.packet_type == TYPE_RESET {
            UtpIncomingStep::Reset
        } else {
            UtpIncomingStep::Ignore
        }
    }

    /// Takes the next sequence number for an outgoing packet.
    pub fn take_send_seq_nr(&mut self) -> (seq_nr: u16)
        ensures
            seq_nr == old(self).next_send_seq_nr,
            final(self).next_send_seq_nr == ((old(self).next_send_seq_nr + 1) % 0x10000) as u16,
            *final(self) == (UtpDriverState {
                next_send_seq_nr: final(self).next_send_seq_nr,
                ..*old(self)
            }),
    {
        let seq_nr = self.next_send_seq_nr;
        self.next_send_seq_nr = self.next_send_seq_nr.wrapping_add(1);
        seq_nr
    }

    /// A packet of `packet_type` to the peer, acknowledging the last in-order
    /// packet received.
    pub fn outgoing_packet(
        &self,
        packet_type: u8,
        seq_nr: u16,
        timestamp_microseconds: u32,
        payload: Vec<u8>,
    ) -> (p: UtpPacket)
        ensures
            p@ == (UtpPacketView {
                packet_type,
                connection_id: self.send_connection_id,
                timestamp_microseconds,
                timestamp_difference_microseconds: ((timestamp_microseconds
                    - self.last_remote_timestamp_microseconds) % 0x1_0000_0000) as u32,
                wnd_size: RECEIVE_WINDOW,
                seq_nr,
                ack_nr: self.last_remote_seq_nr,
                payload: payload@,
            }),
    {
        UtpPacket {
            packet_type,
            connection_id: self.send_connection_id,
            timestamp_microseconds,
            timestamp_difference_microseconds: timestamp_microseconds.wrapping_sub(
                self.last_remote_timestamp_microseconds,
            ),
            wnd_size: RECEIVE_WINDOW,
            seq_nr,
            ack_nr: self.last_remote_seq_nr,
            payload,
        }
    }
}

/// Decoding what `encode` wrote gives the packet back, for every packet of a
/// type this codec knows.
pub proof fn lemma_decode_encode_roundtrip(p: UtpPacketView)
    requires
        p.packet_type <= TYPE_SYN,
    ensures
        spec_decode(spec_encode(p)) == Ok::<UtpPacketView, UtpDecodeError>(p),
{
    let bytes = spec_encode(p);
    let t = p.packet_type;
    assert(t <= 4u8 ==> ((((t << 4u8) | 1u8) as u8) & 0x0fu8) == 1u8 && (((t << 4u8) | 1u8)
        as u8) >> 4u8 == t) by (bit_vector);
    lemma_be16_roundtrip(p.connection_id);
    lemma_be16_roundtrip(p.seq_nr);
    lemma_be16_roundtrip(p.ack_nr);
    lemma_be32_roundtrip(p.timestamp_microseconds);
    lemma_be32_roundtrip(p.timestamp_difference_microseconds);
    lemma_be32_roundtrip(p.wnd_size);
    assert(bytes.len() == 20 + p.payload.len());
    assert(bytes[1] == 0u8);
    assert(extension_chain_end(bytes, bytes[1], 20) == Ok::<int, UtpDecodeError>(20));
    assert(bytes.subrange(20, bytes.len() as int) == p.payload);
    let d = spec_decode(bytes);
    assert(bytes[2] == be16(p.connection_id)[0]);
    assert(bytes[3] == be16(p.connection_id)[1]);
    assert(bytes[4] == be32(p.timestamp_microseconds)[0]);
    assert(bytes[7] == be32(p.timestamp_microseconds)[3]);
    assert(bytes[8] == be32(p.timestamp_difference_microseconds)[0]);
    assert(bytes[11] == be32(p.timestamp_difference_microseconds)[3]);
    assert(bytes[12] == be32(p.wnd_size)[0]);
    assert(bytes[15] == be32(p.wnd_size)[3]);
    assert(bytes[16] == be16(p.seq_nr)[0]);
    assert(bytes[19] == be16(p.ack_nr)[1]);
}

/// Law: the payload of a data packet is handed on only when it is the very
/// next packet in sequence (one past the last delivered, modulo 2^16), and
/// the last delivered sequence number moves only to that packet; a packet
/// that is out of order, early or repeated leaves it where it was, so the
/// stream never skips or repeats a packet.
pub proof fn lemma_data_delivered_in_order(
    s: UtpDriverState,
    connection_id: u16,
    timestamp: u32,
    seq_nr: u16,
    ack_nr: u16,
    payload_is_empty: bool,
)
    requires
        connection_id == s.receive_connection_id,
    ensures
        ({
            let (next, step) = spec_incoming(s, TYPE_DATA, connection_id, timestamp, seq_nr, ack_nr, payload_is_empty);
            let in_order = seq_nr as int == (s.last_remote_seq_nr as int + 1) % 0x10000;
            &&& step is Data
            &&& (step matches UtpIncomingStep::Data { deliver } && deliver <==> in_order && !payload_is_empty)
            &&& next.last_remote_seq_nr == if in_order { seq_nr } else { s.last_remote_seq_nr }
            &&& next.receive_connection_id == s.receive_connection_id
            &&& next.send_connection_id == s.send_connection_id
            &&& next.next_send_seq_nr == s.next_send_seq_nr
        }),
{
}

/// Law: a closing packet ends the stream, and counts as delivered only when
/// it is the very next packet in sequence: the last delivered sequence
/// number moves to it then, and stays where it was otherwise.
pub proof fn lemma_fin_counted_in_order(
    s: UtpDriverState,
    connection_id: u16,
    timestamp: u32,
    seq_nr: u16,
    ack_nr: u16,
    payload_is_empty: bool,
)
    requires
        connection_id == s.receive_connection_id,
    ensures
        ({
            let (next, step) = spec_incoming(s, TYPE_FIN, connection_id, timestamp, seq_nr, ack_nr, payload_is_empty);
            let in_order = seq_nr as int == (s.last_remote_seq_nr as int + 1) % 0x10000;
            &&& step == UtpIncomingStep::Closed
            &&& next.last_remote_seq_nr == if in_order { seq_nr } else { s.last_remote_seq_nr }
        }),
{
}

} // verus!
