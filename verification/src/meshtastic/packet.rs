//! The fixed sixteen-byte header that starts every packet on the air.
//!
//! | bytes  | field                         |
//! |--------|-------------------------------|
//! | 0..4   | destination, little-endian    |
//! | 4..8   | sender, little-endian         |
//! | 8..12  | packet id, little-endian      |
//! | 12     | flags                         |
//! | 13     | channel hash                  |
//! | 14     | next hop                      |
//! | 15     | relay node                    |
//!
//! The flags byte holds the hop limit in bits 0 to 2, the hop start in bits
//! 3 to 5, the acknowledgement request in bit 6 and the MQTT mark in bit 7.
use crate::meshtastic::little_endian::{
    lemma_u32_le_bytes_round_trip, lemma_u32_le_round_trip, read_u32_le, u32_from_le, u32_to_le,
    write_u32_le,
};
use vstd::prelude::*;

verus! {

pub type NodeId = u32;

pub type PacketId = u32;

/// Number of bytes a header takes on the wire.
pub const HEADER_LEN: usize = 16;

/// The largest value of a three-bit hop count.
pub const MAX_HOPS: u8 = 7;

/// The fields of a packet header.
#[derive(Clone, Copy, Debug, PartialEq, Eq)]
pub struct MeshtasticPacketHeader {
    pub destination: NodeId,
    pub sender: NodeId,
    pub packet_id: PacketId,
    pub hop_limit: u8,
    pub hop_start: u8,
    pub want_ack: bool,
    pub via_mqtt: bool,
    pub channel_hash: u8,
    pub next_hop: u8,
    pub relay_node: u8,
}

/// Why a header could not be read or written.
#[derive(Clone, Copy, Debug, PartialEq, Eq, Structural)]
pub enum HeaderError {
    /// Fewer than sixteen bytes were given.
    TruncatedInput,
    /// A hop count does not fit in three bits.
    FieldOutOfRange,
}

/// Hop limit held in a flags byte.
pub open spec fn flags_hop_limit(flags: u8) -> u8 {
    flags & 0b111
}

/// Hop start held in a flags byte.
pub open spec fn flags_hop_start(flags: u8) -> u8 {
    (flags >> 3) & 0b111
}

/// Acknowledgement request held in a flags byte.
pub open spec fn flags_want_ack(flags: u8) -> bool {
    (flags >> 6) & 1 == 1
}

/// MQTT mark held in a flags byte.
pub open spec fn flags_via_mqtt(flags: u8) -> bool {
    (flags >> 7) & 1 == 1
}

/// The flags byte that holds the four given fields.
pub open spec fn packed_flags(hop_limit: u8, hop_start: u8, want_ack: bool, via_mqtt: bool) -> u8 {
    hop_limit | (hop_start << 3) | ((if want_ack { 1u8 } else { 0u8 }) << 6) | ((if via_mqtt {
        1u8
    } else {
        0u8
    }) << 7)
}

/// The header that the first sixteen bytes of `bytes` spell.
pub open spec fn parsed_header(bytes: Seq<u8>) -> MeshtasticPacketHeader {
    MeshtasticPacketHeader {
        destination: u32_from_le(bytes.subrange(0, 4)),
        sender: u32_from_le(bytes.subrange(4, 8)),
        packet_id: u32_from_le(bytes.subrange(8, 12)),
        hop_limit: flags_hop_limit(bytes[12]),
        hop_start: flags_hop_start(bytes[12]),
        want_ack: flags_want_ack(bytes[12]),
        via_mqtt: flags_via_mqtt(bytes[12]),
        channel_hash: bytes[13],
        next_hop: bytes[14],
        relay_node: bytes[15],
    }
}

/// The sixteen bytes that spell `header`.
pub open spec fn header_bytes(header: MeshtasticPacketHeader) -> Seq<u8> {
    let flags = packed_flags(header.hop_limit, header.hop_start, header.want_ack, header.via_mqtt);
    u32_to_le(header.destination) + u32_to_le(header.sender) + u32_to_le(header.packet_id)
        + seq![flags, header.channel_hash, header.next_hop, header.relay_node]
}

/// What reading a header from `bytes` gives: the header and the number of
/// bytes it took, or `TruncatedInput` where fewer than sixteen bytes are
/// there.
pub open spec fn parse_spec(bytes: Seq<u8>) -> Result<
    (MeshtasticPacketHeader, usize),
    HeaderError,
> {
    if bytes.len() < HEADER_LEN {
        Err(HeaderError::TruncatedInput)
    } else {
        Ok((parsed_header(bytes), HEADER_LEN))
    }
}

/// What writing `header` gives: its sixteen bytes, or `FieldOutOfRange`
/// where a hop count does not fit in three bits.
pub open spec fn serialize_spec(header: MeshtasticPacketHeader) -> Result<Seq<u8>, HeaderError> {
    if header.in_range() {
        Ok(header_bytes(header))
    } else {
        Err(HeaderError::FieldOutOfRange)
    }
}

/// Unpacking a packed flags byte gives the fields that went in.
pub proof fn lemma_flags_round_trip(hop_limit: u8, hop_start: u8, want_ack: bool, via_mqtt: bool)
    requires
        hop_limit <= MAX_HOPS,
        hop_start <= MAX_HOPS,
    ensures
        flags_hop_limit(packed_flags(hop_limit, hop_start, want_ack, via_mqtt)) == hop_limit,
        flags_hop_start(packed_flags(hop_limit, hop_start, want_ack, via_mqtt)) == hop_start,
        flags_want_ack(packed_flags(hop_limit, hop_start, want_ack, via_mqtt)) == want_ack,
        flags_via_mqtt(packed_flags(hop_limit, hop_start, want_ack, via_mqtt)) == via_mqtt,
{
    let a: u8 = if want_ack { 1 } else { 0 };
    let m: u8 = if via_mqtt { 1 } else { 0 };
    assert(hop_limit <= 7 && hop_start <= 7 && a <= 1 && m <= 1 ==> {
        &&& (hop_limit | (hop_start << 3) | (a << 6) | (m << 7)) & 0b111 == hop_limit
        &&& ((hop_limit | (hop_start << 3) | (a << 6) | (m << 7)) >> 3) & 0b111 == hop_start
        &&& ((hop_limit | (hop_start << 3) | (a << 6) | (m << 7)) >> 6) & 1 == a
        &&& ((hop_limit | (hop_start << 3) | (a << 6) | (m << 7)) >> 7) & 1 == m
    }) by (bit_vector);
}

/// Every flags byte is the packing of the fields it holds, and those hop
/// counts fit in three bits.
pub proof fn lemma_flags_unpack(flags: u8)
    ensures
        flags_hop_limit(flags) <= MAX_HOPS,
        flags_hop_start(flags) <= MAX_HOPS,
        packed_flags(
            flags_hop_limit(flags),
            flags_hop_start(flags),
            flags_want_ack(flags),
            flags_via_mqtt(flags),
        ) == flags,
{
    let a: u8 = if flags_want_ack(flags) { 1 } else { 0 };
    let m: u8 = if flags_via_mqtt(flags) { 1 } else { 0 };
    assert(flags & 0b111 <= 7 && (flags >> 3) & 0b111 <= 7) by (bit_vector);
    assert((flags >> 6) & 1 == 0 || (flags >> 6) & 1 == 1) by (bit_vector);
    assert((flags >> 7) & 1 == 0 || (flags >> 7) & 1 == 1) by (bit_vector);
    assert(a == (flags >> 6) & 1 && m == (flags >> 7) & 1 ==> ((flags & 0b111) | (((flags >> 3)
        & 0b111) << 3) | (a << 6) | (m << 7)) == flags) by (bit_vector);
}

impl MeshtasticPacketHeader {
    /// Both hop counts fit in three bits.
    pub open spec fn in_range(&self) -> bool {
        self.hop_limit <= MAX_HOPS && self.hop_start <= MAX_HOPS
    }

    /// Reads the header at the start of `data`, and says how many bytes it
    /// took. Bytes after the header are left alone.
    pub fn from_bytes(data: &[u8]) -> (parsed: Result<(MeshtasticPacketHeader, usize), HeaderError>)
        ensures
            parsed == parse_spec(data@),
            data@.len() < HEADER_LEN <==> parsed == Err::<
                (MeshtasticPacketHeader, usize),
                HeaderError,
            >(HeaderError::TruncatedInput),
            parsed matches Ok((header, taken)) ==> header.in_range() && taken == HEADER_LEN,
    {
        if data.len() < HEADER_LEN {
            return Err(HeaderError::TruncatedInput);
        }
        let destination = read_u32_le(&data[0..4]);
        let sender = read_u32_le(&data[4..8]);
        let packet_id = read_u32_le(&data[8..12]);
        let flags = data[12];
        let channel_hash = data[13];
        let next_hop = data[14];
        let relay_node = data[15];
        proof {
            lemma_flags_unpack(flags);
        }
        let header = MeshtasticPacketHeader {
            destination,
            sender,
            packet_id,
            hop_limit: flags & 0b111,
            hop_start: (flags >> 3) & 0b111,
            want_ack: (flags >> 6) & 1 == 1,
            via_mqtt: (flags >> 7) & 1 == 1,
            channel_hash,
            next_hop,
            relay_node,
        };
        Ok((header, HEADER_LEN))
    }

    /// Writes the header as it goes on the wire.
    pub fn to_bytes(&self) -> (written: Result<[u8; 16], HeaderError>)
        ensures
            match written {
                Ok(bytes) => serialize_spec(*self) == Ok::<Seq<u8>, HeaderError>(bytes@),
                Err(e) => serialize_spec(*self) == Err::<Seq<u8>, HeaderError>(e),
            },
            !self.in_range() <==> written == Err::<[u8; 16], HeaderError>(
                HeaderError::FieldOutOfRange,
            ),
    {
        if self.hop_limit > MAX_HOPS || self.hop_start > MAX_HOPS {
            return Err(HeaderError::FieldOutOfRange);
        }
        let destination = write_u32_le(self.destination);
        let sender = write_u32_le(self.sender);
        let packet_id = write_u32_le(self.packet_id);
        let ack: u8 = if self.want_ack { 1 } else { 0 };
        let mqtt: u8 = if self.via_mqtt { 1 } else { 0 };
        let flags: u8 = self.hop_limit | (self.hop_start << 3) | (ack << 6) | (mqtt << 7);
        let bytes: [u8; 16] = [
            destination[0],
            destination[1],
            destination[2],
            destination[3],
            sender[0],
            sender[1],
            sender[2],
            sender[3],
            packet_id[0],
            packet_id[1],
            packet_id[2],
            packet_id[3],
            flags,
            self.channel_hash,
            self.next_hop,
            self.relay_node,
        ];
        assert(bytes@ =~= header_bytes(*self));
        Ok(bytes)
    }
}

/// A header whose hop counts are in range is written, and reading what was
/// written gives the header back.
pub proof fn lemma_header_round_trip(header: MeshtasticPacketHeader)
    requires
        header.in_range(),
    ensures
        serialize_spec(header) == Ok::<Seq<u8>, HeaderError>(header_bytes(header)),
        header_bytes(header).len() == HEADER_LEN,
        parse_spec(header_bytes(header)) == Ok::<(MeshtasticPacketHeader, usize), HeaderError>(
            (header, HEADER_LEN),
        ),
{
    let bytes = header_bytes(header);
    lemma_u32_le_round_trip(header.destination);
    lemma_u32_le_round_trip(header.sender);
    lemma_u32_le_round_trip(header.packet_id);
    lemma_flags_round_trip(header.hop_limit, header.hop_start, header.want_ack, header.via_mqtt);
    assert(bytes.subrange(0, 4) =~= u32_to_le(header.destination));
    assert(bytes.subrange(4, 8) =~= u32_to_le(header.sender));
    assert(bytes.subrange(8, 12) =~= u32_to_le(header.packet_id));
}

/// Fewer than sixteen bytes are never read as a header, whatever they hold.
pub proof fn lemma_truncated_input(bytes: Seq<u8>)
    requires
        bytes.len() < HEADER_LEN,
    ensures
        parse_spec(bytes) == Err::<(MeshtasticPacketHeader, usize), HeaderError>(
            HeaderError::TruncatedInput,
        ),
{
}

/// The header read from sixteen bytes is in range, and writing it gives the
/// sixteen bytes back.
pub proof fn lemma_bytes_round_trip(bytes: Seq<u8>)
    requires
        bytes.len() == HEADER_LEN,
    ensures
        parsed_header(bytes).in_range(),
        serialize_spec(parsed_header(bytes)) == Ok::<Seq<u8>, HeaderError>(bytes),
{
    lemma_flags_unpack(bytes[12]);
    lemma_u32_le_bytes_round_trip(bytes.subrange(0, 4));
    lemma_u32_le_bytes_round_trip(bytes.subrange(4, 8));
    lemma_u32_le_bytes_round_trip(bytes.subrange(8, 12));
    assert(header_bytes(parsed_header(bytes)) =~= bytes);
}

} // verus!
