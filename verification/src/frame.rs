//! CCSDS 133.0-B-2 Space Packet Protocol primary header: the 6-byte framing
//! unit between the FEC/modem chain and the bundle layer.
//!
//! The on-the-wire layout is modelled by `encode_header` / `decode_header`
//! (over byte sequences) and `serialize_packet` / `parse_packet` (over whole
//! packets); the executable functions are proved to compute exactly these,
//! and the round-trip laws at the end of the file are proved over them.

use vstd::prelude::*;

use crate::error::FrameError;

verus! {

/// Packet type, per CCSDS 133.0-B-2 section 4.1.3.2.
#[derive(Debug, Clone, Copy, PartialEq, Eq)]
pub enum PacketType {
    /// Telemetry (spacecraft -> ground).
    Telemetry,
    /// Telecommand (ground -> spacecraft).
    Telecommand,
}

/// Sequence flags, per CCSDS 133.0-B-2 section 4.1.3.4: whether this packet
/// is a standalone user-data unit, or a segment of one split across packets.
#[derive(Debug, Clone, Copy, PartialEq, Eq)]
pub enum SequenceFlags {
    /// A continuation segment (neither first nor last).
    Continuation,
    /// The first segment of a split user-data unit.
    First,
    /// The last segment of a split user-data unit.
    Last,
    /// A complete, unsegmented user-data unit (the common case).
    Unsegmented,
}

impl SequenceFlags {
    /// The 2-bit wire code of a flag value.
    pub open spec fn code(self) -> u8 {
        match self {
            SequenceFlags::Continuation => 0,
            SequenceFlags::First => 1,
            SequenceFlags::Last => 2,
            SequenceFlags::Unsegmented => 3,
        }
    }

    /// The flag value carried by the low two bits of `b`.
    pub open spec fn from_code(b: u8) -> SequenceFlags {
        let c = b % 4;
        if c == 0 {
            SequenceFlags::Continuation
        } else if c == 1 {
            SequenceFlags::First
        } else if c == 2 {
            SequenceFlags::Last
        } else {
            SequenceFlags::Unsegmented
        }
    }

    /// Law: decoding a flag's wire code gives the flag back.
    pub proof fn lemma_code_round_trip(f: SequenceFlags)
        ensures
            SequenceFlags::from_code(f.code()) == f,
    {
    }

    /// Every value of the low two bits decodes to a flag whose code is that value.
    pub proof fn lemma_from_code_in_range(b: u8)
        ensures
            SequenceFlags::from_code(b).code() == b % 4,
    {
    }

    fn bits(self) -> (b: u8)
        ensures
            b == self.code(),
    {
        match self {
            SequenceFlags::Continuation => 0b00,
            SequenceFlags::First => 0b01,
            SequenceFlags::Last => 0b10,
            SequenceFlags::Unsegmented => 0b11,
        }
    }

    fn from_bits(b: u8) -> (f: SequenceFlags)
        ensures
            f == SequenceFlags::from_code(b),
    {
        let c: u8 = b & 0b11;
        assert(c == b % 4) by (bit_vector)
            requires
                c == b & 3,
        ;
        if c == 0b00 {
            SequenceFlags::Continuation
        } else if c == 0b01 {
            SequenceFlags::First
        } else if c == 0b10 {
            SequenceFlags::Last
        } else {
            SequenceFlags::Unsegmented
        }
    }
}

/// The 6-byte CCSDS Space Packet primary header.
#[derive(Debug, Clone, Copy, PartialEq, Eq)]
pub struct SpacePacketHeader {
    /// Application Process ID identifying the source/destination process,
    /// `0..=2047` (11 bits).
    pub apid: u16,
    /// Telemetry or telecommand.
    pub packet_type: PacketType,
    /// Whether a secondary header follows this primary header.
    pub secondary_header: bool,
    /// Segmentation state of this packet.
    pub sequence_flags: SequenceFlags,
    /// Sequence count or packet name, `0..=16383` (14 bits); wraps per APID.
    pub sequence_count: u16,
    /// Length of the packet data field in octets.
    pub data_len: usize,
}

/// Largest APID (11 bits).
pub const MAX_APID: u16 = 0x7FF;

/// Largest sequence count (14 bits).
pub const MAX_SEQUENCE_COUNT: u16 = 0x3FFF;

/// Largest data field: the 16-bit length field stores `len - 1`.
pub const MAX_DATA_LEN: usize = 0x1_0000;

/// Whether every header field fits its bit width on the wire.
pub open spec fn header_in_range(h: SpacePacketHeader) -> bool {
    &&& h.apid <= MAX_APID
    &&& h.sequence_count <= MAX_SEQUENCE_COUNT
    &&& 1 <= h.data_len <= MAX_DATA_LEN
}

/// The outcome of validating a header's field ranges, checked in the order
/// APID, sequence count, data length.
pub open spec fn header_check(h: SpacePacketHeader) -> Result<(), FrameError> {
    if h.apid > MAX_APID {
        Err(FrameError::FieldOutOfRange { field: "apid", value: h.apid as i64 })
    } else if h.sequence_count > MAX_SEQUENCE_COUNT {
        Err(FrameError::FieldOutOfRange { field: "sequence_count", value: h.sequence_count as i64 })
    } else if h.data_len == 0 || h.data_len > MAX_DATA_LEN {
        Err(FrameError::FieldOutOfRange { field: "data_len", value: h.data_len as i64 })
    } else {
        Ok(())
    }
}

/// The type bit of the first header word.
pub open spec fn type_bit(t: PacketType) -> int {
    match t {
        PacketType::Telemetry => 0,
        PacketType::Telecommand => 1,
    }
}

/// First 16-bit word: version (0), type, secondary-header flag, APID.
pub open spec fn header_word0(h: SpacePacketHeader) -> int {
    type_bit(h.packet_type) * 4096 + (if h.secondary_header { 2048int } else { 0int }) + h.apid
}

/// Second 16-bit word: sequence flags and sequence count.
pub open spec fn header_word1(h: SpacePacketHeader) -> int {
    h.sequence_flags.code() * 16384 + h.sequence_count
}

/// Third 16-bit word: data length minus one.
pub open spec fn header_word2(h: SpacePacketHeader) -> int {
    h.data_len - 1
}

/// The big-endian wire encoding of an in-range header.
pub open spec fn encode_header(h: SpacePacketHeader) -> Seq<u8> {
    seq![
        (header_word0(h) / 256) as u8,
        (header_word0(h) % 256) as u8,
        (header_word1(h) / 256) as u8,
        (header_word1(h) % 256) as u8,
        (header_word2(h) / 256) as u8,
        (header_word2(h) % 256) as u8,
    ]
}

/// The 3-bit packet version number carried in the first byte.
pub open spec fn packet_version(b: Seq<u8>) -> u16 {
    (b[0] / 32) as u16
}

/// The header fields read from six wire bytes (the version bits ignored).
pub open spec fn decode_header(b: Seq<u8>) -> SpacePacketHeader {
    SpacePacketHeader {
        apid: ((b[0] % 8) * 256 + b[1]) as u16,
        packet_type: if (b[0] / 16) % 2 == 1 {
            PacketType::Telecommand
        } else {
            PacketType::Telemetry
        },
        secondary_header: (b[0] / 8) % 2 == 1,
        sequence_flags: SequenceFlags::from_code(b[2] / 64),
        sequence_count: ((b[2] % 64) * 256 + b[3]) as u16,
        data_len: (b[4] * 256 + b[5] + 1) as usize,
    }
}

/// The result of parsing six header bytes.
pub open spec fn parse_header(b: Seq<u8>) -> Result<SpacePacketHeader, FrameError> {
    if packet_version(b) != 0 {
        Err(FrameError::UnsupportedVersion(packet_version(b)))
    } else {
        Ok(decode_header(b))
    }
}

/// A header with its data length replaced by `n`.
pub open spec fn with_data_len(h: SpacePacketHeader, n: usize) -> SpacePacketHeader {
    SpacePacketHeader {
        apid: h.apid,
        packet_type: h.packet_type,
        secondary_header: h.secondary_header,
        sequence_flags: h.sequence_flags,
        sequence_count: h.sequence_count,
        data_len: n,
    }
}

/// The wire bytes of a packet: its header followed by its data field.
pub open spec fn serialize_packet(h: SpacePacketHeader, data: Seq<u8>) -> Result<Seq<u8>, FrameError> {
    match header_check(h) {
        Ok(_) => Ok(encode_header(h) + data),
        Err(e) => Err(e),
    }
}

/// The result of parsing a whole packet: its header and data field.
pub open spec fn parse_packet(bytes: Seq<u8>) -> Result<(SpacePacketHeader, Seq<u8>), FrameError> {
    if bytes.len() < 6 {
        Err(FrameError::Truncated)
    } else {
        match parse_header(bytes.take(6)) {
            Err(e) => Err(e),
            Ok(h) => if h.data_len != bytes.len() - 6 {
                Err(FrameError::LengthMismatch { declared: h.data_len, actual: (bytes.len() - 6) as usize })
            } else {
                Ok((h, bytes.skip(6)))
            },
        }
    }
}

proof fn lemma_split_word(w: u16)
    ensures
        (w >> 8) as u8 == w / 256,
        w as u8 == w % 256,
{
    assert((w >> 8) as u8 == w / 256) by (bit_vector);
    assert(w as u8 == w % 256) by (bit_vector);
}

proof fn lemma_pack_word0(t: u16, s: u16, apid: u16)
    requires
        t <= 1,
        s <= 1,
        apid <= 0x7FF,
    ensures
        ((0u16 << 13u16) | (t << 12u16) | (s << 11u16) | (apid & 0x7FFu16)) == t * 4096 + s * 2048
            + apid,
{
    assert(((0u16 << 13u16) | (t << 12u16) | (s << 11u16) | (apid & 0x7FFu16)) == t * 4096 + s
        * 2048 + apid) by (bit_vector)
        requires
            t <= 1,
            s <= 1,
            apid <= 0x7FF,
    ;
}

proof fn lemma_pack_word1(f: u16, c: u16)
    requires
        f <= 3,
        c <= 0x3FFF,
    ensures
        ((f << 14u16) | (c & 0x3FFFu16)) == f * 16384 + c,
{
    assert(((f << 14u16) | (c & 0x3FFFu16)) == f * 16384 + c) by (bit_vector)
        requires
            f <= 3,
            c <= 0x3FFF,
    ;
}

proof fn lemma_join_bytes(b0: u8, b1: u8, w: u16)
    requires
        w == ((b0 as u16) << 8u16) | (b1 as u16),
    ensures
        w == b0 * 256 + b1,
        (w >> 13u16) & 7u16 == b0 / 32,
        (w >> 12u16) & 1u16 == (b0 / 16) % 2,
        (w >> 11u16) & 1u16 == (b0 / 8) % 2,
        w & 0x7FFu16 == (b0 % 8) * 256 + b1,
        (w >> 14u16) as u8 == b0 / 64,
        w & 0x3FFFu16 == (b0 % 64) * 256 + b1,
{
    assert(w == b0 * 256 + b1) by (bit_vector)
        requires
            w == ((b0 as u16) << 8u16) | (b1 as u16),
    ;
    assert((w >> 13u16) & 7u16 == b0 / 32) by (bit_vector)
        requires
            w == ((b0 as u16) << 8u16) | (b1 as u16),
    ;
    assert((w >> 12u16) & 1u16 == (b0 / 16) % 2) by (bit_vector)
        requires
            w == ((b0 as u16) << 8u16) | (b1 as u16),
    ;
    assert((w >> 11u16) & 1u16 == (b0 / 8) % 2) by (bit_vector)
        requires
            w == ((b0 as u16) << 8u16) | (b1 as u16),
    ;
    assert(w & 0x7FFu16 == (b0 % 8) * 256 + b1) by (bit_vector)
        requires
            w == ((b0 as u16) << 8u16) | (b1 as u16),
    ;
    assert((w >> 14u16) as u8 == b0 / 64) by (bit_vector)
        requires
            w == ((b0 as u16) << 8u16) | (b1 as u16),
    ;
    assert(w & 0x3FFFu16 == (b0 % 64) * 256 + b1) by (bit_vector)
        requires
            w == ((b0 as u16) << 8u16) | (b1 as u16),
    ;
}

impl SpacePacketHeader {
    /// Serialize to the 6-byte on-the-wire primary header.
    pub fn to_bytes(&self) -> (r: Result<[u8; 6], FrameError>)
        ensures
            match header_check(*self) {
                Ok(_) => r matches Ok(b) && b@ == encode_header(*self),
                Err(e) => r == Err::<[u8; 6], FrameError>(e),
            },
    {
        if self.apid > MAX_APID {
            return Err(FrameError::FieldOutOfRange { field: "apid", value: self.apid as i64 });
        }
        if self.sequence_count > MAX_SEQUENCE_COUNT {
            return Err(
                FrameError::FieldOutOfRange {
                    field: "sequence_count",
                    value: self.sequence_count as i64,
                },
            );
        }
        if self.data_len == 0 || self.data_len > MAX_DATA_LEN {
            return Err(
                FrameError::FieldOutOfRange { field: "data_len", value: self.data_len as i64 },
            );
        }
        // CCSDS version 1 packets are encoded as 0b000.
        let version: u16 = 0;
        let type_bit: u16 = match self.packet_type {
            PacketType::Telemetry => 0,
            PacketType::Telecommand => 1,
        };
        let sec_hdr_bit: u16 = if self.secondary_header {
            1
        } else {
            0
        };
        let flag_bits: u16 = self.sequence_flags.bits() as u16;
        let word0: u16 = (version << 13u16) | (type_bit << 12u16) | (sec_hdr_bit << 11u16) | (
        self.apid & MAX_APID);
        let word1: u16 = (flag_bits << 14u16) | (self.sequence_count & MAX_SEQUENCE_COUNT);
        let word2: u16 = (self.data_len - 1) as u16;
        proof {
            lemma_pack_word0(type_bit, sec_hdr_bit, self.apid);
            lemma_pack_word1(flag_bits, self.sequence_count);
            lemma_split_word(word0);
            lemma_split_word(word1);
            lemma_split_word(word2);
        }
        let out: [u8; 6] = [
            (word0 >> 8u16) as u8,
            word0 as u8,
            (word1 >> 8u16) as u8,
            word1 as u8,
            (word2 >> 8u16) as u8,
            word2 as u8,
        ];
        assert(out@ =~= encode_header(*self));
        Ok(out)
    }

    /// Parse a 6-byte primary header.
    pub fn from_bytes(b: &[u8; 6]) -> (r: Result<Self, FrameError>)
        ensures
            r == parse_header(b@),
    {
        let word0: u16 = ((b[0] as u16) << 8u16) | (b[1] as u16);
        let word1: u16 = ((b[2] as u16) << 8u16) | (b[3] as u16);
        let word2: u16 = ((b[4] as u16) << 8u16) | (b[5] as u16);
        proof {
            lemma_join_bytes(b[0], b[1], word0);
            lemma_join_bytes(b[2], b[3], word1);
            lemma_join_bytes(b[4], b[5], word2);
        }

        let version: u16 = (word0 >> 13u16) & 0b111u16;
        if version != 0 {
            return Err(FrameError::UnsupportedVersion(version));
        }
        let packet_type = if (word0 >> 12u16) & 1u16 == 1 {
            PacketType::Telecommand
        } else {
            PacketType::Telemetry
        };
        let secondary_header = (word0 >> 11u16) & 1u16 == 1;
        let apid: u16 = word0 & MAX_APID;

        let sequence_flags = SequenceFlags::from_bits((word1 >> 14u16) as u8);
        let sequence_count: u16 = word1 & MAX_SEQUENCE_COUNT;
        let data_len: usize = word2 as usize + 1;

        Ok(
            SpacePacketHeader {
                apid,
                packet_type,
                secondary_header,
                sequence_flags,
                sequence_count,
                data_len,
            },
        )
    }
}


/// A CCSDS Space Packet: primary header plus its data field.
#[derive(Debug, Clone, PartialEq, Eq)]
pub struct SpacePacket {
    /// The primary header. `header.data_len` must equal `data.len()`.
    pub header: SpacePacketHeader,
    /// The packet data field (user data, or secondary header + user data).
    pub data: Vec<u8>,
}

impl SpacePacket {
    /// Build a packet, deriving `header.data_len` from `data`.
    pub fn new(header: SpacePacketHeader, data: Vec<u8>) -> (r: Result<Self, FrameError>)
        ensures
            match header_check(with_data_len(header, data.len())) {
                Ok(_) => r matches Ok(p) && p.header == with_data_len(header, data.len()) && p.data@
                    == data@ && p.header.apid == header.apid && p.header.packet_type
                    == header.packet_type && p.header.secondary_header == header.secondary_header
                    && p.header.sequence_flags == header.sequence_flags && p.header.sequence_count
                    == header.sequence_count && p.header.data_len == data.len(),
                Err(e) => r matches Err(e2) && e2 == e,
            },
    {
        let mut header = header;
        header.data_len = data.len();
        // validate field ranges eagerly
        match header.to_bytes() {
            Ok(_) => Ok(SpacePacket { header, data }),
            Err(e) => Err(e),
        }
    }

    /// Serialize the full packet (header followed by the data field).
    pub fn to_bytes(&self) -> (r: Result<Vec<u8>, FrameError>)
        ensures
            match serialize_packet(self.header, self.data@) {
                Ok(bytes) => r matches Ok(v) && v@ == bytes,
                Err(e) => r matches Err(e2) && e2 == e,
            },
    {
        let head = match self.header.to_bytes() {
            Ok(b) => b,
            Err(e) => return Err(e),
        };
        let mut out: Vec<u8> = Vec::new();
        let mut i: usize = 0;
        while i < 6
            invariant
                i <= 6,
                head@ == encode_header(self.header),
                out@ == head@.take(i as int),
            decreases 6 - i,
        {
            out.push(head[i]);
            i = i + 1;
            assert(out@ =~= head@.take(i as int));
        }
        let n = self.data.len();
        let mut j: usize = 0;
        while j < n
            invariant
                j <= n,
                n == self.data@.len(),
                out@ == encode_header(self.header) + self.data@.take(j as int),
            decreases n - j,
        {
            out.push(self.data[j]);
            j = j + 1;
            assert(out@ =~= encode_header(self.header) + self.data@.take(j as int));
        }
        assert(self.data@.take(n as int) =~= self.data@);
        Ok(out)
    }

    /// Parse a full packet from its on-the-wire bytes.
    pub fn from_bytes(bytes: &[u8]) -> (r: Result<Self, FrameError>)
        ensures
            match parse_packet(bytes@) {
                Ok((h, d)) => r matches Ok(p) && p.header == h && p.data@ == d,
                Err(e) => r matches Err(e2) && e2 == e,
            },
    {
        if bytes.len() < 6 {
            return Err(FrameError::Truncated);
        }
        let header_bytes: [u8; 6] = [bytes[0], bytes[1], bytes[2], bytes[3], bytes[4], bytes[5]];
        assert(header_bytes@ =~= bytes@.take(6));
        let header = match SpacePacketHeader::from_bytes(&header_bytes) {
            Ok(h) => h,
            Err(e) => return Err(e),
        };
        let actual = bytes.len() - 6;
        if actual != header.data_len {
            return Err(FrameError::LengthMismatch { declared: header.data_len, actual });
        }
        let mut data: Vec<u8> = Vec::new();
        let mut i: usize = 6;
        while i < bytes.len()
            invariant
                6 <= i <= bytes@.len(),
                data@ == bytes@.subrange(6, i as int),
            decreases bytes@.len() - i,
        {
            data.push(bytes[i]);
            i = i + 1;
            assert(data@ =~= bytes@.subrange(6, i as int));
        }
        assert(data@ =~= bytes@.skip(6));
        Ok(SpacePacket { header, data })
    }
}

/// Law: an in-range header, written to the wire and read back, is the same
/// header, and its version bits are those of CCSDS version 1.
pub proof fn lemma_header_round_trip(h: SpacePacketHeader)
    requires
        header_in_range(h),
    ensures
        header_check(h) is Ok,
        encode_header(h).len() == 6,
        parse_header(encode_header(h)) == Ok::<SpacePacketHeader, FrameError>(h),
{
    let b = encode_header(h);
    SequenceFlags::lemma_code_round_trip(h.sequence_flags);
    assert(b[0] / 32 == 0);
    assert(decode_header(b) == h);
}

/// Law: six bytes that parse as a header are exactly the encoding of the
/// header they parse to.
pub proof fn lemma_header_bytes_round_trip(b: Seq<u8>)
    requires
        b.len() == 6,
        parse_header(b) is Ok,
    ensures
        header_in_range(decode_header(b)),
        header_check(decode_header(b)) is Ok,
        encode_header(decode_header(b)) == b,
{
    let h = decode_header(b);
    SequenceFlags::lemma_from_code_in_range(b[2] / 64);
    assert(encode_header(h) =~= b);
}

/// Law: a packet whose header is in range and declares its data length,
/// serialized and parsed back, gives the same header and data.
pub proof fn lemma_packet_round_trip(h: SpacePacketHeader, data: Seq<u8>)
    requires
        header_in_range(h),
        h.data_len == data.len(),
    ensures
        serialize_packet(h, data) matches Ok(bytes) && bytes.len() == 6 + data.len() && parse_packet(
            bytes,
        ) == Ok::<(SpacePacketHeader, Seq<u8>), FrameError>((h, data)),
{
    lemma_header_round_trip(h);
    let bytes = encode_header(h) + data;
    assert(bytes.take(6) =~= encode_header(h));
    assert(bytes.skip(6) =~= data);
}

/// Law: bytes that parse as a packet are exactly that packet's serialization.
pub proof fn lemma_packet_bytes_round_trip(bytes: Seq<u8>)
    requires
        parse_packet(bytes) is Ok,
    ensures
        parse_packet(bytes) matches Ok((h, d)) && serialize_packet(h, d) == Ok::<Seq<u8>, FrameError>(
            bytes,
        ),
{
    lemma_header_bytes_round_trip(bytes.take(6));
    assert(bytes.take(6) + bytes.skip(6) =~= bytes);
}

/// Law: `SpacePacket::new` followed by serialization never fails: whenever a
/// packet can be built, its header matches its data and is in range.
pub proof fn lemma_built_packet_serializes(header: SpacePacketHeader, data: Seq<u8>)
    requires
        data.len() <= usize::MAX,
        header_check(with_data_len(header, data.len() as usize)) is Ok,
    ensures
        serialize_packet(with_data_len(header, data.len() as usize), data) is Ok,
        parse_packet(encode_header(with_data_len(header, data.len() as usize)) + data)
            == Ok::<(SpacePacketHeader, Seq<u8>), FrameError>(
            (with_data_len(header, data.len() as usize), data),
        ),
{
    lemma_packet_round_trip(with_data_len(header, data.len() as usize), data);
}

/// Law (wire layout): an in-range header goes out as six big-endian bytes.
/// In the first byte the version bits are zero, the packet-type bit has
/// value `0x10` (set for a telecommand), the secondary-header flag has value
/// `0x08`, and the low three bits hold the top of the 11-bit APID; the
/// second byte holds the rest of the APID. The third byte carries the
/// sequence flags in its top two bits (continuation 0, first 1, last 2,
/// unsegmented 3) above the top six bits of the 14-bit sequence count, and
/// the fourth byte the rest of the count. The last two bytes hold the data
/// length minus one.
pub proof fn lemma_header_wire_layout(h: SpacePacketHeader)
    requires
        h.apid <= 0x7FF,
        h.sequence_count <= 0x3FFF,
        1 <= h.data_len <= 0x1_0000,
    ensures
        encode_header(h) == seq![
            ((if h.packet_type == PacketType::Telecommand { 0x10int } else { 0int }) + (if h.secondary_header {
                0x08int
            } else {
                0int
            }) + h.apid / 256) as u8,
            (h.apid % 256) as u8,
            ((if h.sequence_flags == SequenceFlags::Continuation {
                0int
            } else if h.sequence_flags == SequenceFlags::First {
                1int
            } else if h.sequence_flags == SequenceFlags::Last {
                2int
            } else {
                3int
            }) * 64 + h.sequence_count / 256) as u8,
            (h.sequence_count % 256) as u8,
            ((h.data_len - 1) / 256) as u8,
            ((h.data_len - 1) % 256) as u8,
        ],
{
    let t: int = if h.packet_type == PacketType::Telecommand { 1 } else { 0 };
    let s: int = if h.secondary_header { 1 } else { 0 };
    let a: int = h.apid as int;
    assert((t * 4096 + s * 2048 + a) / 256 == t * 16 + s * 8 + a / 256 && (t * 4096 + s * 2048 + a)
        % 256 == a % 256) by (nonlinear_arith)
        requires
            0 <= a <= 0x7FF,
            0 <= t <= 1,
            0 <= s <= 1,
    ;
    let f: int = h.sequence_flags.code() as int;
    let c: int = h.sequence_count as int;
    assert((f * 16384 + c) / 256 == f * 64 + c / 256 && (f * 16384 + c) % 256 == c % 256)
        by (nonlinear_arith)
        requires
            0 <= c <= 0x3FFF,
            0 <= f <= 3,
    ;
    assert(encode_header(h) =~= seq![
        ((if h.packet_type == PacketType::Telecommand { 0x10int } else { 0int }) + (if h.secondary_header {
            0x08int
        } else {
            0int
        }) + h.apid / 256) as u8,
        (h.apid % 256) as u8,
        ((if h.sequence_flags == SequenceFlags::Continuation {
            0int
        } else if h.sequence_flags == SequenceFlags::First {
            1int
        } else if h.sequence_flags == SequenceFlags::Last {
            2int
        } else {
            3int
        }) * 64 + h.sequence_count / 256) as u8,
        (h.sequence_count % 256) as u8,
        ((h.data_len - 1) / 256) as u8,
        ((h.data_len - 1) % 256) as u8,
    ]);
}

/// Law (reading the first bytes): six bytes whose first byte is below `0x20`
/// (version bits zero) parse to a header that is a telecommand exactly when
/// the first byte is at least `0x10`, has a secondary header exactly when
/// the first byte's `0x08` bit is set, and whose APID is the first byte's low
/// three bits followed by the second byte.
pub proof fn lemma_header_first_bytes(b: Seq<u8>)
    requires
        b.len() == 6,
        b[0] < 0x20,
    ensures
        parse_header(b) matches Ok(h) && (h.packet_type == PacketType::Telecommand <==> b[0]
            >= 0x10) && (h.secondary_header <==> b[0] % 0x10 >= 0x08) && h.apid == (b[0] % 8)
            * 256 + b[1],
{
}

} // verus!
