//! Versioned media datagram framing.
//!
//! A datagram is a fixed 32-byte big-endian header followed by the payload.
//! The layout must stay byte-for-byte stable across both endpoints.
use vstd::prelude::*;

verus! {

/// The four bytes `"LAL1"` that open every datagram.
pub const MAGIC: [u8; 4] = [0x4c, 0x41, 0x4c, 0x31];
pub const PROTOCOL_VERSION: u8 = 1;
pub const HEADER_LEN: usize = 32;
pub const MAX_DATAGRAM_LEN: usize = 1200;
pub const MAX_PAYLOAD_LEN: usize = MAX_DATAGRAM_LEN - HEADER_LEN;

pub const FLAG_KEYFRAME: u8 = 1;
pub const FLAG_CONFIG: u8 = 2;
pub const FLAG_DISCONTINUITY: u8 = 4;
pub const FLAG_END_OF_STREAM: u8 = 8;

/// The bytes of [`MAGIC`] as a sequence.
pub open spec fn magic_seq() -> Seq<u8> {
    seq![0x4cu8, 0x41u8, 0x4cu8, 0x31u8]
}

#[derive(Clone, Copy, Debug, PartialEq, Eq, Structural)]
pub enum MediaKind {
    Audio,
    Video,
    Control,
    Heartbeat,
}

impl MediaKind {
    /// The wire code of a media kind.
    pub open spec fn spec_code(self) -> u8 {
        match self {
            MediaKind::Audio => 1,
            MediaKind::Video => 2,
            MediaKind::Control => 3,
            MediaKind::Heartbeat => 4,
        }
    }

    /// The media kind whose wire code is `value`, if any.
    pub open spec fn spec_from_code(value: u8) -> Option<MediaKind> {
        if value == 1 {
            Some(MediaKind::Audio)
        } else if value == 2 {
            Some(MediaKind::Video)
        } else if value == 3 {
            Some(MediaKind::Control)
        } else if value == 4 {
            Some(MediaKind::Heartbeat)
        } else {
            None
        }
    }

    #[verifier::when_used_as_spec(spec_code)]
    pub fn code(self) -> (c: u8)
        ensures
            c == self.spec_code(),
    {
        match self {
            MediaKind::Audio => 1,
            MediaKind::Video => 2,
            MediaKind::Control => 3,
            MediaKind::Heartbeat => 4,
        }
    }
}

impl TryFrom<u8> for MediaKind {
    type Error = ProtocolError;

    /// Reads a media kind from its wire code.
    fn try_from(value: u8) -> (r: Result<MediaKind, ProtocolError>) {
        match value {
            1 => Ok(MediaKind::Audio),
            2 => Ok(MediaKind::Video),
            3 => Ok(MediaKind::Control),
            4 => Ok(MediaKind::Heartbeat),
            _ => Err(ProtocolError::UnknownMediaKind(value)),
        }
    }
}

impl vstd::std_specs::convert::TryFromSpecImpl<u8> for MediaKind {
    open spec fn obeys_try_from_spec() -> bool {
        true
    }

    open spec fn try_from_spec(value: u8) -> Result<MediaKind, ProtocolError> {
        match MediaKind::spec_from_code(value) {
            Some(k) => Ok(k),
            None => Err(ProtocolError::UnknownMediaKind(value)),
        }
    }
}

#[derive(Clone, Copy, Debug, PartialEq, Eq, Structural)]
pub enum Codec {
    NoCodec,
    PcmS16Le,
    Opus,
    Hevc,
    Json,
}

impl Codec {
    /// The wire code of a codec.
    pub open spec fn spec_code(self) -> u8 {
        match self {
            Codec::NoCodec => 0,
            Codec::PcmS16Le => 1,
            Codec::Opus => 2,
            Codec::Hevc => 3,
            Codec::Json => 4,
        }
    }

    /// The codec whose wire code is `value`, if any.
    pub open spec fn spec_from_code(value: u8) -> Option<Codec> {
        if value == 0 {
            Some(Codec::NoCodec)
        } else if value == 1 {
            Some(Codec::PcmS16Le)
        } else if value == 2 {
            Some(Codec::Opus)
        } else if value == 3 {
            Some(Codec::Hevc)
        } else if value == 4 {
            Some(Codec::Json)
        } else {
            None
        }
    }

    #[verifier::when_used_as_spec(spec_code)]
    pub fn code(self) -> (c: u8)
        ensures
            c == self.spec_code(),
    {
        match self {
            Codec::NoCodec => 0,
            Codec::PcmS16Le => 1,
            Codec::Opus => 2,
            Codec::Hevc => 3,
            Codec::Json => 4,
        }
    }
}

impl TryFrom<u8> for Codec {
    type Error = ProtocolError;

    /// Reads a codec from its wire code.
    fn try_from(value: u8) -> (r: Result<Codec, ProtocolError>) {
        match value {
            0 => Ok(Codec::NoCodec),
            1 => Ok(Codec::PcmS16Le),
            2 => Ok(Codec::Opus),
            3 => Ok(Codec::Hevc),
            4 => Ok(Codec::Json),
            _ => Err(ProtocolError::UnknownCodec(value)),
        }
    }
}

impl vstd::std_specs::convert::TryFromSpecImpl<u8> for Codec {
    open spec fn obeys_try_from_spec() -> bool {
        true
    }

    open spec fn try_from_spec(value: u8) -> Result<Codec, ProtocolError> {
        match Codec::spec_from_code(value) {
            Some(c) => Ok(c),
            None => Err(ProtocolError::UnknownCodec(value)),
        }
    }
}

#[derive(Clone, Copy, Debug, PartialEq, Eq, Structural)]
pub enum ProtocolError {
    DatagramTooShort(usize),
    InvalidMagic,
    UnsupportedVersion(u8),
    UnknownMediaKind(u8),
    UnknownCodec(u8),
    InvalidPayloadLength { declared: usize, actual: usize },
    PayloadTooLarge(usize),
    InvalidFragment { index: u16, count: u16 },
}

#[derive(Clone, Copy, Debug, PartialEq, Eq, Structural)]
pub struct PacketHeader {
    pub media_kind: MediaKind,
    pub codec: Codec,
    pub flags: u8,
    pub stream_id: u32,
    pub sequence: u32,
    pub timestamp_us: u64,
    pub fragment_index: u16,
    pub fragment_count: u16,
}

/// Big-endian bytes of a 16-bit value.
pub open spec fn be16(v: u16) -> Seq<u8> {
    seq![(v >> 8u16) as u8, v as u8]
}

/// Big-endian bytes of a 32-bit value.
pub open spec fn be32(v: u32) -> Seq<u8> {
    seq![(v >> 24u32) as u8, (v >> 16u32) as u8, (v >> 8u32) as u8, v as u8]
}

/// Big-endian bytes of a 64-bit value.
pub open spec fn be64(v: u64) -> Seq<u8> {
    seq![
        (v >> 56u64) as u8,
        (v >> 48u64) as u8,
        (v >> 40u64) as u8,
        (v >> 32u64) as u8,
        (v >> 24u64) as u8,
        (v >> 16u64) as u8,
        (v >> 8u64) as u8,
        v as u8,
    ]
}

/// The 16-bit value with big-endian bytes `b0 b1`.
pub open spec fn word16(b0: u8, b1: u8) -> u16 {
    ((b0 as u16) << 8u16) | (b1 as u16)
}

/// The 32-bit value with big-endian bytes `b0 b1 b2 b3`.
pub open spec fn word32(b0: u8, b1: u8, b2: u8, b3: u8) -> u32 {
    ((b0 as u32) << 24u32) | ((b1 as u32) << 16u32) | ((b2 as u32) << 8u32) | (b3 as u32)
}

/// The 64-bit value whose high and low halves are `hi` and `lo`.
pub open spec fn word64(hi: u32, lo: u32) -> u64 {
    ((hi as u64) << 32u64) | (lo as u64)
}

/// The 16-bit value whose big-endian bytes start at `at` in `s`.
pub open spec fn read_be16(s: Seq<u8>, at: int) -> u16 {
    word16(s[at], s[at + 1])
}

/// The 32-bit value whose big-endian bytes start at `at` in `s`.
pub open spec fn read_be32(s: Seq<u8>, at: int) -> u32 {
    word32(s[at], s[at + 1], s[at + 2], s[at + 3])
}

/// The 64-bit value whose big-endian bytes start at `at` in `s`.
pub open spec fn read_be64(s: Seq<u8>, at: int) -> u64 {
    word64(read_be32(s, at), read_be32(s, at + 4))
}

/// A fragment position is valid when the count is positive and the index is below it.
pub open spec fn fragment_is_valid(index: u16, count: u16) -> bool {
    count != 0 && index < count
}

impl PacketHeader {
    /// The 32 header bytes for this header and a payload of `payload_len` bytes.
    pub open spec fn header_bytes(self, payload_len: u16) -> Seq<u8> {
        magic_seq()
            + seq![PROTOCOL_VERSION, self.media_kind.spec_code(), self.codec.spec_code(), self.flags]
            + be32(self.stream_id)
            + be32(self.sequence)
            + be64(self.timestamp_us)
            + be16(payload_len)
            + be16(self.fragment_index)
            + be16(self.fragment_count)
            + seq![0u8, 0u8]
    }

    /// What encoding this header for a payload of `payload_len` bytes gives.
    pub open spec fn encode_result(self, payload_len: usize) -> Result<Seq<u8>, ProtocolError> {
        if !fragment_is_valid(self.fragment_index, self.fragment_count) {
            Err(
                ProtocolError::InvalidFragment {
                    index: self.fragment_index,
                    count: self.fragment_count,
                },
            )
        } else if payload_len > MAX_PAYLOAD_LEN {
            Err(ProtocolError::PayloadTooLarge(payload_len))
        } else {
            Ok(self.header_bytes(payload_len as u16))
        }
    }

    /// Encodes the header for a payload of `payload_len` bytes.
    pub fn encode(self, payload_len: usize) -> (r: Result<[u8; HEADER_LEN], ProtocolError>)
        ensures
            match (r, self.encode_result(payload_len)) {
                (Ok(bytes), Ok(spec_bytes)) => bytes@ == spec_bytes,
                (Err(e), Err(spec_e)) => e == spec_e,
                _ => false,
            },
    {
        validate_fragment(self.fragment_index, self.fragment_count)?;
        if payload_len > MAX_PAYLOAD_LEN {
            return Err(ProtocolError::PayloadTooLarge(payload_len));
        }
        let len: u16 = payload_len as u16;
        let stream_id = self.stream_id;
        let sequence = self.sequence;
        let ts = self.timestamp_us;
        let fi = self.fragment_index;
        let fc = self.fragment_count;
        let bytes: [u8; HEADER_LEN] = [
            MAGIC[0],
            MAGIC[1],
            MAGIC[2],
            MAGIC[3],
            PROTOCOL_VERSION,
            self.media_kind.code(),
            self.codec.code(),
            self.flags,
            (stream_id >> 24u32) as u8,
            (stream_id >> 16u32) as u8,
            (stream_id >> 8u32) as u8,
            stream_id as u8,
            (sequence >> 24u32) as u8,
            (sequence >> 16u32) as u8,
            (sequence >> 8u32) as u8,
            sequence as u8,
            (ts >> 56u64) as u8,
            (ts >> 48u64) as u8,
            (ts >> 40u64) as u8,
            (ts >> 32u64) as u8,
            (ts >> 24u64) as u8,
            (ts >> 16u64) as u8,
            (ts >> 8u64) as u8,
            ts as u8,
            (len >> 8u16) as u8,
            len as u8,
            (fi >> 8u16) as u8,
            fi as u8,
            (fc >> 8u16) as u8,
            fc as u8,
            0,
            0,
        ];
        assert(bytes@ =~= self.header_bytes(len));
        Ok(bytes)
    }
}

fn validate_fragment(index: u16, count: u16) -> (r: Result<(), ProtocolError>)
    ensures
        r is Ok <==> fragment_is_valid(index, count),
        r is Err ==> r == Err::<(), ProtocolError>(ProtocolError::InvalidFragment { index, count }),
{
    if count == 0 || index >= count {
        return Err(ProtocolError::InvalidFragment { index, count });
    }
    Ok(())
}

/// What decoding the datagram `d` gives: the header and the payload bytes, or the
/// first check that fails, in the order length, magic, version, media kind, codec,
/// declared payload length, payload budget, fragment position.
pub open spec fn decode_result(d: Seq<u8>) -> Result<(PacketHeader, Seq<u8>), ProtocolError> {
    if d.len() < HEADER_LEN {
        Err(ProtocolError::DatagramTooShort(d.len() as usize))
    } else if d.subrange(0, 4) != magic_seq() {
        Err(ProtocolError::InvalidMagic)
    } else if d[4] != PROTOCOL_VERSION {
        Err(ProtocolError::UnsupportedVersion(d[4]))
    } else {
        match MediaKind::spec_from_code(d[5]) {
            None => Err(ProtocolError::UnknownMediaKind(d[5])),
            Some(media_kind) => match Codec::spec_from_code(d[6]) {
                None => Err(ProtocolError::UnknownCodec(d[6])),
                Some(codec) => {
                    let declared = read_be16(d, 24);
                    let actual = d.len() - HEADER_LEN;
                    let index = read_be16(d, 26);
                    let count = read_be16(d, 28);
                    if declared != actual {
                        Err(
                            ProtocolError::InvalidPayloadLength {
                                declared: declared as usize,
                                actual: actual as usize,
                            },
                        )
                    } else if declared > MAX_PAYLOAD_LEN {
                        Err(ProtocolError::PayloadTooLarge(declared as usize))
                    } else if !fragment_is_valid(index, count) {
                        Err(ProtocolError::InvalidFragment { index, count })
                    } else {
                        Ok(
                            (
                                PacketHeader {
                                    media_kind,
                                    codec,
                                    flags: d[7],
                                    stream_id: read_be32(d, 8),
                                    sequence: read_be32(d, 12),
                                    timestamp_us: read_be64(d, 16),
                                    fragment_index: index,
                                    fragment_count: count,
                                },
                                d.subrange(HEADER_LEN as int, d.len() as int),
                            ),
                        )
                    }
                },
            },
        }
    }
}

/// Writes the datagram for `header` and `payload` into `output`, replacing what it held.
/// On error `output` is left as it was.
pub fn write_datagram(header: PacketHeader, payload: &[u8], output: &mut Vec<u8>) -> (r: Result<
    (),
    ProtocolError,
>)
    ensures
        match header.encode_result(payload@.len() as usize) {
            Ok(bytes) => r is Ok && final(output)@ == bytes + payload@,
            Err(e) => r == Err::<(), ProtocolError>(e) && final(output)@ == old(output)@,
        },
{
    let encoded = header.encode(payload.len())?;
    output.clear();
    output.reserve(HEADER_LEN + payload.len());
    output.extend_from_slice(encoded.as_slice());
    output.extend_from_slice(payload);
    assert(output@ =~= encoded@ + payload@);
    Ok(())
}

/// Reads a big-endian 16-bit value at `at`.
fn get_be16(d: &[u8], at: usize) -> (v: u16)
    requires
        at + 2 <= d@.len(),
    ensures
        v == read_be16(d@, at as int),
{
    ((d[at] as u16) << 8u16) | (d[at + 1] as u16)
}

/// Reads a big-endian 32-bit value at `at`.
fn get_be32(d: &[u8], at: usize) -> (v: u32)
    requires
        at + 4 <= d@.len(),
    ensures
        v == read_be32(d@, at as int),
{
    ((d[at] as u32) << 24u32) | ((d[at + 1] as u32) << 16u32) | ((d[at + 2] as u32) << 8u32) | (
    d[at + 3] as u32)
}

/// Reads a big-endian 64-bit value at `at`.
fn get_be64(d: &[u8], at: usize) -> (v: u64)
    requires
        at + 8 <= d.len(),
    ensures
        v == read_be64(d@, at as int),
{
    let hi = get_be32(d, at);
    let lo = get_be32(d, at + 4);
    ((hi as u64) << 32u64) | (lo as u64)
}

/// Splits a datagram into its header and payload, checking every header field.
pub fn decode_datagram(datagram: &[u8]) -> (r: Result<(PacketHeader, &[u8]), ProtocolError>)
    ensures
        match (r, decode_result(datagram@)) {
            (Ok((header, payload)), Ok((spec_header, spec_payload))) => header == spec_header
                && payload@ == spec_payload,
            (Err(e), Err(spec_e)) => e == spec_e,
            _ => false,
        },
{
    if datagram.len() < HEADER_LEN {
        return Err(ProtocolError::DatagramTooShort(datagram.len()));
    }
    if datagram[0] != MAGIC[0] || datagram[1] != MAGIC[1] || datagram[2] != MAGIC[2]
        || datagram[3] != MAGIC[3] {
        proof {
            let d = datagram@;
            if d.subrange(0, 4) == magic_seq() {
                assert(d[0] == d.subrange(0, 4)[0]);
                assert(d[1] == d.subrange(0, 4)[1]);
                assert(d[2] == d.subrange(0, 4)[2]);
                assert(d[3] == d.subrange(0, 4)[3]);
            }
        }
        return Err(ProtocolError::InvalidMagic);
    }
    assert(datagram@.subrange(0, 4) =~= magic_seq());
    if datagram[4] != PROTOCOL_VERSION {
        return Err(ProtocolError::UnsupportedVersion(datagram[4]));
    }
    let media_kind = MediaKind::try_from(datagram[5])?;
    let codec = Codec::try_from(datagram[6])?;
    let payload_len = get_be16(datagram, 24) as usize;
    let actual_len = datagram.len() - HEADER_LEN;
    if payload_len != actual_len {
        return Err(ProtocolError::InvalidPayloadLength { declared: payload_len, actual: actual_len });
    }
    if payload_len > MAX_PAYLOAD_LEN {
        return Err(ProtocolError::PayloadTooLarge(payload_len));
    }
    let fragment_index = get_be16(datagram, 26);
    let fragment_count = get_be16(datagram, 28);
    validate_fragment(fragment_index, fragment_count)?;
    let header = PacketHeader {
        media_kind,
        codec,
        flags: datagram[7],
        stream_id: get_be32(datagram, 8),
        sequence: get_be32(datagram, 12),
        timestamp_us: get_be64(datagram, 16),
        fragment_index,
        fragment_count,
    };
    let payload = &datagram[HEADER_LEN..datagram.len()];
    Ok((header, payload))
}

proof fn lemma_be16_round_trip(v: u16)
    ensures
        word16((v >> 8u16) as u8, v as u8) == v,
{
    assert(word16((v >> 8u16) as u8, v as u8) == v) by (bit_vector);
}

proof fn lemma_be32_round_trip(v: u32)
    ensures
        word32((v >> 24u32) as u8, (v >> 16u32) as u8, (v >> 8u32) as u8, v as u8) == v,
{
    assert(word32((v >> 24u32) as u8, (v >> 16u32) as u8, (v >> 8u32) as u8, v as u8) == v)
        by (bit_vector);
}

proof fn lemma_be64_split(v: u64)
    ensures
        word64((v >> 32u64) as u32, v as u32) == v,
        ((v >> 32u64) as u32 >> 24u32) as u8 == (v >> 56u64) as u8,
        ((v >> 32u64) as u32 >> 16u32) as u8 == (v >> 48u64) as u8,
        ((v >> 32u64) as u32 >> 8u32) as u8 == (v >> 40u64) as u8,
        ((v >> 32u64) as u32) as u8 == (v >> 32u64) as u8,
        ((v as u32) >> 24u32) as u8 == (v >> 24u64) as u8,
        ((v as u32) >> 16u32) as u8 == (v >> 16u64) as u8,
        ((v as u32) >> 8u32) as u8 == (v >> 8u64) as u8,
        (v as u32) as u8 == v as u8,
{
    assert(word64((v >> 32u64) as u32, v as u32) == v) by (bit_vector);
    assert(((v >> 32u64) as u32 >> 24u32) as u8 == (v >> 56u64) as u8) by (bit_vector);
    assert(((v >> 32u64) as u32 >> 16u32) as u8 == (v >> 48u64) as u8) by (bit_vector);
    assert(((v >> 32u64) as u32 >> 8u32) as u8 == (v >> 40u64) as u8) by (bit_vector);
    assert(((v >> 32u64) as u32) as u8 == (v >> 32u64) as u8) by (bit_vector);
    assert(((v as u32) >> 24u32) as u8 == (v >> 24u64) as u8) by (bit_vector);
    assert(((v as u32) >> 16u32) as u8 == (v >> 16u64) as u8) by (bit_vector);
    assert(((v as u32) >> 8u32) as u8 == (v >> 8u64) as u8) by (bit_vector);
    assert((v as u32) as u8 == v as u8) by (bit_vector);
}

proof fn lemma_bytes16_round_trip(b0: u8, b1: u8)
    ensures
        (word16(b0, b1) >> 8u16) as u8 == b0,
        word16(b0, b1) as u8 == b1,
{
    assert((word16(b0, b1) >> 8u16) as u8 == b0) by (bit_vector);
    assert(word16(b0, b1) as u8 == b1) by (bit_vector);
}

proof fn lemma_bytes32_round_trip(b0: u8, b1: u8, b2: u8, b3: u8)
    ensures
        (word32(b0, b1, b2, b3) >> 24u32) as u8 == b0,
        (word32(b0, b1, b2, b3) >> 16u32) as u8 == b1,
        (word32(b0, b1, b2, b3) >> 8u32) as u8 == b2,
        word32(b0, b1, b2, b3) as u8 == b3,
{
    assert((word32(b0, b1, b2, b3) >> 24u32) as u8 == b0) by (bit_vector);
    assert((word32(b0, b1, b2, b3) >> 16u32) as u8 == b1) by (bit_vector);
    assert((word32(b0, b1, b2, b3) >> 8u32) as u8 == b2) by (bit_vector);
    assert(word32(b0, b1, b2, b3) as u8 == b3) by (bit_vector);
}

proof fn lemma_words64_round_trip(hi: u32, lo: u32)
    ensures
        (word64(hi, lo) >> 32u64) as u32 == hi,
        word64(hi, lo) as u32 == lo,
{
    assert((word64(hi, lo) >> 32u64) as u32 == hi) by (bit_vector);
    assert(word64(hi, lo) as u32 == lo) by (bit_vector);
}

/// Decoding a datagram that was written gives back the header and payload it was written from:
/// for every header and payload that encode without error, reading the datagram
/// `header bytes ++ payload` yields exactly that header and that payload.
pub proof fn lemma_write_then_decode(header: PacketHeader, payload: Seq<u8>)
    requires
        payload.len() <= MAX_PAYLOAD_LEN,
        fragment_is_valid(header.fragment_index, header.fragment_count),
    ensures
        decode_result(header.header_bytes(payload.len() as u16) + payload) == Ok::<
            (PacketHeader, Seq<u8>),
            ProtocolError,
        >((header, payload)),
{
    let len = payload.len() as u16;
    let d = header.header_bytes(len) + payload;
    assert(header.header_bytes(len).len() == HEADER_LEN);
    assert(d.subrange(0, 4) =~= magic_seq());
    lemma_be16_round_trip(len);
    lemma_be16_round_trip(header.fragment_index);
    lemma_be16_round_trip(header.fragment_count);
    lemma_be32_round_trip(header.stream_id);
    lemma_be32_round_trip(header.sequence);
    let ts = header.timestamp_us;
    lemma_be64_split(ts);
    lemma_be32_round_trip((ts >> 32u64) as u32);
    lemma_be32_round_trip(ts as u32);
    assert(read_be16(d, 24) == len);
    assert(read_be16(d, 26) == header.fragment_index);
    assert(read_be16(d, 28) == header.fragment_count);
    assert(read_be32(d, 8) == header.stream_id);
    assert(read_be32(d, 12) == header.sequence);
    assert(read_be32(d, 16) == (ts >> 32u64) as u32);
    assert(read_be32(d, 20) == ts as u32);
    assert(read_be64(d, 16) == ts);
    assert(MediaKind::spec_from_code(header.media_kind.spec_code()) == Some(header.media_kind));
    assert(Codec::spec_from_code(header.codec.spec_code()) == Some(header.codec));
    assert(d.subrange(HEADER_LEN as int, d.len() as int) =~= payload);
    assert(d.len() >= HEADER_LEN);
    assert(d[4] == PROTOCOL_VERSION);
    assert(MediaKind::spec_from_code(d[5]) == Some(header.media_kind));
    assert(Codec::spec_from_code(d[6]) == Some(header.codec));
    assert(d[7] == header.flags);
}

/// Writing back a decoded datagram reproduces it: when `d` decodes to a header and payload and
/// its two reserved header bytes are zero, encoding that header succeeds and the encoded header
/// followed by the payload is `d` again.
pub proof fn lemma_decode_then_write(d: Seq<u8>)
    requires
        decode_result(d) is Ok,
        d[30] == 0,
        d[31] == 0,
    ensures
        ({
            let (header, payload) = decode_result(d)->Ok_0;
            &&& header.encode_result(payload.len() as usize) == Ok::<Seq<u8>, ProtocolError>(
                d.subrange(0, HEADER_LEN as int),
            )
            &&& d.subrange(0, HEADER_LEN as int) + payload == d
        }),
{
    let (header, payload) = decode_result(d)->Ok_0;
    let len = read_be16(d, 24);
    assert(payload.len() == len);
    lemma_bytes16_round_trip(d[24], d[25]);
    lemma_bytes16_round_trip(d[26], d[27]);
    lemma_bytes16_round_trip(d[28], d[29]);
    lemma_bytes32_round_trip(d[8], d[9], d[10], d[11]);
    lemma_bytes32_round_trip(d[12], d[13], d[14], d[15]);
    lemma_bytes32_round_trip(d[16], d[17], d[18], d[19]);
    lemma_bytes32_round_trip(d[20], d[21], d[22], d[23]);
    let ts = header.timestamp_us;
    lemma_words64_round_trip(read_be32(d, 16), read_be32(d, 20));
    lemma_be64_split(ts);
    assert(d.subrange(0, 4) == magic_seq());
    assert(d[0] == d.subrange(0, 4)[0]);
    assert(d[1] == d.subrange(0, 4)[1]);
    assert(d[2] == d.subrange(0, 4)[2]);
    assert(d[3] == d.subrange(0, 4)[3]);
    assert(header.media_kind.spec_code() == d[5]);
    assert(header.codec.spec_code() == d[6]);
    assert(header.header_bytes(len) =~= d.subrange(0, HEADER_LEN as int));
    assert(d.subrange(0, HEADER_LEN as int) + payload =~= d);
}

/// The unsigned value of the 2 big-endian bytes at `at` in `s`.
pub open spec fn be_value2(s: Seq<u8>, at: int) -> int {
    s[at] * 0x100 + s[at + 1]
}

/// The unsigned value of the 4 big-endian bytes at `at` in `s`.
pub open spec fn be_value4(s: Seq<u8>, at: int) -> int {
    s[at] * 0x100_0000 + s[at + 1] * 0x1_0000 + s[at + 2] * 0x100 + s[at + 3]
}

/// The unsigned value of the 8 big-endian bytes at `at` in `s`.
pub open spec fn be_value8(s: Seq<u8>, at: int) -> int {
    be_value4(s, at) * 0x1_0000_0000 + be_value4(s, at + 4)
}

proof fn lemma_be16_value(v: u16)
    ensures
        ((v >> 8u16) as u8) as int * 0x100 + (v as u8) as int == v as int,
{
    assert(((v >> 8u16) as u8) as u32 * 0x100 + (v as u8) as u32 == v as u32) by (bit_vector);
}

proof fn lemma_be32_value(v: u32)
    ensures
        ((v >> 24u32) as u8) as int * 0x100_0000 + ((v >> 16u32) as u8) as int * 0x1_0000 + ((v
            >> 8u32) as u8) as int * 0x100 + (v as u8) as int == v as int,
{
    assert(((v >> 24u32) as u8) as u64 * 0x100_0000 + ((v >> 16u32) as u8) as u64 * 0x1_0000 + ((v
        >> 8u32) as u8) as u64 * 0x100 + (v as u8) as u64 == v as u64) by (bit_vector);
}

proof fn lemma_word16_value(b0: u8, b1: u8)
    ensures
        word16(b0, b1) as int == b0 as int * 0x100 + b1 as int,
{
    assert(word16(b0, b1) as u32 == b0 as u32 * 0x100 + b1 as u32) by (bit_vector);
}

proof fn lemma_word32_value(b0: u8, b1: u8, b2: u8, b3: u8)
    ensures
        word32(b0, b1, b2, b3) as int == b0 as int * 0x100_0000 + b1 as int * 0x1_0000 + b2 as int
            * 0x100 + b3 as int,
{
    assert(word32(b0, b1, b2, b3) as u64 == b0 as u64 * 0x100_0000 + b1 as u64 * 0x1_0000 + b2 as u64
        * 0x100 + b3 as u64) by (bit_vector);
}

proof fn lemma_word64_value(hi: u32, lo: u32)
    ensures
        word64(hi, lo) as int == hi as int * 0x1_0000_0000 + lo as int,
{
    assert(word64(hi, lo) as u128 == hi as u128 * 0x1_0000_0000 + lo as u128) by (bit_vector);
}

/// The wire layout of an encoded header, field by field. Encoding succeeds exactly when the
/// fragment count is positive, the fragment index is below it and the payload fits the
/// 1168-byte budget; the 32 bytes are then `"LAL1"`, version 1, the media kind's code
/// (audio 1, video 2, control 3, heartbeat 4), the codec's code (none 0, PCM 1, Opus 2, HEVC 3,
/// JSON 4), the flags exactly as given, the stream id, sequence number, timestamp, payload
/// length, fragment index and fragment count as big-endian numbers, and two zero bytes.
pub proof fn lemma_encoded_header_layout(header: PacketHeader, payload_len: usize)
    ensures
        header.encode_result(payload_len) is Ok <==> (header.fragment_count != 0
            && header.fragment_index < header.fragment_count && payload_len <= 1168),
        header.encode_result(payload_len) matches Ok(b) ==> {
            &&& b.len() == 32
            &&& b[0] == 0x4c && b[1] == 0x41 && b[2] == 0x4c && b[3] == 0x31
            &&& b[4] == 1
            &&& b[5] == match header.media_kind {
                MediaKind::Audio => 1u8,
                MediaKind::Video => 2u8,
                MediaKind::Control => 3u8,
                MediaKind::Heartbeat => 4u8,
            }
            &&& b[6] == match header.codec {
                Codec::NoCodec => 0u8,
                Codec::PcmS16Le => 1u8,
                Codec::Opus => 2u8,
                Codec::Hevc => 3u8,
                Codec::Json => 4u8,
            }
            &&& b[7] == header.flags
            &&& be_value4(b, 8) == header.stream_id
            &&& be_value4(b, 12) == header.sequence
            &&& be_value8(b, 16) == header.timestamp_us
            &&& be_value2(b, 24) == payload_len
            &&& be_value2(b, 26) == header.fragment_index
            &&& be_value2(b, 28) == header.fragment_count
            &&& b[30] == 0 && b[31] == 0
        },
{
    if header.encode_result(payload_len) is Ok {
        let len = payload_len as u16;
        let b = header.header_bytes(len);
        assert(b.len() == 32);
        lemma_be32_value(header.stream_id);
        lemma_be32_value(header.sequence);
        let ts = header.timestamp_us;
        lemma_be64_split(ts);
        lemma_be32_value((ts >> 32u64) as u32);
        lemma_be32_value(ts as u32);
        lemma_word64_value((ts >> 32u64) as u32, ts as u32);
        lemma_be16_value(len);
        lemma_be16_value(header.fragment_index);
        lemma_be16_value(header.fragment_count);
        assert(b[16] == ((ts >> 32u64) as u32 >> 24u32) as u8);
        assert(be_value4(b, 16) == (ts >> 32u64) as u32);
        assert(be_value4(b, 20) == ts as u32);
    }
}

/// What a decoded datagram says, field by field, in terms of its bytes: it is at least 32 bytes
/// long and opens with `"LAL1"` and version 1; the media kind and codec are those whose codes
/// are bytes 5 and 6; the flags are byte 7 exactly; the stream id, sequence number, timestamp,
/// fragment index and fragment count are the big-endian numbers at their offsets; the payload
/// is everything after the 32 header bytes, its length is the big-endian number at offset 24
/// and at most 1168; and the fragment index is below a positive fragment count.
pub proof fn lemma_decoded_datagram_fields(d: Seq<u8>)
    ensures
        decode_result(d) matches Ok((h, p)) ==> {
            &&& d.len() >= 32
            &&& d[0] == 0x4c && d[1] == 0x41 && d[2] == 0x4c && d[3] == 0x31
            &&& d[4] == 1
            &&& match h.media_kind {
                MediaKind::Audio => d[5] == 1,
                MediaKind::Video => d[5] == 2,
                MediaKind::Control => d[5] == 3,
                MediaKind::Heartbeat => d[5] == 4,
            }
            &&& match h.codec {
                Codec::NoCodec => d[6] == 0,
                Codec::PcmS16Le => d[6] == 1,
                Codec::Opus => d[6] == 2,
                Codec::Hevc => d[6] == 3,
                Codec::Json => d[6] == 4,
            }
            &&& h.flags == d[7]
            &&& h.stream_id == be_value4(d, 8)
            &&& h.sequence == be_value4(d, 12)
            &&& h.timestamp_us == be_value8(d, 16)
            &&& h.fragment_index == be_value2(d, 26)
            &&& h.fragment_count == be_value2(d, 28)
            &&& h.fragment_index < h.fragment_count
            &&& p == d.subrange(32, d.len() as int)
            &&& p.len() == be_value2(d, 24)
            &&& p.len() <= 1168
        },
{
    if decode_result(d) is Ok {
        assert(d.subrange(0, 4) == magic_seq());
        assert(d[0] == d.subrange(0, 4)[0]);
        assert(d[1] == d.subrange(0, 4)[1]);
        assert(d[2] == d.subrange(0, 4)[2]);
        assert(d[3] == d.subrange(0, 4)[3]);
        lemma_word16_value(d[24], d[25]);
        lemma_word16_value(d[26], d[27]);
        lemma_word16_value(d[28], d[29]);
        lemma_word32_value(d[8], d[9], d[10], d[11]);
        lemma_word32_value(d[12], d[13], d[14], d[15]);
        lemma_word32_value(d[16], d[17], d[18], d[19]);
        lemma_word32_value(d[20], d[21], d[22], d[23]);
        lemma_word64_value(read_be32(d, 16), read_be32(d, 20));
    }
}

} // verus!
