//! Wire format and helpers shared by the sender and receiver.
use vstd::prelude::*;

use crate::bytes::{be16, be32, from_be16, from_be32, get_u16, get_u32, put_bytes, put_u16, put_u32};
use crate::digest::SHA256_DIGEST_SIZE;
use crate::report::TransferReporter;
use crate::text::{decimal, put_decimal};

verus! {

pub const DEFAULT_CHUNK_SIZE: u32 = 1400;

/// typ(1) | seq(4) | pay_len(2)
pub const HEADER_SIZE: usize = 7;

pub const MAX_UDP_PAYLOAD: usize = 65507;

/// `MAX_UDP_PAYLOAD` less the header.
pub const MAX_CHUNK_SIZE: u32 = 65500;

pub const SEQUENCE_BYTES: usize = 4;

pub const MAX_NACKS_PER_PACKET: usize = (MAX_UDP_PAYLOAD - HEADER_SIZE) / SEQUENCE_BYTES;

/// 16 M chunks, about 1 TB at the largest chunk size.
pub const MAX_TOTAL_CHUNKS: u64 = 0x100_0000;

pub const NANOS_PER_MILLI: u128 = 1_000_000;

pub const NANOS_PER_SECOND: u128 = 1_000_000_000;

/// The longest span of time that can be given, in nanoseconds: the largest
/// value of `std::time::Duration`.
pub const MAX_NANOS: u128 = 18_446_744_073_709_551_615_999_999_999;

pub const RETRANSMIT_TIMEOUT: u128 = 3 * NANOS_PER_SECOND;

pub const LINGER_RETRANSMIT_CYCLES: u64 = 5;

/// `LINGER_RETRANSMIT_CYCLES` times the retransmit timeout.
pub const DEFAULT_LINGER_SECONDS: u64 = 3 * LINGER_RETRANSMIT_CYCLES;

pub const NACK_COLLECTION_TIMEOUT: u128 = 500 * NANOS_PER_MILLI;

/// Hold off NACKing a gap this long so brief reordering isn't read as loss.
pub const NACK_HOLDOFF: u128 = 20 * NANOS_PER_MILLI;

/// Re-NACK an unfilled gap no sooner than this, leaving room for a retransmit.
pub const NACK_REISSUE_INTERVAL: u128 = RETRANSMIT_TIMEOUT;

pub const MAX_RETRANSMIT_PASSES: usize = 60;

pub const MAX_HANDSHAKE_ATTEMPTS: usize = 60;

pub const RECEIVER_IDLE_TIMEOUT: u128 = 30 * NANOS_PER_SECOND;

/// Tunable sender retry and timeout limits, defaulting to the module
/// constants. Spans of time are in nanoseconds.
#[derive(Clone, Copy, Debug)]
pub struct SendLimits {
    pub handshake_attempts: usize,
    pub retransmit_passes: usize,
    pub retransmit_timeout: u128,
    pub nack_collection_timeout: u128,
}

impl SendLimits {
    /// Every span of time is one that a clock can give.
    pub open spec fn wf(&self) -> bool {
        self.retransmit_timeout <= MAX_NANOS && self.nack_collection_timeout <= MAX_NANOS
    }
}

impl Default for SendLimits {
    fn default() -> (limits: Self)
        ensures
            limits == (SendLimits {
                handshake_attempts: 60,
                retransmit_passes: 60,
                retransmit_timeout: 3_000_000_000,
                nack_collection_timeout: 500_000_000,
            }),
    {
        SendLimits {
            handshake_attempts: MAX_HANDSHAKE_ATTEMPTS,
            retransmit_passes: MAX_RETRANSMIT_PASSES,
            retransmit_timeout: RETRANSMIT_TIMEOUT,
            nack_collection_timeout: NACK_COLLECTION_TIMEOUT,
        }
    }
}

/// Tunable receiver timeout limits, defaulting to the module constants.
/// Spans of time are in nanoseconds.
#[derive(Clone, Copy, Debug)]
pub struct RecvLimits {
    pub idle_timeout: u128,
    pub nack_holdoff: u128,
}

impl RecvLimits {
    /// Every span of time is one that a clock can give.
    pub open spec fn wf(&self) -> bool {
        self.idle_timeout <= MAX_NANOS && self.nack_holdoff <= MAX_NANOS
    }
}

impl Default for RecvLimits {
    fn default() -> (limits: Self)
        ensures
            limits == (RecvLimits { idle_timeout: 30_000_000_000, nack_holdoff: 20_000_000 }),
    {
        RecvLimits { idle_timeout: RECEIVER_IDLE_TIMEOUT, nack_holdoff: NACK_HOLDOFF }
    }
}

/// Everything a single send needs beyond the file path and target address.
/// `delay` is the pause between packets, in nanoseconds; any reporter will do,
/// also one whose type is known.
pub struct SendConfig<'a, R: TransferReporter + ?Sized = dyn TransferReporter + 'a> {
    pub chunk_size: u32,
    pub delay: Option<u128>,
    pub version: ProtocolVersion,
    pub reporter: &'a R,
    pub limits: SendLimits,
}

impl<'a, R: TransferReporter + ?Sized> Clone for SendConfig<'a, R> {
    fn clone(&self) -> (config: Self)
        ensures
            config == *self,
    {
        *self
    }
}

impl<'a, R: TransferReporter + ?Sized> Copy for SendConfig<'a, R> {

}

/// Everything a receiver needs beyond the bind port and output path.
/// `linger_timeout` is in nanoseconds.
#[derive(Clone, Copy)]
pub struct RecvConfig<'a> {
    pub serve: bool,
    pub linger_timeout: u128,
    pub reporter: &'a dyn TransferReporter,
    pub limits: RecvLimits,
}

/// What a datagram is for.
#[derive(Clone, Copy, PartialEq, Eq, Structural, Debug)]
pub enum PacketType {
    Init,
    Ack,
    Data,
    Done,
    Nack,
    Fin,
    FinAck,
}

impl PacketType {
    /// The type byte on the wire.
    pub open spec fn byte(self) -> u8 {
        match self {
            PacketType::Init => 1,
            PacketType::Ack => 2,
            PacketType::Data => 3,
            PacketType::Done => 4,
            PacketType::Nack => 5,
            PacketType::Fin => 6,
            PacketType::FinAck => 7,
        }
    }

    /// The packet type that has this type byte.
    pub open spec fn of_byte(byte: u8) -> Option<PacketType> {
        match byte {
            1 => Some(PacketType::Init),
            2 => Some(PacketType::Ack),
            3 => Some(PacketType::Data),
            4 => Some(PacketType::Done),
            5 => Some(PacketType::Nack),
            6 => Some(PacketType::Fin),
            7 => Some(PacketType::FinAck),
            _ => None,
        }
    }

    /// The type byte on the wire.
    pub fn to_byte(self) -> (byte: u8)
        ensures
            byte == self.byte(),
    {
        match self {
            PacketType::Init => 1,
            PacketType::Ack => 2,
            PacketType::Data => 3,
            PacketType::Done => 4,
            PacketType::Nack => 5,
            PacketType::Fin => 6,
            PacketType::FinAck => 7,
        }
    }
}

impl TryFrom<u8> for PacketType {
    type Error = ();

    fn try_from(value: u8) -> (result: Result<Self, ()>) {
        match value {
            1 => Ok(PacketType::Init),
            2 => Ok(PacketType::Ack),
            3 => Ok(PacketType::Data),
            4 => Ok(PacketType::Done),
            5 => Ok(PacketType::Nack),
            6 => Ok(PacketType::Fin),
            7 => Ok(PacketType::FinAck),
            _ => Err(()),
        }
    }
}

impl vstd::std_specs::convert::TryFromSpecImpl<u8> for PacketType {
    open spec fn obeys_try_from_spec() -> bool {
        true
    }

    open spec fn try_from_spec(value: u8) -> Result<Self, ()> {
        match PacketType::of_byte(value) {
            Some(packet_type) => Ok(packet_type),
            None => Err(()),
        }
    }
}

/// Version byte carried in the INIT payload; v2 adds per-chunk SHA-256.
#[derive(Clone, Copy, PartialEq, Eq, Structural, Debug)]
pub enum ProtocolVersion {
    V1,
    V2,
}

impl ProtocolVersion {
    /// The version byte on the wire.
    pub open spec fn byte(self) -> u8 {
        match self {
            ProtocolVersion::V1 => 1,
            ProtocolVersion::V2 => 2,
        }
    }

    /// The version that has this version byte.
    pub open spec fn of_byte(byte: u8) -> Option<ProtocolVersion> {
        match byte {
            1 => Some(ProtocolVersion::V1),
            2 => Some(ProtocolVersion::V2),
            _ => None,
        }
    }

    /// Whether this version prefixes each DATA chunk with its SHA-256.
    pub open spec fn hashes_chunks(self) -> bool {
        self is V2
    }

    /// The largest chunk that still fits a datagram in this version.
    pub open spec fn max_chunk_size(self) -> u32 {
        if self.hashes_chunks() {
            65468
        } else {
            65500
        }
    }

    /// The version byte on the wire.
    pub fn to_byte(self) -> (byte: u8)
        ensures
            byte == self.byte(),
    {
        match self {
            ProtocolVersion::V1 => 1,
            ProtocolVersion::V2 => 2,
        }
    }

    /// The wire version selected by a sender's `--verify` choice.
    pub fn for_verify(verify: bool) -> (version: Self)
        ensures
            version == if verify {
                ProtocolVersion::V2
            } else {
                ProtocolVersion::V1
            },
    {
        if verify {
            ProtocolVersion::V2
        } else {
            ProtocolVersion::V1
        }
    }

    /// Whether this version prefixes each DATA chunk with its SHA-256.
    pub fn verifies(self) -> (verifies: bool)
        ensures
            verifies == self.hashes_chunks(),
    {
        self == ProtocolVersion::V2
    }
}

impl TryFrom<u8> for ProtocolVersion {
    type Error = ();

    fn try_from(value: u8) -> (result: Result<Self, ()>) {
        match value {
            1 => Ok(ProtocolVersion::V1),
            2 => Ok(ProtocolVersion::V2),
            _ => Err(()),
        }
    }
}

impl vstd::std_specs::convert::TryFromSpecImpl<u8> for ProtocolVersion {
    open spec fn obeys_try_from_spec() -> bool {
        true
    }

    open spec fn try_from_spec(value: u8) -> Result<Self, ()> {
        match ProtocolVersion::of_byte(value) {
            Some(version) => Ok(version),
            None => Err(()),
        }
    }
}

/// What precedes the payload of every datagram.
#[derive(Clone, Copy, PartialEq, Eq, Structural, Debug)]
pub struct PacketHeader {
    pub packet_type: PacketType,
    pub seq: u32,
    pub payload_len: u16,
}

/// The seven bytes of a header.
pub open spec fn header_bytes(header: PacketHeader) -> Seq<u8> {
    seq![header.packet_type.byte()] + be32(header.seq) + be16(header.payload_len)
}

/// The header at the start of `datagram`: none when it is shorter than a header
/// or its type byte is not a known packet type.
pub open spec fn header_of(datagram: Seq<u8>) -> Option<PacketHeader> {
    if datagram.len() < HEADER_SIZE {
        None
    } else {
        match PacketType::of_byte(datagram[0]) {
            Some(packet_type) => Some(
                PacketHeader {
                    packet_type,
                    seq: from_be32(datagram.skip(1)),
                    payload_len: from_be16(datagram.skip(5)),
                },
            ),
            None => None,
        }
    }
}

/// The header of `datagram` and where its payload ends: none when there is no
/// header or the payload would run past the end of the datagram.
pub open spec fn packet_of(datagram: Seq<u8>) -> Option<(PacketHeader, int)> {
    match header_of(datagram) {
        Some(header) => if HEADER_SIZE + header.payload_len <= datagram.len() {
            Some((header, HEADER_SIZE + header.payload_len))
        } else {
            None
        },
        None => None,
    }
}

/// The payload of a datagram that is a packet.
pub open spec fn payload_of(datagram: Seq<u8>) -> Seq<u8> {
    datagram.subrange(HEADER_SIZE as int, (packet_of(datagram)->0).1)
}

/// A datagram: a header, then the payload.
pub open spec fn datagram(header: PacketHeader, payload: Seq<u8>) -> Seq<u8> {
    header_bytes(header) + payload
}

/// A datagram that is a header alone.
pub open spec fn control_datagram(packet_type: PacketType, seq: u32) -> Seq<u8> {
    datagram(PacketHeader { packet_type, seq, payload_len: 0 }, Seq::empty())
}

/// A datagram whose header tells the length of its payload.
pub open spec fn framed(packet_type: PacketType, seq: u32, payload: Seq<u8>) -> Seq<u8> {
    datagram(PacketHeader { packet_type, seq, payload_len: payload.len() as u16 }, payload)
}

/// The payload of a NACK: each sequence number in four bytes.
pub open spec fn nack_bytes(seqs: Seq<u32>) -> Seq<u8>
    decreases seqs.len(),
{
    if seqs.len() == 0 {
        Seq::empty()
    } else {
        nack_bytes(seqs.drop_last()) + be32(seqs.last())
    }
}

/// The first `count` sequence numbers that the payload of a NACK holds whole.
pub open spec fn nack_seqs(count: nat, payload: Seq<u8>) -> Seq<u32> {
    let whole = payload.len() / SEQUENCE_BYTES as nat;
    Seq::new(
        if count <= whole {
            count
        } else {
            whole
        },
        |i: int| from_be32(payload.skip(SEQUENCE_BYTES * i)),
    )
}

/// How many chunks of `chunk_size` bytes, the last one possibly shorter, make `size` bytes.
pub open spec fn chunk_count(size: int, chunk_size: int) -> int {
    if size % chunk_size == 0 {
        size / chunk_size
    } else {
        size / chunk_size + 1
    }
}

/// The refusal of a chunk size that does not fit a datagram of this version.
pub open spec fn chunk_size_refusal(version: ProtocolVersion) -> Seq<char> {
    "chunk size must be in [1, "@ + decimal(version.max_chunk_size() as nat) + "]"@
}

/// Writes the header over the first seven bytes of `buf`.
pub fn encode_header(header: &PacketHeader, buf: &mut [u8])
    requires
        old(buf)@.len() >= HEADER_SIZE,
    ensures
        final(buf)@ == header_bytes(*header) + old(buf)@.skip(HEADER_SIZE as int),
{
    let mut head: Vec<u8> = Vec::new();
    put_u32(&mut head, header.seq);
    put_u16(&mut head, header.payload_len);
    buf[0] = header.packet_type.to_byte();
    buf[1] = head[0];
    buf[2] = head[1];
    buf[3] = head[2];
    buf[4] = head[3];
    buf[5] = head[4];
    buf[6] = head[5];
}

/// Returns `None` when the buffer is shorter than a header or the type byte
/// is not a known packet type.
pub fn decode_header(buf: &[u8]) -> (header: Option<PacketHeader>)
    ensures
        header == header_of(buf@),
{
    if buf.len() < HEADER_SIZE {
        return None;
    }
    match PacketType::try_from(buf[0]) {
        Ok(packet_type) => Some(
            PacketHeader { packet_type, seq: get_u32(buf, 1), payload_len: get_u16(buf, 5) },
        ),
        Err(_) => None,
    }
}

/// The packet in the first `n` bytes of `buf`: its header and where its payload ends.
pub fn parse_packet(buf: &[u8], n: usize) -> (packet: Option<(PacketHeader, usize)>)
    requires
        n <= buf@.len(),
    ensures
        match packet {
            Some((header, end)) => packet_of(buf@.take(n as int)) == Some((header, end as int)),
            None => packet_of(buf@.take(n as int)) is None,
        },
{
    let datagram = vstd::slice::slice_subrange(buf, 0, n);
    let header = match decode_header(datagram) {
        Some(header) => header,
        None => return None,
    };
    let payload_end: usize = HEADER_SIZE + header.payload_len as usize;
    if payload_end > n {
        return None;
    }
    Some((header, payload_end))
}

/// The datagram of a header and a payload.
pub fn encode_packet(header: &PacketHeader, payload: &[u8]) -> (out: Vec<u8>)
    ensures
        out@ == datagram(*header, payload@),
{
    let mut out: Vec<u8> = Vec::new();
    out.push(header.packet_type.to_byte());
    put_u32(&mut out, header.seq);
    put_u16(&mut out, header.payload_len);
    put_bytes(&mut out, payload);
    assert(out@ == datagram(*header, payload@));
    out
}

/// A header-only control packet; ACK, DONE, and FIN carry no payload.
pub fn encode_control(packet_type: PacketType, seq: u32) -> (out: Vec<u8>)
    ensures
        out@ == control_datagram(packet_type, seq),
{
    encode_packet(&PacketHeader { packet_type, seq, payload_len: 0 }, &[])
}

/// The payload that asks for these sequence numbers again.
pub fn encode_nack_payload(seqs: &[u32]) -> (out: Vec<u8>)
    ensures
        out@ == nack_bytes(seqs@),
{
    let mut out: Vec<u8> = Vec::new();
    let mut i: usize = 0;
    while i < seqs.len()
        invariant
            i <= seqs@.len(),
            out@ == nack_bytes(seqs@.take(i as int)),
        decreases seqs@.len() - i,
    {
        put_u32(&mut out, seqs[i]);
        assert(seqs@.take(i + 1).drop_last() == seqs@.take(i as int));
        i += 1;
    }
    assert(seqs@.take(i as int) == seqs@);
    out
}

/// Appends the sequence numbers of a NACK payload that announces `count` of them;
/// a truncated payload gives those that it holds whole.
pub fn decode_nack_payload(count: usize, payload: &[u8], out: &mut Vec<u32>)
    ensures
        final(out)@ == old(out)@ + nack_seqs(count as nat, payload@),
{
    let whole: usize = payload.len() / SEQUENCE_BYTES;
    let n: usize = if count <= whole {
        count
    } else {
        whole
    };
    let mut i: usize = 0;
    while i < n
        invariant
            i <= n,
            n <= payload.len() / SEQUENCE_BYTES,
            n == nack_seqs(count as nat, payload@).len(),
            out@ == old(out)@ + nack_seqs(count as nat, payload@).take(i as int),
        decreases n - i,
    {
        let seq: u32 = get_u32(payload, i * SEQUENCE_BYTES);
        out.push(seq);
        assert(nack_seqs(count as nat, payload@).take(i + 1) == nack_seqs(
            count as nat,
            payload@,
        ).take(i as int).push(seq));
        i += 1;
    }
    assert(nack_seqs(count as nat, payload@).take(i as int) == nack_seqs(count as nat, payload@));
}

/// How a socket or file operation failed, as far as the protocol tells failures apart.
#[derive(Clone, Copy, PartialEq, Eq, Structural, Debug)]
pub enum ErrorKind {
    TimedOut,
    WouldBlock,
    Interrupted,
    InvalidInput,
    InvalidData,
    Other,
}

/// Whether a read ended because its time was up.
pub fn is_timeout(kind: ErrorKind) -> (timeout: bool)
    ensures
        timeout == (kind is TimedOut || kind is WouldBlock),
{
    matches!(kind, ErrorKind::TimedOut | ErrorKind::WouldBlock)
}

/// Accepts the chunk sizes that fit a datagram of this version.
pub fn validate_chunk_size(chunk_size: u32, version: ProtocolVersion) -> (result: Result<
    (),
    String,
>)
    ensures
        result is Ok <==> 1 <= chunk_size <= version.max_chunk_size(),
        result matches Err(reason) ==> reason@ == chunk_size_refusal(version),
{
    let max: u32 = if version.verifies() {
        MAX_CHUNK_SIZE - SHA256_DIGEST_SIZE as u32
    } else {
        MAX_CHUNK_SIZE
    };
    if chunk_size == 0 || chunk_size > max {
        let mut reason = String::from_str("chunk size must be in [1, ");
        put_decimal(&mut reason, max as u64);
        reason.append("]");
        return Err(reason);
    }
    Ok(())
}

/// How many chunks make up `size` bytes.
pub fn count_chunks(size: u64, chunk_size: u32) -> (count: u64)
    requires
        chunk_size > 0,
    ensures
        count == chunk_count(size as int, chunk_size as int),
{
    let whole: u64 = size / chunk_size as u64;
    if size % chunk_size as u64 == 0 {
        whole
    } else {
        proof {
            assert(size / (chunk_size as u64) < u64::MAX) by (nonlinear_arith)
                requires
                    size % (chunk_size as u64) != 0,
                    chunk_size > 0,
            ;
        }
        whole + 1
    }
}

} // verus!
