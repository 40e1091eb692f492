//! What is written means the number, the text or the file that it was written for.
use vstd::prelude::*;
use vstd::utf8::encode_utf8;

use crate::bytes::{be16, be32, be64, from_be16, from_be32, from_be64};
use crate::digest::sha256;
use crate::init::{init_bytes, until_nul};
use crate::json::json_integer;
use crate::protocol::{
    chunk_count, control_datagram, datagram, framed, header_of, nack_bytes, nack_seqs, packet_of,
    payload_of, PacketHeader, PacketType, ProtocolVersion,
};
use crate::recv::lemma_nack_bytes_len;
use crate::send::data_payload;
use crate::text::decimal;

verus! {

/// The number that some bytes stand for, the most significant first.
pub open spec fn big_endian(bytes: Seq<u8>) -> nat
    decreases bytes.len(),
{
    if bytes.len() == 0 {
        0
    } else {
        big_endian(bytes.drop_last()) * 256 + bytes.last() as nat
    }
}

/// Two more bytes count for two more places.
proof fn lemma_two_more(a: Seq<u8>, b: Seq<u8>)
    requires
        b.len() == 2,
    ensures
        big_endian(a + b) == big_endian(a) * 0x1_0000 + b[0] * 0x100 + b[1],
        big_endian(b) == b[0] * 0x100 + b[1],
{
    reveal_with_fuel(big_endian, 4);
    assert((a + b).drop_last() =~= a.push(b[0]));
    assert(a.push(b[0]).drop_last() =~= a);
    assert(b.drop_last().drop_last() =~= Seq::empty());
}

/// Four more bytes count for four more places.
proof fn lemma_four_more(a: Seq<u8>, b: Seq<u8>)
    requires
        b.len() == 4,
    ensures
        big_endian(a + b) == big_endian(a) * 0x1_0000_0000 + big_endian(b),
{
    let high = b.take(2);
    let low = b.skip(2);
    assert(a + b =~= (a + high) + low);
    assert(b =~= high + low);
    lemma_two_more(a + high, low);
    lemma_two_more(a, high);
    lemma_two_more(high, low);
}

/// The bytes of a number stand for the number: as many as its width, the most
/// significant first.
pub proof fn law_written_number(a: u16, b: u32, c: u64)
    ensures
        be16(a).len() == 2,
        big_endian(be16(a)) == a,
        be32(b).len() == 4,
        big_endian(be32(b)) == b,
        be64(c).len() == 8,
        big_endian(be64(c)) == c,
{
    lemma_two_more(Seq::empty(), be16(a));
    lemma_be32(b);
    let high = (c / 0x1_0000_0000) as u32;
    let low = (c % 0x1_0000_0000) as u32;
    lemma_be32(high);
    lemma_be32(low);
    lemma_four_more(be32(high), be32(low));
}

proof fn lemma_be32(b: u32)
    ensures
        be32(b).len() == 4,
        big_endian(be32(b)) == b,
{
    let high = (b / 0x1_0000) as u16;
    let low = (b % 0x1_0000) as u16;
    lemma_two_more(be16(high), be16(low));
    lemma_two_more(Seq::empty(), be16(high));
}

/// A number that is read is the one that the bytes stand for.
pub proof fn law_read_number(bytes: Seq<u8>)
    ensures
        bytes.len() >= 2 ==> from_be16(bytes) == big_endian(bytes.take(2)),
        bytes.len() >= 4 ==> from_be32(bytes) == big_endian(bytes.take(4)),
        bytes.len() >= 8 ==> from_be64(bytes) == big_endian(bytes.take(8)),
{
    if bytes.len() >= 2 {
        lemma_two_more(Seq::empty(), bytes.take(2));
    }
    if bytes.len() >= 4 {
        lemma_read32(bytes);
    }
    if bytes.len() >= 8 {
        lemma_read32(bytes);
        lemma_read32(bytes.skip(4));
        assert(bytes.take(8) =~= bytes.take(4) + bytes.skip(4).take(4));
        lemma_four_more(bytes.take(4), bytes.skip(4).take(4));
        lemma_big_endian_bound(bytes.take(4));
        lemma_big_endian_bound(bytes.skip(4).take(4));
    }
}

proof fn lemma_read32(bytes: Seq<u8>)
    requires
        bytes.len() >= 4,
    ensures
        from_be32(bytes) == big_endian(bytes.take(4)),
{
    assert(bytes.take(4) =~= bytes.take(2) + bytes.skip(2).take(2));
    lemma_two_more(bytes.take(2), bytes.skip(2).take(2));
    lemma_two_more(Seq::empty(), bytes.take(2));
}

/// Four bytes stand for no more than a `u32` counts.
proof fn lemma_big_endian_bound(bytes: Seq<u8>)
    requires
        bytes.len() == 4,
    ensures
        big_endian(bytes) <= u32::MAX,
{
    assert(bytes =~= bytes.take(2) + bytes.skip(2));
    lemma_two_more(bytes.take(2), bytes.skip(2));
    lemma_two_more(Seq::empty(), bytes.take(2));
}

/// The number of a packet type on the wire.
pub open spec fn type_number(packet_type: PacketType) -> int {
    match packet_type {
        PacketType::Init => 1,
        PacketType::Ack => 2,
        PacketType::Data => 3,
        PacketType::Done => 4,
        PacketType::Nack => 5,
        PacketType::Fin => 6,
        PacketType::FinAck => 7,
    }
}

/// A datagram is one byte of type, four of sequence number, two of payload length,
/// and the payload.
pub proof fn law_datagram_layout(header: PacketHeader, payload: Seq<u8>)
    ensures
        ({
            let d = datagram(header, payload);
            &&& d.len() == 7 + payload.len()
            &&& d[0] == type_number(header.packet_type)
            &&& big_endian(d.subrange(1, 5)) == header.seq
            &&& big_endian(d.subrange(5, 7)) == header.payload_len
            &&& d.skip(7) == payload
        }),
{
    let d = datagram(header, payload);
    law_written_number(header.payload_len, header.seq, 0);
    assert(d.subrange(1, 5) =~= be32(header.seq));
    assert(d.subrange(5, 7) =~= be16(header.payload_len));
    assert(d.skip(7) =~= payload);
}

/// A control packet is a header alone; a framed one tells the length of its payload.
pub proof fn law_framing(packet_type: PacketType, seq: u32, payload: Seq<u8>)
    requires
        payload.len() <= u16::MAX,
    ensures
        ({
            let d = framed(packet_type, seq, payload);
            &&& d.len() == 7 + payload.len()
            &&& d[0] == type_number(packet_type)
            &&& big_endian(d.subrange(1, 5)) == seq
            &&& big_endian(d.subrange(5, 7)) == payload.len()
            &&& d.skip(7) == payload
        }),
        control_datagram(packet_type, seq) == framed(packet_type, seq, Seq::empty()),
{
    law_datagram_layout(
        PacketHeader { packet_type, seq, payload_len: payload.len() as u16 },
        payload,
    );
}

/// A datagram is a packet exactly when it holds a header of a known type and all of
/// the payload that the header announces; what is read from it is what stands there.
pub proof fn law_packet_is_read(d: Seq<u8>)
    ensures
        header_of(d) is Some <==> d.len() >= 7 && 1 <= d[0] <= 7,
        header_of(d) matches Some(header) ==> {
            &&& type_number(header.packet_type) == d[0]
            &&& header.seq == big_endian(d.subrange(1, 5))
            &&& header.payload_len == big_endian(d.subrange(5, 7))
        },
        packet_of(d) is Some <==> header_of(d) is Some && 7 + big_endian(d.subrange(5, 7))
            <= d.len(),
        packet_of(d) matches Some((header, end)) ==> {
            &&& header_of(d) == Some(header)
            &&& end == 7 + big_endian(d.subrange(5, 7))
            &&& payload_of(d) == d.subrange(7, end)
        },
{
    if d.len() >= 7 {
        law_read_number(d.skip(1));
        law_read_number(d.skip(5));
        assert(d.skip(1).take(4) =~= d.subrange(1, 5));
        assert(d.skip(5).take(2) =~= d.subrange(5, 7));
    }
}

/// A NACK payload gives, of the sequence numbers that it announces, those that it
/// holds whole, each in four bytes.
pub proof fn law_nack_is_read(count: nat, payload: Seq<u8>)
    ensures
        nack_seqs(count, payload).len() <= count,
        4 * nack_seqs(count, payload).len() <= payload.len(),
        nack_seqs(count, payload).len() == count || 4 * (nack_seqs(count, payload).len() + 1)
            > payload.len(),
        forall|i: int|
            0 <= i < nack_seqs(count, payload).len() ==> #[trigger] nack_seqs(count, payload)[i]
                == big_endian(payload.subrange(4 * i, 4 * i + 4)),
{
    assert forall|i: int| 0 <= i < nack_seqs(count, payload).len() implies #[trigger] nack_seqs(
        count,
        payload,
    )[i] == big_endian(payload.subrange(4 * i, 4 * i + 4)) by {
        law_read_number(payload.skip(4 * i));
        assert(payload.skip(4 * i).take(4) =~= payload.subrange(4 * i, 4 * i + 4));
    }
}

/// A NACK payload is four bytes for each sequence number, in order.
pub proof fn law_nack_layout(seqs: Seq<u32>)
    ensures
        nack_bytes(seqs).len() == 4 * seqs.len(),
        forall|i: int|
            0 <= i < seqs.len() ==> big_endian(nack_bytes(seqs).subrange(4 * i, 4 * i + 4))
                == #[trigger] seqs[i],
    decreases seqs.len(),
{
    lemma_nack_bytes_len(seqs);
    if seqs.len() > 0 {
        let front = nack_bytes(seqs.drop_last());
        law_nack_layout(seqs.drop_last());
        law_written_number(0, seqs.last(), 0);
        assert forall|i: int| 0 <= i < seqs.len() implies big_endian(
            nack_bytes(seqs).subrange(4 * i, 4 * i + 4),
        ) == #[trigger] seqs[i] by {
            if i + 1 == seqs.len() {
                assert(nack_bytes(seqs).subrange(4 * i, 4 * i + 4) =~= be32(seqs.last()));
            } else {
                assert(seqs.drop_last()[i] == seqs[i]);
                assert(nack_bytes(seqs).subrange(4 * i, 4 * i + 4) =~= front.subrange(
                    4 * i,
                    4 * i + 4,
                ));
            }
        }
    }
}

/// The chunks of a file are as few as can hold it.
pub proof fn law_chunk_count(size: int, chunk_size: int)
    requires
        size >= 0,
        chunk_size > 0,
    ensures
        chunk_count(size, chunk_size) >= 0,
        chunk_count(size, chunk_size) * chunk_size >= size,
        size > 0 ==> (chunk_count(size, chunk_size) - 1) * chunk_size < size,
        size == 0 ==> chunk_count(size, chunk_size) == 0,
{
    let q = size / chunk_size;
    let r = size % chunk_size;
    vstd::arithmetic::div_mod::lemma_fundamental_div_mod(size, chunk_size);
    assert(0 <= r < chunk_size && q >= 0) by (nonlinear_arith)
        requires
            chunk_size > 0,
            size >= 0,
            q == size / chunk_size,
            r == size % chunk_size,
    ;
    assert(chunk_size * q == q * chunk_size) by (nonlinear_arith);
    assert((q + 1) * chunk_size == q * chunk_size + chunk_size) by (nonlinear_arith);
    assert((q - 1) * chunk_size == q * chunk_size - chunk_size) by (nonlinear_arith);
    if size == 0 {
        assert(q == 0) by (nonlinear_arith)
            requires
                q * chunk_size + r == 0,
                q >= 0,
                r >= 0,
                chunk_size > 0,
        ;
    }
}

/// The largest chunk of each version fills a UDP datagram to the last byte.
pub proof fn law_largest_chunk_fills_datagram(version: ProtocolVersion, seq: u32, chunk: Seq<u8>)
    requires
        chunk.len() == version.max_chunk_size(),
    ensures
        framed(PacketType::Data, seq, data_payload(version, chunk)).len() == 65507,
{
}

/// Without digests the payload of a DATA packet is the chunk; with them it is the
/// digest of the chunk, then the chunk.
pub proof fn law_data_payload_layout(version: ProtocolVersion, chunk: Seq<u8>)
    ensures
        version is V1 ==> data_payload(version, chunk) == chunk,
        version is V2 ==> {
            &&& data_payload(version, chunk).len() == 32 + chunk.len()
            &&& data_payload(version, chunk).take(32) == sha256(chunk)@
            &&& data_payload(version, chunk).skip(32) == chunk
        },
{
    if version is V2 {
        assert(data_payload(version, chunk).take(32) =~= sha256(chunk)@);
        assert(data_payload(version, chunk).skip(32) =~= chunk);
    }
}

/// The payload of an INIT is one byte of version, eight of size, four of chunk size,
/// the digest, and the name in UTF-8 with a NUL behind.
pub proof fn law_init_layout(
    version: ProtocolVersion,
    size: u64,
    chunk_size: u32,
    hash: Seq<u8>,
    name: Seq<char>,
)
    requires
        hash.len() == 32,
    ensures
        ({
            let p = init_bytes(version, size, chunk_size, hash, name);
            &&& p[0] == if version is V1 {
                1
            } else {
                2int
            }
            &&& big_endian(p.subrange(1, 9)) == size
            &&& big_endian(p.subrange(9, 13)) == chunk_size
            &&& p.subrange(13, 45) == hash
            &&& p.skip(45) == encode_utf8(name).push(0)
        }),
{
    let p = init_bytes(version, size, chunk_size, hash, name);
    law_written_number(0, chunk_size, size);
    assert(p.subrange(1, 9) =~= be64(size));
    assert(p.subrange(9, 13) =~= be32(chunk_size));
    assert(p.subrange(13, 45) =~= hash);
    assert(p.skip(45) =~= encode_utf8(name).push(0));
}

/// What comes before the first NUL: a run of other bytes that a NUL or the end stops.
pub proof fn law_until_nul(bytes: Seq<u8>)
    ensures
        until_nul(bytes).is_prefix_of(bytes),
        !until_nul(bytes).contains(0),
        until_nul(bytes).len() < bytes.len() ==> bytes[until_nul(bytes).len() as int] == 0,
    decreases bytes.len(),
{
    if bytes.len() > 0 && bytes[0] != 0 {
        let rest = until_nul(bytes.drop_first());
        law_until_nul(bytes.drop_first());
        assert forall|i: int| 0 <= i < until_nul(bytes).len() implies until_nul(bytes)[i]
            == bytes[i] && bytes[i] != 0 by {
            if i > 0 {
                assert(until_nul(bytes)[i] == rest[i - 1]);
                assert(rest.contains(rest[i - 1]));
                assert(rest[i - 1] == bytes.drop_first()[i - 1]);
            }
        }
        assert(until_nul(bytes) =~= bytes.take(until_nul(bytes).len() as int));
        if until_nul(bytes).len() < bytes.len() {
            assert(bytes.drop_first()[rest.len() as int] == bytes[rest.len() as int + 1]);
        }
    }
}

/// The number that some decimal digits stand for.
pub open spec fn decimal_value(text: Seq<char>) -> int
    decreases text.len(),
{
    if text.len() == 0 {
        0
    } else {
        decimal_value(text.drop_last()) * 10 + (text.last() as int - '0' as int)
    }
}

/// A number in decimal is made of digits, stands for the number, and has no digit too
/// many.
pub proof fn law_decimal(n: nat)
    ensures
        decimal_value(decimal(n)) == n,
        decimal(n).len() > 0,
        decimal(n).len() > 1 ==> decimal(n)[0] != '0',
        forall|i: int| 0 <= i < decimal(n).len() ==> '0' <= #[trigger] decimal(n)[i] <= '9',
    decreases n,
{
    reveal_with_fuel(decimal_value, 2);
    if n < 10 {
        assert(decimal(n).drop_last() =~= Seq::empty());
    } else {
        law_decimal(n / 10);
        let front = decimal(n / 10);
        assert(decimal(n).drop_last() =~= front);
        assert(decimal(n)[0] == front[0]);
        if front.len() == 1 && front[0] == '0' {
            assert(front.drop_last() =~= Seq::empty());
            assert(decimal_value(front) == 0);
        }
        assert forall|i: int| 0 <= i < decimal(n).len() implies '0' <= #[trigger] decimal(
            n,
        )[i] <= '9' by {
            if i < front.len() {
                assert(decimal(n)[i] == front[i]);
            }
        }
    }
}

/// A JSON number is the number in decimal, behind a minus sign if it is negative.
pub proof fn law_json_integer(n: int)
    ensures
        n >= 0 ==> json_integer(n) == decimal(n as nat),
        n < 0 ==> json_integer(n) == seq!['-'] + decimal((-n) as nat),
{
}

} // verus!
