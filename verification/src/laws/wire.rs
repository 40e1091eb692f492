//! What one end writes, the other end reads.
use vstd::prelude::*;

use crate::bytes::{be16, be32, lemma_be16_round_trip, lemma_be32_round_trip};
use crate::digest::{sha256, SHA256_DIGEST_SIZE};
use crate::protocol::{
    datagram, framed, header_of, nack_bytes, nack_seqs, packet_of, payload_of, PacketHeader,
    PacketType, ProtocolVersion, HEADER_SIZE, MAX_NACKS_PER_PACKET, MAX_UDP_PAYLOAD,
};
use crate::recv::{body_of, lemma_nack_bytes_len, nack_packets};
use crate::send::data_payload;

verus! {

/// The header at the front of a datagram is the one it was made with.
pub proof fn law_header_round_trip(header: PacketHeader, payload: Seq<u8>)
    ensures
        header_of(datagram(header, payload)) == Some(header),
        datagram(header, payload).len() == HEADER_SIZE + payload.len(),
        datagram(header, payload).skip(HEADER_SIZE as int) == payload,
{
    let d = datagram(header, payload);
    let tail = be16(header.payload_len) + payload;
    assert(d.skip(1) == be32(header.seq) + tail);
    lemma_be32_round_trip(header.seq, tail);
    assert(d.skip(5) == be16(header.payload_len) + payload);
    lemma_be16_round_trip(header.payload_len, payload);
    assert(d.skip(HEADER_SIZE as int) == payload);
}

/// A framed packet is read as what it was made from, if its payload is no longer
/// than its length field counts.
pub proof fn law_packet_round_trip(packet_type: PacketType, seq: u32, payload: Seq<u8>)
    requires
        payload.len() <= u16::MAX,
    ensures
        packet_of(framed(packet_type, seq, payload)) == Some(
            (
                PacketHeader { packet_type, seq, payload_len: payload.len() as u16 },
                HEADER_SIZE + payload.len(),
            ),
        ),
        payload_of(framed(packet_type, seq, payload)) == payload,
{
    let header = PacketHeader { packet_type, seq, payload_len: payload.len() as u16 };
    law_header_round_trip(header, payload);
    let d = datagram(header, payload);
    assert(payload_of(d) == d.skip(HEADER_SIZE as int));
}

/// Sequence number `i` of a NACK payload.
proof fn lemma_nack_bytes_at(seqs: Seq<u32>, i: int)
    requires
        0 <= i < seqs.len(),
    ensures
        nack_bytes(seqs).len() == 4 * seqs.len(),
        nack_bytes(seqs).subrange(4 * i, 4 * i + 4) == be32(seqs[i]),
    decreases seqs.len(),
{
    lemma_nack_bytes_len(seqs);
    lemma_nack_bytes_len(seqs.drop_last());
    let front = nack_bytes(seqs.drop_last());
    if i + 1 == seqs.len() {
        assert(nack_bytes(seqs).subrange(4 * i, 4 * i + 4) == be32(seqs[i]));
    } else {
        lemma_nack_bytes_at(seqs.drop_last(), i);
        assert(nack_bytes(seqs).subrange(4 * i, 4 * i + 4) == front.subrange(4 * i, 4 * i + 4));
    }
}

/// A NACK payload that is cut short, or announces another count than it holds,
/// still gives the sequence numbers that are announced and whole, in order.
pub proof fn law_nack_prefix(seqs: Seq<u32>, count: nat, len: nat)
    requires
        len <= nack_bytes(seqs).len(),
    ensures
        nack_seqs(count, nack_bytes(seqs).take(len as int)) == seqs.take(
            if count <= len / 4 {
                count as int
            } else {
                (len / 4) as int
            },
        ),
{
    lemma_nack_bytes_len(seqs);
    let payload = nack_bytes(seqs).take(len as int);
    let n = if count <= len / 4 {
        count as int
    } else {
        (len / 4) as int
    };
    assert forall|i: int| 0 <= i < n implies nack_seqs(count, payload)[i] == seqs[i] by {
        lemma_nack_bytes_at(seqs, i);
        let rest = payload.skip(4 * i);
        assert(rest.take(4) == nack_bytes(seqs).subrange(4 * i, 4 * i + 4));
        assert(rest == be32(seqs[i]) + rest.skip(4)) by {
            assert(rest == rest.take(4) + rest.skip(4));
        }
        lemma_be32_round_trip(seqs[i], rest.skip(4));
    }
    assert(nack_seqs(count, payload) =~= seqs.take(n));
}

/// A whole NACK payload gives the sequence numbers that it was made from.
pub proof fn law_nack_round_trip(seqs: Seq<u32>)
    ensures
        nack_seqs(seqs.len(), nack_bytes(seqs)) == seqs,
{
    lemma_nack_bytes_len(seqs);
    law_nack_prefix(seqs, seqs.len(), nack_bytes(seqs).len());
    assert(nack_bytes(seqs).take(nack_bytes(seqs).len() as int) == nack_bytes(seqs));
    assert(seqs.take(seqs.len() as int) == seqs);
}

/// The sequence numbers that a list of NACK datagrams asks for.
pub open spec fn asked_for(packets: Seq<Seq<u8>>) -> Seq<u32>
    decreases packets.len(),
{
    if packets.len() == 0 {
        Seq::empty()
    } else {
        nack_seqs((packet_of(packets[0])->0).0.seq as nat, payload_of(packets[0])) + asked_for(
            packets.skip(1),
        )
    }
}

/// The length of a framed packet.
proof fn lemma_framed_len(packet_type: PacketType, seq: u32, payload: Seq<u8>)
    ensures
        framed(packet_type, seq, payload).len() == HEADER_SIZE + payload.len(),
{
    let header = PacketHeader { packet_type, seq, payload_len: payload.len() as u16 };
    law_header_round_trip(header, payload);
}

/// A NACK packet that fits a datagram.
#[verifier::opaque]
spec fn is_nack(packet: Seq<u8>) -> bool {
    &&& packet.len() <= MAX_UDP_PAYLOAD
    &&& packet_of(packet) matches Some((header, _))
    &&& header.packet_type is Nack
}

/// A NACK for no more sequence numbers than a datagram holds.
proof fn lemma_nack_packet(batch: Seq<u32>, packet: Seq<u8>)
    requires
        batch.len() <= MAX_NACKS_PER_PACKET,
        packet == framed(PacketType::Nack, batch.len() as u32, nack_bytes(batch)),
    ensures
        is_nack(packet),
        asked_for(seq![packet]) == batch,
{
    lemma_nack_bytes_len(batch);
    lemma_framed_len(PacketType::Nack, batch.len() as u32, nack_bytes(batch));
    law_packet_round_trip(PacketType::Nack, batch.len() as u32, nack_bytes(batch));
    law_nack_round_trip(batch);
    reveal(is_nack);
    assert(seq![packet].skip(1) =~= Seq::<Seq<u8>>::empty());
    assert(asked_for(seq![packet].skip(1)) =~= Seq::<u32>::empty());
}

/// What a list of packets asks for is what the first asks for, then the others.
proof fn lemma_asked_for(first: Seq<u8>, rest: Seq<Seq<u8>>)
    ensures
        asked_for(seq![first] + rest) == asked_for(seq![first]) + asked_for(rest),
{
    let all = seq![first] + rest;
    assert(all.skip(1) =~= rest);
    assert(seq![first].skip(1) =~= Seq::<Seq<u8>>::empty());
    assert(asked_for(seq![first].skip(1)) =~= Seq::<u32>::empty());
    let own = nack_seqs((packet_of(first)->0).0.seq as nat, payload_of(first));
    assert(own + Seq::<u32>::empty() =~= own);
}

/// The packets that ask for a list are NACK packets, and ask for it.
proof fn lemma_nacks(missing: Seq<u32>)
    ensures
        asked_for(nack_packets(missing)) == missing,
        forall|i: int| 0 <= i < nack_packets(missing).len() ==> is_nack(nack_packets(missing)[i]),
    decreases missing.len(),
{
    if missing.len() > 0 {
        let n = if missing.len() <= MAX_NACKS_PER_PACKET {
            missing.len() as int
        } else {
            MAX_NACKS_PER_PACKET as int
        };
        let batch = missing.take(n);
        let packet = framed(PacketType::Nack, n as u32, nack_bytes(batch));
        let rest = nack_packets(missing.skip(n));
        lemma_nack_packet(batch, packet);
        lemma_nacks(missing.skip(n));
        lemma_asked_for(packet, rest);
        assert(batch + missing.skip(n) =~= missing);
    }
}

/// A list of missing chunks, however long, is asked for in packets that each fit
/// a datagram; together they ask for all of it and nothing else, in order.
pub proof fn law_nacks_cover_missing(missing: Seq<u32>)
    ensures
        asked_for(nack_packets(missing)) == missing,
        forall|i: int|
            0 <= i < nack_packets(missing).len() ==> {
                &&& (#[trigger] nack_packets(missing)[i]).len() <= MAX_UDP_PAYLOAD
                &&& packet_of(nack_packets(missing)[i]) matches Some((header, _))
                &&& header.packet_type is Nack
            },
{
    lemma_nacks(missing);
    reveal(is_nack);
}

/// The packets that ask for a list are as few as can hold it: each but the last is
/// as full as a datagram lets it be.
pub proof fn law_nacks_are_few(missing: Seq<u32>)
    ensures
        missing.len() <= nack_packets(missing).len() * 16375,
        missing.len() > 0 ==> (nack_packets(missing).len() - 1) * 16375 < missing.len(),
        missing.len() == 0 ==> nack_packets(missing).len() == 0,
        7 + 4 * 16375 <= MAX_UDP_PAYLOAD < 7 + 4 * (16375 + 1),
    decreases missing.len(),
{
    if missing.len() > 16375 {
        law_nacks_are_few(missing.skip(16375));
    } else if missing.len() > 0 {
        assert(nack_packets(missing.skip(missing.len() as int)) =~= Seq::empty());
    }
}

/// A chunk of an accepted size fits a datagram, with its digest where there is one.
pub proof fn law_chunk_fits_datagram(version: ProtocolVersion, seq: u32, chunk: Seq<u8>)
    requires
        chunk.len() <= version.max_chunk_size(),
    ensures
        framed(PacketType::Data, seq, data_payload(version, chunk)).len() <= MAX_UDP_PAYLOAD,
        data_payload(version, chunk).len() <= u16::MAX,
{
}

/// The receiver finds the chunk in the payload that the sender made of it.
pub proof fn law_chunk_round_trip(version: ProtocolVersion, chunk: Seq<u8>)
    ensures
        body_of(version, data_payload(version, chunk)) == Some(chunk),
{
    let payload = data_payload(version, chunk);
    if version.hashes_chunks() {
        assert(payload.take(SHA256_DIGEST_SIZE as int) == sha256(chunk)@);
        assert(payload.skip(SHA256_DIGEST_SIZE as int) == chunk);
    }
}

/// A payload is accepted only if it is what a sender would have made of the chunk
/// found in it: where chunks carry their digest, one that was altered on the way
/// is dropped, unless its digest was made to agree with it.
pub proof fn law_accepted_payload_is_genuine(version: ProtocolVersion, payload: Seq<u8>)
    ensures
        body_of(version, payload) matches Some(body) ==> payload == data_payload(version, body),
{
    if version.hashes_chunks() && payload.len() >= SHA256_DIGEST_SIZE {
        assert(payload == payload.take(SHA256_DIGEST_SIZE as int) + payload.skip(
            SHA256_DIGEST_SIZE as int,
        ));
    }
}

} // verus!
