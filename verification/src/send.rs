//! What a sender works through: the queue of chunks to send, the packets they
//! go in, and the pace.
use std::collections::{HashSet, VecDeque};
use vstd::prelude::*;

use crate::bytes::put_bytes;
use crate::digest::{digest_of, sha256};
use crate::init::{refuse_chunks, too_many_chunks};
use crate::path::{file_name, file_name_of};
use crate::protocol::{
    chunk_count, count_chunks, encode_packet, framed, ErrorKind, PacketHeader, PacketType,
    ProtocolVersion, MAX_TOTAL_CHUNKS, NANOS_PER_SECOND,
};
use crate::recv::{Failure, FailureView};

verus! {

broadcast use vstd::std_specs::hash::group_hash_axioms;

pub const BYTES_PER_KIB: u64 = 1024;

/// `pending` with those of `more` behind it that it does not hold yet, in their
/// order, each of them once.
pub open spec fn enqueued(pending: Seq<u32>, more: Seq<u32>) -> Seq<u32>
    decreases more.len(),
{
    if more.len() == 0 {
        pending
    } else {
        let rest = enqueued(pending, more.drop_last());
        if rest.contains(more.last()) {
            rest
        } else {
            rest.push(more.last())
        }
    }
}

/// The sequence numbers below `n`, in ascending order.
pub open spec fn all_chunks(n: nat) -> Seq<u32> {
    Seq::new(n, |i: int| i as u32)
}

/// The chunks that are still to be sent, each of them once.
pub struct Blast {
    pending: VecDeque<u32>,
    queued: HashSet<u32>,
}

impl View for Blast {
    type V = Seq<u32>;

    closed spec fn view(&self) -> Seq<u32> {
        self.pending@
    }
}

impl Blast {
    /// The set of queued chunks is that of the queue, which holds none twice.
    pub closed spec fn wf(&self) -> bool {
        &&& self.pending@.no_duplicates()
        &&& forall|seq: u32| self.queued@.contains(seq) <==> self.pending@.contains(seq)
    }

    /// No chunk is queued twice.
    pub proof fn lemma_wf(&self)
        requires
            self.wf(),
        ensures
            self@.no_duplicates(),
    {
    }

    /// Every chunk of a file.
    pub fn new(total_chunks: u32) -> (blast: Self)
        ensures
            blast.wf(),
            blast@ == all_chunks(total_chunks as nat),
    {
        let mut pending: VecDeque<u32> = VecDeque::new();
        let mut queued: HashSet<u32> = HashSet::new();
        let mut seq: u32 = 0;
        while seq < total_chunks
            invariant
                seq <= total_chunks,
                pending@ == all_chunks(seq as nat),
                forall|s: u32| queued@.contains(s) <==> s < seq,
            decreases total_chunks - seq,
        {
            pending.push_back(seq);
            queued.insert(seq);
            seq += 1;
            assert(pending@ == all_chunks(seq as nat));
        }
        let blast = Blast { pending, queued };
        assert forall|s: u32| blast.queued@.contains(s) implies blast.pending@.contains(s) by {
            assert(blast.pending@[s as int] == s);
        }
        blast
    }

    /// How many chunks are queued.
    pub fn len(&self) -> (len: usize)
        ensures
            len == self@.len(),
    {
        self.pending.len()
    }

    /// Takes the chunk at the front out.
    pub fn pop(&mut self) -> (seq: Option<u32>)
        requires
            old(self).wf(),
        ensures
            final(self).wf(),
            match seq {
                Some(seq) => {
                    &&& old(self)@.len() > 0
                    &&& seq == old(self)@[0]
                    &&& final(self)@ == old(self)@.skip(1)
                },
                None => old(self)@.len() == 0 && final(self)@ == old(self)@,
            },
    {
        let ghost before = self.pending@;
        match self.pending.pop_front() {
            Some(seq) => {
                self.queued.remove(&seq);
                proof {
                    assert(self.pending@ == before.skip(1));
                    assert forall|s: u32| before.contains(s) && s != seq implies self.pending@.contains(
                        s,
                    ) by {
                        let i = choose|i: int| 0 <= i < before.len() && before[i] == s;
                        assert(self.pending@[i - 1] == s);
                    }
                    assert forall|s: u32| self.pending@.contains(s) implies before.contains(s) && s
                        != seq by {
                        let i = choose|i: int|
                            0 <= i < self.pending@.len() && self.pending@[i] == s;
                        assert(before[i + 1] == s);
                    }
                }
                Some(seq)
            },
            None => None,
        }
    }

    /// Queues the chunks that are not queued yet.
    pub fn enqueue(&mut self, missing: &[u32])
        requires
            old(self).wf(),
        ensures
            final(self).wf(),
            final(self)@ == enqueued(old(self)@, missing@),
    {
        let mut i: usize = 0;
        assert(missing@.take(0) == Seq::<u32>::empty());
        while i < missing.len()
            invariant
                i <= missing@.len(),
                self.wf(),
                self@ == enqueued(old(self)@, missing@.take(i as int)),
            decreases missing@.len() - i,
        {
            let seq: u32 = missing[i];
            let ghost before = self.pending@;
            assert(missing@.take(i + 1).drop_last() == missing@.take(i as int));
            if self.queued.insert(seq) {
                self.pending.push_back(seq);
                proof {
                    assert(!before.contains(seq));
                    assert forall|s: u32| self.pending@.contains(s) <==> before.contains(s) || s
                        == seq by {
                        if before.contains(s) {
                            let k = choose|k: int| 0 <= k < before.len() && before[k] == s;
                            assert(self.pending@[k] == s);
                        }
                        assert(self.pending@[before.len() as int] == seq);
                    }
                }
            }
            i += 1;
        }
        assert(missing@.take(i as int) == missing@);
    }
}

/// Drops every repetition from `seqs`, keeping what came first where it is.
pub fn dedup(seqs: &mut Vec<u32>)
    ensures
        final(seqs)@ == enqueued(Seq::empty(), old(seqs)@),
{
    let mut seen: HashSet<u32> = HashSet::new();
    let mut kept: Vec<u32> = Vec::new();
    let mut i: usize = 0;
    assert(seqs@.take(0) == Seq::<u32>::empty());
    while i < seqs.len()
        invariant
            i <= seqs@.len(),
            seqs@ == old(seqs)@,
            kept@ == enqueued(Seq::empty(), seqs@.take(i as int)),
            forall|s: u32| seen@.contains(s) <==> kept@.contains(s),
        decreases seqs@.len() - i,
    {
        let seq: u32 = seqs[i];
        let ghost before = kept@;
        assert(seqs@.take(i + 1).drop_last() == seqs@.take(i as int));
        if seen.insert(seq) {
            kept.push(seq);
            assert forall|s: u32| kept@.contains(s) <==> before.contains(s) || s == seq by {
                if before.contains(s) {
                    let k = choose|k: int| 0 <= k < before.len() && before[k] == s;
                    assert(kept@[k] == s);
                }
                assert(kept@[before.len() as int] == seq);
            }
        }
        i += 1;
    }
    assert(seqs@.take(i as int) == seqs@);
    *seqs = kept;
}

/// How many packets a second make `bw` KiB/s: at least one, and no more than a
/// `u32` counts.
pub open spec fn packets_per_second(bw: u64, chunk_size: u32) -> int {
    let bytes = if bw * BYTES_PER_KIB > u64::MAX {
        u64::MAX as int
    } else {
        bw * BYTES_PER_KIB
    };
    let rate = bytes / (chunk_size as int);
    if rate < 1 {
        1
    } else if rate > u32::MAX {
        u32::MAX as int
    } else {
        rate
    }
}

/// How long a sender pauses after a packet to keep to `bw` KiB/s: an even share of a
/// second. Without a limit it does not pause.
pub open spec fn delay_of(bw: u64, chunk_size: u32) -> Option<int> {
    if bw == 0 {
        None
    } else {
        Some(NANOS_PER_SECOND as int / packets_per_second(bw, chunk_size))
    }
}

/// Convert a `--bw` limit in KiB/s into the per-packet send delay, in
/// nanoseconds. `bw == 0` means unlimited. The packet rate is clamped to
/// `[1, u32::MAX]` so the division can never see a zero divisor.
pub fn send_delay(bw: u64, chunk_size: u32) -> (delay: Option<u128>)
    requires
        bw > 0 ==> chunk_size > 0,
    ensures
        match delay {
            Some(delay) => bw > 0 && delay == NANOS_PER_SECOND as int / packets_per_second(
                bw,
                chunk_size,
            ),
            None => bw == 0,
        },
        match delay {
            Some(nanos) => delay_of(bw, chunk_size) == Some(nanos as int),
            None => delay_of(bw, chunk_size) is None,
        },
        delay matches Some(nanos) ==> {
            let rate = packets_per_second(bw, chunk_size);
            nanos * rate <= 1_000_000_000 < (nanos + 1) * rate
        },
{
    if bw == 0 {
        return None;
    }
    let bytes: u64 = match bw.checked_mul(BYTES_PER_KIB) {
        Some(bytes) => bytes,
        None => u64::MAX,
    };
    let rate: u64 = bytes / chunk_size as u64;
    let packets_per_second: u32 = if rate < 1 {
        1
    } else if rate > u32::MAX as u64 {
        u32::MAX
    } else {
        rate as u32
    };
    let nanos: u128 = NANOS_PER_SECOND / packets_per_second as u128;
    assert(nanos * packets_per_second <= 1_000_000_000 < (nanos + 1) * packets_per_second)
        by (nonlinear_arith)
        requires
            nanos == 1_000_000_000u128 / packets_per_second as u128,
            packets_per_second > 0,
    ;
    Some(nanos)
}

/// The payload of a DATA packet: the chunk, behind its SHA-256 where the version
/// asks for it.
pub open spec fn data_payload(version: ProtocolVersion, chunk: Seq<u8>) -> Seq<u8> {
    if version.hashes_chunks() {
        sha256(chunk)@ + chunk
    } else {
        chunk
    }
}

/// The DATA packet of a chunk.
pub fn data_packet(version: ProtocolVersion, seq: u32, chunk: &[u8]) -> (packet: Vec<u8>)
    requires
        chunk@.len() <= version.max_chunk_size(),
    ensures
        packet@ == framed(PacketType::Data, seq, data_payload(version, chunk@)),
{
    let mut payload: Vec<u8> = Vec::new();
    if version.verifies() {
        let digest = digest_of(chunk);
        put_bytes(&mut payload, &digest);
    }
    put_bytes(&mut payload, chunk);
    assert(payload@ == data_payload(version, chunk@));
    encode_packet(
        &PacketHeader { packet_type: PacketType::Data, seq, payload_len: payload.len() as u16 },
        payload.as_slice(),
    )
}

/// How many chunks a file is sent in, or why it is not sent.
pub open spec fn plan_of(size: u64, chunk_size: u32) -> Result<u32, FailureView> {
    let total = chunk_count(size as int, chunk_size as int);
    if total > MAX_TOTAL_CHUNKS {
        Err(
            FailureView {
                kind: ErrorKind::InvalidInput,
                reason: too_many_chunks("file too large: "@, total as nat),
            },
        )
    } else {
        Ok(total as u32)
    }
}

/// The name that a file is announced under.
pub open spec fn name_of(file: Seq<char>) -> Seq<char> {
    match file_name_of(file) {
        Some(name) => name,
        None => file,
    }
}

/// How many chunks a file is sent in, unless they are too many.
pub fn plan_chunks(size: u64, chunk_size: u32) -> (result: Result<u32, Failure>)
    requires
        chunk_size > 0,
    ensures
        match result {
            Ok(total) => {
                &&& total == chunk_count(size as int, chunk_size as int)
                &&& total <= MAX_TOTAL_CHUNKS
            },
            Err(failure) => {
                &&& chunk_count(size as int, chunk_size as int) > MAX_TOTAL_CHUNKS
                &&& failure@ == (FailureView {
                    kind: ErrorKind::InvalidInput,
                    reason: too_many_chunks(
                        "file too large: "@,
                        chunk_count(size as int, chunk_size as int) as nat,
                    ),
                })
            },
        },
        match result {
            Ok(total) => plan_of(size, chunk_size) == Ok::<u32, FailureView>(total),
            Err(failure) => plan_of(size, chunk_size) == Err::<u32, FailureView>(failure@),
        },
{
    let total: u64 = count_chunks(size, chunk_size);
    if total > MAX_TOTAL_CHUNKS {
        return Err(
            Failure {
                kind: ErrorKind::InvalidInput,
                reason: refuse_chunks("file too large: ", total),
            },
        );
    }
    Ok(total as u32)
}

/// The name that a file is announced under: its last component, or all of it
/// where it has none.
pub fn announced_name(file: &str) -> (name: &str)
    ensures
        name@ == match file_name_of(file@) {
            Some(name) => name,
            None => file@,
        },
        name@ == name_of(file@),
{
    match file_name(file) {
        Some(name) => name,
        None => file,
    }
}

} // verus!
