//! What a receiver knows of one transfer: which chunks are stored, which are
//! missing, and when to ask for them again.
use vstd::prelude::*;
use vstd::set_lib::{lemma_int_range, lemma_len_subset, lemma_subset_equality, set_int_range};

use crate::digest::{digest_of, same_digest, sha256, MAX_DIGEST_INPUT, SHA256_DIGEST_SIZE};
use crate::init::{init_of, parse_init, InitView};
use crate::path::{tmp_path, tmp_path_of};
use crate::protocol::{
    encode_nack_payload, encode_packet, framed, nack_bytes, ErrorKind, PacketHeader, PacketType,
    ProtocolVersion, RecvLimits, MAX_NACKS_PER_PACKET, MAX_NANOS, NACK_REISSUE_INTERVAL,
    NANOS_PER_MILLI,
};
use crate::report::TransferEvent;
use crate::text::text_of;

verus! {

pub const BITMAP_BITS_PER_WORD: u32 = 64;

/// Why a transfer came to an end before its file was in place.
#[derive(Debug)]
pub struct Failure {
    pub kind: ErrorKind,
    pub reason: String,
}

/// The contents of a [`Failure`].
pub struct FailureView {
    pub kind: ErrorKind,
    pub reason: Seq<char>,
}

impl View for Failure {
    type V = FailureView;

    open spec fn view(&self) -> FailureView {
        FailureView { kind: self.kind, reason: self.reason@ }
    }
}

/// The time from `then` to `now`; zero if `then` is the later one.
pub open spec fn since(now: u128, then: u128) -> u128 {
    if now >= then {
        (now - then) as u128
    } else {
        0
    }
}

/// The time from `then` to `now`; zero if `then` is the later one.
pub(crate) fn time_since(now: u128, then: u128) -> (elapsed: u128)
    ensures
        elapsed == since(now, then),
{
    if now >= then {
        now - then
    } else {
        0
    }
}

/// The bit of chunk `seq` in a bitmap.
pub open spec fn bit(words: Seq<u64>, seq: int) -> bool {
    words[seq / 64] & (1u64 << ((seq % 64) as u64)) != 0
}

/// The sequence numbers below `upto` that are not in `received`, in ascending order.
pub open spec fn missing_below(received: Set<int>, upto: nat) -> Seq<u32>
    decreases upto,
{
    if upto == 0 {
        Seq::empty()
    } else {
        let rest = missing_below(received, (upto - 1) as nat);
        if received.contains(upto - 1) {
            rest
        } else {
            rest.push((upto - 1) as u32)
        }
    }
}

/// The NACK datagrams that ask for `missing`: as many sequence numbers in each
/// as fit a datagram.
pub open spec fn nack_packets(missing: Seq<u32>) -> Seq<Seq<u8>>
    decreases missing.len(),
{
    if missing.len() == 0 {
        Seq::empty()
    } else {
        let n = if missing.len() <= MAX_NACKS_PER_PACKET {
            missing.len() as int
        } else {
            MAX_NACKS_PER_PACKET as int
        };
        seq![framed(PacketType::Nack, n as u32, nack_bytes(missing.take(n)))] + nack_packets(
            missing.skip(n),
        )
    }
}

/// The contents of a list of datagrams.
pub open spec fn datagrams(packets: Seq<Vec<u8>>) -> Seq<Seq<u8>> {
    packets.map_values(|packet: Vec<u8>| packet@)
}

/// The chunk inside the payload of a DATA packet: where each chunk is prefixed
/// with its SHA-256, none when the prefix is missing or wrong.
pub open spec fn body_of(version: ProtocolVersion, payload: Seq<u8>) -> Option<Seq<u8>> {
    if !version.hashes_chunks() {
        Some(payload)
    } else if payload.len() < SHA256_DIGEST_SIZE {
        None
    } else if sha256(payload.skip(SHA256_DIGEST_SIZE as int))@ == payload.take(
        SHA256_DIGEST_SIZE as int,
    ) {
        Some(payload.skip(SHA256_DIGEST_SIZE as int))
    } else {
        None
    }
}

/// What a receiver knows of a transfer.
pub struct ReceiveView {
    pub init: InitView,
    pub tmp_path: Seq<char>,
    /// The sequence numbers of the chunks that are stored.
    pub received: Set<int>,
    /// One past the highest sequence number stored.
    pub frontier: int,
    pub start: u128,
    /// When the oldest gap below the frontier came up.
    pub oldest_gap_at: Option<u128>,
}

impl ReceiveView {
    pub open spec fn wf(self) -> bool {
        &&& self.init.wf()
        &&& self.tmp_path == tmp_path_of(self.init.final_path)
        &&& self.received.finite()
        &&& self.received.subset_of(set_int_range(0, self.init.total as int))
        &&& 0 <= self.frontier <= self.init.total
        &&& forall|seq: int| #[trigger] self.received.contains(seq) ==> seq < self.frontier
        &&& self.frontier > 0 ==> self.received.contains(self.frontier - 1)
        &&& self.start <= MAX_NANOS
        &&& self.oldest_gap_at matches Some(at) ==> at <= MAX_NANOS
        &&& self.oldest_gap_at is Some <==> self.gap_open()
    }

    /// Where chunk `seq` lies in the file.
    pub open spec fn offset(self, seq: int) -> int {
        seq * self.init.chunk_size
    }

    /// How long chunk `seq` is: all but the last one are whole.
    pub open spec fn chunk_len(self, seq: int) -> int {
        if self.init.size - self.offset(seq) < self.init.chunk_size {
            self.init.size - self.offset(seq)
        } else {
            self.init.chunk_size as int
        }
    }

    /// Every chunk is stored.
    pub open spec fn complete(self) -> bool {
        forall|seq: int| 0 <= seq < self.init.total ==> self.received.contains(seq)
    }

    /// A file with this digest is the one that was announced, as far as digests tell.
    pub open spec fn accepts(self, digest: Seq<u8>) -> bool {
        digest == self.init.hash
    }

    /// A chunk below the frontier is not stored.
    pub open spec fn gap_open(self) -> bool {
        exists|seq: int| 0 <= seq < self.frontier && !self.received.contains(seq)
    }

    /// Chunk `seq` is wanted, and `len` bytes are what it takes.
    pub open spec fn wants(self, seq: u32, len: nat) -> bool {
        &&& seq < self.init.total
        &&& !self.received.contains(seq as int)
        &&& len == self.chunk_len(seq as int)
    }

    /// The transfer with chunk `seq` stored at time `now`.
    pub open spec fn with_stored(self, seq: u32, now: u128) -> ReceiveView {
        let stored = ReceiveView {
            received: self.received.insert(seq as int),
            frontier: if self.frontier <= seq {
                seq + 1
            } else {
                self.frontier
            },
            ..self
        };
        ReceiveView {
            oldest_gap_at: if !stored.gap_open() {
                None
            } else if self.oldest_gap_at is Some {
                self.oldest_gap_at
            } else {
                Some(now)
            },
            ..stored
        }
    }

    /// When the next NACK for a gap is due: the gap has been open for the
    /// holdoff, and the last NACK is a reissue interval ago.
    pub open spec fn nack_deadline(self, holdoff: u128, last_nack_at: Option<u128>) -> Option<int> {
        match self.oldest_gap_at {
            None => None,
            Some(gap_at) => match last_nack_at {
                Some(last) if last + NACK_REISSUE_INTERVAL > gap_at + holdoff => Some(
                    last + NACK_REISSUE_INTERVAL,
                ),
                _ => Some(gap_at + holdoff),
            },
        }
    }

    /// When the receiver has something to do even if nothing arrives: the
    /// transfer has been idle too long, or a NACK is due.
    pub open spec fn deadline(
        self,
        last_data_at: u128,
        last_nack_at: Option<u128>,
        limits: RecvLimits,
    ) -> int {
        let idle_at = last_data_at + limits.idle_timeout;
        match self.nack_deadline(limits.nack_holdoff, last_nack_at) {
            Some(nack_at) if nack_at < idle_at => nack_at,
            _ => idle_at,
        }
    }
}

impl ReceiveView {
    /// `event` reports that the transfer is opened.
    pub open spec fn opens_as(self, event: TransferEvent<'_>) -> bool {
        event matches TransferEvent::Receiving { path, bytes, chunks, chunk_size } && {
            &&& path@ == self.init.final_path
            &&& bytes == self.init.size
            &&& chunks == self.init.total
            &&& chunk_size == self.init.chunk_size
        }
    }

    /// `event` reports the progress at time `now`.
    pub open spec fn stands_as(self, event: TransferEvent<'_>, now: u128) -> bool {
        event matches TransferEvent::Progress { done, total, chunk_size, elapsed } && {
            &&& done == self.received.len()
            &&& total == self.init.total
            &&& chunk_size == self.init.chunk_size
            &&& elapsed == since(now, self.start)
        }
    }

    /// `event` reports that the file is in place at time `now`.
    pub open spec fn ends_as(self, event: TransferEvent<'_>, now: u128) -> bool {
        event matches TransferEvent::Saved { path, bytes, elapsed } && {
            &&& path@ == self.init.final_path
            &&& bytes == self.init.size
            &&& elapsed == since(now, self.start)
        }
    }
}

/// A transfer that has not seen a chunk yet.
pub open spec fn fresh(init: InitView, start: u128) -> ReceiveView {
    ReceiveView {
        init,
        tmp_path: tmp_path_of(init.final_path),
        received: Set::empty(),
        frontier: 0,
        start,
        oldest_gap_at: None,
    }
}

/// A transfer that is being received.
pub struct ReceiveState {
    tmp_path: String,
    final_path: String,
    received: Vec<u64>,
    total: u32,
    size: u64,
    chunk_size: u32,
    hash: [u8; 32],
    count: u32,
    start: u128,
    version: ProtocolVersion,
    frontier: u32,
    oldest_gap_at: Option<u128>,
}

impl View for ReceiveState {
    type V = ReceiveView;

    closed spec fn view(&self) -> ReceiveView {
        ReceiveView {
            init: InitView {
                version: self.version,
                size: self.size,
                chunk_size: self.chunk_size,
                total: self.total,
                hash: self.hash@,
                final_path: self.final_path@,
            },
            tmp_path: self.tmp_path@,
            received: Set::new(|seq: int| 0 <= seq < self.total && bit(self.received@, seq)),
            frontier: self.frontier as int,
            start: self.start,
            oldest_gap_at: self.oldest_gap_at,
        }
    }
}

/// What an idle receiver does.
pub enum TickOutcome {
    Waiting,
    /// The sender has been silent for too long.
    Expired(Failure),
    /// A gap is due to be asked for, with these datagrams.
    Nacked(Vec<Vec<u8>>),
}

/// What a DONE calls for.
pub enum DoneOutcome {
    /// So many chunks are missing; these datagrams ask for them.
    Incomplete { missing: usize, packets: Vec<Vec<u8>> },
    /// Every chunk is stored.
    Complete,
}

/// A digest that has passed the integrity check of a transfer: only
/// [`ReceiveState::finalize`] hands one out.
#[derive(Debug)]
pub struct Verified {
    digest: [u8; 32],
}

impl View for Verified {
    type V = Seq<u8>;

    closed spec fn view(&self) -> Seq<u8> {
        self.digest@
    }
}

/// The failure of a transfer whose sender has gone silent.
pub open spec fn idle_failure() -> FailureView {
    FailureView { kind: ErrorKind::TimedOut, reason: "idle timeout: sender disappeared"@ }
}

/// The failure of a transfer whose file is not the one announced.
pub open spec fn integrity_failure() -> FailureView {
    FailureView {
        kind: ErrorKind::InvalidData,
        reason: "integrity check failed: SHA-256 mismatch"@,
    }
}

/// The bits of a bitmap after one is set.
proof fn lemma_set_bit(words: Seq<u64>, seq: int)
    requires
        0 <= seq < 64 * words.len(),
    ensures
        ({
            let word = words[seq / 64] | (1u64 << ((seq % 64) as u64));
            forall|other: int|
                0 <= other < 64 * words.len() ==> #[trigger] bit(
                    words.update(seq / 64, word),
                    other,
                ) == (other == seq || bit(words, other))
        }),
{
    let w = words[seq / 64];
    let b = (seq % 64) as u64;
    let word = w | (1u64 << b);
    assert forall|other: int| 0 <= other < 64 * words.len() implies #[trigger] bit(
        words.update(seq / 64, word),
        other,
    ) == (other == seq || bit(words, other)) by {
        let c = (other % 64) as u64;
        assert((w | (1u64 << b)) & (1u64 << c) != 0 <==> b == c || w & (1u64 << c) != 0)
            by (bit_vector)
            requires
                b < 64,
                c < 64,
        ;
        if other / 64 == seq / 64 {
            assert(b == c <==> other == seq);
        }
    }
}

/// The received chunks are no more than there are, and all of them when they are as many.
proof fn lemma_count(received: Set<int>, upto: int)
    requires
        received.subset_of(set_int_range(0, upto)),
        0 <= upto,
    ensures
        received.finite(),
        received.len() <= upto,
        received.len() == upto <==> forall|seq: int| 0 <= seq < upto ==> received.contains(seq),
{
    let all = set_int_range(0, upto);
    lemma_int_range(0, upto);
    lemma_len_subset(received, all);
    if received.len() == upto {
        lemma_subset_equality(received, all);
        assert forall|seq: int| 0 <= seq < upto implies received.contains(seq) by {
            assert(all.contains(seq));
        }
    }
    if forall|seq: int| 0 <= seq < upto ==> received.contains(seq) {
        assert(received =~= all);
    }
}

impl ReceiveState {
    /// The bitmap, the count and the frontier agree with one another.
    pub closed spec fn wf(&self) -> bool {
        &&& self@.wf()
        &&& self.received@.len() == (self.total + 63) / 64
        &&& self.count == self@.received.len()
    }

    /// The invariant of the contents.
    pub proof fn lemma_wf(&self)
        requires
            self.wf(),
        ensures
            self@.wf(),
    {
    }

    /// The transfer that an INIT with this payload opens at time `start`.
    pub fn new(payload: &[u8], out: Option<&str>, start: u128) -> (result: Result<Self, String>)
        requires
            start <= MAX_NANOS,
        ensures
            match result {
                Ok(state) => {
                    &&& state.wf()
                    &&& init_of(payload@, text_of(out)) matches Ok(init)
                    &&& state@ == fresh(init, start)
                },
                Err(reason) => init_of(payload@, text_of(out)) == Err::<InitView, Seq<char>>(reason@),
            },
    {
        let header = match parse_init(payload, out) {
            Ok(header) => header,
            Err(reason) => return Err(reason),
        };
        let tmp = tmp_path(header.final_path.as_str());
        let words: usize = ((header.total + BITMAP_BITS_PER_WORD - 1) / BITMAP_BITS_PER_WORD) as usize;
        let mut received: Vec<u64> = Vec::new();
        while received.len() < words
            invariant
                received@.len() <= words,
                forall|i: int| 0 <= i < received@.len() ==> received@[i] == 0,
            decreases words - received@.len(),
        {
            received.push(0);
        }
        let state = ReceiveState {
            tmp_path: tmp,
            final_path: header.final_path,
            received,
            total: header.total,
            size: header.size,
            chunk_size: header.chunk_size,
            hash: header.hash,
            count: 0,
            start,
            version: header.version,
            frontier: 0,
            oldest_gap_at: None,
        };
        proof {
            assert forall|seq: int| 0 <= seq < state.total implies !bit(state.received@, seq) by {
                let b = (seq % 64) as u64;
                assert(0u64 & (1u64 << b) == 0) by (bit_vector);
            }
            assert(state@.received =~= Set::empty());
        }
        Ok(state)
    }

    /// Restarts the clock of the transfer.
    pub fn begin(&mut self, now: u128)
        requires
            old(self).wf(),
            now <= MAX_NANOS,
        ensures
            final(self).wf(),
            final(self)@ == (ReceiveView { start: now, ..old(self)@ }),
    {
        self.start = now;
        assert(self@.received =~= old(self)@.received);
    }

    /// Whether chunk `seq` is stored.
    pub fn is_received(&self, seq: u32) -> (received: bool)
        requires
            self.wf(),
            seq < self@.init.total,
        ensures
            received == self@.received.contains(seq as int),
    {
        let word: u64 = self.received[(seq / BITMAP_BITS_PER_WORD) as usize];
        word & (1u64 << ((seq % BITMAP_BITS_PER_WORD) as u64)) != 0
    }

    /// Marks chunk `seq` in the bitmap.
    fn mark_received(&mut self, seq: u32)
        requires
            old(self).received@.len() == (old(self).total + 63) / 64,
            seq < old(self).total,
        ensures
            *final(self) == (ReceiveState { received: final(self).received, ..*old(self) }),
            final(self).received@.len() == old(self).received@.len(),
            final(self)@.received == old(self)@.received.insert(seq as int),
    {
        let i: usize = (seq / BITMAP_BITS_PER_WORD) as usize;
        proof {
            lemma_set_bit(self.received@, seq as int);
        }
        let word: u64 = self.received[i] | (1u64 << ((seq % BITMAP_BITS_PER_WORD) as u64));
        self.received.set(i, word);
        assert(self@.received =~= old(self)@.received.insert(seq as int));
    }

    /// How many chunks are stored.
    pub fn count(&self) -> (count: u32)
        requires
            self.wf(),
        ensures
            count == self@.received.len(),
    {
        self.count
    }

    /// Where to write `data` as chunk `seq`: nowhere when the transfer has no
    /// such chunk, when it is stored already, or when the data has the wrong size.
    pub fn store(&self, seq: u32, data: &[u8]) -> (offset: Option<u64>)
        requires
            self.wf(),
        ensures
            match offset {
                Some(offset) => self@.wants(seq, data@.len()) && offset == self@.offset(seq as int),
                None => !self@.wants(seq, data@.len()),
            },
    {
        if seq >= self.total || self.is_received(seq) {
            return None;
        }
        proof {
            lemma_chunk_in_file(self@.init, seq as int);
        }
        let offset: u64 = seq as u64 * self.chunk_size as u64;
        let rest: u64 = self.size - offset;
        let expected: u64 = if rest < self.chunk_size as u64 {
            rest
        } else {
            self.chunk_size as u64
        };
        if data.len() as u64 != expected {
            return None;
        }
        Some(offset)
    }

    /// Notes that chunk `seq` has been written.
    pub fn stored(&mut self, seq: u32, now: u128)
        requires
            old(self).wf(),
            seq < old(self)@.init.total,
            !old(self)@.received.contains(seq as int),
            now <= MAX_NANOS,
        ensures
            final(self).wf(),
            final(self)@ == old(self)@.with_stored(seq, now),
    {
        let ghost before = self@;
        self.mark_received(seq);
        proof {
            lemma_count(self@.received, self.total as int);
        }
        self.count = self.count + 1;
        self.frontier = if self.frontier < seq + 1 {
            seq + 1
        } else {
            self.frontier
        };
        assert(self@.received =~= before.received.insert(seq as int));
        self.refresh_gap_clock(now);
    }

    /// Starts the gap clock when a gap comes up and stops it when the last is filled.
    fn refresh_gap_clock(&mut self, now: u128)
        requires
            old(self).received@.len() == (old(self).total + 63) / 64,
            old(self).count == old(self)@.received.len(),
            old(self)@.received.subset_of(set_int_range(0, old(self)@.frontier)),
        ensures
            final(self)@ == (ReceiveView {
                oldest_gap_at: if !old(self)@.gap_open() {
                    None
                } else if old(self)@.oldest_gap_at is Some {
                    old(self)@.oldest_gap_at
                } else {
                    Some(now)
                },
                ..old(self)@
            }),
            final(self).received == old(self).received,
            final(self).count == old(self).count,
            final(self).total == old(self).total,
    {
        proof {
            lemma_count(self@.received, self.frontier as int);
        }
        self.oldest_gap_at = if self.count < self.frontier {
            match self.oldest_gap_at {
                Some(at) => Some(at),
                None => Some(now),
            }
        } else {
            None
        };
        assert(self@.received =~= old(self)@.received);
    }

    /// The chunk inside the payload of a DATA packet, if its digest is right.
    pub fn verified_body<'p>(&self, payload: &'p [u8]) -> (body: Option<&'p [u8]>)
        requires
            payload@.len() < MAX_DIGEST_INPUT,
        ensures
            match body {
                Some(body) => body_of(self@.init.version, payload@) == Some(body@),
                None => body_of(self@.init.version, payload@) is None,
            },
    {
        if !self.version.verifies() {
            return Some(payload);
        }
        if payload.len() < SHA256_DIGEST_SIZE {
            return None;
        }
        let body = vstd::slice::slice_subrange(payload, SHA256_DIGEST_SIZE, payload.len());
        assert(body@ == payload@.skip(SHA256_DIGEST_SIZE as int));
        let got = digest_of(body);
        let mut i: usize = 0;
        while i < SHA256_DIGEST_SIZE
            invariant
                i <= SHA256_DIGEST_SIZE <= payload@.len(),
                self@.init.version.hashes_chunks(),
                got == sha256(payload@.skip(SHA256_DIGEST_SIZE as int)),
                forall|k: int| 0 <= k < i ==> got@[k] == payload@[k],
            decreases SHA256_DIGEST_SIZE - i,
        {
            if got[i] != payload[i] {
                assert(payload@.take(SHA256_DIGEST_SIZE as int)[i as int] == payload@[i as int]);
                return None;
            }
            i += 1;
        }
        assert(got@ == payload@.take(SHA256_DIGEST_SIZE as int));
        Some(body)
    }

    /// Where to write the chunk in the payload of DATA packet `seq`, and the chunk.
    pub fn accept_data<'p>(&self, seq: u32, payload: &'p [u8]) -> (accepted: Option<
        (u64, &'p [u8]),
    >)
        requires
            self.wf(),
            payload@.len() < MAX_DIGEST_INPUT,
        ensures
            match accepted {
                Some((offset, body)) => {
                    &&& body_of(self@.init.version, payload@) == Some(body@)
                    &&& self@.wants(seq, body@.len())
                    &&& offset == self@.offset(seq as int)
                },
                None => body_of(self@.init.version, payload@) matches Some(body) ==> !self@.wants(
                    seq,
                    body.len(),
                ),
            },
    {
        match self.verified_body(payload) {
            Some(body) => match self.store(seq, body) {
                Some(offset) => Some((offset, body)),
                None => None,
            },
            None => None,
        }
    }

    /// Whether every chunk is stored.
    pub fn full(&self) -> (full: bool)
        requires
            self.wf(),
        ensures
            full == self@.complete(),
    {
        proof {
            lemma_count(self@.received, self.total as int);
        }
        self.count == self.total
    }

    /// Whether a chunk below the frontier is missing: every stored chunk sits
    /// below the frontier, so a shortfall there is a gap.
    pub fn has_open_gap(&self) -> (open: bool)
        requires
            self.wf(),
        ensures
            open == self@.gap_open(),
    {
        assert(self@.received.subset_of(set_int_range(0, self.frontier as int)));
        proof {
            lemma_count(self@.received, self.frontier as int);
        }
        self.count < self.frontier
    }

    /// The missing chunks below `upto`.
    pub fn collect_missing(&self, upto: u32) -> (missing: Vec<u32>)
        requires
            self.wf(),
        ensures
            missing@ == missing_below(
                self@.received,
                if upto <= self@.init.total {
                    upto as nat
                } else {
                    self@.init.total as nat
                },
            ),
    {
        let end: u32 = if upto <= self.total {
            upto
        } else {
            self.total
        };
        let mut missing: Vec<u32> = Vec::new();
        let mut seq: u32 = 0;
        while seq < end
            invariant
                seq <= end <= self.total,
                self.wf(),
                missing@ == missing_below(self@.received, seq as nat),
            decreases end - seq,
        {
            if !self.is_received(seq) {
                missing.push(seq);
            }
            seq += 1;
        }
        missing
    }

    /// The datagrams that ask for every missing chunk, and how many those are.
    pub fn send_nacks(&self) -> (nacks: (usize, Vec<Vec<u8>>))
        requires
            self.wf(),
        ensures
            nacks.0 == missing_below(self@.received, self@.init.total as nat).len(),
            datagrams(nacks.1@) == nack_packets(
                missing_below(self@.received, self@.init.total as nat),
            ),
    {
        let missing = self.collect_missing(self.total);
        (missing.len(), emit_nacks(missing.as_slice()))
    }

    /// The datagrams that ask for the missing chunks below the frontier.
    pub fn nack_gaps(&self) -> (packets: Vec<Vec<u8>>)
        requires
            self.wf(),
        ensures
            datagrams(packets@) == nack_packets(
                missing_below(self@.received, self@.frontier as nat),
            ),
    {
        let missing = self.collect_missing(self.frontier);
        emit_nacks(missing.as_slice())
    }

    /// When the next NACK for a gap is due.
    pub fn next_nack_deadline(&self, holdoff: u128, last_nack_at: Option<u128>) -> (at: Option<
        u128,
    >)
        requires
            self.wf(),
            holdoff <= MAX_NANOS,
            last_nack_at matches Some(last) ==> last <= MAX_NANOS,
        ensures
            match at {
                Some(at) => self@.nack_deadline(holdoff, last_nack_at) == Some(at as int),
                None => self@.nack_deadline(holdoff, last_nack_at) is None,
            },
    {
        let gap_at: u128 = match self.oldest_gap_at {
            Some(gap_at) => gap_at,
            None => return None,
        };
        let at: u128 = gap_at + holdoff;
        if let Some(last) = last_nack_at {
            if last + NACK_REISSUE_INTERVAL > at {
                return Some(last + NACK_REISSUE_INTERVAL);
            }
        }
        Some(at)
    }

    /// How long to wait for the next datagram: until something is due, but never
    /// less than a millisecond, since no time at all would mean to wait forever.
    pub fn read_timeout(
        &self,
        last_data_at: u128,
        last_nack_at: Option<u128>,
        limits: RecvLimits,
        now: u128,
    ) -> (timeout: u128)
        requires
            self.wf(),
            limits.wf(),
            last_data_at <= MAX_NANOS,
            last_nack_at matches Some(last) ==> last <= MAX_NANOS,
        ensures
            timeout == ({
                let rest = self@.deadline(last_data_at, last_nack_at, limits) - now;
                if rest < NANOS_PER_MILLI {
                    NANOS_PER_MILLI as int
                } else {
                    rest
                }
            }),
    {
        let mut deadline: u128 = last_data_at + limits.idle_timeout;
        if let Some(nack_at) = self.next_nack_deadline(limits.nack_holdoff, last_nack_at) {
            if nack_at < deadline {
                deadline = nack_at;
            }
        }
        let rest: u128 = time_since(deadline, now);
        if rest < NANOS_PER_MILLI {
            NANOS_PER_MILLI
        } else {
            rest
        }
    }

    /// What to do when no datagram has come in time.
    pub fn on_idle_tick(
        &self,
        last_data_at: u128,
        last_nack_at: Option<u128>,
        limits: RecvLimits,
        now: u128,
    ) -> (tick: TickOutcome)
        requires
            self.wf(),
            limits.wf(),
            last_nack_at matches Some(last) ==> last <= MAX_NANOS,
        ensures
            tick.answers(self@, last_data_at, last_nack_at, limits, now),
    {
        if time_since(now, last_data_at) >= limits.idle_timeout {
            return TickOutcome::Expired(
                Failure {
                    kind: ErrorKind::TimedOut,
                    reason: String::from_str("idle timeout: sender disappeared"),
                },
            );
        }
        if let Some(due) = self.next_nack_deadline(limits.nack_holdoff, last_nack_at) {
            if now >= due {
                return TickOutcome::Nacked(self.nack_gaps());
            }
        }
        TickOutcome::Waiting
    }

    /// Accepts the file whose digest is `got` if it is the one announced.
    pub fn finalize(&self, got: &[u8; 32]) -> (result: Result<Verified, Failure>)
        ensures
            match result {
                Ok(verified) => self@.accepts(got@) && verified@ == got@,
                Err(failure) => !self@.accepts(got@) && failure@ == integrity_failure(),
            },
    {
        assert(got@ == self.hash@ ==> *got == self.hash) by {
            if got@ == self.hash@ {
                assert(*got =~= self.hash);
            }
        }
        if !same_digest(got, &self.hash) {
            return Err(
                Failure {
                    kind: ErrorKind::InvalidData,
                    reason: String::from_str("integrity check failed: SHA-256 mismatch"),
                },
            );
        }
        Ok(Verified { digest: *got })
    }

    /// What a DONE calls for.
    pub fn handle_done(&self) -> (outcome: DoneOutcome)
        requires
            self.wf(),
        ensures
            match outcome {
                DoneOutcome::Complete => self@.complete(),
                DoneOutcome::Incomplete { missing, packets } => {
                    &&& !self@.complete()
                    &&& missing == missing_below(self@.received, self@.init.total as nat).len()
                    &&& datagrams(packets@) == nack_packets(
                        missing_below(self@.received, self@.init.total as nat),
                    )
                },
            },
    {
        if !self.full() {
            let (missing, packets) = self.send_nacks();
            return DoneOutcome::Incomplete { missing, packets };
        }
        DoneOutcome::Complete
    }

    /// The path that the transfer is written to.
    pub fn tmp_path(&self) -> (path: &str)
        ensures
            path@ == self@.tmp_path,
    {
        self.tmp_path.as_str()
    }

    /// The path that the complete file gets.
    pub fn final_path(&self) -> (path: &str)
        ensures
            path@ == self@.init.final_path,
    {
        self.final_path.as_str()
    }

    /// The size of the file.
    pub fn size(&self) -> (size: u64)
        ensures
            size == self@.init.size,
    {
        self.size
    }

    /// What to report when the transfer is opened.
    pub fn receiving(&self) -> (event: TransferEvent<'_>)
        ensures
            event matches TransferEvent::Receiving { path, bytes, chunks, chunk_size } && {
                &&& path@ == self@.init.final_path
                &&& bytes == self@.init.size
                &&& chunks == self@.init.total
                &&& chunk_size == self@.init.chunk_size
            },
            self@.opens_as(event),
    {
        TransferEvent::Receiving {
            path: self.final_path.as_str(),
            bytes: self.size,
            chunks: self.total,
            chunk_size: self.chunk_size,
        }
    }

    /// What to report when a chunk is stored.
    pub fn progress(&self, now: u128) -> (event: TransferEvent<'_>)
        requires
            self.wf(),
        ensures
            event matches TransferEvent::Progress { done, total, chunk_size, elapsed } && {
                &&& done == self@.received.len()
                &&& total == self@.init.total
                &&& chunk_size == self@.init.chunk_size
                &&& elapsed == since(now, self@.start)
            },
            self@.stands_as(event, now),
    {
        TransferEvent::Progress {
            done: self.count,
            total: self.total,
            chunk_size: self.chunk_size,
            elapsed: time_since(now, self.start),
        }
    }

    /// What to report when the file is in place.
    pub fn saved(&self, now: u128) -> (event: TransferEvent<'_>)
        ensures
            event matches TransferEvent::Saved { path, bytes, elapsed } && {
                &&& path@ == self@.init.final_path
                &&& bytes == self@.init.size
                &&& elapsed == since(now, self@.start)
            },
            self@.ends_as(event, now),
    {
        TransferEvent::Saved {
            path: self.final_path.as_str(),
            bytes: self.size,
            elapsed: time_since(now, self.start),
        }
    }
}

impl TickOutcome {
    /// The outcome is the one for an idle receiver of transfer `state`.
    pub open spec fn answers(
        self,
        state: ReceiveView,
        last_data_at: u128,
        last_nack_at: Option<u128>,
        limits: RecvLimits,
        now: u128,
    ) -> bool {
        let expired = since(now, last_data_at) >= limits.idle_timeout;
        let due = state.nack_deadline(limits.nack_holdoff, last_nack_at);
        match self {
            TickOutcome::Expired(failure) => expired && failure@ == idle_failure(),
            TickOutcome::Nacked(packets) => {
                &&& !expired
                &&& due matches Some(at)
                &&& now >= at
                &&& datagrams(packets@) == nack_packets(
                    missing_below(state.received, state.frontier as nat),
                )
            },
            TickOutcome::Waiting => !expired && (due matches Some(at) ==> now < at),
        }
    }
}

/// The NACK datagrams that ask for `missing`.
pub fn emit_nacks(missing: &[u32]) -> (packets: Vec<Vec<u8>>)
    ensures
        datagrams(packets@) == nack_packets(missing@),
{
    let mut packets: Vec<Vec<u8>> = Vec::new();
    let mut i: usize = 0;
    assert(missing@.skip(0) == missing@);
    assert(datagrams(packets@) == Seq::<Seq<u8>>::empty());
    while i < missing.len()
        invariant
            i <= missing@.len(),
            nack_packets(missing@) == datagrams(packets@) + nack_packets(missing@.skip(i as int)),
        decreases missing@.len() - i,
    {
        let rest: usize = missing.len() - i;
        let n: usize = if rest <= MAX_NACKS_PER_PACKET {
            rest
        } else {
            MAX_NACKS_PER_PACKET
        };
        let batch = vstd::slice::slice_subrange(missing, i, i + n);
        let payload = encode_nack_payload(batch);
        proof {
            lemma_nack_bytes_len(batch@);
            assert(batch@ == missing@.skip(i as int).take(n as int));
            assert(missing@.skip(i as int).skip(n as int) == missing@.skip(i + n));
        }
        let packet = encode_packet(
            &PacketHeader {
                packet_type: PacketType::Nack,
                seq: n as u32,
                payload_len: payload.len() as u16,
            },
            payload.as_slice(),
        );
        let ghost before = packets@;
        packets.push(packet);
        assert(datagrams(packets@) == datagrams(before) + seq![packet@]);
        i += n;
    }
    packets
}

/// A NACK payload takes four bytes for each sequence number.
pub proof fn lemma_nack_bytes_len(seqs: Seq<u32>)
    ensures
        nack_bytes(seqs).len() == 4 * seqs.len(),
    decreases seqs.len(),
{
    if seqs.len() > 0 {
        lemma_nack_bytes_len(seqs.drop_last());
    }
}

/// Every chunk lies within the file, and only the last one may be short.
pub proof fn lemma_chunk_in_file(init: InitView, seq: int)
    requires
        init.wf(),
        0 <= seq < init.total,
    ensures
        0 <= seq * init.chunk_size < init.size,
        seq + 1 < init.total ==> (seq + 1) * init.chunk_size <= init.size,
        seq + 1 == init.total ==> init.size <= (seq + 1) * init.chunk_size,
{
    let cs = init.chunk_size as int;
    let size = init.size as int;
    vstd::arithmetic::div_mod::lemma_fundamental_div_mod(size, cs);
    let q = size / cs;
    assert(0 <= seq * cs) by (nonlinear_arith)
        requires
            seq >= 0,
            cs > 0,
    ;
    assert(0 <= size % cs < cs) by (nonlinear_arith)
        requires
            cs > 0,
    ;
    assert(cs * q == q * cs) by (nonlinear_arith);
    assert((seq + 1) * cs == seq * cs + cs) by (nonlinear_arith);
    if seq + 1 <= q {
        assert((seq + 1) * cs <= q * cs) by (nonlinear_arith)
            requires
                seq + 1 <= q,
                cs > 0,
        ;
    } else {
        assert(seq == q);
    }
    if seq + 1 == init.total {
        if size % cs == 0 {
            assert(seq + 1 == q);
        } else {
            assert(seq == q);
        }
    }
}

} // verus!
