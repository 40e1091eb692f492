//! Chunks that arrive in any order, any number of times, among anything else,
//! make up the file that was sent.
use vstd::prelude::*;
use vstd::set_lib::set_int_range;

use crate::digest::{sha256, SHA256_DIGEST_SIZE};
use crate::init::InitView;
use crate::laws::wire::{law_chunk_round_trip, law_packet_round_trip};
use crate::protocol::{framed, packet_of, payload_of, PacketType, MAX_NANOS};
use crate::receiver::{Peer, ReceiverView, StepView};
use crate::recv::{body_of, fresh, lemma_chunk_in_file, missing_below, ReceiveView};
use crate::send::data_payload;

verus! {

/// Chunk `seq` of a file.
pub open spec fn chunk_of(file: Seq<u8>, chunk_size: int, seq: int) -> Seq<u8> {
    file.subrange(
        seq * chunk_size,
        if (seq + 1) * chunk_size <= file.len() {
            (seq + 1) * chunk_size
        } else {
            file.len() as int
        },
    )
}

/// The file after `body` is written at `offset`, within the file.
pub open spec fn written(file: Seq<u8>, offset: int, body: Seq<u8>) -> Seq<u8> {
    Seq::new(
        file.len(),
        |i: int|
            if offset <= i < offset + body.len() {
                body[i - offset]
            } else {
                file[i]
            },
    )
}

/// Every chunk that is stored is the one of `source`.
pub open spec fn agrees(state: ReceiveView, file: Seq<u8>, source: Seq<u8>) -> bool {
    &&& file.len() == state.init.size
    &&& source.len() == state.init.size
    &&& forall|seq: int| #[trigger]
        state.received.contains(seq) ==> chunk_of(file, state.init.chunk_size as int, seq)
            == chunk_of(source, state.init.chunk_size as int, seq)
}

/// Storing a chunk keeps the invariant of a transfer.
pub proof fn law_store_keeps_invariant(state: ReceiveView, seq: u32, now: u128)
    requires
        state.wf(),
        seq < state.init.total,
        now <= MAX_NANOS,
    ensures
        state.with_stored(seq, now).wf(),
{
    let after = state.with_stored(seq, now);
    let stored = ReceiveView {
        received: state.received.insert(seq as int),
        frontier: if state.frontier <= seq {
            seq + 1
        } else {
            state.frontier
        },
        ..state
    };
    assert(stored.gap_open() == after.gap_open());
    assert(after.received.subset_of(set_int_range(0, state.init.total as int)));
}

/// A chunk that is stored is not wanted again.
pub proof fn law_store_is_idempotent(state: ReceiveView, seq: u32, now: u128, len: nat)
    ensures
        !state.with_stored(seq, now).wants(seq, len),
{
}

/// A chunk of the wrong size is not wanted, and the chunk is still asked for.
pub proof fn law_wrong_size_stays_requestable(state: ReceiveView, seq: u32, len: nat)
    requires
        state.wf(),
        seq < state.init.total,
        !state.received.contains(seq as int),
        len != state.chunk_len(seq as int),
    ensures
        !state.wants(seq, len),
        missing_below(state.received, state.init.total as nat).contains(seq),
{
    law_missing_is_exact(state.received, state.init.total as nat);
}

/// Where chunks carry their digest, a chunk that does not have the digest it came
/// with is dropped, and is still asked for.
pub proof fn law_corrupt_chunk_stays_requestable(
    receiver: ReceiverView,
    from: Peer,
    seq: u32,
    payload: Seq<u8>,
    now: u128,
)
    requires
        receiver.wf(),
        receiver.sender == Some(from),
        receiver.state matches Some(state) && {
            &&& state.init.version.hashes_chunks()
            &&& seq < state.init.total
            &&& !state.received.contains(seq as int)
        },
        SHA256_DIGEST_SIZE <= payload.len() <= u16::MAX,
        sha256(payload.skip(SHA256_DIGEST_SIZE as int))@ != payload.take(SHA256_DIGEST_SIZE as int),
    ensures
        receiver.on_datagram(from, framed(PacketType::Data, seq, payload), now) == StepView::Wait,
        receiver.after_datagram(from, now).state == receiver.state,
        missing_below(
            (receiver.state->0).received,
            (receiver.state->0).init.total as nat,
        ).contains(seq),
{
    law_packet_round_trip(PacketType::Data, seq, payload);
    law_missing_is_exact((receiver.state->0).received, (receiver.state->0).init.total as nat);
}

/// The missing chunks are those that are not stored, each of them once, in
/// ascending order.
pub proof fn law_missing_is_exact(received: Set<int>, upto: nat)
    requires
        upto <= u32::MAX,
    ensures
        forall|seq: u32| #[trigger]
            missing_below(received, upto).contains(seq) <==> seq < upto && !received.contains(
                seq as int,
            ),
        forall|i: int, j: int|
            0 <= i < j < missing_below(received, upto).len() ==> missing_below(received, upto)[i]
                < missing_below(received, upto)[j],
    decreases upto,
{
    if upto > 0 {
        let rest = missing_below(received, (upto - 1) as nat);
        let all = missing_below(received, upto);
        law_missing_is_exact(received, (upto - 1) as nat);
        assert forall|seq: u32| #[trigger] all.contains(seq) <==> seq < upto && !received.contains(
            seq as int,
        ) by {
            if !received.contains(upto - 1) {
                assert(all[rest.len() as int] == (upto - 1) as u32);
                if rest.contains(seq) {
                    let i = choose|i: int| 0 <= i < rest.len() && rest[i] == seq;
                    assert(all[i] == seq);
                }
                if all.contains(seq) && seq != upto - 1 {
                    let i = choose|i: int| 0 <= i < all.len() && all[i] == seq;
                    assert(rest[i] == seq);
                }
            }
        }
        assert forall|i: int, j: int| 0 <= i < j < all.len() implies all[i] < all[j] by {
            if j == rest.len() {
                assert(rest.contains(rest[i]));
            }
        }
    }
}

/// So many chunks are missing as are not stored.
pub proof fn law_missing_count(received: Set<int>, upto: nat)
    requires
        upto <= u32::MAX,
        received.finite(),
        received.subset_of(set_int_range(0, upto as int)),
    ensures
        missing_below(received, upto).len() == upto - received.len(),
    decreases upto,
{
    if upto == 0 {
        assert(received =~= Set::empty());
    } else {
        let top = upto - 1;
        let below = received.remove(top);
        law_missing_count(below, top as nat);
        lemma_missing_below_ignores(received, top, top as nat);
    }
}

/// What is missing below a bound does not depend on chunks beyond it.
proof fn lemma_missing_below_ignores(received: Set<int>, seq: int, upto: nat)
    requires
        seq >= upto,
    ensures
        missing_below(received.remove(seq), upto) == missing_below(received, upto),
    decreases upto,
{
    if upto > 0 {
        lemma_missing_below_ignores(received, seq, (upto - 1) as nat);
    }
}

/// A transfer is complete exactly when nothing is missing, and has an open gap
/// exactly when something is missing below its frontier: a gap that is due is
/// never asked for with an empty list.
pub proof fn law_gaps_and_completion(state: ReceiveView)
    requires
        state.wf(),
    ensures
        state.complete() <==> missing_below(state.received, state.init.total as nat).len() == 0,
        state.gap_open() <==> missing_below(state.received, state.frontier as nat).len() > 0,
        state.complete() ==> !state.gap_open(),
{
    let total = state.init.total as nat;
    let missing = missing_below(state.received, total);
    let gaps = missing_below(state.received, state.frontier as nat);
    law_missing_is_exact(state.received, total);
    law_missing_is_exact(state.received, state.frontier as nat);
    if missing.len() > 0 {
        assert(missing.contains(missing[0]));
        assert(!state.received.contains(missing[0] as int));
    }
    if !state.complete() {
        let seq = choose|seq: int| 0 <= seq < state.init.total && !state.received.contains(seq);
        assert(missing.contains(seq as u32));
    }
    if gaps.len() > 0 {
        assert(gaps.contains(gaps[0]));
        assert(!state.received.contains(gaps[0] as int));
    }
    if state.gap_open() {
        let seq = choose|seq: int| 0 <= seq < state.frontier && !state.received.contains(seq);
        assert(gaps.contains(seq as u32));
    }
}

/// Where chunk `seq` begins and ends, and that the chunks do not overlap.
proof fn lemma_chunk_bounds(state: ReceiveView, seq: int)
    requires
        state.init.wf(),
        0 <= seq < state.init.total,
    ensures
        0 <= state.offset(seq),
        state.offset(seq) + state.chunk_len(seq) <= state.init.size,
        state.offset(seq) + state.chunk_len(seq) <= (seq + 1) * state.init.chunk_size,
        state.offset(seq) + state.chunk_len(seq) == if (seq + 1) * state.init.chunk_size
            <= state.init.size {
            (seq + 1) * state.init.chunk_size
        } else {
            state.init.size as int
        },
        0 < state.chunk_len(seq),
        forall|other: int| #![trigger state.offset(other)]
            seq < other ==> (seq + 1) * state.init.chunk_size <= state.offset(other),
{
    lemma_chunk_in_file(state.init, seq);
    let cs = state.init.chunk_size as int;
    assert((seq + 1) * cs == seq * cs + cs) by (nonlinear_arith);
    assert forall|other: int| #![trigger state.offset(other)] seq < other implies (seq + 1) * cs
        <= state.offset(other) by {
        assert((seq + 1) * cs <= other * cs) by (nonlinear_arith)
            requires
                seq + 1 <= other,
                cs > 0,
        ;
    }
}

/// Writing a chunk of `source` in its place keeps every stored chunk right.
proof fn lemma_write_agrees(
    state: ReceiveView,
    file: Seq<u8>,
    source: Seq<u8>,
    seq: u32,
    body: Seq<u8>,
    now: u128,
)
    requires
        state.wf(),
        agrees(state, file, source),
        state.wants(seq, body.len()),
        body == chunk_of(source, state.init.chunk_size as int, seq as int),
    ensures
        agrees(
            state.with_stored(seq, now),
            written(file, state.offset(seq as int), body),
            source,
        ),
{
    let cs = state.init.chunk_size as int;
    let offset = state.offset(seq as int);
    let after = written(file, offset, body);
    let s = seq as int;
    lemma_chunk_bounds(state, s);
    assert forall|other: int| #[trigger]
        state.with_stored(seq, now).received.contains(other) implies chunk_of(after, cs, other)
        == chunk_of(source, cs, other) by {
        if other == s {
            assert(chunk_of(after, cs, s) =~= body);
        } else {
            assert(state.received.contains(other));
            assert(set_int_range(0, state.init.total as int).contains(other));
            lemma_chunk_bounds(state, other);
            let end = if (other + 1) * cs <= file.len() {
                (other + 1) * cs
            } else {
                file.len() as int
            };
            assert(end == state.offset(other) + state.chunk_len(other));
            if other < s {
                assert(end <= offset);
            } else {
                assert(offset + body.len() <= state.offset(other));
            }
            assert(chunk_of(after, cs, other) =~= chunk_of(file, cs, other));
        }
    }
}

/// A file whose chunks are all those of `source` is `source`.
pub proof fn law_complete_file_is_source(state: ReceiveView, file: Seq<u8>, source: Seq<u8>)
    requires
        state.wf(),
        agrees(state, file, source),
        state.complete(),
    ensures
        file == source,
{
    let cs = state.init.chunk_size as int;
    let size = state.init.size as int;
    assert forall|i: int| 0 <= i < file.len() implies file[i] == source[i] by {
        let seq = i / cs;
        assert(0 <= seq && seq * cs <= i < (seq + 1) * cs) by (nonlinear_arith)
            requires
                seq == i / cs,
                i >= 0,
                cs > 0,
        ;
        assert(seq < state.init.total) by {
            assert(size == cs * (size / cs) + size % cs && 0 <= size % cs < cs)
                by (nonlinear_arith)
                requires
                    cs > 0,
            ;
            if seq >= state.init.total {
                assert(state.init.total * cs <= seq * cs) by (nonlinear_arith)
                    requires
                        state.init.total <= seq,
                        cs > 0,
                ;
                if size % cs == 0 {
                    assert(state.init.total == size / cs);
                    assert(state.init.total * cs == cs * (size / cs)) by (nonlinear_arith)
                        requires
                            state.init.total == size / cs,
                    ;
                } else {
                    assert(state.init.total == size / cs + 1);
                    assert(state.init.total * cs == cs * (size / cs) + cs) by (nonlinear_arith)
                        requires
                            state.init.total == size / cs + 1,
                    ;
                }
            }
        }
        assert(state.received.contains(seq));
        let at = i - seq * cs;
        assert(chunk_of(file, cs, seq)[at] == file[i]);
        assert(chunk_of(source, cs, seq)[at] == source[i]);
    }
    assert(file =~= source);
}

/// The receiver and its file after a datagram, with the chunk written that the
/// receiver decides to write.
pub open spec fn after_datagram(
    receiver: ReceiverView,
    file: Seq<u8>,
    from: Peer,
    datagram: Seq<u8>,
    now: u128,
) -> (ReceiverView, Seq<u8>) {
    let heard = receiver.after_datagram(from, now);
    match receiver.on_datagram(from, datagram, now) {
        StepView::Write { seq, offset, body } => (
            heard.written(seq, now),
            written(file, offset, body),
        ),
        _ => (heard, file),
    }
}

/// A datagram with the peer that it comes from and the time that it arrives.
pub struct Arrival {
    pub from: Peer,
    pub datagram: Seq<u8>,
    pub at: u128,
}

/// The receiver and its file after a run of datagrams.
pub open spec fn after_run(receiver: ReceiverView, file: Seq<u8>, run: Seq<Arrival>) -> (
    ReceiverView,
    Seq<u8>,
)
    decreases run.len(),
{
    if run.len() == 0 {
        (receiver, file)
    } else {
        let (before, old_file) = after_run(receiver, file, run.drop_last());
        let last = run.last();
        after_datagram(before, old_file, last.from, last.datagram, last.at)
    }
}

/// No run of datagrams changes what was announced of a transfer, or ends it.
proof fn lemma_run_keeps_announcement(receiver: ReceiverView, file: Seq<u8>, run: Seq<Arrival>)
    requires
        receiver.state is Some,
    ensures
        after_run(receiver, file, run).0.state matches Some(state) && state.init == (
        receiver.state->0).init,
    decreases run.len(),
{
    if run.len() > 0 {
        lemma_run_keeps_announcement(receiver, file, run.drop_last());
    }
}

/// Whatever arrives, from whomever and however damaged: where a DONE then makes the
/// receiver finish the file, and the digest of the file passes the integrity check,
/// every chunk is stored and the file has the digest of the one that was announced.
/// It is the announced one unless these two files share their digest.
pub proof fn law_accepted_file_is_the_announced_one(
    receiver: ReceiverView,
    file: Seq<u8>,
    source: Seq<u8>,
    run: Seq<Arrival>,
    from: Peer,
    done: Seq<u8>,
    now: u128,
)
    requires
        receiver.state matches Some(state) && state.init.hash == sha256(source)@,
        after_run(receiver, file, run).0.on_datagram(from, done, now) is Flush,
        (after_run(receiver, file, run).0.state->0).accepts(
            sha256(after_run(receiver, file, run).1)@,
        ),
    ensures
        ({
            let (after, after_file) = after_run(receiver, file, run);
            &&& sha256(after_file)@ == sha256(source)@
            &&& (sha256(after_file)@ == sha256(source)@ ==> after_file == source) ==> after_file
                == source
            &&& (after.state->0).complete()
            &&& after.may_complete(sha256(after_file)@)
        }),
{
    lemma_run_keeps_announcement(receiver, file, run);
}

/// The DATA packet that a sender makes of chunk `seq` of `source`.
pub open spec fn genuine(init: InitView, source: Seq<u8>, seq: u32) -> Seq<u8> {
    framed(
        PacketType::Data,
        seq,
        data_payload(init.version, chunk_of(source, init.chunk_size as int, seq as int)),
    )
}

/// No DATA packet in the datagram carries anything but a chunk of `source`: the
/// receiver would accept no other bytes from it as chunk `seq`.
pub open spec fn honest(init: InitView, source: Seq<u8>, datagram: Seq<u8>) -> bool {
    packet_of(datagram) matches Some((header, _)) ==> header.packet_type is Data ==> (body_of(
        init.version,
        payload_of(datagram),
    ) matches Some(body) ==> header.seq < init.total ==> body.len() == chunk_of(
        source,
        init.chunk_size as int,
        header.seq as int,
    ).len() ==> body == chunk_of(source, init.chunk_size as int, header.seq as int))
}

/// A receiver in the middle of a transfer whose file holds the right bytes so far.
pub open spec fn on_track(receiver: ReceiverView, file: Seq<u8>, source: Seq<u8>) -> bool {
    &&& receiver.wf()
    &&& receiver.state matches Some(state)
    &&& agrees(state, file, source)
}

/// A transfer that has just been opened is on track, whatever the new file holds.
pub proof fn law_opened_transfer_is_on_track(
    receiver: ReceiverView,
    init: InitView,
    from: Peer,
    now: u128,
    file: Seq<u8>,
    source: Seq<u8>,
)
    requires
        receiver.wf(),
        init.wf(),
        now <= MAX_NANOS,
        file.len() == init.size,
        source.len() == init.size,
    ensures
        on_track(receiver.opened(from, fresh(init, now), now), file, source),
{
}

/// What one datagram does to a transfer: nothing unless it is a wanted chunk from
/// the sender, and then the chunk is stored where it belongs.
pub proof fn law_datagram_keeps_file_right(
    receiver: ReceiverView,
    file: Seq<u8>,
    source: Seq<u8>,
    arrival: Arrival,
)
    requires
        on_track(receiver, file, source),
        arrival.at <= MAX_NANOS,
        Some(arrival.from) == receiver.sender ==> honest(
            (receiver.state->0).init,
            source,
            arrival.datagram,
        ),
    ensures
        ({
            let (after, after_file) = after_datagram(
                receiver,
                file,
                arrival.from,
                arrival.datagram,
                arrival.at,
            );
            &&& on_track(after, after_file, source)
            &&& after.sender == receiver.sender
            &&& (after.state->0).init == (receiver.state->0).init
            &&& (receiver.state->0).received.subset_of((after.state->0).received)
        }),
{
    let state = receiver.state->0;
    let step = receiver.on_datagram(arrival.from, arrival.datagram, arrival.at);
    if let StepView::Write { seq, offset, body } = step {
        lemma_chunk_bounds(state, seq as int);
        assert(chunk_of(source, state.init.chunk_size as int, seq as int).len() == body.len());
        lemma_write_agrees(state, file, source, seq, body, arrival.at);
        law_store_keeps_invariant(state, seq, arrival.at);
    }
}

/// A genuine packet from the sender leaves its chunk stored.
pub proof fn law_genuine_chunk_is_stored(
    receiver: ReceiverView,
    file: Seq<u8>,
    source: Seq<u8>,
    seq: u32,
    at: u128,
)
    requires
        on_track(receiver, file, source),
        at <= MAX_NANOS,
        seq < (receiver.state->0).init.total,
    ensures
        honest((receiver.state->0).init, source, genuine((receiver.state->0).init, source, seq)),
        ({
            let (after, _) = after_datagram(
                receiver,
                file,
                receiver.sender->0,
                genuine((receiver.state->0).init, source, seq),
                at,
            );
            (after.state->0).received.contains(seq as int)
        }),
{
    let state = receiver.state->0;
    let chunk = chunk_of(source, state.init.chunk_size as int, seq as int);
    lemma_chunk_bounds(state, seq as int);
    assert(chunk.len() == state.chunk_len(seq as int));
    law_chunk_round_trip(state.init.version, chunk);
    law_packet_round_trip(PacketType::Data, seq, data_payload(state.init.version, chunk));
}

/// Whatever arrives, in whatever order and however often: as long as the sender
/// sends nothing but chunks of its file, every stored chunk is the right one, and
/// every chunk of which a genuine packet arrived from the sender is stored.
pub proof fn law_any_order_any_number(
    receiver: ReceiverView,
    file: Seq<u8>,
    source: Seq<u8>,
    run: Seq<Arrival>,
)
    requires
        on_track(receiver, file, source),
        forall|i: int|
            0 <= i < run.len() ==> {
                &&& (#[trigger] run[i]).at <= MAX_NANOS
                &&& Some(run[i].from) == receiver.sender ==> honest(
                    (receiver.state->0).init,
                    source,
                    run[i].datagram,
                )
            },
    ensures
        ({
            let (after, after_file) = after_run(receiver, file, run);
            &&& on_track(after, after_file, source)
            &&& after.sender == receiver.sender
            &&& (after.state->0).init == (receiver.state->0).init
            &&& (receiver.state->0).received.subset_of((after.state->0).received)
            &&& forall|i: int, seq: u32|
                0 <= i < run.len() && seq < (receiver.state->0).init.total && Some(run[i].from)
                    == receiver.sender && run[i].datagram == #[trigger] genuine(
                    (receiver.state->0).init,
                    source,
                    seq,
                ) && #[trigger] is_arrival(run, i) ==> (after.state->0).received.contains(
                    seq as int,
                )
        }),
    decreases run.len(),
{
    if run.len() > 0 {
        let front = run.drop_last();
        let last = run.last();
        assert(run[run.len() - 1] == last);
        assert forall|i: int| 0 <= i < front.len() implies {
            &&& (#[trigger] front[i]).at <= MAX_NANOS
            &&& Some(front[i].from) == receiver.sender ==> honest(
                (receiver.state->0).init,
                source,
                front[i].datagram,
            )
        } by {
            assert(front[i] == run[i]);
        }
        law_any_order_any_number(receiver, file, source, front);
        let (before, old_file) = after_run(receiver, file, front);
        law_datagram_keeps_file_right(before, old_file, source, last);
        let (after, after_file) = after_run(receiver, file, run);
        let init = (receiver.state->0).init;
        assert forall|i: int, seq: u32|
            0 <= i < run.len() && seq < init.total && Some(run[i].from) == receiver.sender
                && run[i].datagram == #[trigger] genuine(init, source, seq)
                && #[trigger] is_arrival(run, i) implies (after.state->0).received.contains(
            seq as int,
        ) by {
            if i < front.len() {
                assert(front[i] == run[i]);
                assert(is_arrival(front, i));
                assert((before.state->0).received.contains(seq as int));
            } else {
                law_genuine_chunk_is_stored(before, old_file, source, seq, last.at);
            }
        }
    }
}

/// `i` is the number of an arrival.
pub open spec fn is_arrival(run: Seq<Arrival>, i: int) -> bool {
    0 <= i < run.len()
}

/// A genuine packet of chunk `seq` arrives from the sender.
pub open spec fn arrives(
    receiver: ReceiverView,
    source: Seq<u8>,
    run: Seq<Arrival>,
    seq: u32,
) -> bool {
    exists|i: int|
        {
            &&& #[trigger] is_arrival(run, i)
            &&& Some(run[i].from) == receiver.sender
            &&& run[i].datagram == genuine((receiver.state->0).init, source, seq)
        }
}

/// Once a genuine packet of every chunk that was missing has arrived, the transfer
/// is complete and the file is the one that was sent; if its digest was announced
/// truly, the file passes the integrity check.
pub proof fn law_all_chunks_make_the_file(
    receiver: ReceiverView,
    file: Seq<u8>,
    source: Seq<u8>,
    run: Seq<Arrival>,
)
    requires
        on_track(receiver, file, source),
        forall|i: int|
            0 <= i < run.len() ==> {
                &&& (#[trigger] run[i]).at <= MAX_NANOS
                &&& Some(run[i].from) == receiver.sender ==> honest(
                    (receiver.state->0).init,
                    source,
                    run[i].datagram,
                )
            },
        forall|seq: u32|
            seq < (receiver.state->0).init.total && !(receiver.state->0).received.contains(
                seq as int,
            ) ==> #[trigger] arrives(receiver, source, run, seq),
    ensures
        ({
            let (after, after_file) = after_run(receiver, file, run);
            &&& (after.state->0).complete()
            &&& after_file == source
            &&& (receiver.state->0).init.hash == sha256(source)@ ==> (after.state->0).accepts(
                sha256(after_file)@,
            )
        }),
{
    law_any_order_any_number(receiver, file, source, run);
    let (after, after_file) = after_run(receiver, file, run);
    let init = (receiver.state->0).init;
    assert forall|seq: int| 0 <= seq < init.total implies (after.state->0).received.contains(
        seq,
    ) by {
        let s = seq as u32;
        if (receiver.state->0).received.contains(seq) {
            assert((after.state->0).received.contains(seq));
        } else {
            assert(arrives(receiver, source, run, s));
            let i = choose|i: int|
                {
                    &&& #[trigger] is_arrival(run, i)
                    &&& Some(run[i].from) == receiver.sender
                    &&& run[i].datagram == genuine(init, source, s)
                };
            assert(is_arrival(run, i));
        }
    }
    law_complete_file_is_source(after.state->0, after_file, source);
}

} // verus!
