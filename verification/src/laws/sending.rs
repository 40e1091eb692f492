//! What a sender sends, and what becomes of a request for more.
use vstd::prelude::*;
use vstd::set_lib::{lemma_int_range, lemma_len_subset, set_int_range};

use crate::laws::listening::law_control_round_trip;
use crate::laws::reassembly::{
    after_run, arrives, honest, law_all_chunks_make_the_file, law_missing_is_exact, on_track,
    Arrival,
};
use crate::laws::wire::{asked_for, law_nacks_cover_missing};
use crate::protocol::{
    control_datagram, nack_seqs, packet_of, payload_of, PacketType, MAX_NANOS, NANOS_PER_SECOND,
};
use crate::receiver::{Peer, ReceiverView};
use crate::recv::{missing_below, nack_packets};
use crate::send::{all_chunks, enqueued, packets_per_second, BYTES_PER_KIB};
use crate::sender::{Phase, SendStepView, SenderView, FEEDBACK_DRAIN_INTERVAL};

verus! {

/// Queueing keeps what is queued where it is, adds all that is asked for, and
/// queues nothing twice.
pub proof fn law_enqueue(pending: Seq<u32>, more: Seq<u32>)
    ensures
        pending.is_prefix_of(enqueued(pending, more)),
        forall|seq: u32| #[trigger]
            enqueued(pending, more).contains(seq) <==> pending.contains(seq) || more.contains(seq),
        pending.no_duplicates() ==> enqueued(pending, more).no_duplicates(),
    decreases more.len(),
{
    if more.len() > 0 {
        let front = more.drop_last();
        let rest = enqueued(pending, front);
        let all = enqueued(pending, more);
        law_enqueue(pending, front);
        assert forall|seq: u32| #[trigger] all.contains(seq) <==> pending.contains(seq)
            || more.contains(seq) by {
            assert(more.contains(seq) <==> front.contains(seq) || seq == more.last()) by {
                if more.contains(seq) && seq != more.last() {
                    let i = choose|i: int| 0 <= i < more.len() && more[i] == seq;
                    assert(front[i] == seq);
                }
                if front.contains(seq) {
                    let i = choose|i: int| 0 <= i < front.len() && front[i] == seq;
                    assert(more[i] == seq);
                }
                assert(more[more.len() - 1] == more.last());
            }
            if !rest.contains(more.last()) {
                assert(all[rest.len() as int] == more.last());
                if rest.contains(seq) {
                    let i = choose|i: int| 0 <= i < rest.len() && rest[i] == seq;
                    assert(all[i] == seq);
                }
                if all.contains(seq) && seq != more.last() {
                    let i = choose|i: int| 0 <= i < all.len() && all[i] == seq;
                    assert(rest[i] == seq);
                }
            }
        }
        if pending.no_duplicates() && !rest.contains(more.last()) {
            assert forall|i: int, j: int| 0 <= i < j < all.len() implies all[i] != all[j] by {
                if j == rest.len() {
                    assert(rest.contains(rest[i]));
                }
            }
        }
    } else {
        assert(pending.is_prefix_of(pending));
    }
}

/// A request for what is queued already changes nothing.
pub proof fn law_enqueue_is_idempotent(pending: Seq<u32>, more: Seq<u32>)
    requires
        forall|i: int| 0 <= i < more.len() ==> pending.contains(#[trigger] more[i]),
    ensures
        enqueued(pending, more) == pending,
    decreases more.len(),
{
    if more.len() > 0 {
        let front = more.drop_last();
        assert forall|i: int| 0 <= i < front.len() implies pending.contains(
            #[trigger] front[i],
        ) by {
            assert(pending.contains(more[i]));
        }
        law_enqueue_is_idempotent(pending, front);
        assert(pending.contains(more[more.len() - 1]));
    }
}

/// A list without repetitions is queued as it is behind an empty queue.
pub proof fn law_enqueue_distinct(more: Seq<u32>)
    requires
        more.no_duplicates(),
    ensures
        enqueued(Seq::empty(), more) == more,
    decreases more.len(),
{
    if more.len() > 0 {
        let front = more.drop_last();
        law_enqueue_distinct(front);
        assert(more == front.push(more.last()));
        if front.contains(more.last()) {
            let i = choose|i: int| 0 <= i < front.len() && front[i] == more.last();
            assert(more[i] == more[more.len() - 1]);
        }
    }
}

/// How many steps are left of a pass, at most.
pub open spec fn work(sender: SenderView) -> nat {
    3 * sender.pending.len() + (match sender.phase {
        Phase::Sent => 2nat,
        Phase::Rested => 1,
        Phase::Drain => 1,
        _ => 0,
    })
}

/// The steps of a pass during which no feedback comes: each chunk is sent, and
/// each look for feedback finds none.
pub open spec fn quiet_pass(sender: SenderView) -> Seq<SendStepView>
    decreases work(sender),
{
    let (after, step) = sender.next();
    match step {
        SendStepView::Chunk { .. } => seq![step] + quiet_pass(after.with_sent()),
        SendStepView::Sleep { .. } => seq![step] + quiet_pass(after),
        SendStepView::Poll => seq![step] + quiet_pass(SenderView { phase: Phase::Blast, ..after }),
        _ => seq![step],
    }
}

/// The chunks among some steps, in their order.
pub open spec fn chunks_in(steps: Seq<SendStepView>) -> Seq<u32>
    decreases steps.len(),
{
    if steps.len() == 0 {
        Seq::empty()
    } else {
        let rest = chunks_in(steps.skip(1));
        match steps[0] {
            SendStepView::Chunk { seq, .. } => seq![seq] + rest,
            _ => rest,
        }
    }
}

/// A pass sends every chunk that is pending exactly once, in order, and ends with
/// a DONE that tells how many chunks the file has.
pub proof fn law_pass_sends_every_chunk(sender: SenderView)
    requires
        !(sender.phase is Collect),
        !(sender.phase is Complete),
    ensures
        chunks_in(quiet_pass(sender)) == sender.pending,
        quiet_pass(sender).len() > 0,
        quiet_pass(sender).last() == (SendStepView::Done {
            to: sender.target,
            packet: control_datagram(PacketType::Done, sender.total),
        }),
    decreases work(sender),
{
    let (after, step) = sender.next();
    let steps = quiet_pass(sender);
    match step {
        SendStepView::Chunk { seq, .. } => {
            let then = after.with_sent();
            law_pass_sends_every_chunk(then);
            assert(steps.skip(1) == quiet_pass(then));
            assert(seq![seq] + sender.pending.skip(1) =~= sender.pending);
        },
        SendStepView::Sleep { .. } => {
            law_pass_sends_every_chunk(after);
            assert(steps.skip(1) == quiet_pass(after));
            assert(chunks_in(steps) == chunks_in(steps.skip(1)));
        },
        SendStepView::Poll => {
            let then = SenderView { phase: Phase::Blast, ..after };
            law_pass_sends_every_chunk(then);
            assert(steps.skip(1) == quiet_pass(then));
            assert(chunks_in(steps) == chunks_in(steps.skip(1)));
        },
        _ => {
            assert(steps.skip(1) == Seq::<SendStepView>::empty());
            assert(chunks_in(steps) == chunks_in(steps.skip(1)));
            assert(sender.pending == Seq::<u32>::empty());
        },
    }
}

/// The first pass is over every chunk of the file.
pub proof fn law_first_pass_is_whole(total: u32)
    ensures
        all_chunks(total as nat).no_duplicates(),
        forall|seq: u32| #[trigger] all_chunks(total as nat).contains(seq) <==> seq < total,
{
    assert forall|seq: u32| #[trigger] all_chunks(total as nat).contains(seq) <==> seq < total by {
        if seq < total {
            assert(all_chunks(total as nat)[seq as int] == seq);
        }
    }
}

/// Looking for feedback comes no later than after sixteen chunks: a step that sends
/// a chunk finds fewer than that many sent since the last look.
pub proof fn law_feedback_is_looked_for(sender: SenderView)
    requires
        sender.wf(),
    ensures
        sender.next().1 is Chunk ==> sender.since_drain < FEEDBACK_DRAIN_INTERVAL,
        sender.next().1 is Sleep ==> sender.pending.len() > 0,
{
}

/// Progress never goes back and never passes the number of chunks.
pub proof fn law_progress_is_monotone(sender: SenderView)
    requires
        sender.wf(),
        sender.since_drain < FEEDBACK_DRAIN_INTERVAL,
        sender.pending.len() <= sender.total,
    ensures
        sender.progress_done <= sender.with_sent().progress_done <= sender.total,
        sender.pending.len() == 0 ==> sender.with_sent().progress_done == sender.total,
{
}

/// A sender takes its file for delivered only on a FIN from its receiver.
pub proof fn law_only_a_fin_completes(sender: SenderView, from: Peer, datagram: Seq<u8>)
    requires
        !(sender.phase is Complete),
    ensures
        sender.on_datagram(from, datagram).phase is Complete ==> {
            &&& from == sender.receiver
            &&& packet_of(datagram) matches Some((header, _))
            &&& header.packet_type is Fin
        },
        !(sender.next().0.phase is Complete),
        sender.phase is Drain || sender.phase is Collect ==> sender.on_datagram(
            sender.receiver,
            control_datagram(PacketType::Fin, 0),
        ).phase is Complete,
{
    law_control_round_trip(PacketType::Fin, 0);
}

/// The sender after some datagrams from its receiver.
pub open spec fn after_feedback(sender: SenderView, packets: Seq<Seq<u8>>) -> SenderView
    decreases packets.len(),
{
    if packets.len() == 0 {
        sender
    } else {
        after_feedback(sender.on_datagram(sender.receiver, packets[0]), packets.skip(1))
    }
}

/// NACK packets that reach a waiting sender add what they ask for to its list.
proof fn lemma_feedback_is_collected(sender: SenderView, packets: Seq<Seq<u8>>)
    requires
        sender.phase is Collect,
        forall|i: int|
            0 <= i < packets.len() ==> {
                &&& packet_of(#[trigger] packets[i]) matches Some((header, _))
                &&& header.packet_type is Nack
            },
    ensures
        after_feedback(sender, packets) == (SenderView {
            missing: sender.missing + asked_for(packets),
            nacked: sender.nacked || packets.len() > 0,
            ..sender
        }),
    decreases packets.len(),
{
    if packets.len() > 0 {
        let first = packets[0];
        let next = sender.on_datagram(sender.receiver, first);
        let seqs = nack_seqs((packet_of(first)->0).0.seq as nat, payload_of(first));
        assert forall|i: int| 0 <= i < packets.skip(1).len() implies {
            &&& packet_of(#[trigger] packets.skip(1)[i]) matches Some((header, _))
            &&& header.packet_type is Nack
        } by {
            assert(packets.skip(1)[i] == packets[i + 1]);
        }
        lemma_feedback_is_collected(next, packets.skip(1));
        assert(sender.missing + asked_for(packets) == next.missing + asked_for(packets.skip(1)));
    } else {
        assert(sender.missing + asked_for(packets) == sender.missing);
    }
}

/// When the NACKs of a receiver reach its sender, the next pass is over exactly
/// the chunks that the receiver was missing.
pub proof fn law_next_pass_is_what_is_missing(sender: SenderView, received: Set<int>, total: u32)
    requires
        sender.phase is Collect,
        sender.pending.len() == 0,
        sender.missing.len() == 0,
    ensures
        after_feedback(
            sender,
            nack_packets(missing_below(received, total as nat)),
        ).next_pass().pending == missing_below(received, total as nat),
{
    let missing = missing_below(received, total as nat);
    law_nacks_cover_missing(missing);
    lemma_feedback_is_collected(sender, nack_packets(missing));
    law_missing_is_exact(received, total as nat);
    assert(sender.missing + missing == missing);
    assert(missing.no_duplicates());
    law_enqueue_distinct(missing);
    assert(sender.pending == Seq::<u32>::empty());
}

/// If nothing is lost in a pass over what the receiver was missing, the transfer
/// is complete after it, and the file is the one that was sent.
pub proof fn law_lossless_pass_completes(
    sender: SenderView,
    receiver: ReceiverView,
    file: Seq<u8>,
    source: Seq<u8>,
    run: Seq<Arrival>,
)
    requires
        sender.phase is Collect,
        sender.pending.len() == 0,
        sender.missing.len() == 0,
        on_track(receiver, file, source),
        forall|i: int|
            0 <= i < run.len() ==> {
                &&& (#[trigger] run[i]).at <= MAX_NANOS
                &&& Some(run[i].from) == receiver.sender ==> honest(
                    (receiver.state->0).init,
                    source,
                    run[i].datagram,
                )
            },
        ({
            let state = receiver.state->0;
            let pass = after_feedback(
                sender,
                nack_packets(missing_below(state.received, state.init.total as nat)),
            ).next_pass();
            forall|seq: u32|
                chunks_in(quiet_pass(pass)).contains(seq) ==> #[trigger] arrives(
                    receiver,
                    source,
                    run,
                    seq,
                )
        }),
    ensures
        ({
            let (after, after_file) = after_run(receiver, file, run);
            &&& (after.state->0).complete()
            &&& after_file == source
        }),
{
    let state = receiver.state->0;
    let total = state.init.total;
    let missing = missing_below(state.received, total as nat);
    law_next_pass_is_what_is_missing(sender, state.received, total);
    law_missing_is_exact(state.received, total as nat);
    law_pass_sends_every_chunk(after_feedback(sender, nack_packets(missing)).next_pass());
    assert forall|seq: u32|
        seq < total && !state.received.contains(seq as int) implies #[trigger] arrives(
        receiver,
        source,
        run,
        seq,
    ) by {
        assert(missing.contains(seq));
    }
    law_all_chunks_make_the_file(receiver, file, source, run);
}

/// Every chunk that is pending or asked for is one of the file.
pub open spec fn asks_within_file(sender: SenderView) -> bool {
    &&& forall|i: int| 0 <= i < sender.pending.len() ==> #[trigger] sender.pending[i] < sender.total
    &&& forall|i: int| 0 <= i < sender.missing.len() ==> #[trigger] sender.missing[i] < sender.total
}

/// As long as the receiver asks for nothing but chunks of the file, no more are
/// pending than the file has, through every step, every datagram and every pass.
pub proof fn law_requests_stay_within_file(sender: SenderView, from: Peer, datagram: Seq<u8>)
    requires
        sender.wf(),
        asks_within_file(sender),
        from == sender.receiver ==> (packet_of(datagram) matches Some((header, _)) ==> (forall|
            i: int,
        |
            0 <= i < nack_seqs(header.seq as nat, payload_of(datagram)).len() ==> #[trigger] nack_seqs(
                header.seq as nat,
                payload_of(datagram),
            )[i] < sender.total)),
    ensures
        sender.pending.len() <= sender.total,
        asks_within_file(sender.next().0),
        asks_within_file(sender.on_datagram(from, datagram)),
        asks_within_file(sender.next_pass()),
{
    lemma_distinct_below(sender.pending, sender.total);
    assert(sender.next().0.pending == sender.pending || sender.next().0.pending
        == sender.pending.skip(1));
    if let Some((header, _)) = packet_of(datagram) {
        let seqs = nack_seqs(header.seq as nat, payload_of(datagram));
        if from == sender.receiver {
            lemma_enqueue_below(sender.pending, seqs, sender.total);
        }
    }
    lemma_enqueue_below(Seq::empty(), sender.missing, sender.total);
    lemma_enqueue_below(
        sender.pending,
        enqueued(Seq::empty(), sender.missing),
        sender.total,
    );
}

/// Queueing numbers below a bound behind numbers below it leaves them below it.
proof fn lemma_enqueue_below(pending: Seq<u32>, more: Seq<u32>, bound: u32)
    requires
        forall|i: int| 0 <= i < pending.len() ==> #[trigger] pending[i] < bound,
        forall|i: int| 0 <= i < more.len() ==> #[trigger] more[i] < bound,
    ensures
        forall|i: int|
            0 <= i < enqueued(pending, more).len() ==> #[trigger] enqueued(pending, more)[i] < bound,
{
    law_enqueue(pending, more);
    let all = enqueued(pending, more);
    assert forall|i: int| 0 <= i < all.len() implies #[trigger] all[i] < bound by {
        assert(all.contains(all[i]));
    }
}

/// Distinct numbers below a bound are no more than the bound.
proof fn lemma_distinct_below(seqs: Seq<u32>, bound: u32)
    requires
        seqs.no_duplicates(),
        forall|i: int| 0 <= i < seqs.len() ==> #[trigger] seqs[i] < bound,
    ensures
        seqs.len() <= bound,
{
    let numbers = seqs.map_values(|seq: u32| seq as int);
    assert(numbers.no_duplicates()) by {
        assert forall|i: int, j: int| 0 <= i < j < numbers.len() implies numbers[i] != numbers[j] by {
            assert(seqs[i] != seqs[j]);
        }
    }
    numbers.unique_seq_to_set();
    let all = set_int_range(0, bound as int);
    lemma_int_range(0, bound as int);
    assert(numbers.to_set().subset_of(all)) by {
        assert forall|n: int| numbers.to_set().contains(n) implies all.contains(n) by {
            let i = choose|i: int| 0 <= i < numbers.len() && numbers[i] == n;
            assert(seqs[i] < bound);
        }
    }
    lemma_len_subset(numbers.to_set(), all);
}

/// The passes are numbered upwards, and none is started beyond the limit.
pub proof fn law_passes_are_limited(sender: SenderView)
    requires
        sender.pass < sender.limits.retransmit_passes,
    ensures
        sender.next_pass().pass == sender.pass + 1,
        sender.next_pass().pass <= sender.limits.retransmit_passes,
{
}

/// A paced sender waits no longer than a second between packets, and unless that
/// is what limits it, it sends no more than the bandwidth that it was given.
pub proof fn law_pace(bw: u64, chunk_size: u32)
    requires
        bw > 0,
        chunk_size > 0,
    ensures
        1 <= packets_per_second(bw, chunk_size) <= u32::MAX,
        0 <= NANOS_PER_SECOND as int / packets_per_second(bw, chunk_size) <= NANOS_PER_SECOND,
        packets_per_second(bw, chunk_size) > 1 ==> packets_per_second(bw, chunk_size) * chunk_size
            <= bw * BYTES_PER_KIB,
{
    let rate = packets_per_second(bw, chunk_size);
    assert(0 <= NANOS_PER_SECOND as int / rate <= NANOS_PER_SECOND) by (nonlinear_arith)
        requires
            rate >= 1,
            NANOS_PER_SECOND == 1_000_000_000,
    ;
    let bytes = if bw * BYTES_PER_KIB > u64::MAX {
        u64::MAX as int
    } else {
        bw * BYTES_PER_KIB
    };
    if rate > 1 {
        let c = chunk_size as int;
        assert(rate <= bytes / c);
        assert(rate * c <= bytes) by (nonlinear_arith)
            requires
                rate <= bytes / c,
                c > 0,
                bytes >= 0,
        ;
    }
}

} // verus!
