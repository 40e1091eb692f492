//! What each step of a sender is, and what it leaves as it was.
use vstd::prelude::*;

use crate::laws::listening::law_control_round_trip;
use crate::laws::reassembly::{chunk_of, genuine};
use crate::laws::sending::law_enqueue;
use crate::protocol::{
    control_datagram, framed, nack_seqs, packet_of, payload_of, ErrorKind, PacketType,
    ProtocolVersion,
};
use crate::receiver::Peer;
use crate::recv::ReceiveView;
use crate::send::{all_chunks, data_payload, enqueued, packets_per_second};
use crate::sender::{
    acknowledged_by, HandshakeView, Phase, SendStep, SendStepView, SenderView,
};

verus! {

/// What a read of up to `most` bytes at `offset` gives of a file.
pub open spec fn read_at(file: Seq<u8>, offset: int, most: int) -> Seq<u8> {
    if file.len() - offset < most {
        file.skip(offset)
    } else {
        file.skip(offset).take(most)
    }
}

/// A chunk is read from where it lies in the file: `seq` whole chunks precede it. So
/// the packet that is made of what is read there, up to a chunk, is the genuine one,
/// and the receiver writes its bytes back to the same place.
pub proof fn law_chunk_is_read_where_it_lies(
    sender: SenderView,
    version: ProtocolVersion,
    state: ReceiveView,
    source: Seq<u8>,
)
    requires
        state.init.chunk_size == sender.chunk_size,
        state.init.version == version,
    ensures
        sender.next().1 matches SendStepView::Chunk { to, seq, offset } ==> {
            &&& to == sender.target
            &&& sender.pending.len() > 0
            &&& seq == sender.pending[0]
            &&& offset == seq * sender.chunk_size
            &&& offset == state.offset(seq as int)
            &&& offset <= source.len() ==> {
                let chunk = read_at(source, offset, sender.chunk_size as int);
                &&& chunk == chunk_of(source, sender.chunk_size as int, seq as int)
                &&& framed(PacketType::Data, seq, data_payload(version, chunk)) == genuine(
                    state.init,
                    source,
                    seq,
                )
            }
        },
{
    if let SendStepView::Chunk { to, seq, offset } = sender.next().1 {
        let c = sender.chunk_size as int;
        assert((seq + 1) * c == seq * c + c) by (nonlinear_arith);
        assert(seq * c >= 0) by (nonlinear_arith)
            requires
                c >= 0,
        ;
        if offset <= source.len() {
            assert(read_at(source, offset, c) =~= chunk_of(source, c, seq as int));
        }
    }
}

/// Two chunks never overlap in the file, and chunks that follow one another leave no
/// gap between them.
pub proof fn law_chunks_lie_side_by_side(a: SenderView, b: SenderView)
    requires
        a.chunk_size == b.chunk_size,
    ensures
        (a.next().1 matches SendStepView::Chunk { seq: first, offset: low, .. } ==> (
        b.next().1 matches SendStepView::Chunk { seq: second, offset: high, .. } ==> {
            &&& second == first + 1 ==> high == low + a.chunk_size
            &&& second > first ==> high >= low + a.chunk_size
            &&& first == 0 ==> low == 0
        })),
{
    if let SendStepView::Chunk { seq: first, offset: low, .. } = a.next().1 {
        if let SendStepView::Chunk { seq: second, offset: high, .. } = b.next().1 {
            let c = a.chunk_size as int;
            assert((first + 1) * c == first * c + c) by (nonlinear_arith);
            assert(0 * c == 0) by (nonlinear_arith);
            if second == first + 1 {
                assert(second * c == (first + 1) * c);
            }
            if second > first {
                assert(second * c >= (first + 1) * c) by (nonlinear_arith)
                    requires
                        second >= first + 1,
                        c >= 0,
                ;
            }
        }
    }
}

/// Two senders are at work on the same transfer, under the same terms.
pub open spec fn same_transfer(a: SenderView, b: SenderView) -> bool {
    &&& a.target == b.target
    &&& a.receiver == b.receiver
    &&& a.chunk_size == b.chunk_size
    &&& a.total == b.total
    &&& a.delay == b.delay
    &&& a.limits == b.limits
    &&& a.start == b.start
}

/// Nothing that happens changes whom a sender serves, what it sends, or its terms.
pub proof fn law_terms_stay(sender: SenderView, from: Peer, datagram: Seq<u8>, kind: ErrorKind)
    ensures
        same_transfer(sender, sender.next().0),
        same_transfer(sender, sender.with_sent()),
        same_transfer(sender, sender.on_datagram(from, datagram)),
        same_transfer(sender, sender.after_error(kind)),
        same_transfer(sender, sender.next_pass()),
        sender.next().0.pass == sender.pass,
        sender.with_sent().pass == sender.pass,
        sender.on_datagram(from, datagram).pass == sender.pass,
        sender.next().0.progress_done == sender.progress_done,
        sender.on_datagram(from, datagram).progress_done == sender.progress_done,
        sender.after_error(kind).progress_done == sender.progress_done,
        sender.next_pass().progress_done == sender.progress_done,
{
}

/// In a paced pass a pause of the set length follows each chunk but the last; without
/// a pace there is none.
pub proof fn law_pause_follows_chunk(sender: SenderView)
    ensures
        sender.next().1 is Sleep <==> sender.phase is Sent && sender.delay is Some
            && sender.pending.len() > 0,
        sender.next().1 matches SendStepView::Sleep { delay } ==> {
            &&& sender.delay == Some(delay)
            &&& sender.next().0 == (SenderView { phase: Phase::Rested, ..sender })
        },
        sender.next().1 is Chunk ==> {
            &&& sender.next().0.phase is Sent
            &&& sender.next().0.pending == sender.pending.skip(1)
        },
{
}

/// A sender looks for feedback once sixteen chunks are out since it last looked, and
/// in the midst of a pass not before.
pub proof fn law_feedback_is_looked_for_in_time(sender: SenderView)
    requires
        sender.wf(),
    ensures
        sender.since_drain == 16 ==> !(sender.next().1 is Chunk) && !(sender.next().1 is Done),
        sender.next().1 is Poll && !(sender.phase is Drain) ==> {
            &&& sender.since_drain == 16
            &&& sender.next().0 == (SenderView { since_drain: 0, phase: Phase::Drain, ..sender })
        },
        sender.phase is Drain ==> sender.next() == (sender, SendStepView::Poll),
        sender.phase is Rested && sender.since_drain == 16 ==> sender.next().1 is Poll,
        sender.phase is Rested && sender.since_drain < 16 && sender.pending.len() > 0
            ==> sender.next().1 is Chunk,
        sender.phase is Blast && sender.pending.len() > 0 ==> sender.next().1 is Chunk,
{
}

/// A pass ends with a DONE to the target that tells how many chunks there are, and
/// from then on what the receiver asks for is collected anew.
pub proof fn law_pass_ends_with_done(sender: SenderView)
    ensures
        sender.next().1 matches SendStepView::Done { to, packet } ==> {
            &&& sender.pending.len() == 0
            &&& to == sender.target
            &&& packet == control_datagram(PacketType::Done, sender.total)
            &&& sender.next().0 == (SenderView {
                since_drain: 0,
                missing: Seq::empty(),
                nacked: false,
                phase: Phase::Collect,
                ..sender
            })
        },
        sender.phase is Blast && sender.pending.len() == 0 ==> sender.next().1 is Done,
{
}

/// After a pass a sender waits for the first request as long as for an answer, and
/// for each further one as long as requests are collected.
pub proof fn law_wait_for_feedback(sender: SenderView)
    ensures
        sender.next().1 is Read <==> sender.phase is Collect,
        sender.next().1 matches SendStepView::Read { timeout } ==> {
            &&& sender.next().0 == sender
            &&& !sender.nacked ==> timeout == sender.limits.retransmit_timeout
            &&& sender.nacked ==> timeout == sender.limits.nack_collection_timeout
        },
{
}

/// Once its file is confirmed, all that a sender does is to thank the receiver.
pub proof fn law_confirmation_is_acknowledged(sender: SenderView)
    ensures
        sender.next().1 is Complete <==> sender.phase is Complete,
        sender.phase is Complete ==> sender.next() == (
            sender,
            SendStepView::Complete {
                to: sender.receiver,
                packet: control_datagram(PacketType::FinAck, 0),
            },
        ),
{
}

/// Sending a chunk counts it: progress is what is no longer pending, or what it was
/// if that is more.
pub proof fn law_sent_chunk_counts(sender: SenderView)
    requires
        sender.wf(),
        sender.pending.len() <= sender.total,
    ensures
        sender.with_sent().progress_done >= sender.progress_done,
        sender.with_sent().progress_done + sender.pending.len() >= sender.total,
        sender.with_sent().progress_done > sender.progress_done ==> sender.with_sent().progress_done
            + sender.pending.len() == sender.total,
        sender.with_sent() == (SenderView {
            progress_done: sender.with_sent().progress_done,
            since_drain: sender.with_sent().since_drain,
            ..sender
        }),
        sender.with_sent().since_drain == sender.since_drain + 1,
{
}

/// What the receiver asks for in the middle of a pass is sent in the same pass, behind
/// what is pending already; what it asks for afterwards is kept for the next.
pub proof fn law_request_is_taken_up(sender: SenderView, datagram: Seq<u8>)
    requires
        packet_of(datagram) matches Some((header, _)) && header.packet_type is Nack,
    ensures
        ({
            let after = sender.on_datagram(sender.receiver, datagram);
            let asked = nack_seqs((packet_of(datagram)->0).0.seq as nat, payload_of(datagram));
            &&& sender.phase is Drain ==> {
                &&& sender.pending.is_prefix_of(after.pending)
                &&& forall|seq: u32| #[trigger]
                    after.pending.contains(seq) <==> sender.pending.contains(seq)
                        || asked.contains(seq)
                &&& sender.pending.no_duplicates() ==> after.pending.no_duplicates()
                &&& after == (SenderView { pending: after.pending, ..sender })
            }
            &&& sender.phase is Collect ==> after == (SenderView {
                missing: sender.missing + asked,
                nacked: true,
                ..sender
            })
        }),
{
    let asked = nack_seqs((packet_of(datagram)->0).0.seq as nat, payload_of(datagram));
    law_enqueue(sender.pending, asked);
}

/// A sender that looks for feedback heeds NACK and FIN from its receiver, and
/// nothing else; one that does not look heeds nothing.
pub proof fn law_other_datagrams_are_ignored(sender: SenderView, from: Peer, datagram: Seq<u8>)
    requires
        ({
            ||| from != sender.receiver
            ||| packet_of(datagram) is None
            ||| (packet_of(datagram) matches Some((header, _)) && !(header.packet_type is Nack)
                && !(header.packet_type is Fin))
            ||| !(sender.phase is Drain) && !(sender.phase is Collect)
        }),
    ensures
        sender.on_datagram(from, datagram) == sender,
{
}

/// A FIN from its receiver is all that a sender waits for, and it changes nothing but that.
pub proof fn law_fin_ends_transfer(sender: SenderView, datagram: Seq<u8>)
    requires
        packet_of(datagram) matches Some((header, _)) && header.packet_type is Fin,
        sender.phase is Drain || sender.phase is Collect,
    ensures
        sender.on_datagram(sender.receiver, datagram) == (SenderView {
            phase: Phase::Complete,
            ..sender
        }),
{
}

/// When no more feedback comes after a pass, the next pass is over all that is still
/// pending and all that was asked for, each once, as long as the limit allows one
/// more. When none is there in the middle of a pass, the pass goes on. No other error
/// changes anything.
pub proof fn law_next_pass_takes_up_all(sender: SenderView, kind: ErrorKind)
    requires
        sender.pending.no_duplicates(),
    ensures
        ({
            let after = sender.after_error(kind);
            let late = kind is TimedOut || kind is WouldBlock;
            if sender.phase is Collect && late && sender.pass < sender.limits.retransmit_passes {
                &&& after.phase is Blast
                &&& after.pass == sender.pass + 1
                &&& after.missing.len() == 0
                &&& after.since_drain == sender.since_drain
                &&& after.nacked == sender.nacked
                &&& sender.pending.is_prefix_of(after.pending)
                &&& after.pending.no_duplicates()
                &&& forall|seq: u32| #[trigger]
                    after.pending.contains(seq) <==> sender.pending.contains(seq)
                        || sender.missing.contains(seq)
            } else if sender.phase is Drain && kind is WouldBlock {
                after == (SenderView { phase: Phase::Blast, ..sender })
            } else {
                after == sender
            }
        }),
{
    let asked = enqueued(Seq::empty(), sender.missing);
    law_enqueue(Seq::empty(), sender.missing);
    law_enqueue(sender.pending, asked);
    let after = sender.after_error(kind);
    let late = kind is TimedOut || kind is WouldBlock;
    if sender.phase is Collect && late && sender.pass < sender.limits.retransmit_passes {
        assert forall|seq: u32| #[trigger]
            after.pending.contains(seq) <==> sender.pending.contains(seq)
                || sender.missing.contains(seq) by {
            assert(asked.contains(seq) <==> sender.missing.contains(seq));
        }
    }
}

/// The first pass goes over the file from its start to its end.
pub proof fn law_first_pass_is_in_order(total: u32)
    ensures
        all_chunks(total as nat).len() == total,
        forall|i: int| 0 <= i < total ==> #[trigger] all_chunks(total as nat)[i] == i,
{
}

/// Requests are queued one by one, in the order in which they come: each goes to the end,
/// unless it is queued already.
pub proof fn law_enqueue_in_order(pending: Seq<u32>, first: Seq<u32>, then: Seq<u32>, seq: u32)
    ensures
        enqueued(pending, first + then) == enqueued(enqueued(pending, first), then),
        enqueued(pending, Seq::empty()) == pending,
        pending.contains(seq) ==> enqueued(pending, seq![seq]) == pending,
        !pending.contains(seq) ==> enqueued(pending, seq![seq]) == pending.push(seq),
    decreases then.len(),
{
    assert(seq![seq].drop_last() =~= Seq::empty());
    assert(enqueued(pending, seq![seq].drop_last()) == pending);
    if then.len() > 0 {
        law_enqueue_in_order(pending, first, then.drop_last(), seq);
        assert((first + then).drop_last() =~= first + then.drop_last());
    } else {
        assert(first + then =~= first);
    }
}

/// The contents of a step are what the step holds.
pub proof fn law_send_step_contents(step: SendStep)
    ensures
        match step {
            SendStep::Chunk { to, seq, offset } => step@ matches SendStepView::Chunk {
                to: peer,
                seq: chunk,
                offset: place,
            } && peer == to && chunk == seq && place == offset,
            SendStep::Sleep { delay } => step@ == (SendStepView::Sleep { delay }),
            SendStep::Poll => step@ == SendStepView::Poll,
            SendStep::Done { to, packet } => step@ == (SendStepView::Done { to, packet: packet@ }),
            SendStep::Read { timeout } => step@ == (SendStepView::Read { timeout }),
            SendStep::Complete { to, packet } => step@ == (SendStepView::Complete {
                to,
                packet: packet@,
            }),
        },
{
}

/// A paced sender uses the bandwidth that it is given, and no more: a second holds as
/// many chunks as fit what may be sent in it, and one more would not fit. Where less
/// than a whole chunk fits, one is sent; and no more are sent than a `u32` counts.
pub proof fn law_pace_uses_bandwidth(bw: u64, chunk_size: u32)
    requires
        bw > 0,
        chunk_size > 0,
    ensures
        ({
            let rate = packets_per_second(bw, chunk_size);
            let allowed = bw * 1024;
            &&& 1 <= rate <= u32::MAX
            &&& rate > 1 ==> rate * chunk_size <= allowed
            &&& rate < u32::MAX ==> (rate + 1) * chunk_size > allowed
        }),
{
    let rate = packets_per_second(bw, chunk_size);
    let c = chunk_size as int;
    let allowed = bw * 1024;
    let bytes = if allowed > u64::MAX {
        u64::MAX as int
    } else {
        allowed
    };
    let q = bytes / c;
    vstd::arithmetic::div_mod::lemma_fundamental_div_mod(bytes, c);
    assert(0 <= bytes % c < c && c * q == q * c && (q + 1) * c == q * c + c) by (nonlinear_arith)
        requires
            c > 0,
            q == bytes / c,
    ;
    assert(q * c <= bytes < (q + 1) * c);
    if rate > 1 {
        assert(rate * c <= q * c) by (nonlinear_arith)
            requires
                rate <= q,
                c > 0,
        ;
    }
    if rate < u32::MAX {
        assert((rate + 1) * c >= (q + 1) * c) by (nonlinear_arith)
            requires
                rate >= q,
                c > 0,
        ;
        if allowed > u64::MAX {
            assert((q + 1) * c <= u32::MAX * u32::MAX) by (nonlinear_arith)
                requires
                    0 <= q + 1 <= u32::MAX,
                    0 < c <= u32::MAX,
            ;
            assert(u32::MAX * u32::MAX < u64::MAX);
        }
    }
}

/// More bandwidth never makes a sender slower, and larger chunks never make it send
/// more of them.
pub proof fn law_pace_is_monotone(bw: u64, more: u64, chunk_size: u32, larger: u32)
    requires
        0 < bw <= more,
        0 < chunk_size <= larger,
    ensures
        packets_per_second(bw, larger) <= packets_per_second(more, chunk_size),
{
    let less = packets_per_second(bw, larger);
    let rate = packets_per_second(more, chunk_size);
    law_pace_uses_bandwidth(bw, larger);
    law_pace_uses_bandwidth(more, chunk_size);
    if less > rate {
        assert((rate + 1) * chunk_size <= less * larger) by (nonlinear_arith)
            requires
                rate + 1 <= less,
                0 < chunk_size <= larger,
                rate >= 1,
        ;
    }
}

/// An INIT is waited on from when it was sent until the retransmit timeout is over.
pub proof fn law_handshake_waits(handshake: HandshakeView, at: u128, now: u128)
    ensures
        handshake.sent(at).waits(now) <==> now < at + handshake.retransmit_timeout,
        handshake.sent(at).attempts == handshake.attempts,
        handshake.sent(at).packet == handshake.packet,
        handshake.deadline is None ==> !handshake.waits(now),
{
}

/// Whoever sends an ACK is the receiver, whatever the ACK holds; and nothing but an
/// ACK is an answer.
pub proof fn law_ack_names_receiver(from: Peer, seq: u32, datagram: Seq<u8>)
    ensures
        acknowledged_by(from, control_datagram(PacketType::Ack, seq)) == Some(from),
        acknowledged_by(from, datagram) matches Some(receiver) ==> {
            &&& receiver == from
            &&& datagram.len() >= 7
            &&& datagram[0] == 2
        },
        datagram.len() >= 7 && datagram[0] == 2 ==> acknowledged_by(from, datagram)
            == Some(from),
{
    law_control_round_trip(PacketType::Ack, seq);
}

} // verus!
