//! How a receiver goes from one state to the next, and what its clocks measure.
use vstd::prelude::*;

use crate::digest::sha256;
use crate::init::{init_of, InitView};
use crate::laws::listening::law_control_round_trip;
use crate::laws::reassembly::{
    chunk_of, genuine, law_gaps_and_completion, law_missing_is_exact, on_track,
};
use crate::laws::wire::{
    asked_for, law_chunk_round_trip, law_nacks_cover_missing, law_packet_round_trip,
};
use crate::path::tmp_path_of;
use crate::protocol::{
    control_datagram, packet_of, payload_of, PacketType, ProtocolVersion, MAX_NANOS,
};
use crate::receiver::{
    linger_step, open_refusal, LingerStep, LingerStepView, OpenStage, Peer, ReceiverView, Step,
    StepView,
};
use crate::recv::{
    body_of, fresh, lemma_chunk_in_file, missing_below, since, ReceiveView,
};
use crate::send::data_payload;

verus! {

/// The time from one moment to a later one, added to the first, gives the second; no
/// time passes backwards.
pub proof fn law_elapsed(now: u128, then: u128)
    ensures
        now >= then ==> then + since(now, then) == now,
        now <= then ==> since(now, then) == 0,
{
}

/// Every datagram from the sender of a transfer, whatever it holds and however much has
/// been received, is a sign of life: it starts the idle timeout anew, and changes
/// nothing else. So the transfer is not given up before that time is over again,
/// whatever is written or asked for in the meantime.
pub proof fn law_sign_of_life(
    receiver: ReceiverView,
    from: Peer,
    now: u128,
    seq: u32,
    at: u128,
    later: u128,
)
    requires
        receiver.sender == Some(from) || receiver.sender is None,
    ensures
        receiver.after_datagram(from, now).last_data_at == now,
        receiver.after_datagram(from, now) == (ReceiverView { last_data_at: now, ..receiver }),
        now <= later < now + receiver.limits.idle_timeout ==> {
            let heard = receiver.after_datagram(from, now);
            &&& !(heard.on_timeout(later) is Abandon)
            &&& !(heard.nacked(at).on_timeout(later) is Abandon)
            &&& !(heard.written(seq, at).on_timeout(later) is Abandon)
            &&& !(heard.written(seq, at).nacked(at).on_timeout(later) is Abandon)
        },
{
}

/// A transfer is given up exactly when nothing has come from its sender for the whole
/// idle timeout.
pub proof fn law_given_up_when_idle(receiver: ReceiverView, now: u128)
    requires
        receiver.wf(),
        now >= receiver.last_data_at,
    ensures
        receiver.on_timeout(now) is Abandon <==> receiver.state is Some && now
            >= receiver.last_data_at + receiver.limits.idle_timeout,
        receiver.on_timeout(now) matches StepView::Abandon { failure } ==> {
            &&& failure.kind is TimedOut
            &&& failure.reason == "idle timeout: sender disappeared"@
        },
        receiver.state is None ==> receiver.on_timeout(now) == StepView::Wait,
{
}

/// A gap is asked for as soon as it has been open for the holdoff and the last request is
/// three seconds old: all that is missing below the highest chunk stored, and nothing
/// else, from the sender.
pub proof fn law_nack_is_prompt(receiver: ReceiverView, now: u128)
    requires
        receiver.wf(),
        receiver.state matches Some(state) && state.oldest_gap_at matches Some(gap_at) && now
            >= gap_at + receiver.limits.nack_holdoff,
        receiver.last_nack_at matches Some(last) ==> now >= last + 3_000_000_000,
        now >= receiver.last_data_at,
        now < receiver.last_data_at + receiver.limits.idle_timeout,
    ensures
        receiver.on_timeout(now) matches StepView::Nack { to, missing, packets } && {
            let state = receiver.state->0;
            &&& receiver.sender == Some(to)
            &&& missing is None
            &&& asked_for(packets).no_duplicates()
            &&& forall|seq: u32| #[trigger]
                asked_for(packets).contains(seq) <==> seq < state.frontier
                    && !state.received.contains(seq as int)
        },
{
    let state = receiver.state->0;
    law_missing_is_exact(state.received, state.frontier as nat);
    law_nacks_cover_missing(missing_below(state.received, state.frontier as nat));
}

/// Once something has been asked for, nothing is asked for again within three seconds.
pub proof fn law_request_is_not_repeated_at_once(receiver: ReceiverView, at: u128, now: u128)
    requires
        now < at + 3_000_000_000,
    ensures
        !(receiver.nacked(at).on_timeout(now) is Nack),
        receiver.nacked(at) == (ReceiverView { last_nack_at: Some(at), ..receiver }),
{
}

/// A DONE is answered by a request for every chunk that is not stored, and for no other.
pub proof fn law_done_asks_for_all_that_is_missing(receiver: ReceiverView, from: Peer, now: u128)
    requires
        receiver.wf(),
        receiver.state is Some,
        receiver.sender == Some(from),
    ensures
        ({
            let state = receiver.state->0;
            match receiver.on_done() {
                StepView::Flush { to } => {
                    &&& to == from
                    &&& forall|seq: int| 0 <= seq < state.init.total ==> state.received.contains(seq)
                },
                StepView::Nack { to, missing, packets } => {
                    &&& to == from
                    &&& missing == Some(asked_for(packets).len())
                    &&& asked_for(packets).len() > 0
                    &&& asked_for(packets).no_duplicates()
                    &&& forall|seq: u32| #[trigger]
                        asked_for(packets).contains(seq) <==> seq < state.init.total
                            && !state.received.contains(seq as int)
                },
                _ => false,
            }
        }),
{
    let state = receiver.state->0;
    let missing = missing_below(state.received, state.init.total as nat);
    law_missing_is_exact(state.received, state.init.total as nat);
    law_nacks_cover_missing(missing);
    law_gaps_and_completion(state);
    if !state.complete() {
        let seq = choose|seq: int|
            0 <= seq < state.init.total && !state.received.contains(seq);
        assert(missing.contains(seq as u32));
    }
}

/// The clock of the gaps starts when a stored chunk leaves the first gap below it, runs
/// on as long as any is open, and stops when the last one closes.
pub proof fn law_gap_clock(state: ReceiveView, seq: u32, now: u128)
    requires
        state.wf(),
        seq < state.init.total,
    ensures
        ({
            let after = state.with_stored(seq, now);
            let open = exists|i: int| 0 <= i < after.frontier && !after.received.contains(i);
            &&& !open ==> after.oldest_gap_at is None
            &&& open && state.oldest_gap_at is Some ==> after.oldest_gap_at == state.oldest_gap_at
            &&& open && state.oldest_gap_at is None ==> after.oldest_gap_at == Some(now)
            &&& state.oldest_gap_at is None && seq > state.frontier ==> after.oldest_gap_at == Some(
                now,
            )
            &&& state.oldest_gap_at is None && seq <= state.frontier ==> after.oldest_gap_at is None
        }),
{
    let after = state.with_stored(seq, now);
    if state.oldest_gap_at is None {
        if seq > state.frontier {
            assert(!after.received.contains(state.frontier));
        } else {
            assert forall|i: int| 0 <= i < after.frontier implies after.received.contains(i) by {
                assert(!state.gap_open());
            }
        }
    }
}

/// Storing a chunk stores that chunk, moves the frontier past it if it is beyond, and
/// changes nothing else but the clock of the gaps.
pub proof fn law_stored_chunk_is_stored(receiver: ReceiverView, seq: u32, now: u128)
    requires
        receiver.state is Some,
    ensures
        ({
            let before = receiver.state->0;
            let after = receiver.written(seq, now);
            &&& after == (ReceiverView { state: after.state, ..receiver })
            &&& after.state matches Some(state)
            &&& forall|i: int| #[trigger]
                state.received.contains(i) <==> before.received.contains(i) || i == seq
            &&& state.frontier >= before.frontier
            &&& state.frontier > seq
            &&& state.frontier == before.frontier || state.frontier == seq + 1
            &&& state.init == before.init
            &&& state.tmp_path == before.tmp_path
            &&& state.start == before.start
        }),
{
}

/// A transfer starts with nothing stored, under the announced terms, beside the place
/// where the file goes. From then on its sender alone is heard; its time runs from when
/// the file was created; and nothing has been asked for.
pub proof fn law_transfer_starts_empty(
    receiver: ReceiverView,
    init: InitView,
    from: Peer,
    other: Peer,
    announced: u128,
    now: u128,
)
    ensures
        ({
            let after = receiver.opened(from, fresh(init, announced), now);
            &&& after.state matches Some(state)
            &&& state.init == init
            &&& state.tmp_path == tmp_path_of(init.final_path)
            &&& forall|seq: int| !#[trigger] state.received.contains(seq)
            &&& state.frontier == 0
            &&& state.oldest_gap_at is None
            &&& state.start == now
            &&& after.sender == Some(from)
            &&& after.last_nack_at is None
            &&& after.hears(other) <==> other == from
            &&& after.out == receiver.out
            &&& after.serve == receiver.serve
            &&& after.linger_timeout == receiver.linger_timeout
            &&& after.limits == receiver.limits
            &&& after.last_data_at == receiver.last_data_at
        }),
{
}

/// A receiver that listens again hears everyone, has no transfer, and has forgotten what
/// it asked for; a transfer that is complete leaves all but itself as it was.
pub proof fn law_listening_again(receiver: ReceiverView, from: Peer)
    ensures
        receiver.listening().hears(from),
        receiver.listening() == (ReceiverView {
            state: None,
            sender: None,
            last_nack_at: None,
            ..receiver
        }),
        receiver.completed() == (ReceiverView { state: None, ..receiver }),
{
}

/// A FIN is due exactly when every chunk is stored and the digest is the announced one.
pub proof fn law_fin_is_due(receiver: ReceiverView, digest: Seq<u8>)
    ensures
        receiver.may_complete(digest) <==> {
            &&& receiver.state matches Some(state)
            &&& digest == state.init.hash
            &&& forall|seq: int| 0 <= seq < state.init.total ==> state.received.contains(seq)
        },
{
}

/// A receiver heeds INIT, DATA and DONE, and no other packet; and DATA and DONE only
/// during a transfer.
pub proof fn law_other_packets_are_ignored(
    receiver: ReceiverView,
    from: Peer,
    datagram: Seq<u8>,
    now: u128,
)
    requires
        packet_of(datagram) matches Some((header, _)) && !(header.packet_type is Init) && !(
        receiver.state is Some && (header.packet_type is Data || header.packet_type is Done)),
    ensures
        receiver.on_datagram(from, datagram, now) == StepView::Wait,
{
}

/// A chunk that is wanted is written as it was sent, to where it lies in the file: `seq`
/// whole chunks precede it.
pub proof fn law_wanted_chunk_is_written(
    receiver: ReceiverView,
    file: Seq<u8>,
    source: Seq<u8>,
    seq: u32,
    now: u128,
)
    requires
        on_track(receiver, file, source),
        seq < (receiver.state->0).init.total,
        !(receiver.state->0).received.contains(seq as int),
    ensures
        ({
            let init = (receiver.state->0).init;
            receiver.on_datagram(receiver.sender->0, genuine(init, source, seq), now) == (
            StepView::Write {
                seq,
                offset: seq * init.chunk_size,
                body: chunk_of(source, init.chunk_size as int, seq as int),
            })
        }),
{
    let state = receiver.state->0;
    let c = state.init.chunk_size as int;
    let chunk = chunk_of(source, c, seq as int);
    lemma_chunk_in_file(state.init, seq as int);
    assert((seq + 1) * c == seq * c + c) by (nonlinear_arith);
    assert(seq * c >= 0) by (nonlinear_arith)
        requires
            c >= 0,
    ;
    assert(chunk.len() == state.chunk_len(seq as int));
    law_chunk_round_trip(state.init.version, chunk);
    law_packet_round_trip(PacketType::Data, seq, data_payload(state.init.version, chunk));
}

/// A chunk is not written if it is none of the file, if it is stored already, if its
/// length is not that of its place in the file, or if its digest is wrong.
pub proof fn law_unwanted_chunk_is_dropped(
    receiver: ReceiverView,
    from: Peer,
    datagram: Seq<u8>,
    now: u128,
)
    requires
        receiver.state is Some,
        receiver.sender == Some(from),
        packet_of(datagram) matches Some((header, _)) && header.packet_type is Data,
    ensures
        ({
            let init = (receiver.state->0).init;
            let seq = (packet_of(datagram)->0).0.seq;
            match receiver.on_datagram(from, datagram, now) {
                StepView::Wait => true,
                StepView::Write { seq: written, offset, body } => {
                    &&& written == seq
                    &&& seq < init.total
                    &&& !(receiver.state->0).received.contains(seq as int)
                    &&& offset == seq * init.chunk_size
                    &&& body.len() <= init.chunk_size
                    &&& offset + body.len() <= init.size
                    &&& body.len() == init.chunk_size || offset + body.len() == init.size
                    &&& init.version is V1 ==> body == payload_of(datagram)
                    &&& init.version is V2 ==> payload_of(datagram) == sha256(body)@ + body
                },
                _ => false,
            }
        }),
{
    let payload = payload_of(datagram);
    law_body_is_checked((receiver.state->0).init.version, payload);
}

/// A chunk from the sender is written exactly if it is sound, is one of the file, is not
/// stored yet, and is as long as the file has room for it, up to the chunk size. What
/// else the datagram holds behind it makes no difference.
pub proof fn law_chunk_is_judged(
    receiver: ReceiverView,
    from: Peer,
    datagram: Seq<u8>,
    now: u128,
)
    requires
        receiver.state is Some,
        receiver.sender == Some(from),
        packet_of(datagram) matches Some((header, _)) && header.packet_type is Data,
    ensures
        ({
            let state = receiver.state->0;
            let seq = (packet_of(datagram)->0).0.seq;
            let room = state.init.size - seq * state.init.chunk_size;
            let sound = body_of(state.init.version, payload_of(datagram));
            receiver.on_datagram(from, datagram, now) is Write <==> {
                &&& seq < state.init.total
                &&& !state.received.contains(seq as int)
                &&& sound matches Some(body)
                &&& body.len() <= state.init.chunk_size
                &&& body.len() <= room
                &&& body.len() == state.init.chunk_size || body.len() == room
            }
        }),
{
}

/// What is taken for a chunk is what follows its digest, and has that digest; without
/// digests it is the whole payload.
pub proof fn law_body_is_checked(version: ProtocolVersion, payload: Seq<u8>)
    ensures
        version is V1 ==> body_of(version, payload) == Some(payload),
        version is V2 ==> (body_of(version, payload) matches Some(body) ==> {
            &&& payload == sha256(body)@ + body
            &&& sha256(body)@.len() == 32
        }),
        version is V2 && payload.len() >= 32 && sha256(payload.skip(32))@ == payload.take(32)
            ==> body_of(version, payload) == Some(payload.skip(32)),
{
    if version is V2 && payload.len() >= 32 {
        assert(payload =~= payload.take(32) + payload.skip(32));
    }
}

/// Whatever INIT reaches a receiver without a transfer, it is answered: one that is
/// accepted opens the transfer that it announces, as a transfer of whoever sent it, and
/// one that is refused is reported, with the reason.
pub proof fn law_init_is_answered(
    receiver: ReceiverView,
    from: Peer,
    datagram: Seq<u8>,
    now: u128,
)
    requires
        receiver.state is None,
        receiver.sender is None || receiver.sender == Some(from),
        packet_of(datagram) matches Some((header, _)) && header.packet_type is Init,
    ensures
        match init_of(payload_of(datagram), receiver.out) {
            Ok(init) => receiver.on_datagram(from, datagram, now) == (StepView::Open {
                from,
                state: fresh(init, now),
            }),
            Err(reason) => receiver.on_datagram(from, datagram, now) == (StepView::BadInit {
                reason,
            }),
        },
{
}

/// Every DONE of the sender has the same answer, whatever number it carries and whatever
/// stands behind it.
pub proof fn law_every_done_is_heard(
    receiver: ReceiverView,
    from: Peer,
    datagram: Seq<u8>,
    now: u128,
)
    requires
        receiver.sender == Some(from),
        packet_of(datagram) matches Some((header, _)) && header.packet_type is Done,
    ensures
        receiver.on_datagram(from, datagram, now) == receiver.on_done(),
        receiver.on_datagram(from, datagram, now) == receiver.on_datagram(
            from,
            control_datagram(PacketType::Done, 0),
            now,
        ),
{
    law_control_round_trip(PacketType::Done, 0);
}

/// The contents of a step are what the step holds.
pub proof fn law_step_contents(step: Step<'_>, linger: LingerStep)
    ensures
        match step {
            Step::Wait => step@ == StepView::Wait,
            Step::Ack { to, packet } => step@ == (StepView::Ack { to, packet: packet@ }),
            Step::BadInit { reason } => step@ == (StepView::BadInit { reason: reason@ }),
            Step::Open { from, state } => step@ == (StepView::Open { from, state: state@ }),
            Step::Write { seq, offset, body } => step@ matches StepView::Write {
                seq: chunk,
                offset: place,
                body: bytes,
            } && chunk == seq && place == offset && bytes == body@,
            Step::Nack { to, missing, packets } => step@ matches StepView::Nack {
                to: peer,
                missing: count,
                packets: asked,
            } && {
                &&& peer == to
                &&& missing is None <==> count is None
                &&& missing matches Some(n) ==> count == Some(n as nat)
                &&& asked.len() == packets@.len()
                &&& forall|i: int| 0 <= i < asked.len() ==> #[trigger] asked[i] == packets@[i]@
            },
            Step::Flush { to } => step@ == (StepView::Flush { to }),
            Step::Abandon { failure } => step@ matches StepView::Abandon { failure: told } && {
                &&& told.kind == failure.kind
                &&& told.reason == failure.reason@
            },
        },
        match linger {
            LingerStep::Wait => linger@ == LingerStepView::Wait,
            LingerStep::Fin { to, packet } => linger@ == (LingerStepView::Fin {
                to,
                packet: packet@,
            }),
            LingerStep::End => linger@ == LingerStepView::End,
        },
{
}

/// A receiver that waits as long as it should has something to do when the wait is over,
/// and, but for the millisecond that a wait takes at least, nothing before.
pub proof fn law_wait_ends_in_time(receiver: ReceiverView, now: u128, later: u128)
    requires
        receiver.wf(),
        now <= MAX_NANOS,
        receiver.last_data_at <= now <= later,
    ensures
        receiver.read_timeout(now) is Some <==> receiver.state is Some,
        receiver.read_timeout(now) matches Some(timeout) ==> {
            &&& timeout >= 1_000_000
            &&& later >= now + timeout ==> receiver.on_timeout(later) != StepView::Wait
            &&& timeout > 1_000_000 && later < now + timeout ==> receiver.on_timeout(later)
                == StepView::Wait
        },
{
}

/// While it lingers, a receiver heeds FIN-ACK and DONE, and no other packet.
pub proof fn law_linger_ignores_the_rest(sender: Peer, from: Peer, datagram: Seq<u8>)
    ensures
        packet_of(datagram) is None ==> linger_step(sender, from, datagram)
            == LingerStepView::Wait,
        packet_of(datagram) matches Some((header, _)) ==> {
            &&& linger_step(sender, from, datagram) is End <==> from == sender
                && header.packet_type is FinAck
            &&& linger_step(sender, from, datagram) is Fin <==> from == sender
                && header.packet_type is Done
            &&& linger_step(sender, from, datagram) matches LingerStepView::Fin { to, packet } ==> {
                &&& to == sender
                &&& packet == control_datagram(PacketType::Fin, 0)
            }
        },
{
}

/// What cannot be sent or stored never passes for done: only a step that neither sends
/// nor stores goes on after a failure, or one whose file was never opened. A receiver that
/// lingers has its file, and goes on: a FIN that is lost is asked for again.
pub proof fn law_failures_matter(step: StepView)
    ensures
        step.on_send_error() is GoOn <==> step is Wait || step is BadInit || step is Write
            || step is Abandon,
        step.on_send_error() is Abandon <==> step is Nack,
        step.on_file_error() is Abandon <==> step is Write || step is Flush,
        step.on_file_error() is End ==> false,
        forall|linger: LingerStepView| (#[trigger] linger.on_send_error()) is GoOn,
{
}

/// The refusal of a file that cannot be set up tells what was tried, on which path, and
/// what came of it.
pub proof fn law_refusal_names_path(path: Seq<char>, error: Seq<char>)
    ensures
        open_refusal(OpenStage::Create, path, error) == "create "@ + path + ": "@ + error,
        open_refusal(OpenStage::SetLen, path, error) == "set_len "@ + path + ": "@ + error,
{
}

} // verus!
