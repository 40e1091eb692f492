//! How a handshake, a pass or a transfer ends, and what is said of it.
use vstd::prelude::*;

use crate::laws::formats::law_chunk_count;
use crate::laws::names::{is_plain, law_file_name_is_last_component};
use crate::options::SendOptions;
use crate::protocol::{chunk_count, chunk_size_refusal, ErrorKind, ProtocolVersion};
use crate::receiver::{linger_error, Peer, ReceiverView, StepView};
use crate::recv::{idle_failure, integrity_failure, FailureView, ReceiveView};
use crate::report::TransferEvent;
use crate::send::{delay_of, name_of, packets_per_second, plan_of};
use crate::sender::{
    handshake_failure, passes_failure, HandshakeStep, HandshakeView, SendError, SenderView,
};
use crate::text::decimal;

verus! {

/// A handshake sends its INIT to its target as long as attempts are left and no answer
/// is waited for, and each INIT takes one attempt. While one is waited for, it waits
/// until the time is up. It fails when the last attempt is over, and not before.
pub proof fn law_handshake_goes_on(
    handshake: HandshakeView,
    now: u128,
    step: HandshakeStep,
    after: HandshakeView,
)
    requires
        handshake.takes(now, step, after),
    ensures
        step is Read <==> (handshake.deadline matches Some(deadline) && now < deadline),
        step is Fail <==> !(step is Read) && handshake.attempts == 0,
        step matches HandshakeStep::Send { to } ==> {
            &&& to == handshake.target
            &&& after.attempts + 1 == handshake.attempts
            &&& after.deadline is None
        },
        step matches HandshakeStep::Read { timeout } ==> {
            &&& handshake.deadline == Some(now + timeout)
            &&& timeout > 0
        },
        !(step is Send) ==> after == handshake,
        after.target == handshake.target,
        after.packet == handshake.packet,
        after.retransmit_timeout == handshake.retransmit_timeout,
{
}

/// Whatever happens in it, a handshake that is not answered ends: from one INIT to the
/// next there is one attempt less, and the wait between them is the retransmit timeout.
pub proof fn law_handshake_ends(
    handshake: HandshakeView,
    first: HandshakeStep,
    at: u128,
    waiting: HandshakeView,
    sent: u128,
    second: HandshakeStep,
    now: u128,
    after: HandshakeView,
)
    requires
        handshake.takes(at, first, waiting),
        first is Send,
        waiting.sent(sent).takes(now, second, after),
    ensures
        second is Read <==> now < sent + handshake.retransmit_timeout,
        second is Send ==> after.attempts + 2 == handshake.attempts,
        second is Fail ==> handshake.attempts == 1,
{
}

/// A sender goes on after an error only if it was not waiting for one more datagram, or
/// if it may start one more pass; it gives up when the passes have run out, and tells
/// how many there were; any other error ends the transfer.
pub proof fn law_errors_are_answered(sender: SenderView, kind: ErrorKind, outcome: SendError)
    requires
        outcome.answers(sender, kind),
    ensures
        outcome is GoOn ==> sender.after_error(kind).phase is Blast
            && sender.after_error(kind).pass == sender.pass,
        outcome is NewPass ==> sender.after_error(kind).phase is Blast
            && sender.after_error(kind).pass == sender.pass + 1,
        outcome is GaveUp || outcome is Fatal ==> sender.after_error(kind) == sender,
        outcome is GaveUp <==> {
            &&& sender.phase is Collect
            &&& kind is TimedOut || kind is WouldBlock
            &&& sender.pass >= sender.limits.retransmit_passes
        },
        outcome matches SendError::GaveUp { failure } ==> {
            &&& failure@.kind is Other
            &&& failure@.reason == "gave up after "@ + decimal(
                sender.limits.retransmit_passes as nat,
            ) + " passes"@
        },
        kind is Interrupted || kind is Other || kind is InvalidData || kind is InvalidInput
            ==> outcome is Fatal,
        sender.phase is Drain && kind is TimedOut ==> outcome is Fatal,
{
}

/// An interruption ends no wait, and a wait whose time is up ends no transfer by itself:
/// the handshake tries again, and the receiver looks at its clocks. Any other error ends
/// the one and the other. A receiver that lingers has its file, and so every error but an
/// interruption ends its wait.
pub proof fn law_errors_in_waits(
    handshake: HandshakeView,
    receiver: ReceiverView,
    kind: ErrorKind,
    now: u128,
)
    ensures
        handshake.after_error(kind) is Some <==> kind is TimedOut || kind is WouldBlock
            || kind is Interrupted,
        kind is Interrupted ==> {
            &&& handshake.after_error(kind) == Some(handshake)
            &&& receiver.on_error(kind, now) == Some(StepView::Wait)
        },
        kind is TimedOut || kind is WouldBlock ==> {
            &&& handshake.after_error(kind) matches Some(after)
            &&& !after.waits(now)
            &&& after.attempts == handshake.attempts
            &&& after.packet == handshake.packet
            &&& after.target == handshake.target
            &&& after.retransmit_timeout == handshake.retransmit_timeout
            &&& receiver.on_error(kind, now) == Some(receiver.on_timeout(now))
        },
        receiver.on_error(kind, now) is Some <==> handshake.after_error(kind) is Some,
        linger_error(kind) is Wait <==> kind is Interrupted,
        linger_error(kind) is Fin ==> false,
{
}

/// A failure to send ends a transfer, but for that of the last packet, which only thanks.
pub proof fn law_send_errors(sender: SenderView)
    ensures
        sender.survives_send_error() <==> sender.next().1 is Complete,
{
}

/// A failure tells what went wrong, in these words.
pub proof fn law_failures_are_told(passes: usize, version: ProtocolVersion)
    ensures
        passes_failure(passes) == (FailureView {
            kind: ErrorKind::Other,
            reason: "gave up after "@ + decimal(passes as nat) + " passes"@,
        }),
        handshake_failure() == (FailureView {
            kind: ErrorKind::TimedOut,
            reason: "handshake timeout"@,
        }),
        idle_failure() == (FailureView {
            kind: ErrorKind::TimedOut,
            reason: "idle timeout: sender disappeared"@,
        }),
        integrity_failure() == (FailureView {
            kind: ErrorKind::InvalidData,
            reason: "integrity check failed: SHA-256 mismatch"@,
        }),
        chunk_size_refusal(version) == "chunk size must be in [1, "@ + decimal(
            if version is V1 {
                65500
            } else {
                65468nat
            },
        ) + "]"@,
{
}

/// A pass is reported under its number, with as many chunks as are pending; one over no
/// chunks is not.
pub proof fn law_pass_is_reported(sender: SenderView)
    requires
        sender.pending.len() <= usize::MAX,
    ensures
        sender.pass_event() is Some <==> sender.pending.len() > 0,
        sender.pass_event() matches Some(event) ==> {
            &&& event matches TransferEvent::PassStarted { pass, chunks }
            &&& pass == sender.pass
            &&& chunks == sender.pending.len()
        },
{
}

/// The progress of a sender is reported as it stands, with the time since it started.
pub proof fn law_sent_progress_is_reported(sender: SenderView, now: u128)
    ensures
        sender.progress_event(now) matches TransferEvent::Progress {
            done,
            total,
            chunk_size,
            elapsed,
        } && {
            &&& done == sender.progress_done
            &&& total == sender.total
            &&& chunk_size == sender.chunk_size
            &&& now >= sender.start ==> sender.start + elapsed == now
            &&& now < sender.start ==> elapsed == 0
        },
{
}

/// What a receiver reports of a transfer is what was announced and what is stored: the
/// place, the size and the chunks; how many are there; and the time since it started.
pub proof fn law_transfer_is_reported(state: ReceiveView, event: TransferEvent<'_>, now: u128)
    ensures
        state.opens_as(event) ==> {
            &&& event matches TransferEvent::Receiving { path, bytes, chunks, chunk_size }
            &&& path@ == state.init.final_path
            &&& bytes == state.init.size
            &&& chunks == state.init.total
            &&& chunk_size == state.init.chunk_size
        },
        state.stands_as(event, now) ==> {
            &&& event matches TransferEvent::Progress { done, total, chunk_size, elapsed }
            &&& done == state.received.len()
            &&& total == state.init.total
            &&& chunk_size == state.init.chunk_size
            &&& now >= state.start ==> state.start + elapsed == now
            &&& now < state.start ==> elapsed == 0
        },
        state.ends_as(event, now) ==> {
            &&& event matches TransferEvent::Saved { path, bytes, elapsed }
            &&& path@ == state.init.final_path
            &&& bytes == state.init.size
            &&& now >= state.start ==> state.start + elapsed == now
            &&& now < state.start ==> elapsed == 0
        },
{
}

/// A file is sent in as few chunks as can hold it, and refused exactly if they are more
/// than 2^24; the refusal tells how many they would be.
pub proof fn law_plan(size: u64, chunk_size: u32)
    requires
        chunk_size > 0,
    ensures
        plan_of(size, chunk_size) is Ok <==> size <= 16_777_216 * chunk_size,
        plan_of(size, chunk_size) matches Ok(total) ==> {
            &&& total * chunk_size >= size
            &&& size > 0 ==> (total - 1) * chunk_size < size
            &&& size == 0 ==> total == 0
        },
        plan_of(size, chunk_size) matches Err(failure) ==> {
            let total = chunk_count(size as int, chunk_size as int);
            &&& failure.kind is InvalidInput
            &&& failure.reason == "file too large: "@ + decimal(total as nat)
                + " chunks exceeds limit "@ + decimal(16_777_216)
        },
{
    let total = chunk_count(size as int, chunk_size as int);
    let c = chunk_size as int;
    law_chunk_count(size as int, c);
    if total > 16_777_216 {
        assert(16_777_216 * c <= (total - 1) * c) by (nonlinear_arith)
            requires
                total - 1 >= 16_777_216,
                c >= 1,
        ;
    } else {
        assert(16_777_216 * c >= total * c) by (nonlinear_arith)
            requires
                total <= 16_777_216,
                c >= 1,
        ;
    }
}

/// A file is announced under its last component, wherever it is; a path that names no
/// file, as it is.
pub proof fn law_announced_name(dir: Seq<char>, name: Seq<char>)
    requires
        is_plain(name),
    ensures
        name_of(name) == name,
        name_of(dir.push('/') + name) == name,
        name_of(dir.push('/') + seq!['.', '.']) == dir.push('/') + seq!['.', '.'],
{
    law_file_name_is_last_component(dir, name);
}

/// The pauses of a second, one for each packet, fill the second, and none could be longer.
/// Without a limit there are none.
pub proof fn law_pauses_fill_the_second(bw: u64, chunk_size: u32)
    requires
        chunk_size > 0,
    ensures
        delay_of(bw, chunk_size) is None <==> bw == 0,
        delay_of(bw, chunk_size) matches Some(nanos) ==> {
            let rate = packets_per_second(bw, chunk_size);
            &&& 0 <= nanos <= 1_000_000_000
            &&& nanos * rate <= 1_000_000_000 < (nanos + 1) * rate
        },
{
    if let Some(nanos) = delay_of(bw, chunk_size) {
        let rate = packets_per_second(bw, chunk_size);
        assert(0 <= nanos <= 1_000_000_000 && nanos * rate <= 1_000_000_000 < (nanos + 1) * rate)
            by (nonlinear_arith)
            requires
                nanos == 1_000_000_000int / rate,
                rate >= 1,
        ;
    }
}

/// Chunks carry their digest exactly if the user wants them verified.
pub proof fn law_verification_is_optional(options: SendOptions)
    ensures
        options.version().hashes_chunks() <==> options.verify,
        options.version().max_chunk_size() == if options.verify {
            65468int
        } else {
            65500
        },
{
}

/// A receiver that serves goes on after a transfer that was given up: it has none, hears
/// everyone, and keeps its terms. Any other stays as it is.
pub proof fn law_serving_goes_on(receiver: ReceiverView, from: Peer)
    ensures
        receiver.serve ==> {
            let after = receiver.abandoned();
            &&& after.state is None
            &&& after.sender is None
            &&& after.last_nack_at is None
            &&& after.hears(from)
            &&& after.serve
            &&& after.out == receiver.out
            &&& after.limits == receiver.limits
            &&& after.linger_timeout == receiver.linger_timeout
        },
        !receiver.serve ==> receiver.abandoned() == receiver,
{
}

} // verus!
