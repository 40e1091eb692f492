//! Whom a receiver hears, when it speaks up, and when it stops.
use vstd::prelude::*;

use crate::init::{init_bytes, init_of, is_printable, InitView};
use crate::laws::announce::law_init_round_trip;
use crate::laws::reassembly::law_gaps_and_completion;
use crate::laws::wire::law_packet_round_trip;
use crate::path::file_name_of;
use crate::protocol::{
    chunk_count, control_datagram, framed, header_of, packet_of, payload_of, PacketType,
    ProtocolVersion, MAX_TOTAL_CHUNKS, NACK_REISSUE_INTERVAL,
};
use crate::receiver::{linger_step, LingerStepView, Peer, ReceiverView, StepView};
use crate::recv::{fresh, missing_below, nack_packets, since};

verus! {

/// A control packet is read as the packet that it is.
pub proof fn law_control_round_trip(packet_type: PacketType, seq: u32)
    ensures
        packet_of(control_datagram(packet_type, seq)) matches Some((header, _)) && {
            &&& header.packet_type == packet_type
            &&& header.seq == seq
            &&& header.payload_len == 0
        },
        header_of(control_datagram(packet_type, seq)) matches Some(header)
            && header.packet_type == packet_type,
{
    law_packet_round_trip(packet_type, seq, Seq::empty());
}

/// During a transfer nothing that comes from anyone but its sender has any effect.
pub proof fn law_strangers_are_ignored(
    receiver: ReceiverView,
    from: Peer,
    datagram: Seq<u8>,
    now: u128,
)
    requires
        receiver.sender is Some,
        receiver.sender != Some(from),
    ensures
        receiver.on_datagram(from, datagram, now) == StepView::Wait,
        receiver.after_datagram(from, now) == receiver,
{
}

/// What is not a packet has no effect but to show that someone is there.
pub proof fn law_malformed_is_ignored(
    receiver: ReceiverView,
    from: Peer,
    datagram: Seq<u8>,
    now: u128,
)
    requires
        packet_of(datagram) is None,
    ensures
        receiver.on_datagram(from, datagram, now) == StepView::Wait,
        receiver.after_datagram(from, now).state == receiver.state,
        receiver.after_datagram(from, now).sender == receiver.sender,
{
}

/// The INIT of a sender opens the transfer that it announces at a receiver that
/// listens. The file goes to the output path of the receiver; one without takes
/// the announced name, if it is one that a file may have.
pub proof fn law_init_opens_transfer(
    receiver: ReceiverView,
    from: Peer,
    now: u128,
    version: ProtocolVersion,
    size: u64,
    chunk_size: u32,
    hash: Seq<u8>,
    name: Seq<char>,
)
    requires
        receiver.state is None,
        receiver.sender is None,
        receiver.out is None ==> (file_name_of(name) matches Some(plain) && is_printable(plain)),
        1 <= chunk_size <= version.max_chunk_size(),
        chunk_count(size as int, chunk_size as int) <= MAX_TOTAL_CHUNKS,
        hash.len() == 32,
        !name.contains('\0'),
        init_bytes(version, size, chunk_size, hash, name).len() <= u16::MAX,
    ensures
        receiver.on_datagram(
            from,
            framed(PacketType::Init, 0, init_bytes(version, size, chunk_size, hash, name)),
            now,
        ) == (StepView::Open {
            from,
            state: fresh(
                InitView {
                    version,
                    size,
                    chunk_size,
                    total: chunk_count(size as int, chunk_size as int) as u32,
                    hash,
                    final_path: match receiver.out {
                        Some(path) => path,
                        None => file_name_of(name)->0,
                    },
                },
                now,
            ),
        }),
{
    let payload = init_bytes(version, size, chunk_size, hash, name);
    law_packet_round_trip(PacketType::Init, 0, payload);
    law_init_round_trip(version, size, chunk_size, hash, name, receiver.out);
}

/// An INIT that is refused is not answered, and the receiver goes on listening.
pub proof fn law_refused_init_keeps_listening(
    receiver: ReceiverView,
    from: Peer,
    datagram: Seq<u8>,
    now: u128,
)
    requires
        receiver.state is None,
        receiver.sender is None,
        packet_of(datagram) matches Some((header, _)) && header.packet_type is Init,
        init_of(payload_of(datagram), receiver.out) is Err,
    ensures
        receiver.on_datagram(from, datagram, now) is BadInit,
        receiver.after_datagram(from, now).state is None,
        receiver.after_datagram(from, now).sender is None,
{
}

/// A repeated INIT of the sender is acknowledged again and changes nothing else.
pub proof fn law_repeated_init_is_acknowledged(
    receiver: ReceiverView,
    from: Peer,
    datagram: Seq<u8>,
    now: u128,
)
    requires
        receiver.state is Some,
        receiver.sender == Some(from),
        packet_of(datagram) matches Some((header, _)) && header.packet_type is Init,
    ensures
        receiver.on_datagram(from, datagram, now) == (StepView::Ack {
            to: from,
            packet: control_datagram(PacketType::Ack, 0),
        }),
        receiver.after_datagram(from, now).state == receiver.state,
{
}

/// A gap is asked for only after it has been open for the holdoff, and again only
/// after the reissue interval; and then something is asked for.
pub proof fn law_nack_is_not_hasty(receiver: ReceiverView, now: u128)
    requires
        receiver.wf(),
    ensures
        receiver.on_timeout(now) matches StepView::Nack { packets, .. } ==> {
            &&& receiver.state matches Some(state)
            &&& state.oldest_gap_at matches Some(gap_at)
            &&& now >= gap_at + receiver.limits.nack_holdoff
            &&& receiver.last_nack_at matches Some(last) ==> now >= last + NACK_REISSUE_INTERVAL
            &&& packets.len() > 0
        },
{
    if let Some(state) = receiver.state {
        law_gaps_and_completion(state);
    }
}

/// Whatever was asked for, be it on a timeout or on a DONE, is not asked for again
/// before the reissue interval is over.
pub proof fn law_nack_starts_reissue_clock(receiver: ReceiverView, at: u128, now: u128)
    requires
        now < at + NACK_REISSUE_INTERVAL,
    ensures
        !(ReceiverView { last_nack_at: Some(at), ..receiver }.on_timeout(now) is Nack),
{
}

/// A receiver that waits until its deadline has something to do then, and has
/// nothing to do before: it neither sleeps too long nor spins.
pub proof fn law_deadline_is_when_to_act(receiver: ReceiverView, now: u128)
    requires
        receiver.wf(),
        receiver.state is Some,
        now >= receiver.last_data_at,
    ensures
        receiver.on_timeout(now) != StepView::Wait <==> now >= (receiver.state->0).deadline(
            receiver.last_data_at,
            receiver.last_nack_at,
            receiver.limits,
        ),
{
}

/// A transfer is given up exactly when its sender has been silent for the idle timeout.
pub proof fn law_silence_ends_transfer(receiver: ReceiverView, now: u128)
    requires
        receiver.wf(),
        receiver.state is Some,
    ensures
        receiver.on_timeout(now) is Abandon <==> since(now, receiver.last_data_at)
            >= receiver.limits.idle_timeout,
{
}

/// A DONE is never left without an answer: the file is finished if it is complete,
/// and else something is asked for.
pub proof fn law_done_is_answered(receiver: ReceiverView, from: Peer, total: u32, now: u128)
    requires
        receiver.wf(),
        receiver.state is Some,
        receiver.sender == Some(from),
    ensures
        receiver.on_datagram(from, control_datagram(PacketType::Done, total), now) == if (
        receiver.state->0).complete() {
            StepView::Flush { to: from }
        } else {
            let missing = missing_below(
                (receiver.state->0).received,
                (receiver.state->0).init.total as nat,
            );
            StepView::Nack { to: from, missing: Some(missing.len()), packets: nack_packets(missing) }
        },
        !(receiver.state->0).complete() ==> nack_packets(
            missing_below((receiver.state->0).received, (receiver.state->0).init.total as nat),
        ).len() > 0,
{
    law_control_round_trip(PacketType::Done, total);
    law_gaps_and_completion(receiver.state->0);
}

/// While it lingers, a receiver sends its FIN again on a DONE of the sender, stops
/// on its FIN-ACK, and hears nobody else.
pub proof fn law_linger(sender: Peer, from: Peer, seq: u32, datagram: Seq<u8>)
    ensures
        linger_step(sender, sender, control_datagram(PacketType::FinAck, seq))
            == LingerStepView::End,
        linger_step(sender, sender, control_datagram(PacketType::Done, seq)) == (
        LingerStepView::Fin { to: sender, packet: control_datagram(PacketType::Fin, 0) }),
        from != sender ==> linger_step(sender, from, datagram) == LingerStepView::Wait,
{
    law_control_round_trip(PacketType::FinAck, seq);
    law_control_round_trip(PacketType::Done, seq);
}

} // verus!
