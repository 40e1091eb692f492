use std::time::Duration;

use udpcp::protocol::{encode_control, encode_packet, PacketHeader, PacketType, MAX_TOTAL_CHUNKS};
use udpcp::send::{announced_name, dedup, plan_chunks, Blast};
use udpcp::{
    send_delay, ErrorKind, Handshake, HandshakeStep, NullReporter, Peer, ProtocolVersion, SendError, SendLimits,
    SendOptions, SendStep, Sender, TransferEvent,
};

const TARGET: Peer = Peer::V4 { ip: 0x0a00_0001, port: 9000 };
const RECEIVER: Peer = Peer::V4 { ip: 0x0a00_0001, port: 9001 };
const STRANGER: Peer = Peer::V6 { ip: 1, port: 9001, flowinfo: 0, scope_id: 0 };

fn delay(bw: u64, chunk_size: u32) -> Option<Duration> {
    send_delay(bw, chunk_size).map(|nanos| Duration::from_nanos(nanos as u64))
}

#[test]
fn zero_bw_is_unlimited() {
    assert_eq!(delay(0, 1400), None);
    assert_eq!(delay(0, 0), None);
}

#[test]
fn typical_bw_matches_manual_rate() {
    // 512 KiB/s over 1400 B chunks = 374 pkt/s.
    assert_eq!(delay(512, 1400), Some(Duration::from_secs(1) / 374));
}

#[test]
fn rate_below_one_packet_floors_at_one() {
    // 1 KiB/s with a 65500 B chunk rounds to 0 pkt/s; must floor to 1.
    assert_eq!(delay(1, 65500), Some(Duration::from_secs(1)));
}

#[test]
fn pathological_rate_does_not_divide_by_zero() {
    // bw*1024/chunk == 2^32 here, one more than a u32 counts.
    assert_eq!(delay(4_194_304, 1), Some(Duration::from_secs(1) / u32::MAX));
    assert_eq!(delay(u64::MAX, 1), Some(Duration::from_secs(1) / u32::MAX));
}

#[test]
fn run_send_rejects_too_many_chunks() {
    let err = plan_chunks(MAX_TOTAL_CHUNKS + 1, 1).unwrap_err();
    assert_eq!(err.kind, ErrorKind::InvalidInput);
    assert!(err.reason.contains("too large"), "got: {}", err.reason);
    assert_eq!(err.reason, "file too large: 16777217 chunks exceeds limit 16777216");
    assert_eq!(plan_chunks(MAX_TOTAL_CHUNKS, 1).unwrap(), 16777216);
    assert_eq!(plan_chunks(2801, 1400).unwrap(), 3);
    assert_eq!(plan_chunks(0, 1400).unwrap(), 0);
}

#[test]
fn queue_holds_no_chunk_twice() {
    let mut blast = Blast::new(3);
    blast.enqueue(&[2, 7, 0, 7, 5]);
    assert_eq!(blast.len(), 5);
    let mut popped = Vec::new();
    while let Some(seq) = blast.pop() {
        popped.push(seq);
    }
    assert_eq!(popped, vec![0, 1, 2, 7, 5]);
    // What has been taken out may be queued again.
    blast.enqueue(&[1]);
    assert_eq!(blast.pop(), Some(1));
    assert_eq!(blast.pop(), None);
}

#[test]
fn repetitions_are_dropped() {
    let mut seqs = vec![4, 1, 4, 4, 2, 1];
    dedup(&mut seqs);
    assert_eq!(seqs, vec![4, 1, 2]);
}

#[test]
fn announced_name_is_the_last_component() {
    assert_eq!(announced_name("/tmp/f.bin"), "f.bin");
    assert_eq!(announced_name(".."), "..");
}

fn handshake(attempts: usize, timeout: u128) -> Handshake {
    let limits = SendLimits { handshake_attempts: attempts, retransmit_timeout: timeout, ..SendLimits::default() };
    Handshake::new(TARGET, ProtocolVersion::V1, 4, 1400, &[0u8; 32], "f", limits)
}

#[test]
fn handshake_survives_junk_before_ack() {
    let mut handshake = handshake(1, Duration::from_millis(500).as_nanos());
    match handshake.next(0) {
        HandshakeStep::Send { to } => assert_eq!(to, TARGET),
        _ => panic!("the INIT is sent first"),
    }
    handshake.sent(10);
    assert!(matches!(handshake.next(10), HandshakeStep::Read { timeout: 500_000_000 }));
    assert_eq!(handshake.on_datagram(RECEIVER, &[9, 9, 9]), None);
    assert_eq!(handshake.on_datagram(RECEIVER, &encode_control(PacketType::Fin, 0)), None);
    assert!(matches!(handshake.next(200_000_010), HandshakeStep::Read { timeout: 300_000_000 }));
    assert_eq!(handshake.on_datagram(RECEIVER, &encode_control(PacketType::Ack, 0)), Some(RECEIVER));
}

#[test]
fn handshake_aborts_on_socket_error() {
    let mut handshake = handshake(60, SendLimits::default().retransmit_timeout);
    assert!(matches!(handshake.next(0), HandshakeStep::Send { .. }));
    handshake.sent(0);
    assert!(!handshake.on_error(ErrorKind::Other));
    assert!(handshake.on_error(ErrorKind::Interrupted));
    assert!(matches!(handshake.next(100), HandshakeStep::Read { timeout: 2_999_999_900 }));
    assert!(handshake.on_error(ErrorKind::WouldBlock));
    assert!(matches!(handshake.next(100), HandshakeStep::Send { .. }));
}

#[test]
fn handshake_sends_as_often_as_it_may() {
    let mut handshake = handshake(3, 50);
    let mut now: u128 = 0;
    let mut sent = 0;
    loop {
        match handshake.next(now) {
            HandshakeStep::Send { .. } => {
                sent += 1;
                handshake.sent(now);
            }
            HandshakeStep::Read { timeout } => now += timeout,
            HandshakeStep::Fail { failure } => {
                assert_eq!(failure.kind, ErrorKind::TimedOut);
                assert_eq!(failure.reason, "handshake timeout");
                break;
            }
        }
    }
    assert_eq!((sent, now), (3, 150));
}

#[test]
fn handshake_packet_is_an_init() {
    let handshake = handshake(1, 1);
    let mut expected = vec![1, 0, 0, 0, 0, 0, 47, 1, 0, 0, 0, 0, 0, 0, 0, 4, 0, 0, 5, 120];
    expected.extend_from_slice(&[0u8; 32]);
    expected.extend_from_slice(b"f\0");
    assert_eq!(handshake.packet(), expected);
}

fn nack(seqs: &[u32]) -> Vec<u8> {
    let payload: Vec<u8> = seqs.iter().flat_map(|seq| seq.to_be_bytes()).collect();
    encode_packet(
        &PacketHeader { packet_type: PacketType::Nack, seq: seqs.len() as u32, payload_len: payload.len() as u16 },
        &payload,
    )
}

fn sender(total: u32, delay: Option<u128>) -> Sender {
    Sender::new(TARGET, RECEIVER, 1400, total, delay, SendLimits::default(), 0)
}

/// Sends chunks until the sender does something else, which is handed back.
fn blast(sender: &mut Sender) -> (Vec<u32>, SendStep) {
    let mut sent = Vec::new();
    loop {
        match sender.next() {
            SendStep::Chunk { to, seq, offset } => {
                assert_eq!(to, TARGET);
                assert_eq!(offset, seq as u64 * 1400);
                sender.chunk_sent();
                sent.push(seq);
            }
            step => return (sent, step),
        }
    }
}

#[test]
fn feedback_is_looked_for_every_sixteen_chunks() {
    let mut sender = sender(40, None);
    let (sent, step) = blast(&mut sender);
    assert_eq!(sent, (0..16).collect::<Vec<u32>>());
    assert!(matches!(step, SendStep::Poll));
    assert!(matches!(sender.on_error(ErrorKind::WouldBlock), SendError::GoOn));
    let (sent, step) = blast(&mut sender);
    assert_eq!(sent, (16..32).collect::<Vec<u32>>());
    assert!(matches!(step, SendStep::Poll));
    // A NACK in the middle of a pass is served in the same pass.
    sender.on_datagram(RECEIVER, &nack(&[3, 35]));
    assert!(matches!(sender.next(), SendStep::Poll));
    assert!(matches!(sender.on_error(ErrorKind::WouldBlock), SendError::GoOn));
    let (sent, step) = blast(&mut sender);
    assert_eq!(sent, vec![32, 33, 34, 35, 36, 37, 38, 39, 3]);
    match step {
        SendStep::Done { to, packet } => {
            assert_eq!(to, TARGET);
            assert_eq!(packet, encode_control(PacketType::Done, 40));
        }
        _ => panic!("the pass is over"),
    }
}

#[test]
fn pause_comes_between_chunks_only() {
    let mut sender = sender(2, Some(77));
    assert!(matches!(sender.next(), SendStep::Chunk { seq: 0, .. }));
    sender.chunk_sent();
    assert!(matches!(sender.next(), SendStep::Sleep { delay: 77 }));
    assert!(matches!(sender.next(), SendStep::Chunk { seq: 1, .. }));
    sender.chunk_sent();
    assert!(matches!(sender.next(), SendStep::Done { .. }));
}

fn collecting(total: u32) -> Sender {
    let mut sender = sender(total, None);
    let (_, step) = blast(&mut sender);
    assert!(matches!(step, SendStep::Done { .. }));
    assert!(matches!(sender.next(), SendStep::Read { timeout: 3_000_000_000 }));
    sender
}

#[test]
fn drain_feedback_enqueues_nacked_chunks() {
    let mut sender = sender(16, None);
    let (_, step) = blast(&mut sender);
    assert!(matches!(step, SendStep::Poll));
    assert_eq!(sender.pending(), 0);
    sender.on_datagram(RECEIVER, &nack(&[1, 3]));
    assert_eq!(sender.pending(), 2);
    // A repeat NACK for an already-queued chunk must not double-enqueue it.
    sender.on_datagram(RECEIVER, &nack(&[1]));
    assert!(matches!(sender.on_error(ErrorKind::WouldBlock), SendError::GoOn));
    let (sent, _) = blast(&mut sender);
    assert_eq!(sent, vec![1, 3]);
}

#[test]
fn drain_feedback_detects_fin() {
    let mut sender = sender(20, None);
    let (_, step) = blast(&mut sender);
    assert!(matches!(step, SendStep::Poll));
    sender.on_datagram(STRANGER, &encode_control(PacketType::Fin, 0));
    assert!(matches!(sender.next(), SendStep::Poll));
    sender.on_datagram(RECEIVER, &encode_control(PacketType::Fin, 0));
    match sender.next() {
        SendStep::Complete { to, packet } => {
            assert_eq!(to, RECEIVER);
            assert_eq!(packet, encode_control(PacketType::FinAck, 0));
        }
        _ => panic!("FIN should be detected"),
    }
}

#[test]
fn collect_feedback_tolerates_malformed_feedback() {
    let mut sender = collecting(4);
    sender.on_datagram(RECEIVER, &[1, 2, 3]);
    sender.on_datagram(STRANGER, &[0u8; 7]);
    let mut overrun = vec![0u8; 7];
    overrun[5..7].copy_from_slice(&9999u16.to_be_bytes());
    sender.on_datagram(RECEIVER, &overrun);
    assert!(matches!(sender.next(), SendStep::Read { timeout: 3_000_000_000 }));

    // Header claims 5 NACK entries but carries only one.
    let mut truncated = vec![0u8; 11];
    truncated[0] = PacketType::Nack.to_byte();
    truncated[1..5].copy_from_slice(&5u32.to_be_bytes());
    truncated[5..7].copy_from_slice(&4u16.to_be_bytes());
    sender.on_datagram(RECEIVER, &truncated);
    assert!(matches!(sender.next(), SendStep::Read { timeout: 500_000_000 }));

    sender.on_datagram(RECEIVER, &encode_control(PacketType::Fin, 0));
    assert!(matches!(sender.next(), SendStep::Complete { .. }), "FIN should end collection");
}

#[test]
fn next_pass_is_what_was_asked_for() {
    let mut sender = collecting(8);
    sender.on_datagram(RECEIVER, &nack(&[5, 2, 5]));
    sender.on_datagram(STRANGER, &nack(&[7]));
    sender.on_datagram(RECEIVER, &nack(&[2, 6]));
    assert!(matches!(sender.on_error(ErrorKind::TimedOut), SendError::NewPass));
    match sender.pass_started() {
        Some(TransferEvent::PassStarted { pass, chunks }) => assert_eq!((pass, chunks), (2, 3)),
        _ => panic!("the pass is announced"),
    }
    let (sent, step) = blast(&mut sender);
    assert_eq!(sent, vec![5, 2, 6]);
    assert!(matches!(step, SendStep::Done { .. }));
    assert!(matches!(sender.next(), SendStep::Read { timeout: 3_000_000_000 }));
    // Nothing was asked for: the pass is not announced, and only the DONE is repeated.
    assert!(matches!(sender.on_error(ErrorKind::WouldBlock), SendError::NewPass));
    assert!(sender.pass_started().is_none());
    assert!(matches!(sender.next(), SendStep::Done { .. }));
    // Any other error ends the transfer, an interruption too.
    assert!(matches!(sender.on_error(ErrorKind::Interrupted), SendError::Fatal));
}

#[test]
fn progress_never_goes_back() {
    let mut sender = sender(4, None);
    let mut seen = Vec::new();
    for _ in 0..4 {
        sender.next();
        sender.chunk_sent();
        match sender.progress(9) {
            TransferEvent::Progress { done, total, chunk_size, elapsed } => {
                assert_eq!((total, chunk_size, elapsed), (4, 1400, 9));
                seen.push(done);
            }
            _ => panic!("progress is reported"),
        }
    }
    assert_eq!(seen, vec![1, 2, 3, 4]);
    sender.next();
    sender.on_datagram(RECEIVER, &nack(&[0, 1, 2]));
    assert!(matches!(sender.on_error(ErrorKind::TimedOut), SendError::NewPass));
    sender.next();
    sender.chunk_sent();
    assert!(matches!(sender.progress(9), TransferEvent::Progress { done: 4, .. }));
}

fn options(bw: u64, chunk: u32, verify: bool) -> SendOptions {
    SendOptions {
        bw,
        chunk,
        verify,
        handshake_attempts: 9,
        retransmit_passes: 4,
        retransmit_timeout: Duration::from_millis(250).as_nanos(),
        nack_timeout: Duration::from_millis(30).as_nanos(),
    }
}

#[test]
fn options_make_a_configuration() {
    let config = options(512, 1400, true).into_config(&NullReporter).ok().unwrap();
    assert_eq!(config.chunk_size, 1400);
    assert_eq!(config.version, ProtocolVersion::V2);
    assert_eq!(config.delay, send_delay(512, 1400));
    assert_eq!(config.limits.handshake_attempts, 9);
    assert_eq!(config.limits.retransmit_passes, 4);
    assert_eq!(config.limits.retransmit_timeout, 250_000_000);
    assert_eq!(config.limits.nack_collection_timeout, 30_000_000);
    assert_eq!(options(0, 1, false).into_config(&NullReporter).ok().unwrap().delay, None);
}

#[test]
fn rejects_zero_chunk_size() {
    let err = options(512, 0, false).into_config(&NullReporter).err().unwrap();
    assert_eq!(err.kind, ErrorKind::InvalidInput);
    assert!(err.reason.contains("chunk size must be in"), "got: {}", err.reason);
    assert!(options(512, 65469, true).into_config(&NullReporter).is_err());
}

#[test]
fn only_the_fin_ack_is_best_effort() {
    let mut sender = collecting(2);
    assert!(matches!(sender.on_send_error(), SendError::Fatal));
    sender.on_datagram(RECEIVER, &encode_control(PacketType::Fin, 0));
    assert!(matches!(sender.next(), SendStep::Complete { .. }));
    assert!(matches!(sender.on_send_error(), SendError::GoOn));
    let step = handshake(1, 1).next(0);
    assert!(matches!(step.on_send_error(), SendError::Fatal));
}
