use udpcp::init::{encode_init, parse_init, CHUNK_SIZE_OFFSET, HASH_OFFSET, NAME_OFFSET, SIZE_OFFSET};
use udpcp::digest::FileDigest;
use udpcp::protocol::{
    decode_header, decode_nack_payload, encode_control, encode_packet, parse_packet, PacketHeader, PacketType,
    DEFAULT_CHUNK_SIZE, HEADER_SIZE, MAX_CHUNK_SIZE, MAX_NACKS_PER_PACKET, MAX_TOTAL_CHUNKS, MAX_UDP_PAYLOAD,
};
use udpcp::receiver::{open_failed, OpenStage};
use udpcp::recv::{emit_nacks, TickOutcome};
use udpcp::send::data_packet;
use udpcp::{
    ErrorKind, Fin, Linger, LingerStep, OnFailure, Peer, ProtocolVersion, ReceiveState, Receiver, RecvLimits, Step, TransferEvent,
};

const SENDER: Peer = Peer::V4 { ip: 0x0a00_0001, port: 4000 };
const STRANGER: Peer = Peer::V4 { ip: 0x0a00_0002, port: 4000 };
const MILLI: u128 = 1_000_000;

fn digest(data: &[u8]) -> [u8; 32] {
    let mut digest = FileDigest::new();
    digest.update(data);
    digest.finish()
}

fn make_init_payload(filename_bytes: &[u8]) -> Vec<u8> {
    let mut payload = vec![0u8; NAME_OFFSET + filename_bytes.len() + 1];
    payload[0] = ProtocolVersion::V1.to_byte();
    payload[9..13].copy_from_slice(&DEFAULT_CHUNK_SIZE.to_be_bytes());
    payload[NAME_OFFSET..NAME_OFFSET + filename_bytes.len()].copy_from_slice(filename_bytes);
    payload
}

fn refusal(payload: &[u8]) -> String {
    ReceiveState::new(payload, None, 0).err().unwrap()
}

#[test]
fn version_mismatch_rejected() {
    let mut payload = vec![0u8; NAME_OFFSET + 2];
    payload[0] = 255; // unsupported version
    payload[9..13].copy_from_slice(&DEFAULT_CHUNK_SIZE.to_be_bytes());
    payload[NAME_OFFSET] = b'x';

    let err = refusal(&payload);
    assert!(err.contains("version mismatch"), "expected version mismatch error, got: {}", err);
    assert_eq!(err, "protocol version mismatch: got 255, want 1 or 2");
}

#[test]
fn filename_with_escape_sequence_rejected() {
    let err = refusal(&make_init_payload(b"\x1b[2Jevil"));
    assert!(err.contains("control characters"), "expected control-characters error, got: {}", err);
}

#[test]
fn filename_with_newline_rejected() {
    let err = refusal(&make_init_payload(b"foo\nbar"));
    assert!(err.contains("control characters"), "expected control-characters error, got: {}", err);
}

#[test]
fn init_payload_too_short_rejected() {
    let err = refusal(&[ProtocolVersion::V1.to_byte(); 10]);
    assert!(err.contains("too short"), "got: {}", err);
    assert_eq!(err, "init payload too short: 10 bytes");
}

#[test]
fn init_chunk_size_zero_rejected() {
    let mut payload = vec![0u8; NAME_OFFSET + 2];
    payload[0] = ProtocolVersion::V1.to_byte();
    payload[NAME_OFFSET] = b'x';

    let err = refusal(&payload);
    assert!(err.contains("chunk size must be in"), "got: {}", err);
}

#[test]
fn init_chunk_size_over_max_rejected() {
    let mut payload = vec![0u8; NAME_OFFSET + 2];
    payload[0] = ProtocolVersion::V1.to_byte();
    payload[CHUNK_SIZE_OFFSET..HASH_OFFSET].copy_from_slice(&(MAX_CHUNK_SIZE + 1).to_be_bytes());
    payload[NAME_OFFSET] = b'x';

    let err = refusal(&payload);
    assert!(err.contains("chunk size must be in"), "got: {}", err);
}

#[test]
fn init_v2_chunk_size_over_verify_max_rejected() {
    // MAX_CHUNK_SIZE is valid in v1 but leaves no room for the 32-byte
    // per-chunk hash in v2, so the receiver must reject it like the sender.
    let mut payload = vec![0u8; NAME_OFFSET + 2];
    payload[0] = ProtocolVersion::V2.to_byte();
    payload[CHUNK_SIZE_OFFSET..HASH_OFFSET].copy_from_slice(&MAX_CHUNK_SIZE.to_be_bytes());
    payload[NAME_OFFSET] = b'x';

    let err = refusal(&payload);
    assert!(err.contains("chunk size must be in"), "got: {}", err);
}

#[test]
fn init_transfer_too_large_rejected() {
    let mut payload = vec![0u8; NAME_OFFSET + 2];
    payload[0] = ProtocolVersion::V1.to_byte();
    payload[SIZE_OFFSET..CHUNK_SIZE_OFFSET].copy_from_slice(&(MAX_TOTAL_CHUNKS + 1).to_be_bytes());
    payload[CHUNK_SIZE_OFFSET..HASH_OFFSET].copy_from_slice(&1u32.to_be_bytes());
    payload[NAME_OFFSET] = b'x';

    let err = refusal(&payload);
    assert!(err.contains("transfer too large"), "got: {}", err);
    assert_eq!(err, "transfer too large: 16777217 chunks exceeds limit 16777216");
}

#[test]
fn init_traversal_filename_rejected() {
    // ".." has no final path component, so the derived output name is empty.
    let err = refusal(&make_init_payload(b".."));
    assert!(err.contains("invalid filename"), "got: {}", err);
    assert_eq!(err, "invalid filename in init packet");
}

#[test]
fn init_name_that_is_not_utf8_rejected() {
    let bytes = [b'a', 0xff, b'b'];
    let err = refusal(&make_init_payload(&bytes));
    let why = String::from_utf8(bytes.to_vec()).unwrap_err().utf8_error().to_string();
    assert_eq!(err, format!("invalid filename: {}", why));
    // With an output path the name is not looked at.
    assert!(ReceiveState::new(&make_init_payload(&bytes), Some("out.bin"), 0).is_ok());
}

#[test]
fn init_round_trip() {
    let hash = digest(b"some file");
    let payload = encode_init(ProtocolVersion::V2, 5000, 1400, &hash, "ž ✓.bin");
    let header = parse_init(&payload, None).ok().unwrap();
    assert_eq!(header.version, ProtocolVersion::V2);
    assert_eq!(header.size, 5000);
    assert_eq!(header.chunk_size, 1400);
    assert_eq!(header.total, 4);
    assert_eq!(header.hash, hash);
    assert_eq!(header.final_path, "ž ✓.bin");
    assert_eq!(payload.last(), Some(&0));

    let elsewhere = parse_init(&payload, Some("/tmp/x")).ok().unwrap();
    assert_eq!(elsewhere.final_path, "/tmp/x");
}

#[test]
fn sender_cannot_choose_the_directory() {
    let payload = make_init_payload(b"../../etc/passwd");
    let state = ReceiveState::new(&payload, None, 0).ok().unwrap();
    assert_eq!(state.final_path(), "passwd");
    assert_eq!(state.tmp_path(), "passwd.tmp");
}

/// A transfer with its file in memory.
struct Sink {
    state: ReceiveState,
    file: Vec<u8>,
}

impl Sink {
    fn open(content: &[u8], chunk_size: u32, version: ProtocolVersion, hash: &[u8; 32]) -> Self {
        let payload = encode_init(version, content.len() as u64, chunk_size, hash, "out.bin");
        let state = ReceiveState::new(&payload, Some("dir/out.bin"), 0).ok().unwrap();
        let file = vec![0u8; state.size() as usize];
        Sink { state, file }
    }

    fn store(&mut self, seq: u32, data: &[u8], now: u128) {
        if let Some(offset) = self.state.store(seq, data) {
            let at = offset as usize;
            self.file[at..at + data.len()].copy_from_slice(data);
            self.state.stored(seq, now);
        }
    }
}

#[test]
fn integrity_failure_is_explained() {
    let data = b"hello world";
    // The announced hash is left zeroed, which no real content hashes to.
    let mut sink = Sink::open(data, DEFAULT_CHUNK_SIZE, ProtocolVersion::V1, &[0u8; 32]);
    assert_eq!(sink.state.tmp_path(), "dir/out.bin.tmp");
    assert_eq!(sink.state.final_path(), "dir/out.bin");
    sink.store(0, data, 0);
    let err = sink.state.finalize(&digest(&sink.file)).unwrap_err();
    assert_eq!(err.kind, ErrorKind::InvalidData);
    assert_eq!(err.reason, "integrity check failed: SHA-256 mismatch");
}

#[test]
fn wrong_size_payload_is_ignored_and_chunk_stays_requestable() {
    let content = b"AAAABBBB";
    let mut sink = Sink::open(content, 4, ProtocolVersion::V1, &digest(content));

    // Oversized would clobber chunk 1's slot; truncated would otherwise be
    // marked received and never re-requested.
    sink.store(0, b"AAAAXXXX", 0);
    sink.store(1, b"BB", 0);
    assert_eq!(sink.state.count(), 0, "wrong-size payloads must not be stored");
    assert_eq!(sink.state.collect_missing(2), vec![0, 1]);

    sink.store(0, b"AAAA", 0);
    sink.store(1, b"BBBB", 0);
    sink.state.finalize(&digest(&sink.file)).unwrap();
    assert_eq!(sink.file, content);
}

#[test]
fn chunks_in_any_order_make_the_file() {
    let content: Vec<u8> = (0..1001u32).map(|i| (i * 31) as u8).collect();
    let mut sink = Sink::open(&content, 10, ProtocolVersion::V1, &digest(&content));
    // 101 chunks, the last one of one byte, in a scattered order and twice.
    for round in 0..2 {
        for i in 0..101usize {
            let seq = (i * 37 + round) % 101;
            let end = (seq * 10 + 10).min(content.len());
            sink.store(seq as u32, &content[seq * 10..end], 0);
        }
    }
    assert!(sink.state.full());
    assert!(!sink.state.has_open_gap());
    assert_eq!(sink.state.count(), 101);
    assert_eq!(sink.file, content);
    sink.state.finalize(&digest(&sink.file)).unwrap();
    // There is no chunk 101.
    assert_eq!(sink.state.store(101, b"x"), None);
    // A stored chunk is not stored again, even with other bytes.
    assert_eq!(sink.state.store(0, b"0123456789"), None);
}

#[test]
fn gap_clock_runs_while_a_gap_is_open() {
    let content = b"abcdefgh";
    let mut sink = Sink::open(content, 2, ProtocolVersion::V1, &digest(content));
    let holdoff: u128 = 20 * MILLI;
    assert_eq!(sink.state.next_nack_deadline(holdoff, None), None);
    sink.store(0, b"ab", 5);
    assert_eq!(sink.state.next_nack_deadline(holdoff, None), None);
    // Chunks 1 and 2 are missing from now on.
    sink.store(3, b"gh", 7);
    assert!(sink.state.has_open_gap());
    assert_eq!(sink.state.next_nack_deadline(holdoff, None), Some(7 + holdoff));
    // Filling one of them does not restart the clock.
    sink.store(1, b"cd", 9);
    assert_eq!(sink.state.next_nack_deadline(holdoff, None), Some(7 + holdoff));
    assert_eq!(sink.state.next_nack_deadline(holdoff, Some(8)), Some(8 + 3000 * MILLI));
    sink.store(2, b"ef", 11);
    assert_eq!(sink.state.next_nack_deadline(holdoff, None), None);
}

#[test]
fn read_timeout_is_never_zero() {
    let content = b"abcdefgh";
    let mut sink = Sink::open(content, 2, ProtocolVersion::V1, &digest(content));
    let limits = RecvLimits { idle_timeout: 1000 * MILLI, nack_holdoff: 20 * MILLI };
    assert_eq!(sink.state.read_timeout(0, None, limits, 0), 1000 * MILLI);
    assert_eq!(sink.state.read_timeout(0, None, limits, 400 * MILLI), 600 * MILLI);
    assert_eq!(sink.state.read_timeout(0, None, limits, 5000 * MILLI), MILLI);
    sink.store(1, b"cd", 0);
    assert_eq!(sink.state.read_timeout(0, None, limits, 0), 20 * MILLI);
    assert_eq!(sink.state.read_timeout(0, None, limits, 19 * MILLI + 1), MILLI);
}

#[test]
fn idle_tick_waits_asks_or_expires() {
    let content = b"abcdefgh";
    let mut sink = Sink::open(content, 2, ProtocolVersion::V1, &digest(content));
    sink.store(2, b"ef", 0);
    let limits = RecvLimits { idle_timeout: 1000 * MILLI, nack_holdoff: 20 * MILLI };
    assert!(matches!(sink.state.on_idle_tick(0, None, limits, 20 * MILLI - 1), TickOutcome::Waiting));
    match sink.state.on_idle_tick(0, None, limits, 20 * MILLI) {
        TickOutcome::Nacked(packets) => assert_eq!(asked_for(&packets), vec![0, 1]),
        _ => panic!("a gap is due"),
    }
    match sink.state.on_idle_tick(0, None, limits, 1000 * MILLI) {
        TickOutcome::Expired(failure) => {
            assert_eq!(failure.kind, ErrorKind::TimedOut);
            assert_eq!(failure.reason, "idle timeout: sender disappeared");
        }
        _ => panic!("the sender is gone"),
    }
}

fn asked_for(packets: &[Vec<u8>]) -> Vec<u32> {
    let mut seqs = Vec::new();
    for packet in packets {
        assert!(packet.len() <= MAX_UDP_PAYLOAD);
        let (header, end) = parse_packet(packet, packet.len()).unwrap();
        assert_eq!(header.packet_type, PacketType::Nack);
        decode_nack_payload(header.seq as usize, &packet[HEADER_SIZE..end], &mut seqs);
    }
    seqs
}

#[test]
fn nacks_are_split_to_fit_datagrams() {
    let missing: Vec<u32> = (0..2 * MAX_NACKS_PER_PACKET as u32 + 1).map(|i| i * 3).collect();
    let packets = emit_nacks(&missing);
    assert_eq!(packets.len(), 3);
    assert_eq!(packets[0].len(), MAX_UDP_PAYLOAD);
    assert_eq!(packets[2].len(), HEADER_SIZE + 4);
    assert_eq!(asked_for(&packets), missing);
    assert!(emit_nacks(&[]).is_empty());
}

#[test]
fn verified_body_needs_the_right_digest() {
    let content = b"abcd";
    let sink = Sink::open(content, 4, ProtocolVersion::V2, &digest(content));
    let packet = data_packet(ProtocolVersion::V2, 0, content);
    let payload = &packet[HEADER_SIZE..];
    assert_eq!(payload.len(), 36);
    assert_eq!(payload[..32], digest(content));
    assert_eq!(sink.state.verified_body(payload), Some(&content[..]));
    assert_eq!(sink.state.accept_data(0, payload), Some((0, &content[..])));

    let mut corrupt = payload.to_vec();
    corrupt[35] ^= 1;
    assert_eq!(sink.state.verified_body(&corrupt), None);
    let mut wrong_digest = payload.to_vec();
    wrong_digest[31] ^= 1;
    assert_eq!(sink.state.accept_data(0, &wrong_digest), None);
    assert_eq!(sink.state.verified_body(&payload[..31]), None);

    // Without digests every payload is a chunk.
    let plain = Sink::open(content, 4, ProtocolVersion::V1, &digest(content));
    assert_eq!(plain.state.verified_body(payload), Some(payload));
    assert_eq!(data_packet(ProtocolVersion::V1, 0, content)[HEADER_SIZE..], content[..]);
}

#[test]
fn events_of_a_transfer() {
    let content = b"abcdefg";
    let mut sink = Sink::open(content, 2, ProtocolVersion::V1, &digest(content));
    match sink.state.receiving() {
        TransferEvent::Receiving { path, bytes, chunks, chunk_size } => {
            assert_eq!((path, bytes, chunks, chunk_size), ("dir/out.bin", 7, 4, 2));
        }
        _ => panic!("not what is reported"),
    }
    sink.state.begin(100);
    sink.store(3, b"g", 150);
    match sink.state.progress(150) {
        TransferEvent::Progress { done, total, chunk_size, elapsed } => {
            assert_eq!((done, total, chunk_size, elapsed), (1, 4, 2, 50));
        }
        _ => panic!("not what is reported"),
    }
    match sink.state.saved(90) {
        TransferEvent::Saved { path, bytes, elapsed } => {
            assert_eq!((path, bytes, elapsed), ("dir/out.bin", 7, 0));
        }
        _ => panic!("not what is reported"),
    }
}

fn framed(packet_type: PacketType, seq: u32, payload: &[u8]) -> Vec<u8> {
    encode_packet(&PacketHeader { packet_type, seq, payload_len: payload.len() as u16 }, payload)
}

fn receiving(content: &[u8], chunk_size: u32, limits: RecvLimits, now: u128) -> Receiver {
    let mut receiver = Receiver::new(Some("d.bin"), false, 200 * MILLI, limits, 0);
    let init = encode_init(ProtocolVersion::V1, content.len() as u64, chunk_size, &digest(content), "d");
    match receiver.on_datagram(SENDER, &framed(PacketType::Init, 0, &init), now) {
        Step::Open { from, state } => {
            assert_eq!(from, SENDER);
            let ack = receiver.opened(from, state, now);
            assert_eq!(ack, encode_control(PacketType::Ack, 0));
        }
        _ => panic!("the INIT opens a transfer"),
    }
    receiver
}

fn send_data(receiver: &mut Receiver, file: &mut [u8], seq: u32, body: &[u8], now: u128) {
    let packet = framed(PacketType::Data, seq, body);
    match receiver.on_datagram(SENDER, &packet, now) {
        Step::Write { seq: to_write, offset, body: bytes } => {
            assert_eq!((to_write, bytes), (seq, body));
            let at = offset as usize;
            file[at..at + bytes.len()].copy_from_slice(bytes);
            receiver.written(seq, now);
        }
        _ => panic!("the chunk is wanted"),
    }
}

/// Declares DONE to a receiver that has every chunk: the file passes its check, and
/// the answer is a FIN.
fn finish(receiver: &mut Receiver, file: &[u8], total: u32, now: u128) -> Fin {
    match receiver.on_datagram(SENDER, &encode_control(PacketType::Done, total), now) {
        Step::Flush { to } => assert_eq!(to, SENDER),
        _ => panic!("the transfer is complete"),
    }
    let verified = receiver.state().unwrap().finalize(&digest(file)).unwrap();
    let fin = receiver.completed(verified);
    assert_eq!(fin.to(), SENDER);
    assert_eq!(fin.packet(), encode_control(PacketType::Fin, 0));
    assert!(decode_header(fin.packet()).unwrap().packet_type == PacketType::Fin);
    assert!(receiver.state().is_none());
    fin
}

#[test]
fn done_nacks_start_the_reissue_clock() {
    let data = b"abcde";
    let limits = RecvLimits { idle_timeout: 5000 * MILLI, nack_holdoff: 50 * MILLI };
    let mut receiver = receiving(data, 2, limits, 0);
    let mut file = vec![0u8; data.len()];

    // Leave a gap at seq 1 and declare DONE before the holdoff elapses, so the
    // DONE-triggered NACK is the first one out.
    send_data(&mut receiver, &mut file, 0, b"ab", 0);
    send_data(&mut receiver, &mut file, 2, b"e", 0);
    match receiver.on_datagram(SENDER, &encode_control(PacketType::Done, 3), MILLI) {
        Step::Nack { to, missing, packets } => {
            assert_eq!(to, SENDER);
            assert_eq!(missing, Some(1));
            assert_eq!(asked_for(&packets), vec![1]);
            receiver.nacked(2 * MILLI);
        }
        _ => panic!("the transfer is incomplete"),
    }

    // The gap clock (holdoff 50 ms) must not ask again right after the
    // DONE-triggered batch; the next reissue is a full interval away.
    assert!(matches!(receiver.on_error(ErrorKind::WouldBlock, 400 * MILLI), Some(Step::Wait)));
    assert_eq!(receiver.read_timeout(400 * MILLI), Some(2602 * MILLI));
    match receiver.on_error(ErrorKind::TimedOut, 3002 * MILLI) {
        Some(Step::Nack { missing, packets, .. }) => {
            assert_eq!(missing, None);
            assert_eq!(asked_for(&packets), vec![1]);
        }
        _ => panic!("the interval is over"),
    }

    send_data(&mut receiver, &mut file, 1, b"cd", 3100 * MILLI);
    finish(&mut receiver, &file, 3, 3200 * MILLI);
    assert_eq!(file, data);
}

#[test]
fn streaming_nack_requests_gap_before_done() {
    let data = b"abcdefg";
    let limits = RecvLimits { idle_timeout: 5000 * MILLI, nack_holdoff: 10 * MILLI };
    let mut receiver = receiving(data, 2, limits, 0);
    let mut file = vec![0u8; data.len()];
    send_data(&mut receiver, &mut file, 0, b"ab", 0);
    send_data(&mut receiver, &mut file, 1, b"cd", 0);
    send_data(&mut receiver, &mut file, 3, b"g", MILLI);
    assert_eq!(receiver.read_timeout(MILLI), Some(10 * MILLI));

    match receiver.on_error(ErrorKind::WouldBlock, 11 * MILLI) {
        Some(Step::Nack { packets, .. }) => {
            let header = decode_header(&packets[0]).unwrap();
            assert!(header.packet_type == PacketType::Nack);
            assert_eq!(asked_for(&packets), vec![2], "streaming NACK should ask only for the open gap");
        }
        _ => panic!("the gap is due"),
    }
    receiver.nacked(11 * MILLI);
    send_data(&mut receiver, &mut file, 2, b"ef", 12 * MILLI);
    finish(&mut receiver, &file, 4, 13 * MILLI);
    assert_eq!(file, data);
}

#[test]
fn only_the_sender_is_heard_during_a_transfer() {
    let limits = RecvLimits { idle_timeout: 100 * MILLI, nack_holdoff: 10 * MILLI };
    let mut receiver = receiving(b"abcd", 2, limits, 0);
    let chunk = framed(PacketType::Data, 0, b"ab");
    assert!(matches!(receiver.on_datagram(STRANGER, &chunk, 50 * MILLI), Step::Wait));
    // A stranger is not a sign of life of the sender either.
    assert!(matches!(receiver.on_error(ErrorKind::WouldBlock, 100 * MILLI), Some(Step::Abandon { .. })));
    assert!(matches!(receiver.on_datagram(SENDER, &chunk, 50 * MILLI), Step::Write { .. }));
    assert!(matches!(receiver.on_error(ErrorKind::WouldBlock, 100 * MILLI), Some(Step::Wait)));
    // A repeated INIT is acknowledged, whatever it says.
    match receiver.on_datagram(SENDER, &framed(PacketType::Init, 0, b"junk"), 60 * MILLI) {
        Step::Ack { to, packet } => {
            assert_eq!(to, SENDER);
            assert_eq!(packet, encode_control(PacketType::Ack, 0));
        }
        _ => panic!("a repeated INIT is acknowledged"),
    }
}

#[test]
fn listening_receiver_does_nothing_but_open() {
    let mut receiver = Receiver::new(None, false, MILLI, RecvLimits::default(), 0);
    assert_eq!(receiver.read_timeout(5), None);
    assert!(matches!(receiver.on_datagram(SENDER, &framed(PacketType::Data, 0, b"ab"), 1), Step::Wait));
    assert!(matches!(receiver.on_datagram(SENDER, &encode_control(PacketType::Done, 1), 2), Step::Wait));
    assert!(matches!(receiver.on_datagram(SENDER, &encode_control(PacketType::Fin, 0), 3), Step::Wait));
    assert!(matches!(receiver.on_error(ErrorKind::TimedOut, u64::MAX as u128), Some(Step::Wait)));
    assert!(matches!(receiver.on_error(ErrorKind::Interrupted, 4), Some(Step::Wait)));
    assert!(receiver.on_error(ErrorKind::Other, 4).is_none());
    match receiver.on_datagram(SENDER, &framed(PacketType::Init, 0, &make_init_payload(b"..")), 5) {
        Step::BadInit { reason } => assert_eq!(reason, "invalid filename in init packet"),
        _ => panic!("the INIT is refused"),
    }
    assert!(receiver.state().is_none());
}

#[test]
fn failure_ends_a_receiver_that_does_not_serve() {
    let mut receiver = receiving(b"abcd", 2, RecvLimits::default(), 0);
    let failure = udpcp::Failure { kind: ErrorKind::Other, reason: "disk full".to_string() };
    let err = receiver.abandon(failure).unwrap_err();
    assert_eq!((err.kind, err.reason.as_str()), (ErrorKind::Other, "disk full"));
    assert!(!receiver.serve());

    let mut serving = Receiver::new(None, true, MILLI, RecvLimits::default(), 0);
    let failure = udpcp::Failure { kind: ErrorKind::Other, reason: "disk full".to_string() };
    assert_eq!(serving.abandon(failure).unwrap(), "disk full");
}

/// A receiver that has just taken an empty file.
fn lingering(timeout: u128, now: u128) -> Linger {
    let mut receiver = receiving(b"", 2, RecvLimits::default(), now);
    Linger::new(finish(&mut receiver, b"", 0, now), timeout, now)
}

#[test]
fn linger_returns_at_once_on_fin_ack() {
    let linger = lingering(5000 * MILLI, 0);
    assert!(matches!(linger.on_datagram(STRANGER, &encode_control(PacketType::FinAck, 0)), LingerStep::Wait));
    assert!(matches!(linger.on_datagram(SENDER, &[1, 2, 3]), LingerStep::Wait));
    assert!(matches!(linger.on_datagram(SENDER, &encode_control(PacketType::Data, 0)), LingerStep::Wait));
    assert!(matches!(linger.on_datagram(SENDER, &encode_control(PacketType::FinAck, 0)), LingerStep::End));
}

#[test]
fn linger_ends_when_its_time_is_up() {
    let mut linger = lingering(100, 1000);
    assert_eq!(linger.read_timeout(1040), Some(60));
    assert_eq!(linger.read_timeout(1100), None);
    assert!(matches!(linger.on_error(ErrorKind::Interrupted), LingerStep::Wait));
    assert!(matches!(linger.on_error(ErrorKind::WouldBlock), LingerStep::End));
    match linger.on_datagram(SENDER, &encode_control(PacketType::Done, 3)) {
        LingerStep::Fin { to, packet } => {
            assert_eq!(to, SENDER);
            assert_eq!(packet, encode_control(PacketType::Fin, 0));
        }
        _ => panic!("the FIN was lost"),
    }
    linger.rearm(1090);
    assert_eq!(linger.read_timeout(1100), Some(90));
}

#[test]
fn failure_to_open_is_explained() {
    assert_eq!(open_failed(OpenStage::Create, "a.tmp", "no space"), "create a.tmp: no space");
    assert_eq!(open_failed(OpenStage::SetLen, "a.tmp", "no space"), "set_len a.tmp: no space");
}

#[test]
fn failures_end_the_receiver_the_transfer_or_nothing() {
    let mut receiver = Receiver::new(Some("d.bin"), true, MILLI, RecvLimits::default(), 0);
    let init = framed(PacketType::Init, 0, &encode_init(ProtocolVersion::V1, 4, 2, &digest(b"abcd"), "d"));
    let step = receiver.on_datagram(SENDER, &init, 0);
    assert_eq!((step.on_file_error(), step.on_send_error()), (OnFailure::GoOn, OnFailure::End));

    let mut receiver = receiving(b"abcd", 2, RecvLimits::default(), 0);
    let mut file = vec![0u8; 4];
    assert_eq!(receiver.on_datagram(SENDER, &init, 0).on_send_error(), OnFailure::End);
    let chunk = framed(PacketType::Data, 0, b"ab");
    assert_eq!(receiver.on_datagram(SENDER, &chunk, 0).on_file_error(), OnFailure::Abandon);
    let done = encode_control(PacketType::Done, 2);
    assert_eq!(receiver.on_datagram(SENDER, &done, 0).on_send_error(), OnFailure::Abandon);
    send_data(&mut receiver, &mut file, 0, b"ab", 0);
    send_data(&mut receiver, &mut file, 1, b"cd", 0);
    let step = receiver.on_datagram(SENDER, &done, 0);
    assert_eq!((step.on_file_error(), step.on_send_error()), (OnFailure::Abandon, OnFailure::End));
    assert_eq!(Step::Wait.on_send_error(), OnFailure::GoOn);

    let linger = lingering(100, 0);
    assert_eq!(linger.on_datagram(SENDER, &done).on_send_error(), OnFailure::GoOn);
}
