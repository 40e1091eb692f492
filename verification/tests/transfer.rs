//! Whole transfers: a sender and a receiver on a simulated network with a clock
//! of its own.

use std::collections::VecDeque;
use std::time::Duration;

use rand::{RngExt, SeedableRng};
use rand_pcg::Pcg64Mcg;

use udpcp::digest::FileDigest;
use udpcp::protocol::{encode_control, encode_packet, validate_chunk_size, PacketHeader, PacketType};
use udpcp::send::{announced_name, data_packet, plan_chunks};
use udpcp::{
    ErrorKind, Failure, Handshake, HandshakeStep, Linger, LingerStep, Peer, ProtocolVersion, Receiver, RecvLimits,
    SendError, SendLimits, SendStep, Sender, Step,
};

const REORDER_DELAY: Duration = Duration::from_millis(20);
const TEST_LINGER: Duration = Duration::from_secs(5);
const SEND_COST: u128 = 10_000;
const RELAY: Peer = Peer::V4 { ip: 0x7f00_0001, port: 7000 };
const CLIENT: Peer = Peer::V4 { ip: 0x7f00_0001, port: 7001 };
const SECOND_CLIENT: Peer = Peer::V4 { ip: 0x7f00_0001, port: 7002 };

/// What the network does to a packet.
#[derive(Clone, Copy)]
struct Chaos {
    loss: f64,
    latency: Duration,
    reorder: f64,
    duplicate: f64,
    corrupt: f64,
}

const CALM: Chaos = Chaos { loss: 0.0, latency: Duration::ZERO, reorder: 0.0, duplicate: 0.0, corrupt: 0.0 };

struct Flying {
    at: u128,
    order: u64,
    to_receiver: bool,
    packet: Vec<u8>,
}

/// A relay that injects packet loss, latency, reordering, duplication, and
/// corruption between a sender and a receiver.
struct Network {
    /// Whom the receiver sees as the sender.
    client: Peer,
    chaos: Chaos,
    rng: Pcg64Mcg,
    flying: Vec<Flying>,
    order: u64,
}

impl Network {
    fn new(client: Peer, chaos: Chaos) -> Self {
        Network { client, chaos, rng: Pcg64Mcg::seed_from_u64(42), flying: Vec::new(), order: 0 }
    }

    fn launch(&mut self, at: u128, to_receiver: bool, packet: Vec<u8>) {
        self.order += 1;
        self.flying.push(Flying { at, order: self.order, to_receiver, packet });
    }

    fn send(&mut self, now: u128, to_receiver: bool, packet: &[u8]) {
        let mut packet = packet.to_vec();
        if self.rng.random::<f64>() < self.chaos.loss {
            return;
        }
        if self.rng.random::<f64>() < self.chaos.corrupt && !packet.is_empty() {
            let byte_idx = self.rng.random_range(0..packet.len());
            let bit_idx: u8 = self.rng.random_range(0..8);
            packet[byte_idx] ^= 1 << bit_idx;
        }
        if self.rng.random::<f64>() < self.chaos.duplicate {
            self.launch(now, to_receiver, packet.clone());
        }
        let mut delay = if self.chaos.latency > Duration::ZERO {
            self.chaos.latency
                + Duration::from_millis(self.rng.random_range(0..=self.chaos.latency.as_millis() as u64 / 2))
        } else {
            Duration::ZERO
        };
        if self.rng.random::<f64>() < self.chaos.reorder {
            delay += REORDER_DELAY;
        }
        self.launch(now + delay.as_nanos(), to_receiver, packet);
    }

    fn next_at(&self) -> Option<u128> {
        self.flying.iter().map(|f| f.at).min()
    }

    fn arrived(&mut self, now: u128) -> Vec<Flying> {
        let mut due = Vec::new();
        let mut rest = Vec::new();
        for f in self.flying.drain(..) {
            if f.at <= now {
                due.push(f);
            } else {
                rest.push(f);
            }
        }
        self.flying = rest;
        due.sort_by_key(|f| (f.at, f.order));
        due
    }
}

/// The receiving end: a receiver, its files and what becomes of them.
struct ReceivingEnd {
    receiver: Receiver,
    linger: Option<Linger>,
    /// The temporary file.
    tmp: Option<Vec<u8>>,
    saved: Vec<Vec<u8>>,
    reports: Vec<String>,
    inbox: VecDeque<(Peer, Vec<u8>)>,
    outbox: Vec<(Peer, Vec<u8>)>,
    result: Option<Result<(), Failure>>,
}

impl ReceivingEnd {
    fn new(out: Option<&str>, serve: bool, linger: Duration, limits: RecvLimits) -> Self {
        ReceivingEnd {
            receiver: Receiver::new(out, serve, linger.as_nanos(), limits, 0),
            linger: None,
            tmp: None,
            saved: Vec::new(),
            reports: Vec::new(),
            inbox: VecDeque::new(),
            outbox: Vec::new(),
            result: None,
        }
    }

    fn abandon(&mut self, failure: Failure) {
        self.tmp = None;
        match self.receiver.abandon(failure) {
            Ok(reason) => self.reports.push(format!("failed: {}", reason)),
            Err(failure) => self.result = Some(Err(failure)),
        }
    }

    fn perform(&mut self, step: Step<'_>, now: u128) {
        match step {
            Step::Wait => {}
            Step::Ack { to, packet } => self.outbox.push((to, packet)),
            Step::BadInit { reason } => self.reports.push(format!("bad init: {}", reason)),
            Step::Open { from, state } => {
                self.tmp = Some(vec![0u8; state.size() as usize]);
                let ack = self.receiver.opened(from, state, now);
                self.outbox.push((from, ack));
            }
            Step::Write { seq, offset, body } => {
                let at = offset as usize;
                self.tmp.as_mut().unwrap()[at..at + body.len()].copy_from_slice(body);
                self.receiver.written(seq, now);
            }
            Step::Nack { to, missing, packets } => {
                if let Some(count) = missing {
                    self.reports.push(format!("missing: {}", count));
                }
                for packet in packets {
                    self.outbox.push((to, packet));
                }
                self.receiver.nacked(now);
            }
            Step::Flush { to } => {
                let mut digest = FileDigest::new();
                for piece in self.tmp.as_ref().unwrap().chunks(65536) {
                    digest.update(piece);
                }
                let got = digest.finish();
                let verdict = self.receiver.state().unwrap().finalize(&got);
                match verdict {
                    Ok(verified) => {
                        self.saved.push(self.tmp.take().unwrap());
                        let fin = self.receiver.completed(verified);
                        assert_eq!(fin.to(), to);
                        self.outbox.push((to, fin.packet().to_vec()));
                        self.linger = Some(Linger::new(fin, self.receiver.linger_timeout(), now));
                    }
                    Err(failure) => self.abandon(failure),
                }
            }
            Step::Abandon { failure } => self.abandon(failure),
        }
    }

    fn end_linger(&mut self) {
        self.linger = None;
        if self.receiver.serve() {
            self.receiver.reset();
        } else {
            self.result = Some(Ok(()));
        }
    }

    /// Does what is due; says whether anything was.
    fn run(&mut self, now: u128, deadline: &mut Option<u128>) -> bool {
        if self.result.is_some() {
            return false;
        }
        if let Some(linger) = &mut self.linger {
            if linger.read_timeout(now).is_none() {
                self.end_linger();
                return true;
            }
            let Some((from, packet)) = self.inbox.pop_front() else {
                *deadline = Some(now + linger.read_timeout(now).unwrap());
                return false;
            };
            match linger.on_datagram(from, &packet) {
                LingerStep::Wait => {}
                LingerStep::Fin { to, packet } => {
                    self.outbox.push((to, packet));
                    linger.rearm(now);
                }
                LingerStep::End => self.end_linger(),
            }
            *deadline = None;
            return true;
        }
        if let Some((from, packet)) = self.inbox.pop_front() {
            let step = self.receiver.on_datagram(from, &packet, now);
            self.perform(step, now);
            *deadline = None;
            return true;
        }
        match *deadline {
            Some(at) if at <= now => {
                let step = self.receiver.on_error(ErrorKind::WouldBlock, now).unwrap();
                *deadline = None;
                self.perform(step, now);
                true
            }
            Some(_) => false,
            None => {
                *deadline = self.receiver.read_timeout(now).map(|t| now + t);
                false
            }
        }
    }
}

/// The sending end: the file and where the transfer stands.
struct SendingEnd {
    file: Vec<u8>,
    version: ProtocolVersion,
    chunk_size: u32,
    limits: SendLimits,
    handshake: Option<Handshake>,
    sender: Option<Sender>,
    inbox: VecDeque<(Peer, Vec<u8>)>,
    reports: Vec<String>,
    result: Option<Result<(), Failure>>,
}

fn hash_of(file: &[u8]) -> [u8; 32] {
    let mut digest = FileDigest::new();
    for piece in file.chunks(1000) {
        digest.update(piece);
    }
    digest.finish()
}

impl SendingEnd {
    fn new(path: &str, file: Vec<u8>, chunk_size: u32, version: ProtocolVersion, limits: SendLimits) -> Self {
        let mut end = SendingEnd {
            version,
            chunk_size,
            limits,
            handshake: None,
            sender: None,
            inbox: VecDeque::new(),
            reports: Vec::new(),
            result: None,
            file,
        };
        if let Err(reason) = validate_chunk_size(chunk_size, version) {
            end.result = Some(Err(Failure { kind: ErrorKind::InvalidInput, reason }));
            return end;
        }
        if let Err(failure) = plan_chunks(end.file.len() as u64, chunk_size) {
            end.result = Some(Err(failure));
            return end;
        }
        let hash = hash_of(&end.file);
        end.handshake = Some(Handshake::new(
            RELAY,
            version,
            end.file.len() as u64,
            chunk_size,
            &hash,
            announced_name(path),
            limits,
        ));
        end
    }

    /// Does what is due; says whether anything was.
    fn run(&mut self, now: u128, clock: &mut u128, wake: &mut Option<u128>, network: &mut Network) -> bool {
        if self.result.is_some() || *clock > now {
            return false;
        }
        if let Some(handshake) = &mut self.handshake {
            if let Some((from, packet)) = self.inbox.pop_front() {
                *wake = None;
                if let Some(receiver) = handshake.on_datagram(from, &packet) {
                    let total = plan_chunks(self.file.len() as u64, self.chunk_size).unwrap();
                    let sender = Sender::new(RELAY, receiver, self.chunk_size, total, None, self.limits, now);
                    if let Some(udpcp::TransferEvent::PassStarted { pass, chunks }) = sender.pass_started() {
                        self.reports.push(format!("pass {} {}", pass, chunks));
                    }
                    self.sender = Some(sender);
                    self.handshake = None;
                }
                return true;
            }
            match handshake.next(now) {
                HandshakeStep::Send { .. } => {
                    network.send(now, true, handshake.packet());
                    handshake.sent(now);
                    return true;
                }
                HandshakeStep::Read { timeout } => {
                    *wake = Some(now + timeout);
                    return false;
                }
                HandshakeStep::Fail { failure } => {
                    self.result = Some(Err(failure));
                    return true;
                }
            }
        }
        let sender = self.sender.as_mut().unwrap();
        if let Some(at) = *wake {
            if let Some((from, packet)) = self.inbox.pop_front() {
                sender.on_datagram(from, &packet);
                *wake = None;
                return true;
            }
            if at > now {
                return false;
            }
            *wake = None;
            match sender.on_error(ErrorKind::TimedOut) {
                SendError::NewPass => {
                    if let Some(udpcp::TransferEvent::PassStarted { pass, chunks }) = sender.pass_started() {
                        self.reports.push(format!("pass {} {}", pass, chunks));
                    }
                }
                SendError::GaveUp { failure } => self.result = Some(Err(failure)),
                SendError::GoOn | SendError::Fatal => panic!("a timeout ends a pass"),
            }
            return true;
        }
        match sender.next() {
            SendStep::Chunk { seq, offset, .. } => {
                let start = (offset as usize).min(self.file.len());
                let end = (start + self.chunk_size as usize).min(self.file.len());
                network.send(now, true, &data_packet(self.version, seq, &self.file[start..end]));
                sender.chunk_sent();
                *clock = now + SEND_COST;
            }
            SendStep::Sleep { delay } => *clock = now + delay,
            SendStep::Poll => match self.inbox.pop_front() {
                Some((from, packet)) => sender.on_datagram(from, &packet),
                None => assert!(matches!(sender.on_error(ErrorKind::WouldBlock), SendError::GoOn)),
            },
            SendStep::Done { packet, .. } => network.send(now, true, &packet),
            SendStep::Read { timeout } => *wake = Some(now + timeout),
            SendStep::Complete { packet, .. } => {
                network.send(now, true, &packet);
                self.result = Some(Ok(()));
            }
        }
        true
    }
}

/// Lets both ends run until both are done, or the sender is and `serve` keeps the
/// receiver going.
fn simulate(sending: &mut SendingEnd, receiving: &mut ReceivingEnd, network: &mut Network, start: u128) -> u128 {
    let mut now = start;
    let mut clock = start;
    let mut wake: Option<u128> = None;
    let mut deadline: Option<u128> = None;
    for _ in 0..2_000_000 {
        let client = network.client;
        for flying in network.arrived(now) {
            if flying.to_receiver {
                receiving.inbox.push_back((client, flying.packet));
            } else {
                sending.inbox.push_back((RELAY, flying.packet));
            }
        }
        let mut busy = receiving.run(now, &mut deadline);
        for (to, packet) in receiving.outbox.drain(..) {
            if to == client {
                network.send(now, false, &packet);
            }
        }
        busy |= sending.run(now, &mut clock, &mut wake, network);
        if sending.result.is_some()
            && (receiving.result.is_some() || (receiving.receiver.serve() && receiving.linger.is_none()))
            && network.flying.is_empty()
        {
            return now;
        }
        if busy {
            continue;
        }
        let mut next: Option<u128> = network.next_at();
        let mut consider = |at: Option<u128>| {
            if let Some(at) = at {
                next = Some(next.map_or(at, |n: u128| n.min(at)));
            }
        };
        if receiving.result.is_none() {
            consider(deadline);
        }
        if sending.result.is_none() {
            consider(wake);
            if clock > now {
                consider(Some(clock));
            }
        }
        match next {
            Some(at) => now = at.max(now + 1),
            None => return now,
        }
    }
    panic!("the transfer does not come to an end");
}

fn run_transfer(
    file_size: usize,
    loss: f64,
    latency: Duration,
    reorder: f64,
    duplicate: f64,
    verify: bool,
    corrupt: f64,
) -> Result<(), Failure> {
    let want: Vec<u8> = (0..file_size).map(|i| (i.wrapping_mul(7).wrapping_add(13)) as u8).collect();
    let mut network = Network::new(CLIENT, Chaos { loss, latency, reorder, duplicate, corrupt });
    let mut receiving = ReceivingEnd::new(Some("dst.bin"), false, TEST_LINGER, RecvLimits::default());
    let mut sending = SendingEnd::new(
        "src.bin",
        want.clone(),
        1400,
        ProtocolVersion::for_verify(verify),
        SendLimits::default(),
    );
    simulate(&mut sending, &mut receiving, &mut network, 0);
    sending.result.unwrap()?;
    receiving.result.unwrap()?;
    assert_eq!(receiving.saved, vec![want]);
    assert!(receiving.tmp.is_none());
    Ok(())
}

#[test]
fn empty_file() {
    run_transfer(0, 0.0, Duration::ZERO, 0.0, 0.0, false, 0.0).unwrap();
}

#[test]
fn single_byte() {
    run_transfer(1, 0.0, Duration::ZERO, 0.0, 0.0, false, 0.0).unwrap();
}

#[test]
fn sub_chunk() {
    run_transfer(512, 0.0, Duration::ZERO, 0.0, 0.0, false, 0.0).unwrap();
}

#[test]
fn exact_chunk() {
    run_transfer(1400, 0.0, Duration::ZERO, 0.0, 0.0, false, 0.0).unwrap();
}

#[test]
fn multi_chunk() {
    run_transfer(10 * 1400, 0.0, Duration::ZERO, 0.0, 0.0, false, 0.0).unwrap();
}

#[test]
fn large() {
    run_transfer(100 * 1400, 0.0, Duration::ZERO, 0.0, 0.0, false, 0.0).unwrap();
}

#[test]
fn loss_5pct() {
    run_transfer(20 * 1400, 0.05, Duration::ZERO, 0.0, 0.0, false, 0.0).unwrap();
}

#[test]
fn loss_15pct() {
    run_transfer(20 * 1400, 0.15, Duration::ZERO, 0.0, 0.0, false, 0.0).unwrap();
}

#[test]
fn latency_10ms() {
    run_transfer(10 * 1400, 0.0, Duration::from_millis(10), 0.0, 0.0, false, 0.0).unwrap();
}

#[test]
fn latency_50ms() {
    run_transfer(5 * 1400, 0.0, Duration::from_millis(50), 0.0, 0.0, false, 0.0).unwrap();
}

#[test]
fn loss_10pct_latency_20ms() {
    run_transfer(10 * 1400, 0.10, Duration::from_millis(20), 0.0, 0.0, false, 0.0).unwrap();
}

#[test]
fn reorder_10pct() {
    run_transfer(10 * 1400, 0.0, Duration::ZERO, 0.10, 0.0, false, 0.0).unwrap();
}

#[test]
fn duplicate_5pct() {
    run_transfer(10 * 1400, 0.0, Duration::ZERO, 0.0, 0.05, false, 0.0).unwrap();
}

#[test]
fn verify_no_fault() {
    run_transfer(10 * 1400, 0.0, Duration::ZERO, 0.0, 0.0, true, 0.0).unwrap();
}

#[test]
fn verify_corrupt_5pct() {
    run_transfer(10 * 1400, 0.0, Duration::ZERO, 0.0, 0.0, true, 0.05).unwrap();
}

#[test]
fn serve_mode_two_transfers() {
    let want1: Vec<u8> = (0..1400u32).map(|i| i as u8).collect();
    let want2: Vec<u8> = (0..2800u32).map(|i| (i * 7) as u8).collect();
    let mut network = Network::new(CLIENT, CALM);
    let mut receiving = ReceivingEnd::new(Some("dst.bin"), true, TEST_LINGER, RecvLimits::default());

    let mut first = SendingEnd::new("src1.bin", want1.clone(), 1400, ProtocolVersion::V1, SendLimits::default());
    let now = simulate(&mut first, &mut receiving, &mut network, 0);
    first.result.unwrap().unwrap();
    assert_eq!(receiving.saved, vec![want1.clone()]);

    let mut second = SendingEnd::new("src2.bin", want2.clone(), 1400, ProtocolVersion::V1, SendLimits::default());
    let mut network = Network::new(SECOND_CLIENT, CALM);
    simulate(&mut second, &mut receiving, &mut network, now);
    second.result.unwrap().unwrap();
    assert_eq!(receiving.saved, vec![want1, want2]);
}

#[test]
fn ipv6_peers_are_told_apart_by_every_part() {
    let peer = Peer::V6 { ip: 1, port: 9, flowinfo: 0, scope_id: 0 };
    assert!(peer != Peer::V6 { ip: 1, port: 9, flowinfo: 0, scope_id: 2 });
    assert!(peer != Peer::V6 { ip: 1, port: 9, flowinfo: 3, scope_id: 0 });
    assert!(peer != Peer::V4 { ip: 1, port: 9 });
    assert!(peer == Peer::V6 { ip: 1, port: 9, flowinfo: 0, scope_id: 0 });
}

fn init_payload(size: u64, chunk_size: u32, hash: &[u8], name: &[u8]) -> Vec<u8> {
    let mut payload = vec![0u8; 45 + name.len() + 1];
    payload[0] = ProtocolVersion::V1.to_byte();
    payload[1..9].copy_from_slice(&size.to_be_bytes());
    payload[9..13].copy_from_slice(&chunk_size.to_be_bytes());
    payload[13..45].copy_from_slice(hash);
    payload[45..45 + name.len()].copy_from_slice(name);
    payload
}

fn framed(packet_type: PacketType, seq: u32, payload: &[u8]) -> Vec<u8> {
    encode_packet(&PacketHeader { packet_type, seq, payload_len: payload.len() as u16 }, payload)
}

#[test]
fn receiver_ignores_malformed_packets() {
    let want = vec![7u8; 2000];
    let mut network = Network::new(CLIENT, CALM);
    let mut receiving = ReceivingEnd::new(Some("d.bin"), false, Duration::from_secs(5), RecvLimits::default());

    let client = Peer::V4 { ip: 0x7f00_0001, port: 1 };
    receiving.inbox.push_back((client, vec![1, 2, 3]));

    let mut overrun = vec![0u8; 7];
    overrun[0] = PacketType::Data.to_byte();
    overrun[5..7].copy_from_slice(&9999u16.to_be_bytes());
    receiving.inbox.push_back((client, overrun));

    let mut bad_init = vec![0u8; 47];
    bad_init[0] = 99;
    receiving.inbox.push_back((client, framed(PacketType::Init, 0, &bad_init)));

    let mut sending = SendingEnd::new("s.bin", want.clone(), 1400, ProtocolVersion::V1, SendLimits::default());
    simulate(&mut sending, &mut receiving, &mut network, 0);
    sending.result.unwrap().unwrap();
    receiving.result.unwrap().unwrap();
    assert_eq!(receiving.saved, vec![want]);
    assert_eq!(receiving.reports, vec!["bad init: protocol version mismatch: got 99, want 1 or 2".to_string()]);
}

#[test]
fn receiver_times_out_when_sender_disappears() {
    let limits = RecvLimits { idle_timeout: Duration::from_millis(150).as_nanos(), ..RecvLimits::default() };
    let mut receiving = ReceivingEnd::new(Some("d.bin"), false, Duration::from_secs(5), limits);
    let mut deadline: Option<u128> = None;
    let init = init_payload(1400, 1400, &[0u8; 32], b"d");
    receiving.inbox.push_back((CLIENT, framed(PacketType::Init, 0, &init)));
    assert!(receiving.run(0, &mut deadline));
    assert!(!receiving.run(0, &mut deadline));
    assert_eq!(deadline, Some(Duration::from_millis(150).as_nanos()));
    assert!(receiving.run(deadline.unwrap(), &mut deadline));

    let err = receiving.result.unwrap().unwrap_err();
    assert_eq!(err.kind, ErrorKind::TimedOut);
    assert!(err.reason.contains("idle timeout"), "got: {}", err.reason);
    assert!(receiving.tmp.is_none());
}

#[test]
fn finalize_rejects_hash_mismatch_and_removes_tmp() {
    let data = b"hello world";
    let mut receiving = ReceivingEnd::new(Some("out.bin"), false, TEST_LINGER, RecvLimits::default());
    let mut deadline: Option<u128> = None;

    // INIT hash field is left zeroed, which no real content hashes to.
    let init = init_payload(data.len() as u64, 1400, &[0u8; 32], b"out.bin");
    receiving.inbox.push_back((CLIENT, framed(PacketType::Init, 0, &init)));
    receiving.inbox.push_back((CLIENT, framed(PacketType::Data, 0, data)));
    while receiving.run(0, &mut deadline) {}
    assert_eq!(receiving.receiver.state().unwrap().tmp_path(), "out.bin.tmp");
    assert_eq!(receiving.tmp, Some(data.to_vec()));
    receiving.inbox.push_back((CLIENT, encode_control(PacketType::Done, 1)));
    while receiving.run(0, &mut deadline) {}

    let err = receiving.result.unwrap().unwrap_err();
    assert_eq!(err.kind, ErrorKind::InvalidData);
    assert!(receiving.tmp.is_none(), "tmp must be removed when integrity fails");
    assert!(receiving.saved.is_empty());
}

#[test]
fn serve_mode_resets_after_hash_mismatch() {
    let limits = RecvLimits::default();
    let mut receiving = ReceivingEnd::new(Some("d.bin"), true, Duration::from_millis(200), limits);
    let mut deadline: Option<u128> = None;
    let data = b"data";
    let init = init_payload(data.len() as u64, 1400, &[0u8; 32], b"d");
    receiving.inbox.push_back((CLIENT, framed(PacketType::Init, 0, &init)));
    receiving.inbox.push_back((CLIENT, framed(PacketType::Data, 0, data)));
    receiving.inbox.push_back((CLIENT, encode_control(PacketType::Done, 1)));
    while receiving.run(0, &mut deadline) {}
    assert_eq!(
        receiving.reports,
        vec!["failed: integrity check failed: SHA-256 mismatch".to_string()]
    );
    assert!(receiving.tmp.is_none(), "abandoned transfer must not leave a temporary file behind");
    assert!(receiving.saved.is_empty());
    receiving.outbox.clear();

    let want = vec![9u8; 3000];
    let mut network = Network::new(SECOND_CLIENT, CALM);
    let mut sending = SendingEnd::new("s.bin", want.clone(), 1400, ProtocolVersion::V1, SendLimits::default());
    simulate(&mut sending, &mut receiving, &mut network, 1_000_000);
    sending.result.unwrap().unwrap();
    assert_eq!(receiving.saved, vec![want]);
}

#[test]
fn serve_mode_resets_after_idle_timeout() {
    let limits = RecvLimits { idle_timeout: Duration::from_millis(150).as_nanos(), ..RecvLimits::default() };
    let mut receiving = ReceivingEnd::new(Some("d.bin"), true, Duration::from_millis(200), limits);
    let mut deadline: Option<u128> = None;
    let init = init_payload(0, 1400, &[0u8; 32], b"d");
    receiving.inbox.push_back((CLIENT, framed(PacketType::Init, 0, &init)));
    while receiving.run(0, &mut deadline) {}
    let late = Duration::from_millis(400).as_nanos();
    while receiving.run(late, &mut deadline) {}
    assert_eq!(receiving.reports, vec!["failed: idle timeout: sender disappeared".to_string()]);
    assert!(receiving.receiver.state().is_none());
    receiving.outbox.clear();

    let want = vec![3u8; 2000];
    let mut network = Network::new(SECOND_CLIENT, CALM);
    let mut sending = SendingEnd::new("s.bin", want.clone(), 1400, ProtocolVersion::V1, SendLimits::default());
    simulate(&mut sending, &mut receiving, &mut network, late);
    sending.result.unwrap().unwrap();
    assert_eq!(receiving.saved, vec![want]);
}

#[test]
fn handshake_times_out_without_receiver() {
    let limits = SendLimits {
        handshake_attempts: 2,
        retransmit_timeout: Duration::from_millis(50).as_nanos(),
        ..SendLimits::default()
    };
    let mut network = Network::new(CLIENT, Chaos { loss: 1.0, ..CALM });
    let mut receiving = ReceivingEnd::new(Some("d.bin"), false, TEST_LINGER, RecvLimits::default());
    let mut sending = SendingEnd::new("f.bin", b"data".to_vec(), 1400, ProtocolVersion::V1, limits);
    let now = simulate(&mut sending, &mut receiving, &mut network, 0);
    assert_eq!(now, Duration::from_millis(100).as_nanos());

    let err = sending.result.unwrap().unwrap_err();
    assert_eq!(err.kind, ErrorKind::TimedOut);
    assert!(err.reason.contains("handshake timeout"), "got: {}", err.reason);
}

#[test]
fn run_send_gives_up_after_passes() {
    let limits = SendLimits {
        handshake_attempts: 5,
        retransmit_passes: 2,
        retransmit_timeout: Duration::from_millis(100).as_nanos(),
        nack_collection_timeout: Duration::from_millis(50).as_nanos(),
    };
    let mut network = Network::new(CLIENT, CALM);
    let mut sending = SendingEnd::new("f.bin", vec![0u8; 1400], 1400, ProtocolVersion::V1, limits);
    let mut clock: u128 = 0;
    let mut wake: Option<u128> = None;
    let mut now: u128 = 0;

    // A peer that acknowledges the handshake, then asks for chunk 0 on every DONE
    // and never sends a FIN, so the sender can never complete.
    while sending.result.is_none() {
        for flying in network.arrived(now) {
            let header = udpcp::protocol::decode_header(&flying.packet).unwrap();
            match header.packet_type {
                PacketType::Init => sending.inbox.push_back((RELAY, encode_control(PacketType::Ack, 0))),
                PacketType::Done => {
                    sending.inbox.push_back((RELAY, framed(PacketType::Nack, 1, &0u32.to_be_bytes())))
                }
                _ => {}
            }
        }
        if !sending.run(now, &mut clock, &mut wake, &mut network) {
            now = now.max(clock).max(wake.unwrap_or(now)) + 1;
        }
    }
    assert_eq!(sending.reports, vec!["pass 1 1".to_string(), "pass 2 1".to_string()]);
    let err = sending.result.unwrap().unwrap_err();
    assert_eq!(err.kind, ErrorKind::Other);
    assert!(err.reason.contains("gave up after 2 passes"), "got: {}", err.reason);
}

#[test]
fn run_send_rejects_oversize_verify_chunk() {
    let sending = SendingEnd::new("f.bin", b"hello".to_vec(), 65500, ProtocolVersion::V2, SendLimits::default());
    let err = sending.result.unwrap().unwrap_err();
    assert_eq!(err.kind, ErrorKind::InvalidInput);
    assert!(err.reason.contains("chunk size must be in"), "got: {}", err.reason);
}

#[test]
fn lost_fin_is_sent_again() {
    let mut network = Network::new(CLIENT, CALM);
    let mut receiving = ReceivingEnd::new(Some("d.bin"), false, TEST_LINGER, RecvLimits::default());
    let mut deadline: Option<u128> = None;
    let data = b"data";
    let init = init_payload(data.len() as u64, 1400, &hash_of(data), b"d");
    receiving.inbox.push_back((CLIENT, framed(PacketType::Init, 0, &init)));
    receiving.inbox.push_back((CLIENT, framed(PacketType::Data, 0, data)));
    receiving.inbox.push_back((CLIENT, encode_control(PacketType::Done, 1)));
    while receiving.run(0, &mut deadline) {}
    assert_eq!(receiving.saved, vec![data.to_vec()]);
    assert_eq!(receiving.outbox.pop(), Some((CLIENT, encode_control(PacketType::Fin, 0))));
    receiving.outbox.clear();

    // The FIN is lost, so the DONE comes once more.
    let later = Duration::from_secs(3).as_nanos();
    receiving.inbox.push_back((CLIENT, encode_control(PacketType::Done, 1)));
    while receiving.run(later, &mut deadline) {}
    assert_eq!(receiving.outbox, vec![(CLIENT, encode_control(PacketType::Fin, 0))]);
    assert_eq!(deadline, Some(later + TEST_LINGER.as_nanos()));

    receiving.inbox.push_back((CLIENT, encode_control(PacketType::FinAck, 0)));
    while receiving.run(later + 1, &mut deadline) {}
    receiving.result.unwrap().unwrap();
    assert!(network.arrived(later).is_empty());
}
