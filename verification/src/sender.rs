//! The sender: the handshake, then pass after pass over the chunks that are
//! still missing, until the receiver confirms the file or the passes run out.
use vstd::prelude::*;

use crate::init::{encode_init, init_bytes};
use crate::protocol::{
    control_datagram, decode_header, decode_nack_payload, encode_control, encode_packet, framed,
    header_of, is_timeout, nack_seqs, packet_of, parse_packet, payload_of, ErrorKind, PacketHeader,
    PacketType, ProtocolVersion, SendLimits, HEADER_SIZE, MAX_NANOS,
};
use crate::receiver::Peer;
use crate::recv::{since, time_since, Failure, FailureView};
use crate::report::TransferEvent;
use crate::send::{all_chunks, dedup, enqueued, Blast};
use crate::text::{decimal, put_decimal};

verus! {

/// A pass looks for feedback after this many chunks.
pub const FEEDBACK_DRAIN_INTERVAL: usize = 16;

/// What a sender does during the handshake.
pub enum HandshakeStep {
    /// Sends the INIT once more; [`Handshake::sent`] follows.
    Send { to: Peer },
    /// Waits for an ACK.
    Read { timeout: u128 },
    /// Gives up.
    Fail { failure: Failure },
}

impl HandshakeStep {
    /// What to do if the INIT could not be sent: it is not tried again.
    pub fn on_send_error(&self) -> (outcome: SendError)
        ensures
            outcome is Fatal,
    {
        SendError::Fatal
    }
}

/// The contents of a [`Handshake`].
pub struct HandshakeView {
    pub target: Peer,
    /// The INIT datagram.
    pub packet: Seq<u8>,
    /// How often the INIT may still be sent.
    pub attempts: usize,
    pub retransmit_timeout: u128,
    /// When the wait for an answer to the last INIT ends.
    pub deadline: Option<int>,
}

impl HandshakeView {
    /// An INIT has been sent, and there is time left for its answer.
    pub open spec fn waits(self, now: u128) -> bool {
        self.deadline matches Some(deadline) && now < deadline
    }

    /// At time `now` the handshake takes `step`, and stands at `after` then.
    pub open spec fn takes(self, now: u128, step: HandshakeStep, after: HandshakeView) -> bool {
        match step {
            HandshakeStep::Read { timeout } => {
                &&& self.waits(now)
                &&& now + timeout == self.deadline->0
                &&& after == self
            },
            HandshakeStep::Send { to } => {
                &&& !self.waits(now)
                &&& self.attempts > 0
                &&& to == self.target
                &&& after == HandshakeView {
                    attempts: (self.attempts - 1) as usize,
                    deadline: None,
                    ..self
                }
            },
            HandshakeStep::Fail { failure } => {
                &&& !self.waits(now)
                &&& self.attempts == 0
                &&& failure@ == handshake_failure()
                &&& after == self
            },
        }
    }

    /// The handshake after the wait for an answer ended in an error; none if it is over.
    pub open spec fn after_error(self, kind: ErrorKind) -> Option<HandshakeView> {
        match kind {
            ErrorKind::TimedOut => Some(HandshakeView { deadline: None, ..self }),
            ErrorKind::WouldBlock => Some(HandshakeView { deadline: None, ..self }),
            ErrorKind::Interrupted => Some(self),
            _ => None,
        }
    }

    /// The handshake once its INIT has been sent at time `at`.
    pub open spec fn sent(self, at: u128) -> HandshakeView {
        HandshakeView { deadline: Some(at + self.retransmit_timeout), ..self }
    }
}

/// The receiver that a datagram of the handshake comes from: whoever sends an ACK.
pub open spec fn acknowledged_by(from: Peer, datagram: Seq<u8>) -> Option<Peer> {
    match header_of(datagram) {
        Some(header) if header.packet_type is Ack => Some(from),
        _ => None,
    }
}

/// The failure of a handshake that nobody answered.
pub open spec fn handshake_failure() -> FailureView {
    FailureView { kind: ErrorKind::TimedOut, reason: "handshake timeout"@ }
}

/// Announces a file until a receiver answers.
pub struct Handshake {
    target: Peer,
    packet: Vec<u8>,
    attempts: usize,
    retransmit_timeout: u128,
    deadline: Option<u128>,
}

impl View for Handshake {
    type V = HandshakeView;

    closed spec fn view(&self) -> HandshakeView {
        HandshakeView {
            target: self.target,
            packet: self.packet@,
            attempts: self.attempts,
            retransmit_timeout: self.retransmit_timeout,
            deadline: match self.deadline {
                Some(at) => Some(at as int),
                None => None,
            },
        }
    }
}

impl Handshake {
    /// The handshake for a file of this name, size and digest.
    pub fn new(
        target: Peer,
        version: ProtocolVersion,
        size: u64,
        chunk_size: u32,
        hash: &[u8; 32],
        name: &str,
        limits: SendLimits,
    ) -> (handshake: Self)
        ensures
            handshake@ == (HandshakeView {
                target,
                packet: framed(
                    PacketType::Init,
                    0,
                    init_bytes(version, size, chunk_size, hash@, name@),
                ),
                attempts: limits.handshake_attempts,
                retransmit_timeout: limits.retransmit_timeout,
                deadline: None,
            }),
    {
        let payload = encode_init(version, size, chunk_size, hash, name);
        let packet = encode_packet(
            &PacketHeader {
                packet_type: PacketType::Init,
                seq: 0,
                payload_len: payload.len() as u16,
            },
            payload.as_slice(),
        );
        Handshake {
            target,
            packet,
            attempts: limits.handshake_attempts,
            retransmit_timeout: limits.retransmit_timeout,
            deadline: None,
        }
    }

    /// The INIT datagram.
    pub fn packet(&self) -> (packet: &[u8])
        ensures
            packet@ == self@.packet,
    {
        self.packet.as_slice()
    }

    /// What to do next.
    pub fn next(&mut self, now: u128) -> (step: HandshakeStep)
        ensures
            match step {
                HandshakeStep::Read { timeout } => {
                    &&& old(self)@.waits(now)
                    &&& now + timeout == old(self)@.deadline->0
                    &&& final(self)@ == old(self)@
                },
                HandshakeStep::Send { to } => {
                    &&& !old(self)@.waits(now)
                    &&& old(self)@.attempts > 0
                    &&& to == old(self)@.target
                    &&& final(self)@ == (HandshakeView {
                        attempts: (old(self)@.attempts - 1) as usize,
                        deadline: None,
                        ..old(self)@
                    })
                },
                HandshakeStep::Fail { failure } => {
                    &&& !old(self)@.waits(now)
                    &&& old(self)@.attempts == 0
                    &&& failure@ == handshake_failure()
                    &&& final(self)@ == old(self)@
                },
            },
            old(self)@.takes(now, step, final(self)@),
    {
        if let Some(deadline) = self.deadline {
            if now < deadline {
                return HandshakeStep::Read { timeout: deadline - now };
            }
        }
        if self.attempts == 0 {
            return HandshakeStep::Fail {
                failure: Failure {
                    kind: ErrorKind::TimedOut,
                    reason: String::from_str("handshake timeout"),
                },
            };
        }
        self.attempts = self.attempts - 1;
        self.deadline = None;
        HandshakeStep::Send { to: self.target }
    }

    /// The INIT has been sent at time `now`.
    pub fn sent(&mut self, now: u128)
        requires
            now <= MAX_NANOS,
            old(self)@.retransmit_timeout <= MAX_NANOS,
        ensures
            final(self)@ == (HandshakeView {
                deadline: Some(now + old(self)@.retransmit_timeout),
                ..old(self)@
            }),
            final(self)@ == old(self)@.sent(now),
    {
        self.deadline = Some(now + self.retransmit_timeout);
    }

    /// The receiver that an ACK comes from; anything else is no answer.
    pub fn on_datagram(&self, from: Peer, datagram: &[u8]) -> (receiver: Option<Peer>)
        ensures
            receiver == match header_of(datagram@) {
                Some(header) => if header.packet_type is Ack {
                    Some(from)
                } else {
                    None
                },
                None => None,
            },
            receiver == acknowledged_by(from, datagram@),
    {
        match decode_header(datagram) {
            Some(header) => if matches!(header.packet_type, PacketType::Ack) {
                Some(from)
            } else {
                None
            },
            None => None,
        }
    }

    /// Whether the handshake goes on after the wait for an answer ended in an
    /// error: a timeout ends the attempt, an interruption does not even do that.
    pub fn on_error(&mut self, kind: ErrorKind) -> (goes_on: bool)
        ensures
            goes_on == (kind is TimedOut || kind is WouldBlock || kind is Interrupted),
            final(self)@ == if kind is TimedOut || kind is WouldBlock {
                HandshakeView { deadline: None, ..old(self)@ }
            } else {
                old(self)@
            },
            goes_on ==> old(self)@.after_error(kind) == Some(final(self)@),
            !goes_on ==> old(self)@.after_error(kind) is None,
    {
        if is_timeout(kind) {
            self.deadline = None;
            return true;
        }
        matches!(kind, ErrorKind::Interrupted)
    }
}

/// Where a sender stands.
#[derive(Clone, Copy, PartialEq, Eq, Structural, Debug)]
pub enum Phase {
    /// The next chunk of the pass is due.
    Blast,
    /// A chunk has been sent.
    Sent,
    /// A chunk has been sent, and the pause after it is over.
    Rested,
    /// In the middle of a pass, looking for feedback that is there already.
    Drain,
    /// The pass is over; waiting for feedback.
    Collect,
    /// The receiver has confirmed the file.
    Complete,
}

/// What a sender does next.
pub enum SendStep {
    /// Reads a chunk from the file and sends it; [`Sender::chunk_sent`] follows.
    Chunk { to: Peer, seq: u32, offset: u64 },
    /// Lets some time pass.
    Sleep { delay: u128 },
    /// Looks for a datagram without waiting for one.
    Poll,
    /// Sends the DONE that ends a pass.
    Done { to: Peer, packet: Vec<u8> },
    /// Waits for a datagram.
    Read { timeout: u128 },
    /// Sends the FIN-ACK and reports that the transfer is complete.
    Complete { to: Peer, packet: Vec<u8> },
}

/// The contents of a [`SendStep`].
pub enum SendStepView {
    Chunk { to: Peer, seq: u32, offset: int },
    Sleep { delay: u128 },
    Poll,
    Done { to: Peer, packet: Seq<u8> },
    Read { timeout: u128 },
    Complete { to: Peer, packet: Seq<u8> },
}

impl View for SendStep {
    type V = SendStepView;

    open spec fn view(&self) -> SendStepView {
        match *self {
            SendStep::Chunk { to, seq, offset } => SendStepView::Chunk {
                to,
                seq,
                offset: offset as int,
            },
            SendStep::Sleep { delay } => SendStepView::Sleep { delay },
            SendStep::Poll => SendStepView::Poll,
            SendStep::Done { to, packet } => SendStepView::Done { to, packet: packet@ },
            SendStep::Read { timeout } => SendStepView::Read { timeout },
            SendStep::Complete { to, packet } => SendStepView::Complete { to, packet: packet@ },
        }
    }
}

/// What becomes of a sender whose wait for a datagram ended in an error, or that
/// could not send.
pub enum SendError {
    /// The error does not matter: there is no more feedback and the pass goes on, or
    /// the file is delivered.
    GoOn,
    /// The next pass begins.
    NewPass,
    /// The passes have run out.
    GaveUp { failure: Failure },
    /// The error ends the transfer.
    Fatal,
}

impl SendError {
    /// The outcome is what becomes of `sender` on an error of this kind in the wait for
    /// a datagram.
    pub open spec fn answers(self, sender: SenderView, kind: ErrorKind) -> bool {
        let late = kind is TimedOut || kind is WouldBlock;
        match self {
            SendError::GoOn => sender.phase is Drain && kind is WouldBlock,
            SendError::NewPass => {
                &&& sender.phase is Collect
                &&& late
                &&& sender.pass < sender.limits.retransmit_passes
            },
            SendError::GaveUp { failure } => {
                &&& sender.phase is Collect
                &&& late
                &&& sender.pass >= sender.limits.retransmit_passes
                &&& failure@ == passes_failure(sender.limits.retransmit_passes)
            },
            SendError::Fatal => {
                &&& !(sender.phase is Drain && kind is WouldBlock)
                &&& !(sender.phase is Collect && late)
            },
        }
    }
}

/// The failure of a transfer that took too many passes.
pub open spec fn passes_failure(passes: usize) -> FailureView {
    FailureView {
        kind: ErrorKind::Other,
        reason: "gave up after "@ + decimal(passes as nat) + " passes"@,
    }
}

/// The contents of a [`Sender`].
#[verifier::ext_equal]
pub struct SenderView {
    pub target: Peer,
    pub receiver: Peer,
    pub chunk_size: u32,
    pub total: u32,
    pub delay: Option<u128>,
    pub limits: SendLimits,
    pub start: u128,
    /// The chunks that are still to be sent in this pass.
    pub pending: Seq<u32>,
    pub progress_done: u32,
    /// How many chunks have been sent since the last look for feedback.
    pub since_drain: usize,
    pub pass: usize,
    /// What the receiver has asked for since the pass ended.
    pub missing: Seq<u32>,
    /// Whether the receiver has asked for anything since the pass ended.
    pub nacked: bool,
    pub phase: Phase,
}

impl SenderView {
    pub open spec fn wf(self) -> bool {
        &&& self.pending.no_duplicates()
        &&& self.progress_done <= self.total
        &&& self.since_drain <= FEEDBACK_DRAIN_INTERVAL
        &&& self.phase is Blast ==> self.since_drain < FEEDBACK_DRAIN_INTERVAL
        &&& self.phase is Drain ==> self.since_drain == 0
        &&& self.phase is Collect ==> self.since_drain == 0
    }

    /// What the sender does next, and where it stands then.
    pub open spec fn next(self) -> (SenderView, SendStepView) {
        match self.phase {
            Phase::Blast => self.take_chunk(),
            Phase::Sent => match self.delay {
                Some(delay) if self.pending.len() > 0 => (
                    SenderView { phase: Phase::Rested, ..self },
                    SendStepView::Sleep { delay },
                ),
                _ => self.rested(),
            },
            Phase::Rested => self.rested(),
            Phase::Drain => (self, SendStepView::Poll),
            Phase::Collect => (self, SendStepView::Read { timeout: self.read_timeout() }),
            Phase::Complete => (
                self,
                SendStepView::Complete {
                    to: self.receiver,
                    packet: control_datagram(PacketType::FinAck, 0),
                },
            ),
        }
    }

    /// Sends the next chunk; where none is left, the pass is over.
    pub open spec fn take_chunk(self) -> (SenderView, SendStepView) {
        if self.pending.len() > 0 {
            (
                SenderView { pending: self.pending.skip(1), phase: Phase::Sent, ..self },
                SendStepView::Chunk {
                    to: self.target,
                    seq: self.pending[0],
                    offset: self.pending[0] * self.chunk_size,
                },
            )
        } else {
            (
                SenderView {
                    since_drain: 0,
                    missing: Seq::empty(),
                    nacked: false,
                    phase: Phase::Collect,
                    ..self
                },
                SendStepView::Done {
                    to: self.target,
                    packet: control_datagram(PacketType::Done, self.total),
                },
            )
        }
    }

    /// Looks for feedback after enough chunks, else goes on with the next one.
    pub open spec fn rested(self) -> (SenderView, SendStepView) {
        if self.since_drain >= FEEDBACK_DRAIN_INTERVAL {
            (SenderView { since_drain: 0, phase: Phase::Drain, ..self }, SendStepView::Poll)
        } else {
            self.take_chunk()
        }
    }

    /// How long to wait for feedback: less once some has come.
    pub open spec fn read_timeout(self) -> u128 {
        if self.nacked {
            self.limits.nack_collection_timeout
        } else {
            self.limits.retransmit_timeout
        }
    }

    /// A failure to send makes no difference: the file is delivered, and only the
    /// FIN-ACK for it is lost.
    pub open spec fn survives_send_error(self) -> bool {
        self.phase is Complete
    }

    /// What is reported when a pass starts: nothing, if it is over no chunks.
    pub open spec fn pass_event(self) -> Option<TransferEvent<'static>> {
        if self.pending.len() > 0 {
            Some(
                TransferEvent::PassStarted {
                    pass: self.pass,
                    chunks: self.pending.len() as usize,
                },
            )
        } else {
            None
        }
    }

    /// What is reported of the progress at time `now`.
    pub open spec fn progress_event(self, now: u128) -> TransferEvent<'static> {
        TransferEvent::Progress {
            done: self.progress_done,
            total: self.total,
            chunk_size: self.chunk_size,
            elapsed: since(now, self.start),
        }
    }

    /// The sender after a chunk has been sent.
    pub open spec fn with_sent(self) -> SenderView {
        let done = self.total - self.pending.len();
        SenderView {
            progress_done: if self.progress_done < done {
                done as u32
            } else {
                self.progress_done
            },
            since_drain: (self.since_drain + 1) as usize,
            ..self
        }
    }

    /// The sender after a datagram: only the receiver's count.
    pub open spec fn on_datagram(self, from: Peer, datagram: Seq<u8>) -> SenderView {
        if from != self.receiver || packet_of(datagram) is None {
            self
        } else {
            let header = (packet_of(datagram)->0).0;
            let seqs = nack_seqs(header.seq as nat, payload_of(datagram));
            match (header.packet_type, self.phase) {
                (PacketType::Fin, Phase::Drain) => SenderView { phase: Phase::Complete, ..self },
                (PacketType::Fin, Phase::Collect) => SenderView { phase: Phase::Complete, ..self },
                (PacketType::Nack, Phase::Drain) => SenderView {
                    pending: enqueued(self.pending, seqs),
                    ..self
                },
                (PacketType::Nack, Phase::Collect) => SenderView {
                    missing: self.missing + seqs,
                    nacked: true,
                    ..self
                },
                _ => self,
            }
        }
    }

    /// The sender after the wait for a datagram ended in an error: in the middle of a
    /// pass there is no more feedback, and after one the next pass begins, if there
    /// may be another.
    pub open spec fn after_error(self, kind: ErrorKind) -> SenderView {
        if self.phase is Drain && kind is WouldBlock {
            SenderView { phase: Phase::Blast, ..self }
        } else if self.phase is Collect && (kind is TimedOut || kind is WouldBlock) && self.pass
            < self.limits.retransmit_passes {
            self.next_pass()
        } else {
            self
        }
    }

    /// The sender at the start of the next pass.
    pub open spec fn next_pass(self) -> SenderView {
        SenderView {
            pass: (self.pass + 1) as usize,
            pending: enqueued(self.pending, enqueued(Seq::empty(), self.missing)),
            missing: Seq::empty(),
            phase: Phase::Blast,
            ..self
        }
    }
}

/// A sender whose file a receiver has agreed to take.
pub struct Sender {
    target: Peer,
    receiver: Peer,
    chunk_size: u32,
    total: u32,
    delay: Option<u128>,
    limits: SendLimits,
    start: u128,
    blast: Blast,
    progress_done: u32,
    since_drain: usize,
    pass: usize,
    missing: Vec<u32>,
    nacked: bool,
    phase: Phase,
}

impl View for Sender {
    type V = SenderView;

    closed spec fn view(&self) -> SenderView {
        SenderView {
            target: self.target,
            receiver: self.receiver,
            chunk_size: self.chunk_size,
            total: self.total,
            delay: self.delay,
            limits: self.limits,
            start: self.start,
            pending: self.blast@,
            progress_done: self.progress_done,
            since_drain: self.since_drain,
            pass: self.pass,
            missing: self.missing@,
            nacked: self.nacked,
            phase: self.phase,
        }
    }
}

impl Sender {
    /// The parts agree with one another.
    pub closed spec fn wf(&self) -> bool {
        &&& self.blast.wf()
        &&& self@.wf()
    }

    /// The invariant of the contents.
    pub proof fn lemma_wf(&self)
        requires
            self.wf(),
        ensures
            self@.wf(),
    {
    }

    /// A sender at the start of its first pass, over every chunk.
    pub fn new(
        target: Peer,
        receiver: Peer,
        chunk_size: u32,
        total: u32,
        delay: Option<u128>,
        limits: SendLimits,
        start: u128,
    ) -> (sender: Self)
        ensures
            sender.wf(),
            sender@ == (SenderView {
                target,
                receiver,
                chunk_size,
                total,
                delay,
                limits,
                start,
                pending: all_chunks(total as nat),
                progress_done: 0,
                since_drain: 0,
                pass: 1,
                missing: Seq::empty(),
                nacked: false,
                phase: Phase::Blast,
            }),
    {
        let sender = Sender {
            target,
            receiver,
            chunk_size,
            total,
            delay,
            limits,
            start,
            blast: Blast::new(total),
            progress_done: 0,
            since_drain: 0,
            pass: 1,
            missing: Vec::new(),
            nacked: false,
            phase: Phase::Blast,
        };
        assert(sender@.missing =~= Seq::empty());
        sender
    }

    /// How many chunks are still to be sent in this pass.
    pub fn pending(&self) -> (n: usize)
        ensures
            n == self@.pending.len(),
    {
        self.blast.len()
    }

    /// What to report at the start of a pass: nothing when there is nothing to send.
    pub fn pass_started(&self) -> (event: Option<TransferEvent<'static>>)
        ensures
            match event {
                Some(event) => {
                    &&& self@.pending.len() > 0
                    &&& event matches TransferEvent::PassStarted { pass, chunks }
                    &&& pass == self@.pass
                    &&& chunks == self@.pending.len()
                },
                None => self@.pending.len() == 0,
            },
            event == self@.pass_event(),
    {
        let chunks: usize = self.blast.len();
        if chunks > 0 {
            Some(TransferEvent::PassStarted { pass: self.pass, chunks })
        } else {
            None
        }
    }

    /// What to do next.
    pub fn next(&mut self) -> (step: SendStep)
        requires
            old(self).wf(),
        ensures
            final(self).wf(),
            (final(self)@, step@) == old(self)@.next(),
            step matches SendStep::Chunk { to, seq, offset } ==> {
                &&& to == old(self)@.target
                &&& offset == seq * old(self)@.chunk_size
            },
            step is Chunk ==> final(self)@.since_drain < FEEDBACK_DRAIN_INTERVAL,
    {
        match self.phase {
            Phase::Blast => self.take_chunk(),
            Phase::Sent => {
                if let Some(delay) = self.delay {
                    if self.blast.len() > 0 {
                        self.phase = Phase::Rested;
                        return SendStep::Sleep { delay };
                    }
                }
                self.rested()
            },
            Phase::Rested => self.rested(),
            Phase::Drain => SendStep::Poll,
            Phase::Collect => SendStep::Read {
                timeout: if self.nacked {
                    self.limits.nack_collection_timeout
                } else {
                    self.limits.retransmit_timeout
                },
            },
            Phase::Complete => SendStep::Complete {
                to: self.receiver,
                packet: encode_control(PacketType::FinAck, 0),
            },
        }
    }

    /// Looks for feedback after enough chunks, else goes on with the next one.
    fn rested(&mut self) -> (step: SendStep)
        requires
            old(self).wf(),
        ensures
            final(self).wf(),
            (final(self)@, step@) == old(self)@.rested(),
            step is Chunk ==> final(self)@.since_drain < FEEDBACK_DRAIN_INTERVAL,
    {
        if self.since_drain >= FEEDBACK_DRAIN_INTERVAL {
            self.since_drain = 0;
            self.phase = Phase::Drain;
            return SendStep::Poll;
        }
        self.take_chunk()
    }

    /// Sends the next chunk; where none is left, the pass is over.
    fn take_chunk(&mut self) -> (step: SendStep)
        requires
            old(self).wf(),
            old(self)@.since_drain < FEEDBACK_DRAIN_INTERVAL,
        ensures
            final(self).wf(),
            (final(self)@, step@) == old(self)@.take_chunk(),
            step is Chunk ==> final(self)@.since_drain < FEEDBACK_DRAIN_INTERVAL,
    {
        match self.blast.pop() {
            Some(seq) => {
                proof {
                    self.blast.lemma_wf();
                    assert(seq * self.chunk_size <= u64::MAX) by (nonlinear_arith)
                        requires
                            seq <= u32::MAX,
                            self.chunk_size <= u32::MAX,
                    ;
                }
                self.phase = Phase::Sent;
                SendStep::Chunk {
                    to: self.target,
                    seq,
                    offset: seq as u64 * self.chunk_size as u64,
                }
            },
            None => {
                self.since_drain = 0;
                self.missing = Vec::new();
                self.nacked = false;
                self.phase = Phase::Collect;
                assert(self@.missing =~= Seq::empty());
                SendStep::Done {
                    to: self.target,
                    packet: encode_control(PacketType::Done, self.total),
                }
            },
        }
    }

    /// A chunk has been sent. No more chunks may be pending than the file has, and
    /// no more are while the receiver asks for chunks of the file alone.
    pub fn chunk_sent(&mut self)
        requires
            old(self).wf(),
            old(self)@.phase is Sent,
            old(self)@.since_drain < FEEDBACK_DRAIN_INTERVAL,
            old(self)@.pending.len() <= old(self)@.total,
        ensures
            final(self).wf(),
            final(self)@ == old(self)@.with_sent(),
    {
        let done: u32 = self.total - self.blast.len() as u32;
        if self.progress_done < done {
            self.progress_done = done;
        }
        self.since_drain = self.since_drain + 1;
    }

    /// What to report when a chunk has been sent.
    pub fn progress(&self, now: u128) -> (event: TransferEvent<'static>)
        ensures
            event matches TransferEvent::Progress { done, total, chunk_size, elapsed } && {
                &&& done == self@.progress_done
                &&& total == self@.total
                &&& chunk_size == self@.chunk_size
                &&& elapsed == since(now, self@.start)
            },
            event == self@.progress_event(now),
    {
        TransferEvent::Progress {
            done: self.progress_done,
            total: self.total,
            chunk_size: self.chunk_size,
            elapsed: time_since(now, self.start),
        }
    }

    /// Takes in a datagram.
    pub fn on_datagram(&mut self, from: Peer, datagram: &[u8])
        requires
            old(self).wf(),
        ensures
            final(self).wf(),
            final(self)@ == old(self)@.on_datagram(from, datagram@),
    {
        if from != self.receiver {
            return ;
        }
        assert(datagram@.take(datagram@.len() as int) == datagram@);
        let (header, payload_end) = match parse_packet(datagram, datagram.len()) {
            Some(packet) => packet,
            None => return ,
        };
        let payload = vstd::slice::slice_subrange(datagram, HEADER_SIZE, payload_end);
        match header.packet_type {
            PacketType::Fin => match self.phase {
                Phase::Drain | Phase::Collect => {
                    self.phase = Phase::Complete;
                },
                _ => {},
            },
            PacketType::Nack => match self.phase {
                Phase::Drain => {
                    let mut nacks: Vec<u32> = Vec::new();
                    decode_nack_payload(header.seq as usize, payload, &mut nacks);
                    assert(nacks@ =~= nack_seqs(header.seq as nat, payload@));
                    self.blast.enqueue(nacks.as_slice());
                    proof {
                        self.blast.lemma_wf();
                    }
                },
                Phase::Collect => {
                    decode_nack_payload(header.seq as usize, payload, &mut self.missing);
                    self.nacked = true;
                },
                _ => {},
            },
            _ => {},
        }
    }

    /// What a failure to send means: the FIN-ACK is best effort, since the file is
    /// delivered; without any other packet the transfer cannot go on.
    pub fn on_send_error(&self) -> (outcome: SendError)
        requires
            self.wf(),
        ensures
            self@.phase is Complete ==> outcome is GoOn,
            !(self@.phase is Complete) ==> outcome is Fatal,
            outcome is GoOn <==> self@.survives_send_error(),
    {
        match self.phase {
            Phase::Complete => SendError::GoOn,
            _ => SendError::Fatal,
        }
    }

    /// Takes in that the wait for a datagram ended in an error.
    pub fn on_error(&mut self, kind: ErrorKind) -> (outcome: SendError)
        requires
            old(self).wf(),
        ensures
            final(self).wf(),
            final(self)@ == old(self)@.after_error(kind),
            outcome.answers(old(self)@, kind),
            match outcome {
                SendError::GoOn => {
                    &&& old(self)@.phase is Drain
                    &&& kind is WouldBlock
                },
                SendError::NewPass => {
                    &&& old(self)@.phase is Collect
                    &&& kind is TimedOut || kind is WouldBlock
                    &&& old(self)@.pass < old(self)@.limits.retransmit_passes
                },
                SendError::GaveUp { failure } => {
                    &&& old(self)@.phase is Collect
                    &&& kind is TimedOut || kind is WouldBlock
                    &&& old(self)@.pass >= old(self)@.limits.retransmit_passes
                    &&& failure@ == passes_failure(old(self)@.limits.retransmit_passes)
                },
                SendError::Fatal => {
                    &&& !(old(self)@.phase is Drain && kind is WouldBlock)
                    &&& !(old(self)@.phase is Collect && (kind is TimedOut || kind is WouldBlock))
                },
            },
    {
        if matches!(self.phase, Phase::Drain) && matches!(kind, ErrorKind::WouldBlock) {
            self.phase = Phase::Blast;
            return SendError::GoOn;
        }
        if !matches!(self.phase, Phase::Collect) || !is_timeout(kind) {
            return SendError::Fatal;
        }
        if self.pass >= self.limits.retransmit_passes {
            let mut reason = String::from_str("gave up after ");
            put_decimal(&mut reason, self.limits.retransmit_passes as u64);
            reason.append(" passes");
            return SendError::GaveUp { failure: Failure { kind: ErrorKind::Other, reason } };
        }
        self.pass = self.pass + 1;
        dedup(&mut self.missing);
        self.blast.enqueue(self.missing.as_slice());
        proof {
            self.blast.lemma_wf();
        }
        self.missing = Vec::new();
        self.phase = Phase::Blast;
        assert(self@.missing =~= Seq::empty());
        SendError::NewPass
    }
}

} // verus!
