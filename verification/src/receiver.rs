//! The receiver: what to do on each datagram, timeout and failure, from the
//! first INIT to the last FIN.
use vstd::prelude::*;

use crate::init::init_of;
use crate::protocol::{
    control_datagram, encode_control, is_timeout, packet_of, parse_packet, payload_of, ErrorKind,
    PacketType, RecvLimits, HEADER_SIZE, MAX_NANOS, NANOS_PER_MILLI,
};
use crate::recv::{
    body_of, datagrams, fresh, idle_failure, missing_below, nack_packets, since, DoneOutcome,
    Failure, FailureView, ReceiveState, ReceiveView, TickOutcome, Verified,
};
use crate::text::text_of;

verus! {

/// The address of the other end of a transfer.
#[allow(inconsistent_fields)]
#[derive(Clone, Copy, PartialEq, Eq, Structural, Debug)]
pub enum Peer {
    V4 { ip: u32, port: u16 },
    V6 { ip: u128, port: u16, flowinfo: u32, scope_id: u32 },
}

/// What a receiver does next.
pub enum Step<'p> {
    /// Nothing but to wait for the next datagram.
    Wait,
    /// Acknowledges an INIT.
    Ack { to: Peer, packet: Vec<u8> },
    /// Reports that an INIT is refused.
    BadInit { reason: String },
    /// Creates the temporary file of a transfer; [`Receiver::opened`] follows.
    Open { from: Peer, state: ReceiveState },
    /// Writes a chunk to the temporary file; [`Receiver::written`] follows.
    Write { seq: u32, offset: u64, body: &'p [u8] },
    /// Asks for missing chunks, and reports how many there are if that is to be
    /// said; [`Receiver::nacked`] follows.
    Nack { to: Peer, missing: Option<usize>, packets: Vec<Vec<u8>> },
    /// Checks the temporary file and moves it into place; [`Receiver::completed`] follows.
    Flush { to: Peer },
    /// Gives the transfer up through [`Receiver::abandon`].
    Abandon { failure: Failure },
}

/// The contents of a [`Step`].
#[verifier::ext_equal]
pub enum StepView {
    Wait,
    Ack { to: Peer, packet: Seq<u8> },
    BadInit { reason: Seq<char> },
    Open { from: Peer, state: ReceiveView },
    Write { seq: u32, offset: int, body: Seq<u8> },
    Nack { to: Peer, missing: Option<nat>, packets: Seq<Seq<u8>> },
    Flush { to: Peer },
    Abandon { failure: FailureView },
}

impl<'p> View for Step<'p> {
    type V = StepView;

    open spec fn view(&self) -> StepView {
        match *self {
            Step::Wait => StepView::Wait,
            Step::Ack { to, packet } => StepView::Ack { to, packet: packet@ },
            Step::BadInit { reason } => StepView::BadInit { reason: reason@ },
            Step::Open { from, state } => StepView::Open { from, state: state@ },
            Step::Write { seq, offset, body } => StepView::Write {
                seq,
                offset: offset as int,
                body: body@,
            },
            Step::Nack { to, missing, packets } => StepView::Nack {
                to,
                missing: match missing {
                    Some(n) => Some(n as nat),
                    None => None,
                },
                packets: datagrams(packets@),
            },
            Step::Flush { to } => StepView::Flush { to },
            Step::Abandon { failure } => StepView::Abandon { failure: failure@ },
        }
    }
}

/// What becomes of a receiver that could not do what a step asks for.
#[derive(Clone, Copy, PartialEq, Eq, Structural, Debug)]
pub enum OnFailure {
    /// It goes on as if nothing had happened.
    GoOn,
    /// It gives the transfer up through [`Receiver::abandon`].
    Abandon,
    /// It ends with the error, even if it serves.
    End,
}

impl StepView {
    /// What a failure to send means: an ACK or a FIN that cannot be sent ends the
    /// receiver, a NACK that cannot be sent ends the transfer. The other steps send
    /// nothing.
    pub open spec fn on_send_error(self) -> OnFailure {
        match self {
            StepView::Ack { .. } => OnFailure::End,
            StepView::Open { .. } => OnFailure::End,
            StepView::Flush { .. } => OnFailure::End,
            StepView::Nack { .. } => OnFailure::Abandon,
            _ => OnFailure::GoOn,
        }
    }

    /// What a failure on a file means: where the temporary file cannot be created
    /// the INIT is refused, and where it cannot be written, or is not the announced
    /// one, the transfer ends. The other steps touch no file.
    pub open spec fn on_file_error(self) -> OnFailure {
        match self {
            StepView::Write { .. } => OnFailure::Abandon,
            StepView::Flush { .. } => OnFailure::Abandon,
            _ => OnFailure::GoOn,
        }
    }
}

impl<'p> Step<'p> {
    /// What to do if the packet of this step, or the answer that follows it, could
    /// not be sent.
    pub fn on_send_error(&self) -> (outcome: OnFailure)
        ensures
            outcome == self@.on_send_error(),
    {
        match self {
            Step::Ack { .. } => OnFailure::End,
            Step::Open { .. } => OnFailure::End,
            Step::Flush { .. } => OnFailure::End,
            Step::Nack { .. } => OnFailure::Abandon,
            _ => OnFailure::GoOn,
        }
    }

    /// What to do if the file of this step could not be created, written, or checked
    /// and moved into place.
    pub fn on_file_error(&self) -> (outcome: OnFailure)
        ensures
            outcome == self@.on_file_error(),
    {
        match self {
            Step::Write { .. } => OnFailure::Abandon,
            Step::Flush { .. } => OnFailure::Abandon,
            _ => OnFailure::GoOn,
        }
    }
}

/// The contents of a [`Receiver`].
pub struct ReceiverView {
    pub out: Option<Seq<char>>,
    pub serve: bool,
    pub linger_timeout: u128,
    pub limits: RecvLimits,
    pub state: Option<ReceiveView>,
    pub sender: Option<Peer>,
    pub last_data_at: u128,
    pub last_nack_at: Option<u128>,
}

impl ReceiverView {
    /// A transfer has a sender, and every point in time is one that a clock can give.
    pub open spec fn wf(self) -> bool {
        &&& self.limits.wf()
        &&& self.linger_timeout <= MAX_NANOS
        &&& self.state matches Some(state) ==> state.wf()
        &&& self.state is Some ==> self.sender is Some
        &&& self.last_data_at <= MAX_NANOS
        &&& self.last_nack_at matches Some(at) ==> at <= MAX_NANOS
    }

    /// The receiver waits for an INIT from anyone.
    pub open spec fn listening(self) -> ReceiverView {
        ReceiverView { state: None, sender: None, last_nack_at: None, ..self }
    }

    /// The receiver once the temporary file of `state` has been created.
    pub open spec fn opened(self, from: Peer, state: ReceiveView, now: u128) -> ReceiverView {
        ReceiverView {
            state: Some(ReceiveView { start: now, ..state }),
            sender: Some(from),
            last_nack_at: None,
            ..self
        }
    }

    /// The receiver once chunk `seq` has been written.
    pub open spec fn written(self, seq: u32, now: u128) -> ReceiverView {
        ReceiverView { state: Some((self.state->0).with_stored(seq, now)), ..self }
    }

    /// The receiver once the missing chunks have been asked for.
    pub open spec fn nacked(self, at: u128) -> ReceiverView {
        ReceiverView { last_nack_at: Some(at), ..self }
    }

    /// A FIN is due: every chunk is stored, and the file has the announced digest.
    pub open spec fn may_complete(self, digest: Seq<u8>) -> bool {
        self.state matches Some(state) && state.complete() && state.accepts(digest)
    }

    /// The receiver once its file is in place.
    pub open spec fn completed(self) -> ReceiverView {
        ReceiverView { state: None, ..self }
    }

    /// The receiver once its transfer has been given up: it listens again if it serves.
    pub open spec fn abandoned(self) -> ReceiverView {
        if self.serve {
            self.listening()
        } else {
            self
        }
    }

    /// During a transfer only its sender is heard.
    pub open spec fn hears(self, from: Peer) -> bool {
        self.sender matches Some(sender) ==> from == sender
    }

    /// The receiver after a datagram from `from`: it is a sign of life if it is heard.
    pub open spec fn after_datagram(self, from: Peer, now: u128) -> ReceiverView {
        if self.hears(from) {
            ReceiverView { last_data_at: now, ..self }
        } else {
            self
        }
    }

    /// What the receiver does on a datagram from `from`.
    pub open spec fn on_datagram(self, from: Peer, datagram: Seq<u8>, now: u128) -> StepView {
        if !self.hears(from) || packet_of(datagram) is None {
            StepView::Wait
        } else {
            let header = (packet_of(datagram)->0).0;
            let payload = payload_of(datagram);
            match header.packet_type {
                PacketType::Init => self.on_init(from, payload, now),
                PacketType::Data => self.on_data(header.seq, payload),
                PacketType::Done => self.on_done(),
                _ => StepView::Wait,
            }
        }
    }

    /// An INIT opens a transfer; once there is one, it is only acknowledged again.
    pub open spec fn on_init(self, from: Peer, payload: Seq<u8>, now: u128) -> StepView {
        if self.state is Some {
            StepView::Ack { to: from, packet: control_datagram(PacketType::Ack, 0) }
        } else {
            match init_of(payload, self.out) {
                Err(reason) => StepView::BadInit { reason },
                Ok(init) => StepView::Open { from, state: fresh(init, now) },
            }
        }
    }

    /// A chunk is written if its digest is right and it is wanted.
    pub open spec fn on_data(self, seq: u32, payload: Seq<u8>) -> StepView {
        match self.state {
            Some(state) => match body_of(state.init.version, payload) {
                Some(body) if state.wants(seq, body.len()) => StepView::Write {
                    seq,
                    offset: state.offset(seq as int),
                    body,
                },
                _ => StepView::Wait,
            },
            None => StepView::Wait,
        }
    }

    /// A DONE ends a transfer that is complete; else all that is missing is asked for.
    pub open spec fn on_done(self) -> StepView {
        match (self.sender, self.state) {
            (Some(to), Some(state)) => if state.complete() {
                StepView::Flush { to }
            } else {
                let missing = missing_below(state.received, state.init.total as nat);
                StepView::Nack { to, missing: Some(missing.len()), packets: nack_packets(missing) }
            },
            _ => StepView::Wait,
        }
    }

    /// What the receiver does when no datagram has come in time.
    pub open spec fn on_timeout(self, now: u128) -> StepView {
        match (self.sender, self.state) {
            (Some(to), Some(state)) => {
                if since(now, self.last_data_at) >= self.limits.idle_timeout {
                    StepView::Abandon { failure: idle_failure() }
                } else {
                    match state.nack_deadline(self.limits.nack_holdoff, self.last_nack_at) {
                        Some(due) if now >= due => StepView::Nack {
                            to,
                            missing: None,
                            packets: nack_packets(
                                missing_below(state.received, state.frontier as nat),
                            ),
                        },
                        _ => StepView::Wait,
                    }
                }
            },
            _ => StepView::Wait,
        }
    }

    /// What the receiver does when the wait for a datagram ended in an error: it acts if
    /// the time was up, and waits on if it was interrupted; any other error ends it.
    pub open spec fn on_error(self, kind: ErrorKind, now: u128) -> Option<StepView> {
        match kind {
            ErrorKind::TimedOut => Some(self.on_timeout(now)),
            ErrorKind::WouldBlock => Some(self.on_timeout(now)),
            ErrorKind::Interrupted => Some(StepView::Wait),
            _ => None,
        }
    }

    /// How long the receiver waits for a datagram: until there is something to do, but a
    /// millisecond at least; with no transfer, as long as it takes.
    pub open spec fn read_timeout(self, now: u128) -> Option<u128> {
        match self.state {
            Some(state) => {
                let due = state.deadline(self.last_data_at, self.last_nack_at, self.limits);
                if due < now + NANOS_PER_MILLI {
                    Some(NANOS_PER_MILLI)
                } else {
                    Some((due - now) as u128)
                }
            },
            None => None,
        }
    }
}

/// A receiver: listening, or in the middle of a transfer.
pub struct Receiver {
    out: Option<String>,
    serve: bool,
    linger_timeout: u128,
    limits: RecvLimits,
    state: Option<ReceiveState>,
    sender: Option<Peer>,
    last_data_at: u128,
    last_nack_at: Option<u128>,
}

impl View for Receiver {
    type V = ReceiverView;

    closed spec fn view(&self) -> ReceiverView {
        ReceiverView {
            out: match self.out {
                Some(path) => Some(path@),
                None => None,
            },
            serve: self.serve,
            linger_timeout: self.linger_timeout,
            limits: self.limits,
            state: match self.state {
                Some(state) => Some(state@),
                None => None,
            },
            sender: self.sender,
            last_data_at: self.last_data_at,
            last_nack_at: self.last_nack_at,
        }
    }
}

impl Receiver {
    /// The parts agree with one another.
    pub closed spec fn wf(&self) -> bool {
        &&& self@.wf()
        &&& self.state matches Some(state) ==> state.wf()
    }

    /// The invariant of the contents.
    pub proof fn lemma_wf(&self)
        requires
            self.wf(),
        ensures
            self@.wf(),
    {
    }

    /// A receiver that listens; `out` is where its files go, if not to the
    /// names that the senders give.
    pub fn new(
        out: Option<&str>,
        serve: bool,
        linger_timeout: u128,
        limits: RecvLimits,
        now: u128,
    ) -> (receiver: Self)
        requires
            limits.wf(),
            linger_timeout <= MAX_NANOS,
            now <= MAX_NANOS,
        ensures
            receiver.wf(),
            receiver@ == (ReceiverView {
                out: text_of(out),
                serve,
                linger_timeout,
                limits,
                state: None,
                sender: None,
                last_data_at: now,
                last_nack_at: None,
            }),
    {
        Receiver {
            out: match out {
                Some(path) => Some(String::from_str(path)),
                None => None,
            },
            serve,
            linger_timeout,
            limits,
            state: None,
            sender: None,
            last_data_at: now,
            last_nack_at: None,
        }
    }

    /// The transfer that is being received.
    pub fn state(&self) -> (state: Option<&ReceiveState>)
        requires
            self.wf(),
        ensures
            match state {
                Some(state) => state.wf() && self@.state == Some(state@),
                None => self@.state is None,
            },
    {
        match &self.state {
            Some(state) => Some(state),
            None => None,
        }
    }

    /// How long to wait for the next datagram; with no transfer, as long as it takes.
    pub fn read_timeout(&self, now: u128) -> (timeout: Option<u128>)
        requires
            self.wf(),
        ensures
            match self@.state {
                Some(state) => timeout == Some(
                    ({
                        let rest = state.deadline(
                            self@.last_data_at,
                            self@.last_nack_at,
                            self@.limits,
                        ) - now;
                        if rest < NANOS_PER_MILLI {
                            NANOS_PER_MILLI
                        } else {
                            rest as u128
                        }
                    }),
                ),
                None => timeout is None,
            },
            timeout == self@.read_timeout(now),
    {
        match &self.state {
            Some(state) => Some(
                state.read_timeout(self.last_data_at, self.last_nack_at, self.limits, now),
            ),
            None => None,
        }
    }

    /// What to do when the wait for a datagram ended in an error; none when the
    /// error ends the receiver.
    pub fn on_error(&self, kind: ErrorKind, now: u128) -> (step: Option<Step<'static>>)
        requires
            self.wf(),
        ensures
            match step {
                Some(step) => {
                    ||| (kind is TimedOut || kind is WouldBlock) && step@ == self@.on_timeout(now)
                    ||| kind is Interrupted && step@ == StepView::Wait
                },
                None => !(kind is TimedOut || kind is WouldBlock || kind is Interrupted),
            },
            match step {
                Some(step) => self@.on_error(kind, now) == Some(step@),
                None => self@.on_error(kind, now) is None,
            },
    {
        if is_timeout(kind) {
            Some(self.on_timeout(now))
        } else if matches!(kind, ErrorKind::Interrupted) {
            Some(Step::Wait)
        } else {
            None
        }
    }

    /// What to do when no datagram has come in time.
    fn on_timeout(&self, now: u128) -> (step: Step<'static>)
        requires
            self.wf(),
        ensures
            step@ == self@.on_timeout(now),
    {
        match (&self.state, self.sender) {
            (Some(state), Some(to)) => match state.on_idle_tick(
                self.last_data_at,
                self.last_nack_at,
                self.limits,
                now,
            ) {
                TickOutcome::Expired(failure) => Step::Abandon { failure },
                TickOutcome::Nacked(packets) => Step::Nack { to, missing: None, packets },
                TickOutcome::Waiting => Step::Wait,
            },
            _ => Step::Wait,
        }
    }

    /// What to do on a datagram.
    pub fn on_datagram<'p>(&mut self, from: Peer, datagram: &'p [u8], now: u128) -> (step: Step<'p>)
        requires
            old(self).wf(),
            now <= MAX_NANOS,
        ensures
            final(self).wf(),
            final(self)@ == old(self)@.after_datagram(from, now),
            old(self)@.hears(from) ==> final(self)@.last_data_at == now,
            step@ == old(self)@.on_datagram(from, datagram@, now),
            step matches Step::Open { state, .. } ==> state.wf(),
            step matches Step::Write { seq, offset, .. } ==> {
                &&& old(self)@.state matches Some(state)
                &&& offset == seq * state.init.chunk_size
            },
    {
        if let Some(sender) = self.sender {
            if from != sender {
                return Step::Wait;
            }
        }
        self.last_data_at = now;
        assert(datagram@.take(datagram@.len() as int) == datagram@);
        let (header, payload_end) = match parse_packet(datagram, datagram.len()) {
            Some(packet) => packet,
            None => return Step::Wait,
        };
        let payload = vstd::slice::slice_subrange(datagram, HEADER_SIZE, payload_end);
        match header.packet_type {
            PacketType::Init => self.on_init(from, payload, now),
            PacketType::Data => self.on_data(header.seq, payload),
            PacketType::Done => self.on_done(),
            _ => Step::Wait,
        }
    }

    /// What to do on an INIT.
    fn on_init(&self, from: Peer, payload: &[u8], now: u128) -> (step: Step<'static>)
        requires
            self.wf(),
            now <= MAX_NANOS,
        ensures
            step@ == self@.on_init(from, payload@, now),
            step matches Step::Open { state, .. } ==> state.wf(),
    {
        if self.state.is_some() {
            return Step::Ack { to: from, packet: encode_control(PacketType::Ack, 0) };
        }
        let out = match &self.out {
            Some(path) => Some(path.as_str()),
            None => None,
        };
        match ReceiveState::new(payload, out, now) {
            Err(reason) => Step::BadInit { reason },
            Ok(state) => Step::Open { from, state },
        }
    }

    /// What to do on a chunk.
    fn on_data<'p>(&self, seq: u32, payload: &'p [u8]) -> (step: Step<'p>)
        requires
            self.wf(),
            payload@.len() <= u16::MAX,
        ensures
            step@ == self@.on_data(seq, payload@),
    {
        match &self.state {
            Some(state) => match state.accept_data(seq, payload) {
                Some((offset, body)) => Step::Write { seq, offset, body },
                None => Step::Wait,
            },
            None => Step::Wait,
        }
    }

    /// What to do on a DONE.
    fn on_done(&self) -> (step: Step<'static>)
        requires
            self.wf(),
        ensures
            step@ == self@.on_done(),
    {
        match (self.sender, &self.state) {
            (Some(to), Some(state)) => match state.handle_done() {
                DoneOutcome::Complete => Step::Flush { to },
                DoneOutcome::Incomplete { missing, packets } => Step::Nack {
                    to,
                    missing: Some(missing),
                    packets,
                },
            },
            _ => Step::Wait,
        }
    }

    /// The temporary file of the transfer has been created at time `now`; the
    /// answer to the INIT is an ACK.
    pub fn opened(&mut self, from: Peer, state: ReceiveState, now: u128) -> (ack: Vec<u8>)
        requires
            old(self).wf(),
            state.wf(),
            now <= MAX_NANOS,
        ensures
            final(self).wf(),
            final(self)@ == old(self)@.opened(from, state@, now),
            ack@ == control_datagram(PacketType::Ack, 0),
    {
        let mut state = state;
        state.begin(now);
        proof {
            state.lemma_wf();
        }
        self.sender = Some(from);
        self.state = Some(state);
        self.last_nack_at = None;
        encode_control(PacketType::Ack, 0)
    }

    /// Chunk `seq` has been written at time `now`.
    pub fn written(&mut self, seq: u32, now: u128)
        requires
            old(self).wf(),
            old(self)@.state matches Some(state) && seq < state.init.total && !state.received.contains(
                seq as int,
            ),
            now <= MAX_NANOS,
        ensures
            final(self).wf(),
            final(self)@ == old(self)@.written(seq, now),
    {
        if let Some(state) = &mut self.state {
            state.stored(seq, now);
            proof {
                state.lemma_wf();
            }
        }
    }

    /// The missing chunks have been asked for at time `at`.
    pub fn nacked(&mut self, at: u128)
        requires
            old(self).wf(),
            at <= MAX_NANOS,
        ensures
            final(self).wf(),
            final(self)@ == old(self)@.nacked(at),
    {
        self.last_nack_at = Some(at);
    }

    /// The file is in place: the transfer is over, and a FIN tells its sender so.
    /// There is no FIN for a transfer that is not complete, nor for a file that has
    /// not passed the integrity check.
    pub fn completed(&mut self, verified: Verified) -> (fin: Fin)
        requires
            old(self).wf(),
            old(self)@.may_complete(verified@),
        ensures
            final(self).wf(),
            final(self)@ == old(self)@.completed(),
            Some(fin.recipient()) == old(self)@.sender,
            fin.datagram() == control_datagram(PacketType::Fin, 0),
    {
        let to = self.sender.unwrap();
        self.state = None;
        Fin { to, packet: encode_control(PacketType::Fin, 0) }
    }

    /// Goes back to listening for an INIT from anyone.
    pub fn reset(&mut self)
        requires
            old(self).wf(),
        ensures
            final(self).wf(),
            final(self)@ == old(self)@.listening(),
    {
        self.state = None;
        self.sender = None;
        self.last_nack_at = None;
    }

    /// Gives the transfer up: a serving receiver goes back to listening, and the
    /// reason is to be reported; any other ends with the failure.
    pub fn abandon(&mut self, failure: Failure) -> (result: Result<String, Failure>)
        requires
            old(self).wf(),
        ensures
            final(self).wf(),
            match result {
                Ok(reason) => {
                    &&& old(self)@.serve
                    &&& reason@ == failure@.reason
                    &&& final(self)@ == old(self)@.listening()
                },
                Err(failed) => {
                    &&& !old(self)@.serve
                    &&& failed == failure
                    &&& final(self)@ == old(self)@
                },
            },
            final(self)@ == old(self)@.abandoned(),
    {
        if !self.serve {
            return Err(failure);
        }
        self.reset();
        Ok(failure.reason)
    }

    /// Whether the receiver goes on listening after a transfer.
    pub fn serve(&self) -> (serve: bool)
        ensures
            serve == self@.serve,
    {
        self.serve
    }

    /// How long to linger after a transfer.
    pub fn linger_timeout(&self) -> (timeout: u128)
        ensures
            timeout == self@.linger_timeout,
    {
        self.linger_timeout
    }
}

/// The FIN of a transfer whose file is in place: only [`Receiver::completed`] hands
/// one out.
pub struct Fin {
    to: Peer,
    packet: Vec<u8>,
}

impl Fin {
    pub closed spec fn recipient(&self) -> Peer {
        self.to
    }

    pub closed spec fn datagram(&self) -> Seq<u8> {
        self.packet@
    }

    /// The sender of the transfer.
    pub fn to(&self) -> (to: Peer)
        ensures
            to == self.recipient(),
    {
        self.to
    }

    /// The datagram.
    pub fn packet(&self) -> (packet: &[u8])
        ensures
            packet@ == self.datagram(),
    {
        self.packet.as_slice()
    }
}

/// What could not be done to the temporary file of a transfer.
#[derive(Clone, Copy, PartialEq, Eq, Structural, Debug)]
pub enum OpenStage {
    Create,
    SetLen,
}

/// Why a transfer is refused whose temporary file could not be set up.
pub open spec fn open_refusal(stage: OpenStage, path: Seq<char>, error: Seq<char>) -> Seq<char> {
    (match stage {
        OpenStage::Create => "create "@,
        OpenStage::SetLen => "set_len "@,
    }) + path + ": "@ + error
}

/// Why a transfer is refused whose temporary file could not be set up.
pub fn open_failed(stage: OpenStage, path: &str, error: &str) -> (reason: String)
    ensures
        reason@ == open_refusal(stage, path@, error@),
{
    let mut reason = match stage {
        OpenStage::Create => String::from_str("create "),
        OpenStage::SetLen => String::from_str("set_len "),
    };
    reason.append(path);
    reason.append(": ");
    reason.append(error);
    reason
}

/// What a lingering receiver does.
pub enum LingerStep {
    /// Goes on waiting.
    Wait,
    /// Sends the FIN again; [`Linger::rearm`] follows.
    Fin { to: Peer, packet: Vec<u8> },
    /// Stops lingering.
    End,
}

/// The contents of a [`LingerStep`].
pub enum LingerStepView {
    Wait,
    Fin { to: Peer, packet: Seq<u8> },
    End,
}

impl View for LingerStep {
    type V = LingerStepView;

    open spec fn view(&self) -> LingerStepView {
        match *self {
            LingerStep::Wait => LingerStepView::Wait,
            LingerStep::Fin { to, packet } => LingerStepView::Fin { to, packet: packet@ },
            LingerStep::End => LingerStepView::End,
        }
    }
}

impl LingerStepView {
    /// What a failure to send means: a FIN that is lost is asked for again.
    pub open spec fn on_send_error(self) -> OnFailure {
        OnFailure::GoOn
    }
}

impl LingerStep {
    /// What to do if the FIN could not be sent.
    pub fn on_send_error(&self) -> (outcome: OnFailure)
        ensures
            outcome == self@.on_send_error(),
    {
        OnFailure::GoOn
    }
}

/// What a receiver does with a datagram while it lingers: a repeated DONE means
/// that the FIN was lost, a FIN-ACK that it was not.
pub open spec fn linger_step(sender: Peer, from: Peer, datagram: Seq<u8>) -> LingerStepView {
    if from != sender {
        LingerStepView::Wait
    } else {
        match packet_of(datagram) {
            Some((header, _)) => match header.packet_type {
                PacketType::FinAck => LingerStepView::End,
                PacketType::Done => LingerStepView::Fin {
                    to: sender,
                    packet: control_datagram(PacketType::Fin, 0),
                },
                _ => LingerStepView::Wait,
            },
            None => LingerStepView::Wait,
        }
    }
}

/// What a lingering receiver does when the wait for a datagram ended in an error: it
/// stops, unless it was only interrupted.
pub open spec fn linger_error(kind: ErrorKind) -> LingerStepView {
    if kind is Interrupted {
        LingerStepView::Wait
    } else {
        LingerStepView::End
    }
}

/// A receiver that has sent its FIN and waits for the sender to confirm it.
pub struct Linger {
    sender: Peer,
    timeout: u128,
    deadline: u128,
}

impl Linger {
    pub closed spec fn sender(&self) -> Peer {
        self.sender
    }

    pub closed spec fn timeout(&self) -> u128 {
        self.timeout
    }

    pub closed spec fn deadline(&self) -> u128 {
        self.deadline
    }

    /// Starts to linger for the recipient of a FIN.
    pub fn new(fin: Fin, timeout: u128, now: u128) -> (linger: Self)
        requires
            timeout <= MAX_NANOS,
            now <= MAX_NANOS,
        ensures
            linger.sender() == fin.recipient(),
            linger.timeout() == timeout,
            linger.deadline() == now + timeout,
    {
        Linger { sender: fin.to, timeout, deadline: now + timeout }
    }

    /// How long to wait for the next datagram; none when the time is up.
    pub fn read_timeout(&self, now: u128) -> (timeout: Option<u128>)
        ensures
            match timeout {
                Some(timeout) => now + timeout == self.deadline() && timeout > 0,
                None => now >= self.deadline(),
            },
    {
        if now >= self.deadline {
            None
        } else {
            Some(self.deadline - now)
        }
    }

    /// What to do when the wait for a datagram ended in an error.
    pub fn on_error(&self, kind: ErrorKind) -> (step: LingerStep)
        ensures
            step@ == if kind is Interrupted {
                LingerStepView::Wait
            } else {
                LingerStepView::End
            },
            step@ == linger_error(kind),
    {
        if matches!(kind, ErrorKind::Interrupted) {
            LingerStep::Wait
        } else {
            LingerStep::End
        }
    }

    /// What to do on a datagram.
    pub fn on_datagram(&self, from: Peer, datagram: &[u8]) -> (step: LingerStep)
        ensures
            step@ == linger_step(self.sender(), from, datagram@),
    {
        if from != self.sender {
            return LingerStep::Wait;
        }
        assert(datagram@.take(datagram@.len() as int) == datagram@);
        match parse_packet(datagram, datagram.len()) {
            Some((header, _)) => match header.packet_type {
                PacketType::FinAck => LingerStep::End,
                PacketType::Done => LingerStep::Fin {
                    to: self.sender,
                    packet: encode_control(PacketType::Fin, 0),
                },
                _ => LingerStep::Wait,
            },
            None => LingerStep::Wait,
        }
    }

    /// Lingers for the whole time again.
    pub fn rearm(&mut self, now: u128)
        requires
            old(self).timeout() <= MAX_NANOS,
            now <= MAX_NANOS,
        ensures
            final(self).sender() == old(self).sender(),
            final(self).timeout() == old(self).timeout(),
            final(self).deadline() == now + old(self).timeout(),
    {
        self.deadline = now + self.timeout;
    }
}

} // verus!
