//! Both ends together: a sender that ends well has delivered its file.
use vstd::prelude::*;

use crate::digest::sha256;
use crate::init::{init_bytes, is_printable, InitView};
use crate::laws::announce::law_tmp_is_a_sibling;
use crate::laws::listening::{
    law_control_round_trip, law_done_is_answered, law_init_opens_transfer,
};
use crate::laws::reassembly::{
    agrees, honest, law_complete_file_is_source, law_datagram_keeps_file_right,
    law_opened_transfer_is_on_track, law_store_keeps_invariant, written, Arrival,
};
use crate::laws::sending::law_only_a_fin_completes;
use crate::path::{file_name_of, joined, tmp_path_of};
use crate::protocol::{
    chunk_count, control_datagram, framed, packet_of, ErrorKind, PacketType, ProtocolVersion, MAX_NANOS,
    MAX_TOTAL_CHUNKS,
};
use crate::receiver::{
    linger_step, LingerStepView, OnFailure, Peer, ReceiverView, StepView,
};
use crate::recv::{fresh, ReceiveView};
use crate::sender::SenderView;

verus! {

/// What a sender announces: its file, and how it will send it.
pub struct Announcement {
    pub version: ProtocolVersion,
    pub chunk_size: u32,
    pub name: Seq<char>,
    pub source: Seq<u8>,
}

impl Announcement {
    /// The file can be announced and sent.
    pub open spec fn wf(self) -> bool {
        &&& 1 <= self.chunk_size <= self.version.max_chunk_size()
        &&& self.source.len() <= u64::MAX
        &&& chunk_count(self.source.len() as int, self.chunk_size as int) <= MAX_TOTAL_CHUNKS
        &&& !self.name.contains('\0')
        &&& self.payload().len() <= u16::MAX
    }

    /// The payload of the INIT.
    pub open spec fn payload(self) -> Seq<u8> {
        init_bytes(
            self.version,
            self.source.len() as u64,
            self.chunk_size,
            sha256(self.source)@,
            self.name,
        )
    }

    /// The INIT.
    pub open spec fn packet(self) -> Seq<u8> {
        framed(PacketType::Init, 0, self.payload())
    }

    /// What a receiver that stores the file at `path` makes of the INIT.
    pub open spec fn init(self, path: Seq<char>) -> InitView {
        InitView {
            version: self.version,
            size: self.source.len() as u64,
            chunk_size: self.chunk_size,
            total: chunk_count(self.source.len() as int, self.chunk_size as int) as u32,
            hash: sha256(self.source)@,
            final_path: path,
        }
    }

    /// Where a receiver stores the file: at the output path that it was given, or
    /// under the announced name.
    pub open spec fn destination(self, out: Option<Seq<char>>) -> Seq<char> {
        match out {
            Some(path) => path,
            None => file_name_of(self.name)->0,
        }
    }

    /// The receiver has a place for the file.
    pub open spec fn has_destination(self, out: Option<Seq<char>>) -> bool {
        out is None ==> (file_name_of(self.name) matches Some(plain) && is_printable(plain))
    }
}

/// A sender, a receiver, and the files on the receiver's side.
pub struct World {
    pub sender: SenderView,
    pub receiver: ReceiverView,
    /// Whom the receiver lingers for after a transfer.
    pub linger: Option<Peer>,
    /// The receiver is done.
    pub ended: bool,
    /// The contents of each file, by its path.
    pub disk: Map<Seq<char>, Seq<u8>>,
    /// The receiver has sent a FIN.
    pub fin_sent: bool,
}

/// Something that happens at one of the ends. What is lost on the way does not
/// happen, what is duplicated happens again, what is delayed happens later.
pub enum Move {
    /// A datagram reaches the receiver; `file_ok` and `send_ok` tell whether what it
    /// then does to files and sends succeeds.
    ToReceiver { from: Peer, datagram: Seq<u8>, at: u128, file_ok: bool, send_ok: bool },
    /// The receiver has waited in vain.
    Idle { at: u128, send_ok: bool },
    /// The receiver stops lingering.
    LingerEnds,
    /// The sender takes its next step.
    Next,
    /// The sender has sent a chunk.
    Sent,
    /// A datagram reaches the sender.
    ToSender { from: Peer, datagram: Seq<u8> },
    /// The sender has waited in vain, or could not read.
    SenderError { kind: ErrorKind },
}

impl World {
    /// The path of the temporary file, while there is a transfer.
    pub open spec fn tmp(self) -> Seq<char> {
        (self.receiver.state->0).tmp_path
    }

    /// The temporary file, while there is a transfer.
    pub open spec fn file(self) -> Seq<u8> {
        self.disk[self.tmp()]
    }

    /// The receiver has no transfer any more, and no temporary file; if it does not
    /// serve, it is done.
    pub open spec fn abandoned(self) -> World {
        World {
            receiver: self.receiver.listening(),
            disk: if self.receiver.state is Some {
                self.disk.remove(self.tmp())
            } else {
                self.disk
            },
            ended: !self.receiver.serve,
            ..self
        }
    }

    /// The receiver ends with an error: it is done, and leaves no temporary file.
    pub open spec fn broken(self) -> World {
        World { ended: true, ..self.abandoned() }
    }

    /// The receiver could not do what a step asks for.
    pub open spec fn failed(self, outcome: OnFailure) -> World {
        match outcome {
            OnFailure::GoOn => self,
            OnFailure::Abandon => self.abandoned(),
            OnFailure::End => self.broken(),
        }
    }

    /// The receiver has lingered enough.
    pub open spec fn lingered(self) -> World {
        World {
            receiver: self.receiver.listening(),
            linger: None,
            ended: !self.receiver.serve,
            ..self
        }
    }

    /// The temporary file of `state` has been created.
    pub open spec fn opened(self, from: Peer, state: ReceiveView, at: u128) -> World {
        World {
            receiver: self.receiver.opened(from, state, at),
            disk: self.disk.insert(
                state.tmp_path,
                Seq::new(state.init.size as nat, |i: int| 0u8),
            ),
            ..self
        }
    }

    /// A chunk has been written to the temporary file.
    pub open spec fn wrote(self, seq: u32, offset: int, body: Seq<u8>, at: u128) -> World {
        World {
            receiver: self.receiver.written(seq, at),
            disk: self.disk.insert(self.tmp(), written(self.file(), offset, body)),
            ..self
        }
    }

    /// The file has passed the integrity check and is moved into place.
    pub open spec fn finished(self) -> World {
        World {
            receiver: self.receiver.completed(),
            disk: self.disk.remove(self.tmp()).insert(
                (self.receiver.state->0).init.final_path,
                self.file(),
            ),
            ..self
        }
    }

    /// The sender is told so.
    pub open spec fn confirmed(self, to: Peer) -> World {
        World { linger: Some(to), fin_sent: true, ..self }
    }

    /// The world after a datagram has reached a receiver that is neither lingering
    /// nor done.
    #[verifier::opaque]
    pub open spec fn received(
        self,
        from: Peer,
        datagram: Seq<u8>,
        at: u128,
        file_ok: bool,
        send_ok: bool,
    ) -> World {
        let heard = World { receiver: self.receiver.after_datagram(from, at), ..self };
        let step = self.receiver.on_datagram(from, datagram, at);
        match step {
            StepView::Open { from, state } => if !file_ok {
                heard.failed(step.on_file_error())
            } else if send_ok {
                heard.opened(from, state, at)
            } else {
                heard.opened(from, state, at).failed(step.on_send_error())
            },
            StepView::Write { seq, offset, body } => if file_ok {
                heard.wrote(seq, offset, body, at)
            } else {
                heard.failed(step.on_file_error())
            },
            StepView::Ack { .. } => if send_ok {
                heard
            } else {
                heard.failed(step.on_send_error())
            },
            StepView::Nack { .. } => if send_ok {
                World { receiver: heard.receiver.nacked(at), ..heard }
            } else {
                heard.failed(step.on_send_error())
            },
            StepView::Flush { to } => if !file_ok || !heard.receiver.may_complete(
                sha256(heard.file())@,
            ) {
                heard.failed(step.on_file_error())
            } else if send_ok {
                heard.finished().confirmed(to)
            } else {
                heard.finished().failed(step.on_send_error())
            },
            _ => heard,
        }
    }

    /// The world after a move.
    pub open spec fn after(self, step: Move) -> World {
        match step {
            Move::ToReceiver { from, datagram, at, file_ok, send_ok } => if self.ended {
                self
            } else {
                match self.linger {
                    Some(peer) => {
                        let step = linger_step(peer, from, datagram);
                        match step {
                            LingerStepView::Wait => self,
                            LingerStepView::Fin { .. } => if send_ok {
                                self
                            } else {
                                self.failed(step.on_send_error())
                            },
                            LingerStepView::End => self.lingered(),
                        }
                    },
                    None => self.received(from, datagram, at, file_ok, send_ok),
                }
            },
            Move::Idle { at, send_ok } => if self.ended || self.linger is Some {
                self
            } else {
                let step = self.receiver.on_timeout(at);
                match step {
                    StepView::Nack { .. } => if send_ok {
                        World { receiver: self.receiver.nacked(at), ..self }
                    } else {
                        self.failed(step.on_send_error())
                    },
                    StepView::Abandon { .. } => self.abandoned(),
                    _ => self,
                }
            },
            Move::LingerEnds => if self.linger is Some {
                self.lingered()
            } else {
                self
            },
            Move::Next => World { sender: self.sender.next().0, ..self },
            Move::Sent => World { sender: self.sender.with_sent(), ..self },
            Move::ToSender { from, datagram } => World {
                sender: self.sender.on_datagram(from, datagram),
                ..self
            },
            Move::SenderError { kind } => World { sender: self.sender.after_error(kind), ..self },
        }
    }

    /// The world after some moves.
    pub open spec fn after_all(self, moves: Seq<Move>) -> World
        decreases moves.len(),
    {
        if moves.len() == 0 {
            self
        } else {
            self.after_all(moves.drop_last()).after(moves.last())
        }
    }

    /// What a network may do. It may lose, delay, reorder, duplicate and damage what
    /// it likes, and strangers may send what they like during a transfer. But whoever
    /// the receiver hears announces no other file, and a FIN comes to the sender from
    /// its receiver only if one was sent.
    pub open spec fn allows(self, announced: Announcement, step: Move) -> bool {
        match step {
            Move::ToReceiver { from, datagram, at, .. } => {
                &&& at <= MAX_NANOS
                &&& self.receiver.hears(from) ==> (packet_of(datagram) matches Some((header, _))
                    ==> header.packet_type is Init ==> datagram == announced.packet())
            },
            Move::Idle { at, .. } => at <= MAX_NANOS,
            Move::ToSender { from, datagram } => (packet_of(datagram) matches Some((header, _))
                && header.packet_type is Fin && from == self.sender.receiver) ==> self.fin_sent,
            _ => true,
        }
    }

    /// Every move is one that the network may do.
    pub open spec fn allows_all(self, announced: Announcement, moves: Seq<Move>) -> bool
        decreases moves.len(),
    {
        moves.len() > 0 ==> {
            &&& self.allows_all(announced, moves.drop_last())
            &&& self.after_all(moves.drop_last()).allows(announced, moves.last())
        }
    }

    /// A chunk that reaches the receiver is one of the source, or is dropped: nothing
    /// is damaged, or the chunk no longer has the digest that it came with.
    pub open spec fn spares(self, announced: Announcement, step: Move) -> bool {
        step matches Move::ToReceiver { from, datagram, .. } ==> self.receiver.hears(from) ==> honest(
            announced.init(announced.destination(self.receiver.out)),
            announced.source,
            datagram,
        )
    }

    /// No chunk is damaged so that the receiver would not notice.
    pub open spec fn spares_all(self, announced: Announcement, moves: Seq<Move>) -> bool
        decreases moves.len(),
    {
        moves.len() > 0 ==> {
            &&& self.spares_all(announced, moves.drop_last())
            &&& self.after_all(moves.drop_last()).spares(announced, moves.last())
        }
    }

    /// The receiver listens, the sender has not been told anything yet.
    pub open spec fn starts(self) -> bool {
        &&& self.receiver.wf()
        &&& self.receiver.state is None
        &&& self.receiver.sender is None
        &&& self.linger is None
        &&& !self.ended
        &&& !self.fin_sent
        &&& !(self.sender.phase is Complete)
    }

    /// What holds all the time: a transfer is the announced one, and a FIN means that a
    /// file with the announced digest is in place. Where chunks are spared, the file of
    /// the transfer is right so far, and the one in place is the source.
    pub open spec fn sound(self, announced: Announcement, spared: bool) -> bool {
        let path = announced.destination(self.receiver.out);
        &&& self.receiver.wf()
        &&& self.linger is Some || self.ended ==> self.receiver.state is None
        &&& self.receiver.state is None && self.linger is None && !self.ended
            ==> self.receiver.sender is None
        &&& self.receiver.state matches Some(state) ==> {
            &&& state.init == announced.init(path)
            &&& self.disk.contains_key(state.tmp_path)
            &&& spared ==> agrees(state, self.file(), announced.source)
        }
        &&& self.fin_sent ==> {
            &&& self.disk.contains_key(path)
            &&& sha256(self.disk[path])@ == sha256(announced.source)@
            &&& spared ==> self.disk[path] == announced.source
            &&& self.receiver.state is None ==> !self.disk.contains_key(tmp_path_of(path))
            &&& !self.receiver.serve ==> self.linger is Some || self.ended
        }
        &&& self.sender.phase is Complete ==> self.fin_sent
    }
}

/// The temporary file of a transfer is never the complete file.
pub proof fn law_tmp_is_another_file(path: Seq<char>)
    ensures
        tmp_path_of(path) != path,
{
    reveal_strlit(".tmp");
    if file_name_of(path) is Some {
        law_tmp_is_a_sibling(path);
        let name = file_name_of(path)->0;
        assert((name + ".tmp"@).len() > name.len());
    } else {
        assert(joined(path, ".tmp"@).len() > path.len());
    }
}

/// Giving a transfer up keeps the world sound.
proof fn lemma_abandoned_is_sound(world: World, announced: Announcement, spared: bool)
    requires
        world.sound(announced, spared),
        world.receiver.state is Some,
    ensures
        world.abandoned().sound(announced, spared),
        world.broken().sound(announced, spared),
{
    law_tmp_is_another_file(announced.destination(world.receiver.out));
}

/// A sign of life keeps the world sound.
proof fn lemma_heard_is_sound(world: World, announced: Announcement, spared: bool, from: Peer, at: u128)
    requires
        world.sound(announced, spared),
        at <= MAX_NANOS,
    ensures
        (World { receiver: world.receiver.after_datagram(from, at), ..world }).sound(announced, spared),
{
}

/// Opening the announced transfer keeps the world sound.
proof fn lemma_opened_is_sound(world: World, announced: Announcement, spared: bool, from: Peer, at: u128)
    requires
        announced.wf(),
        world.sound(announced, spared),
        world.receiver.state is None,
        world.linger is None,
        !world.ended,
        at <= MAX_NANOS,
    ensures
        world.opened(
            from,
            fresh(announced.init(announced.destination(world.receiver.out)), at),
            at,
        ).sound(announced, spared),
{
    let path = announced.destination(world.receiver.out);
    let state = fresh(announced.init(path), at);
    let after = world.opened(from, state, at);
    law_tmp_is_another_file(path);
    assert(after.file() =~= Seq::new(state.init.size as nat, |i: int| 0u8));
    law_opened_transfer_is_on_track(
        world.receiver,
        state.init,
        from,
        at,
        after.file(),
        announced.source,
    );
}

/// Writing a chunk where it belongs keeps the world sound.
proof fn lemma_wrote_is_sound(
    world: World,
    announced: Announcement,
    spared: bool,
    seq: u32,
    offset: int,
    body: Seq<u8>,
    at: u128,
)
    requires
        world.sound(announced, spared),
        world.receiver.state matches Some(state) && seq < state.init.total,
        at <= MAX_NANOS,
        spared ==> agrees(
            (world.receiver.state->0).with_stored(seq, at),
            written(world.file(), offset, body),
            announced.source,
        ),
    ensures
        world.wrote(seq, offset, body, at).sound(announced, spared),
{
    law_tmp_is_another_file(announced.destination(world.receiver.out));
    law_store_keeps_invariant(world.receiver.state->0, seq, at);
}

/// Moving the complete file into place keeps the world sound, whether or not its
/// sender can be told.
proof fn lemma_finished_is_sound(world: World, announced: Announcement, spared: bool, to: Peer)
    requires
        world.sound(announced, spared),
        world.receiver.may_complete(sha256(world.file())@),
    ensures
        world.finished().confirmed(to).sound(announced, spared),
        world.finished().broken().sound(announced, spared),
{
    law_tmp_is_another_file(announced.destination(world.receiver.out));
    if spared {
        law_complete_file_is_source(world.receiver.state->0, world.file(), announced.source);
    }
}

/// A datagram that reaches the receiver keeps the world sound.
#[verifier::rlimit(40)]
proof fn lemma_received_is_sound(
    world: World,
    announced: Announcement,
    spared: bool,
    from: Peer,
    datagram: Seq<u8>,
    at: u128,
    file_ok: bool,
    send_ok: bool,
)
    requires
        announced.wf(),
        announced.has_destination(world.receiver.out),
        world.sound(announced, spared),
        world.linger is None,
        !world.ended,
        world.allows(announced, Move::ToReceiver { from, datagram, at, file_ok, send_ok }),
        spared ==> world.spares(
            announced,
            Move::ToReceiver { from, datagram, at, file_ok, send_ok },
        ),
    ensures
        world.received(from, datagram, at, file_ok, send_ok).sound(announced, spared),
        world.received(from, datagram, at, file_ok, send_ok).receiver.out == world.receiver.out,
        world.received(from, datagram, at, file_ok, send_ok).receiver.serve
            == world.receiver.serve,
{
    reveal(World::received);
    let receiver = world.receiver;
    let source = announced.source;
    let path = announced.destination(receiver.out);
    let heard = World { receiver: receiver.after_datagram(from, at), ..world };
    lemma_heard_is_sound(world, announced, spared, from, at);
    if receiver.state is Some {
        lemma_abandoned_is_sound(heard, announced, spared);
    }
    match receiver.on_datagram(from, datagram, at) {
        StepView::Open { from: opener, state } => {
            law_init_opens_transfer(
                receiver,
                from,
                at,
                announced.version,
                source.len() as u64,
                announced.chunk_size,
                sha256(source)@,
                announced.name,
            );
            assert(state == fresh(announced.init(path), at));
            lemma_opened_is_sound(heard, announced, spared, opener, at);
            lemma_abandoned_is_sound(heard.opened(opener, state, at), announced, spared);
        },
        StepView::Write { seq, offset, body } => {
            if spared {
                law_datagram_keeps_file_right(
                    receiver,
                    world.file(),
                    source,
                    Arrival { from, datagram, at },
                );
            }
            lemma_wrote_is_sound(heard, announced, spared, seq, offset, body, at);
        },
        StepView::Flush { to } => {
            if heard.receiver.may_complete(sha256(heard.file())@) {
                lemma_finished_is_sound(heard, announced, spared, to);
            }
        },
        _ => {},
    }
}

/// A receiver that has waited in vain keeps the world sound.
#[verifier::rlimit(40)]
proof fn lemma_idle_is_sound(world: World, announced: Announcement, spared: bool, at: u128, send_ok: bool)
    requires
        world.sound(announced, spared),
        at <= MAX_NANOS,
    ensures
        world.after(Move::Idle { at, send_ok }).sound(announced, spared),
        world.after(Move::Idle { at, send_ok }).receiver.out == world.receiver.out,
        world.after(Move::Idle { at, send_ok }).receiver.serve == world.receiver.serve,
{
    if world.receiver.state is Some {
        lemma_abandoned_is_sound(world, announced, spared);
    }
}

/// What the sender does keeps the world sound.
proof fn lemma_sender_is_sound(world: World, announced: Announcement, spared: bool, sender: SenderView)
    requires
        world.sound(announced, spared),
        sender.phase is Complete ==> world.fin_sent,
    ensures
        (World { sender, ..world }).sound(announced, spared),
{
}

/// Every move keeps the world sound.
#[verifier::rlimit(40)]
proof fn lemma_move_is_sound(world: World, announced: Announcement, spared: bool, step: Move)
    requires
        announced.wf(),
        announced.has_destination(world.receiver.out),
        world.sound(announced, spared),
        world.allows(announced, step),
        spared ==> world.spares(announced, step),
    ensures
        world.after(step).sound(announced, spared),
        world.after(step).receiver.out == world.receiver.out,
        world.after(step).receiver.serve == world.receiver.serve,
{
    match step {
        Move::ToReceiver { from, datagram, at, file_ok, send_ok } => {
            if !world.ended && world.linger is None {
                lemma_received_is_sound(world, announced, spared, from, datagram, at, file_ok, send_ok);
            }
        },
        Move::Idle { at, send_ok } => {
            lemma_idle_is_sound(world, announced, spared, at, send_ok);
        },
        Move::LingerEnds => {},
        Move::Next => {
            lemma_sender_is_sound(world, announced, spared, world.sender.next().0);
        },
        Move::Sent => {
            lemma_sender_is_sound(world, announced, spared, world.sender.with_sent());
        },
        Move::ToSender { from, datagram } => {
            if !(world.sender.phase is Complete) {
                law_only_a_fin_completes(world.sender, from, datagram);
            }
            lemma_sender_is_sound(world, announced, spared, world.sender.on_datagram(from, datagram));
        },
        Move::SenderError { kind } => {
            lemma_sender_is_sound(world, announced, spared, world.sender.after_error(kind));
        },
    }
}

/// Whatever the network allows keeps the world sound: a transfer that the receiver
/// has open is the announced one, and once a FIN was sent a file with the announced
/// digest is in place; where chunks are spared, the file is right all the time.
pub proof fn law_world_stays_sound(
    world: World,
    announced: Announcement,
    spared: bool,
    moves: Seq<Move>,
)
    requires
        announced.wf(),
        announced.has_destination(world.receiver.out),
        world.starts(),
        world.allows_all(announced, moves),
        spared ==> world.spares_all(announced, moves),
    ensures
        world.after_all(moves).sound(announced, spared),
        world.after_all(moves).receiver.out == world.receiver.out,
        world.after_all(moves).receiver.serve == world.receiver.serve,
    decreases moves.len(),
{
    if moves.len() > 0 {
        law_world_stays_sound(world, announced, spared, moves.drop_last());
        lemma_move_is_sound(world.after_all(moves.drop_last()), announced, spared, moves.last());
    }
}

/// A sender that ends well has delivered its file. When it comes to its last step,
/// the file at the destination is the source, byte for byte, if no chunk was damaged
/// so that the receiver would not notice. Whatever was damaged, that file has the
/// digest of the source, so it is the source unless these two files share their
/// digest. And there is no temporary file, unless a serving receiver has opened a
/// transfer again.
pub proof fn law_success_means_delivered(world: World, announced: Announcement, moves: Seq<Move>)
    requires
        announced.wf(),
        announced.has_destination(world.receiver.out),
        world.starts(),
        world.allows_all(announced, moves),
        world.after_all(moves).sender.next().1 is Complete,
    ensures
        ({
            let path = announced.destination(world.receiver.out);
            let after = world.after_all(moves);
            let source = announced.source;
            &&& after.disk.contains_key(path)
            &&& world.spares_all(announced, moves) ==> after.disk[path] == source
            &&& sha256(after.disk[path])@ == sha256(source)@
            &&& (sha256(after.disk[path])@ == sha256(source)@ ==> after.disk[path] == source)
                ==> after.disk[path] == source
            &&& after.disk.contains_key(tmp_path_of(path)) ==> world.receiver.serve
                && after.receiver.state is Some
        }),
{
    law_world_stays_sound(world, announced, world.spares_all(announced, moves), moves);
}

/// Once every chunk is stored as it was sent, a DONE that reaches the receiver and the
/// FIN that reaches the sender bring the transfer to its end, at both ends.
#[verifier::rlimit(40)]
pub proof fn law_complete_transfer_is_confirmed(
    world: World,
    announced: Announcement,
    at: u128,
)
    requires
        announced.wf(),
        announced.has_destination(world.receiver.out),
        world.sound(announced, false),
        world.receiver.state matches Some(state) && state.complete() && agrees(
            state,
            world.file(),
            announced.source,
        ),
        world.sender.phase is Collect,
        at <= MAX_NANOS,
    ensures
        ({
            let done = Move::ToReceiver {
                from: world.receiver.sender->0,
                datagram: control_datagram(PacketType::Done, world.sender.total),
                at,
                file_ok: true,
                send_ok: true,
            };
            let fin = Move::ToSender {
                from: world.sender.receiver,
                datagram: control_datagram(PacketType::Fin, 0),
            };
            &&& world.allows(announced, done)
            &&& world.spares(announced, done)
            &&& world.after(done).allows(announced, fin)
            &&& world.after(done).disk[announced.destination(world.receiver.out)]
                == announced.source
            &&& world.after(done).after(fin).sender.next().1 is Complete
        }),
{
    reveal(World::received);
    let from = world.receiver.sender->0;
    let total = world.sender.total;
    law_control_round_trip(PacketType::Done, total);
    law_control_round_trip(PacketType::Fin, 0);
    law_done_is_answered(world.receiver, from, total, at);
    law_complete_file_is_source(world.receiver.state->0, world.file(), announced.source);
    law_only_a_fin_completes(
        world.sender,
        world.sender.receiver,
        control_datagram(PacketType::Fin, 0),
    );
}

} // verus!
