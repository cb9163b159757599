//! A replica's disk, and the owner's step that writes it.
//!
//! A disk holds what a real owner's would: the replica's persistent state
//! as of its last landed write, and the state machine as of its last
//! flush. [`Disk::step`] is the owner's side of a step, in the order the
//! library requires: send what need not wait, persist the replica's write,
//! hand it back, then deliver the rest. The write may also stay out while
//! the replica steps on, as with an owner that writes on another thread,
//! and land at a later step. A power loss can cut a step off before its
//! write, a crash lands a write that is out whole or not at all, and a
//! replica that lost power is rebuilt from its disk with
//! [`Disk::restart`].

use vstd::prelude::*;
use super::state_machine::{
    accumulator_clones_exactly, in_op_order, records_keyed, replay_applied, replay_recorded,
    Accumulator, AccumulatorView, Msg, Op,
};
use crate::config::Config;
use crate::ids::{OpNumber, ReplicaID, ViewNumber};
use crate::log::{LogEntry, LogWrite, PersistentState, PersistentView, WriteView};
use crate::message::{MessageViewFor, Reply};
use crate::replica::model::ReplicaModel;
use crate::replica::parts::Status;
use crate::replica::{mail_view, Replica};
use crate::state_machine::StateMachine;

verus! {

/// How a step ended.
#[derive(Clone, Copy, Debug, PartialEq, Eq, Structural)]
pub enum Step {
    /// The step is on disk, and everything it produced was delivered.
    Persisted,
    /// The replica lost power before the write. What need not wait was
    /// sent, and the replies ready before the write delivered; the rest of
    /// the step is lost.
    PowerLost,
    /// The step is done, but a write is out: the replica's memory is ahead
    /// of its disk until the write lands.
    WriteOut,
}

/// What chance decides in a step.
#[derive(Clone, Copy, Debug, PartialEq, Eq, Structural)]
pub struct Chances {
    /// The replica loses power before any write.
    pub power_lost: bool,
    /// The write that is out lands.
    pub lands: bool,
    /// The write taken stays out, if it needs a sync.
    pub stays_out: bool,
}

/// A replica's disk.
#[derive(Debug)]
pub struct Disk {
    /// The replica's persistent state as of its last landed write.
    pub state: PersistentState<Op>,
    /// The write the owner has taken and not yet landed, if any.
    pub outstanding: Option<LogWrite<Op>>,
    /// The state machine as of its last flush, and the number of ops it had
    /// applied then. A durable state machine keeps the client table
    /// alongside what it applies.
    pub state_machine: Accumulator,
    pub applied: OpNumber,
}

/// What a disk holds.
#[verifier::ext_equal]
pub struct DiskView {
    pub state: PersistentView<Op>,
    pub outstanding: Option<WriteView<Op>>,
    pub state_machine: AccumulatorView,
    pub applied: OpNumber,
}

impl View for Disk {
    type V = DiskView;

    open spec fn view(&self) -> DiskView {
        DiskView {
            state: self.state@,
            outstanding: match self.outstanding {
                Some(write) => Some(write@),
                None => None,
            },
            state_machine: self.state_machine@,
            applied: self.applied,
        }
    }
}

impl DiskView {
    /// A disk that nothing was written to.
    pub open spec fn empty() -> Self {
        DiskView {
            state: PersistentView::empty(),
            outstanding: None,
            state_machine: AccumulatorView::empty(),
            applied: 0,
        }
    }

    /// The disk once the state machine has written its state to it.
    pub open spec fn flush(self, replica: ReplicaModel<Accumulator>) -> Self {
        DiskView {
            applied: replica.applied,
            state_machine: AccumulatorView { kept: None, ..replica.machine },
            ..self
        }
    }

    /// The disk once the write that is out has reached it, if it did.
    pub open spec fn settle(self, landed: bool) -> Self {
        match self.outstanding {
            Some(write) => DiskView {
                state: if landed && write.sync {
                    self.state.apply(write)
                } else {
                    self.state
                },
                outstanding: None,
                ..self
            },
            None => self,
        }
    }

    /// Whether the write that is out can be applied.
    pub open spec fn can_settle(self) -> bool {
        self.outstanding matches Some(write) ==> (write.sync ==> self.state.takes(write))
    }

    /// Whether the disk holds the committed op `op_number`, which is
    /// `entry`: in the state machine's flush, or in the log.
    pub open spec fn holds(self, op_number: OpNumber, entry: LogEntry<Op>) -> bool {
        op_number <= self.applied || self.state.has_entry(op_number as int, entry)
    }

    /// Whether the disk holds what `replica` does in memory, but for the
    /// commit number and the client table.
    pub open spec fn matches(self, replica: ReplicaModel<Accumulator>) -> bool {
        &&& self.state.view_number == replica.view_number
        &&& self.state.last_normal_view == replica.last_normal_view
        &&& self.state.recovering == (replica.status == Status::Recovering)
        &&& self.state.log_start == replica.log_start
        &&& self.state.log == replica.log
    }
}

/// A message handed over to be sent, with the disk, the replica and the
/// replies delivered as of then.
#[verifier::ext_equal]
pub struct Handover {
    pub disk: DiskView,
    pub replica: ReplicaModel<Accumulator>,
    pub replies: Seq<Reply<i64>>,
    pub to: ReplicaID,
    pub message: MessageViewFor<Accumulator>,
}

/// Whether `send` can answer `handover` with `result`.
pub open spec fn answers<E, F: Fn(
    &PersistentState<Op>,
    &Replica<Accumulator>,
    ReplicaID,
    &Msg,
) -> Result<(), E>>(send: F, handover: Handover, result: Result<(), E>) -> bool {
    exists|state: PersistentState<Op>, replica: Replica<Accumulator>, message: Msg|
        {
            &&& state@ == handover.disk.state
            &&& replica@ == handover.replica
            &&& message@ == handover.message
            &&& #[trigger] call_ensures(send, (&state, &replica, handover.to, &message), result)
        }
}

/// Whether `send` can let `handover` go.
pub open spec fn passes<E, F: Fn(
    &PersistentState<Op>,
    &Replica<Accumulator>,
    ReplicaID,
    &Msg,
) -> Result<(), E>>(send: F, handover: Handover) -> bool {
    exists|result: Result<(), E>| result is Ok && #[trigger] answers(send, handover, result)
}

/// Whether `send` let the first `count` of `handovers` go, and stopped the
/// next, if there is one, with `result`.
pub open spec fn lets_go<E, F: Fn(
    &PersistentState<Op>,
    &Replica<Accumulator>,
    ReplicaID,
    &Msg,
) -> Result<(), E>>(
    send: F,
    handovers: Seq<Handover>,
    count: nat,
    result: Result<(), E>,
) -> bool {
    &&& count <= handovers.len()
    &&& forall|k: int| 0 <= k < count ==> passes(send, #[trigger] handovers[k])
    &&& if count == handovers.len() {
        result is Ok
    } else {
        result is Err && answers(send, handovers[count as int], result)
    }
}

/// The messages of `handovers`.
pub open spec fn mail_of(handovers: Seq<Handover>) -> Seq<
    (ReplicaID, MessageViewFor<Accumulator>),
> {
    handovers.map_values(|handover: Handover| (handover.to, handover.message))
}

/// A replica, its disk, and what has left them.
#[verifier::ext_equal]
pub struct Owned {
    /// Whether every step so far was one the replica and its disk can take.
    pub ok: bool,
    pub disk: DiskView,
    pub replica: ReplicaModel<Accumulator>,
    /// The messages handed over, in order.
    pub handovers: Seq<Handover>,
    pub replies: Seq<Reply<i64>>,
}

impl Owned {
    /// A replica and its disk before a step.
    pub open spec fn before(
        disk: DiskView,
        replica: ReplicaModel<Accumulator>,
        replies: Seq<Reply<i64>>,
    ) -> Self {
        Owned { ok: true, disk, replica, handovers: Seq::empty(), replies }
    }

    /// What handing `messages` over comes to.
    pub open spec fn handing(
        self,
        messages: Seq<(ReplicaID, MessageViewFor<Accumulator>)>,
    ) -> Seq<Handover> {
        messages.map_values(
            |mail: (ReplicaID, MessageViewFor<Accumulator>)|
                Handover {
                    disk: self.disk,
                    replica: self.replica,
                    replies: self.replies,
                    to: mail.0,
                    message: mail.1,
                },
        )
    }

    /// Hands `messages` over.
    pub open spec fn send_all(
        self,
        messages: Seq<(ReplicaID, MessageViewFor<Accumulator>)>,
    ) -> Self {
        Owned {
            ok: self.ok && self.disk.state.end() <= usize::MAX,
            handovers: self.handovers + self.handing(messages),
            ..self
        }
    }

    /// Delivers the replies ready.
    pub open spec fn deliver(self) -> Self {
        Owned {
            replies: self.replies + self.replica.replies,
            replica: ReplicaModel { replies: Seq::empty(), ..self.replica },
            ..self
        }
    }

    /// The replica with what need not wait taken from it.
    pub open spec fn drain_early(self) -> Self {
        Owned {
            replica: ReplicaModel {
                round_unsent: false,
                outbox_early: Seq::empty(),
                ..self.replica
            },
            ..self
        }
    }

    /// Sends what need not wait and delivers the replies ready.
    pub open spec fn send_early(self) -> Self {
        self.drain_early().send_all(self.replica.outbox_early).deliver()
    }

    /// Makes a checkpoint the replica installed durable.
    pub open spec fn flush_checkpoint(self) -> Self {
        if self.replica.log_start > self.disk.applied {
            Owned { disk: self.disk.flush(self.replica), ..self }
        } else {
            self
        }
    }

    /// Lands the write that is out, and takes what it released from the
    /// replica.
    pub open spec fn hand_back(self) -> Self {
        let landed = self.replica.persisted();
        Owned {
            ok: self.ok && self.disk.can_settle() && self.replica.outstanding is Some && (
            self.replica.outstanding->0).sequence == (self.disk.outstanding->0).sequence
                && landed.ok,
            disk: self.disk.settle(true),
            replica: ReplicaModel {
                round_unsent: false,
                outbox_early: Seq::empty(),
                outbox_ready: Seq::empty(),
                ..landed
            },
            ..self
        }
    }

    /// What handing over what the write that is out released comes to.
    pub open spec fn handing_back(self) -> Seq<Handover> {
        let landed = self.replica.persisted();
        self.hand_back().handing(landed.outbox_early + landed.outbox_ready)
    }

    /// Lands the write that is out, and sends and delivers what it released.
    pub open spec fn land(self) -> Self {
        let landed = self.replica.persisted();
        self.hand_back().send_all(landed.outbox_early + landed.outbox_ready).deliver()
    }

    /// Takes the next write.
    pub open spec fn take(self) -> Self {
        Owned {
            ok: self.ok && self.replica.outstanding is None && self.replica.take_write().ok,
            disk: DiskView { outstanding: Some(self.replica.write()), ..self.disk },
            replica: self.replica.take_write(),
            ..self
        }
    }

    /// Takes the next write, unless one is out, and lands it unless it stays
    /// out.
    pub open spec fn write_next(self, stays_out: bool) -> (Self, Step) {
        if self.disk.outstanding is Some {
            (self, Step::WriteOut)
        } else if stays_out && self.replica.write().sync {
            (self.take(), Step::WriteOut)
        } else {
            (self.take().land(), Step::Persisted)
        }
    }

    /// Lands the write that is out, if it does, and writes the next.
    pub open spec fn settle_writes(self, chances: Chances) -> (Self, Step) {
        if self.disk.outstanding is Some && chances.lands {
            self.land().write_next(chances.stays_out)
        } else {
            self.write_next(chances.stays_out)
        }
    }

    /// The owner's side of a step, as `chances` have it, if every message
    /// handed over is let go.
    pub open spec fn step(self, chances: Chances) -> (Self, Step) {
        let flushed = self.send_early().flush_checkpoint();
        if chances.power_lost {
            (flushed, Step::PowerLost)
        } else {
            flushed.settle_writes(chances)
        }
    }

    /// Where a step stops if `count` of the messages handed over are let go:
    /// at the next, or at its end if there is none.
    pub open spec fn stopped(self, count: nat) -> Stopped {
        if count < self.handovers.len() {
            let last = self.handovers[count as int];
            Stopped { disk: last.disk, replica: last.replica, replies: last.replies }
        } else {
            Stopped { disk: self.disk, replica: self.replica, replies: self.replies }
        }
    }
}

/// A disk, its replica and the replies delivered, where a step stopped.
#[verifier::ext_equal]
pub struct Stopped {
    pub disk: DiskView,
    pub replica: ReplicaModel<Accumulator>,
    pub replies: Seq<Reply<i64>>,
}

/// Whether a step that would come to `owned` ends with `result` as `end`,
/// with `sent` sent: `send` let go what it handed over, up to the first
/// message that it did not.
#[verifier::opaque]
pub open spec fn ends<E, F: Fn(
    &PersistentState<Op>,
    &Replica<Accumulator>,
    ReplicaID,
    &Msg,
) -> Result<(), E>>(
    send: F,
    owned: Owned,
    result: Result<(), E>,
    end: Stopped,
    sent: Seq<(ReplicaID, MessageViewFor<Accumulator>)>,
) -> bool {
    exists|count: nat|
        {
            &&& #[trigger] lets_go(send, owned.handovers, count, result)
            &&& end == owned.stopped(count)
            &&& sent == mail_of(owned.handovers).take(count as int)
        }
}

impl Default for Disk {
    fn default() -> (disk: Disk)
        ensures
            disk@ == DiskView::empty(),
    {
        Disk {
            state: PersistentState::empty(),
            outstanding: None,
            state_machine: Accumulator::default(),
            applied: 0,
        }
    }
}

impl Clone for Disk {
    fn clone(&self) -> (copy: Disk)
        ensures
            copy@ == self@,
    {
        proof {
            accumulator_clones_exactly();
        }
        let outstanding = match &self.outstanding {
            Some(write) => Some(write.clone()),
            None => None,
        };
        Disk {
            state: self.state.clone(),
            outstanding,
            state_machine: self.state_machine.clone(),
            applied: self.applied,
        }
    }
}

impl Disk {
    /// The disk of a replica that lost its old one: it holds the view
    /// number the replica recovers in, and says it is recovering, which
    /// its owner writes before it starts the recovery.
    pub fn for_recovery(view_number: ViewNumber) -> (disk: Disk)
        ensures
            disk@ == (DiskView {
                state: PersistentView { view_number, recovering: true, ..PersistentView::empty() },
                ..DiskView::empty()
            }),
    {
        let mut state: PersistentState<Op> = PersistentState::empty();
        state.view_number = view_number;
        state.recovering = true;
        Disk {
            state,
            outstanding: None,
            state_machine: Accumulator::default(),
            applied: 0,
        }
    }

    /// Whether the replica installed a checkpoint that its state machine has
    /// not flushed: the checkpoint moved its log start past what the state
    /// machine had flushed.
    pub fn restored(&self, replica: &Replica<Accumulator>) -> (restored: bool)
        ensures
            restored == (replica@.log_start > self@.applied),
    {
        replica.log_start() > self.applied
    }

    /// Hands `messages` to `send` in order, up to the first that it does not
    /// let go. What it lets go is added to `sent`.
    fn send_all<E, F: Fn(
        &PersistentState<Op>,
        &Replica<Accumulator>,
        ReplicaID,
        &Msg,
    ) -> Result<(), E>>(
        &self,
        replica: &Replica<Accumulator>,
        messages: Vec<(ReplicaID, Msg)>,
        send: &F,
        sent: &mut Vec<(ReplicaID, Msg)>,
        replies: &Vec<Reply<i64>>,
    ) -> (result: Result<(), E>)
        requires
            replica.wf(),
            self@.state.end() <= usize::MAX,
            can_send(*send),
        ensures
            exists|gone: Seq<(ReplicaID, MessageViewFor<Accumulator>)>|
                mail_view(final(sent)@) == mail_view(old(sent)@) + gone && #[trigger] ends(
                    *send,
                    Owned::before(self@, replica@, replies@).send_all(mail_view(messages@)),
                    result,
                    Stopped { disk: self@, replica: replica@, replies: replies@ },
                    gone,
                ),
    {
        let ghost all = messages@;
        let ghost start = Owned::before(self@, replica@, replies@);
        let ghost owned = start.send_all(mail_view(all));
        let ghost handovers = owned.handovers;
        proof {
            assert(handovers =~= start.handing(mail_view(all)));
            assert(mail_of(handovers) =~= mail_view(all));
            assert(mail_view(sent@) =~= mail_view(old(sent)@) + mail_of(handovers).take(0));
        }
        for mail in iter: messages
            invariant
                iter.seq() == all,
                start == Owned::before(self@, replica@, replies@),
                owned == start.send_all(mail_view(all)),
                handovers == owned.handovers,
                handovers == start.handing(mail_view(all)),
                mail_of(handovers) == mail_view(all),
                replica.wf(),
                self@.state.end() <= usize::MAX,
                can_send(*send),
                forall|k: int|
                    0 <= k < iter.index() ==> passes(*send, #[trigger] handovers[k]),
                mail_view(sent@) == mail_view(old(sent)@) + mail_of(handovers).take(iter.index()),
        {
            let ghost i = iter.index();
            let (to, message) = mail;
            let answer = send(&self.state, replica, to, &message);
            proof {
                assert(handovers[i].message == message@ && handovers[i].to == to);
                assert(answers(*send, handovers[i], answer));
            }
            if let Err(error) = answer {
                proof {
                    reveal(ends);
                    assert(lets_go(*send, handovers, i as nat, Err::<(), E>(error)));
                    assert(ends(
                        *send,
                        owned,
                        Err::<(), E>(error),
                        Stopped { disk: self@, replica: replica@, replies: replies@ },
                        mail_of(handovers).take(i),
                    ));
                }
                return Err(error);
            }
            let ghost before = sent@;
            sent.push((to, message));
            proof {
                assert(passes(*send, handovers[i]));
                assert(mail_view(sent@) =~= mail_view(before).push(mail_of(handovers)[i]));
                assert(mail_view(sent@) =~= mail_view(old(sent)@) + mail_of(handovers).take(i + 1));
            }
        }
        proof {
            reveal(ends);
            assert(lets_go(*send, handovers, handovers.len(), Ok::<(), E>(())));
            assert(ends(
                *send,
                owned,
                Ok::<(), E>(()),
                Stopped { disk: self@, replica: replica@, replies: replies@ },
                mail_of(handovers).take(handovers.len() as int),
            ));
        }
        Ok(())
    }

    /// The owner's side of one step: sends what need not wait and delivers
    /// the replies ready so far to `replies`; lands the write that is out
    /// if it does, and sends and delivers what it released; takes the next
    /// write if none is out, and keeps it out or lands it at once and sends
    /// and delivers what that released. What a write released thus leaves
    /// before the next write lands. `send` gets each message as it leaves,
    /// with the disk and the replica as of then; what it lets go is added to
    /// `sent`, and an error of its ends the step. The replica may lose power
    /// before any write; what left before is out, and the rest of the step
    /// is lost with the replica's memory.
    #[verifier::rlimit(80)]
    pub fn step<E, F: Fn(
        &PersistentState<Op>,
        &Replica<Accumulator>,
        ReplicaID,
        &Msg,
    ) -> Result<(), E>>(
        &mut self,
        replica: &mut Replica<Accumulator>,
        chances: Chances,
        send: F,
        sent: &mut Vec<(ReplicaID, Msg)>,
        replies: &mut Vec<Reply<i64>>,
    ) -> (result: Result<Step, E>)
        requires
            old(replica).wf(),
            can_send(send),
            Owned::before(old(self)@, old(replica)@, old(replies)@).step(chances).0.ok,
        ensures
            final(replica).wf(),
            exists|gone: Seq<(ReplicaID, MessageViewFor<Accumulator>)>|
                mail_view(final(sent)@) == mail_view(old(sent)@) + gone && #[trigger] ends(
                    send,
                    Owned::before(old(self)@, old(replica)@, old(replies)@).step(chances).0,
                    bare(result),
                    Stopped {
                        disk: final(self)@,
                        replica: final(replica)@,
                        replies: final(replies)@,
                    },
                    gone,
                ),
            result matches Ok(step) ==> step == Owned::before(
                old(self)@,
                old(replica)@,
                old(replies)@,
            ).step(chances).1,
    {
        let ghost start = Owned::before(self@, replica@, replies@);
        let ghost before = mail_view(sent@);
        let early = replica.drain_messages_before_persist();
        proof {
            step_hands_over_early(start, chances);
        }
        let ghost drained = Owned::before(self@, replica@, replies@);
        assert(drained == start.drain_early());
        let result = self.send_all(replica, early, &send, sent, replies);
        let ghost gone = choose|gone: Seq<(ReplicaID, MessageViewFor<Accumulator>)>|
            mail_view(sent@) == before + gone && #[trigger] ends(
                send,
                start.drain_early().send_all(start.replica.outbox_early),
                result,
                Stopped { disk: self@, replica: replica@, replies: replies@ },
                gone,
            );
        if let Err(error) = result {
            proof {
                settles_from(start.send_early().flush_checkpoint(), chances);
                ends_before(
                    send,
                    start.drain_early().send_all(start.replica.outbox_early),
                    start.step(chances).0,
                    result,
                    Stopped { disk: self@, replica: replica@, replies: replies@ },
                    gone,
                );
            }
            return Err(error);
        }
        let mut ready = replica.drain_replies();
        replies.append(&mut ready);
        // A checkpoint the replica installed moved its log start past what
        // the state machine had flushed: the state machine made the
        // checkpoint durable when it restored it, as the library requires.
        if self.restored(replica) {
            self.flush(replica);
        }
        let ghost flushed = start.send_early().flush_checkpoint();
        proof {
            ends_whole(
                send,
                start.drain_early().send_all(start.replica.outbox_early),
                flushed,
                result,
                Stopped { disk: drained.disk, replica: drained.replica, replies: drained.replies },
                gone,
            );
        }
        assert(self@ == flushed.disk && replica@ == flushed.replica && replies@ == flushed.replies);
        if chances.power_lost {
            assert(ends(
                send,
                start.step(chances).0,
                bare(Ok::<Step, E>(Step::PowerLost)),
                Stopped { disk: self@, replica: replica@, replies: replies@ },
                gone,
            ));
            return Ok(Step::PowerLost);
        }
        let ghost between = mail_view(sent@);
        let result = self.settle_writes(replica, chances, &send, sent, replies);
        proof {
            let end = Stopped { disk: self@, replica: replica@, replies: replies@ };
            let rest = Owned::before(flushed.disk, flushed.replica, flushed.replies).settle_writes(
                chances,
            ).0;
            settles_from(flushed, chances);
            let more = choose|more: Seq<(ReplicaID, MessageViewFor<Accumulator>)>|
                mail_view(sent@) == between + more && #[trigger] ends(
                    send,
                    rest,
                    bare(result),
                    end,
                    more,
                );
            ends_after(send, flushed, rest, bare(result), end, gone, more);
            assert(before + gone + more =~= before + (gone + more));
        }
        result
    }

    /// Lands the write that is out, if it does, and writes the next.
    fn settle_writes<E, F: Fn(
        &PersistentState<Op>,
        &Replica<Accumulator>,
        ReplicaID,
        &Msg,
    ) -> Result<(), E>>(
        &mut self,
        replica: &mut Replica<Accumulator>,
        chances: Chances,
        send: &F,
        sent: &mut Vec<(ReplicaID, Msg)>,
        replies: &mut Vec<Reply<i64>>,
    ) -> (result: Result<Step, E>)
        requires
            old(replica).wf(),
            can_send(*send),
            Owned::before(old(self)@, old(replica)@, old(replies)@).settle_writes(chances).0.ok,
        ensures
            final(replica).wf(),
            exists|gone: Seq<(ReplicaID, MessageViewFor<Accumulator>)>|
                mail_view(final(sent)@) == mail_view(old(sent)@) + gone && #[trigger] ends(
                    *send,
                    Owned::before(old(self)@, old(replica)@, old(replies)@).settle_writes(chances).0,
                    bare(result),
                    Stopped {
                        disk: final(self)@,
                        replica: final(replica)@,
                        replies: final(replies)@,
                    },
                    gone,
                ),
            result matches Ok(step) ==> step == Owned::before(
                old(self)@,
                old(replica)@,
                old(replies)@,
            ).settle_writes(chances).1,
    {
        let ghost start = Owned::before(self@, replica@, replies@);
        let ghost before = mail_view(sent@);
        if !self.outstanding.is_some() || !chances.lands {
            return self.write_next(replica, chances.stays_out, send, sent, replies);
        }
        let ghost landed = start.land();
        proof {
            writes_from(landed, chances.stays_out);
        }
        let result = self.land(replica, send, sent, replies);
        let ghost end = Stopped { disk: self@, replica: replica@, replies: replies@ };
        let ghost gone = choose|gone: Seq<(ReplicaID, MessageViewFor<Accumulator>)>|
            mail_view(sent@) == before + gone && #[trigger] ends(*send, landed, result, end, gone);
        if let Err(error) = result {
            proof {
                ends_before(
                    *send,
                    landed,
                    start.settle_writes(chances).0,
                    result,
                    end,
                    gone,
                );
            }
            return Err(error);
        }
        proof {
            ends_whole(*send, landed, landed, result, end, gone);
        }
        let ghost between = mail_view(sent@);
        let result = self.write_next(replica, chances.stays_out, send, sent, replies);
        proof {
            let end = Stopped { disk: self@, replica: replica@, replies: replies@ };
            let rest = Owned::before(landed.disk, landed.replica, landed.replies).write_next(
                chances.stays_out,
            ).0;
            let more = choose|more: Seq<(ReplicaID, MessageViewFor<Accumulator>)>|
                mail_view(sent@) == between + more && #[trigger] ends(
                    *send,
                    rest,
                    bare(result),
                    end,
                    more,
                );
            ends_after(*send, landed, rest, bare(result), end, gone, more);
            assert(before + gone + more =~= before + (gone + more));
        }
        result
    }

    /// Takes the next write, unless one is out, and lands it unless it stays
    /// out.
    fn write_next<E, F: Fn(
        &PersistentState<Op>,
        &Replica<Accumulator>,
        ReplicaID,
        &Msg,
    ) -> Result<(), E>>(
        &mut self,
        replica: &mut Replica<Accumulator>,
        stays_out: bool,
        send: &F,
        sent: &mut Vec<(ReplicaID, Msg)>,
        replies: &mut Vec<Reply<i64>>,
    ) -> (result: Result<Step, E>)
        requires
            old(replica).wf(),
            can_send(*send),
            Owned::before(old(self)@, old(replica)@, old(replies)@).write_next(stays_out).0.ok,
        ensures
            final(replica).wf(),
            exists|gone: Seq<(ReplicaID, MessageViewFor<Accumulator>)>|
                mail_view(final(sent)@) == mail_view(old(sent)@) + gone && #[trigger] ends(
                    *send,
                    Owned::before(old(self)@, old(replica)@, old(replies)@).write_next(stays_out).0,
                    bare(result),
                    Stopped {
                        disk: final(self)@,
                        replica: final(replica)@,
                        replies: final(replies)@,
                    },
                    gone,
                ),
            result matches Ok(step) ==> step == Owned::before(
                old(self)@,
                old(replica)@,
                old(replies)@,
            ).write_next(stays_out).1,
    {
        let ghost start = Owned::before(self@, replica@, replies@);
        let ghost before = mail_view(sent@);
        if self.outstanding.is_some() {
            proof {
                ends_idle::<E, F>(*send, start);
                let none = Seq::<(ReplicaID, MessageViewFor<Accumulator>)>::empty();
                assert(before =~= before + none);
                assert(ends(
                    *send,
                    start.write_next(stays_out).0,
                    bare(Ok::<Step, E>(Step::WriteOut)),
                    Stopped { disk: self@, replica: replica@, replies: replies@ },
                    none,
                ));
            }
            return Ok(Step::WriteOut);
        }
        // A write that needs no sync has nothing to wait for.
        let write = replica.take_write();
        let keep_out = write.sync && stays_out;
        self.outstanding = Some(write);
        if keep_out {
            proof {
                ends_idle::<E, F>(*send, start.take());
                let none = Seq::<(ReplicaID, MessageViewFor<Accumulator>)>::empty();
                assert(before =~= before + none);
                assert(ends(
                    *send,
                    start.write_next(stays_out).0,
                    bare(Ok::<Step, E>(Step::WriteOut)),
                    Stopped { disk: self@, replica: replica@, replies: replies@ },
                    none,
                ));
            }
            return Ok(Step::WriteOut);
        }
        proof {
            lands_from(start.take());
            assert(Owned::before(self@, replica@, replies@) == Owned { ok: true, ..start.take() });
            let taken = Owned::before(self@, replica@, replies@);
            assert(taken.land() =~= Owned { ok: taken.land().ok, ..start.take().land() });
            same_ends::<E, F>(*send, taken.land(), start.take().land());
        }
        let ghost taken = Owned::before(self@, replica@, replies@);
        let result = self.land(replica, send, sent, replies);
        proof {
            let end = Stopped { disk: self@, replica: replica@, replies: replies@ };
            let gone = choose|gone: Seq<(ReplicaID, MessageViewFor<Accumulator>)>|
                mail_view(sent@) == before + gone && #[trigger] ends(
                    *send,
                    taken.land(),
                    result,
                    end,
                    gone,
                );
            assert(ends(*send, start.write_next(stays_out).0, result, end, gone));
            if result is Ok {
                ends_whole(
                    *send,
                    start.write_next(stays_out).0,
                    start.write_next(stays_out).0,
                    result,
                    end,
                    gone,
                );
                assert(ends(
                    *send,
                    start.write_next(stays_out).0,
                    bare(Ok::<Step, E>(Step::Persisted)),
                    end,
                    gone,
                ));
            }
        }
        match result {
            Ok(_) => Ok(Step::Persisted),
            Err(error) => Err(error),
        }
    }

    /// The write that is out reaches the disk, whole, and goes back to the
    /// replica; the messages and replies that it released leave. A write
    /// that changed only the commit number needs no sync, and this owner
    /// skips it: the disk keeps its prior image.
    fn land<E, F: Fn(
        &PersistentState<Op>,
        &Replica<Accumulator>,
        ReplicaID,
        &Msg,
    ) -> Result<(), E>>(
        &mut self,
        replica: &mut Replica<Accumulator>,
        send: &F,
        sent: &mut Vec<(ReplicaID, Msg)>,
        replies: &mut Vec<Reply<i64>>,
    ) -> (result: Result<(), E>)
        requires
            old(replica).wf(),
            old(self)@.outstanding is Some,
            can_send(*send),
            Owned::before(old(self)@, old(replica)@, old(replies)@).land().ok,
        ensures
            final(replica).wf(),
            exists|gone: Seq<(ReplicaID, MessageViewFor<Accumulator>)>|
                mail_view(final(sent)@) == mail_view(old(sent)@) + gone && #[trigger] ends(
                    *send,
                    Owned::before(old(self)@, old(replica)@, old(replies)@).land(),
                    result,
                    Stopped {
                        disk: final(self)@,
                        replica: final(replica)@,
                        replies: final(replies)@,
                    },
                    gone,
                ),
    {
        proof {
            accumulator_clones_exactly();
        }
        let ghost start = Owned::before(self@, replica@, replies@);
        let ghost before = mail_view(sent@);
        let mut outstanding = None;
        std::mem::swap(&mut outstanding, &mut self.outstanding);
        if let Some(write) = outstanding {
            if write.sync {
                self.state.apply(&write);
            }
            replica.persisted(write);
        }
        let ghost mail = replica@.outbox_early + replica@.outbox_ready;
        let released = replica.drain_messages();
        let ghost back = Owned::before(self@, replica@, replies@);
        assert(back == Owned { ok: true, ..start.hand_back() });
        let result = self.send_all(replica, released, send, sent, replies);
        let ghost end = Stopped { disk: self@, replica: replica@, replies: replies@ };
        let ghost gone = choose|gone: Seq<(ReplicaID, MessageViewFor<Accumulator>)>|
            mail_view(sent@) == before + gone && #[trigger] ends(
                *send,
                back.send_all(mail),
                result,
                end,
                gone,
            );
        if let Err(error) = result {
            proof {
                ends_before(*send, back.send_all(mail), start.land(), result, end, gone);
            }
            return Err(error);
        }
        proof {
            ends_whole(*send, back.send_all(mail), start.land(), result, end, gone);
        }
        let mut ready = replica.drain_replies();
        replies.append(&mut ready);
        assert(ends(
            *send,
            start.land(),
            Ok::<(), E>(()),
            Stopped { disk: self@, replica: replica@, replies: replies@ },
            gone,
        ));
        Ok(())
    }

    /// Settles the write that is out as a crash leaves it: on disk whole if
    /// `landed`, or not at all. Returns whether it landed, if one was out.
    pub fn crash(&mut self, landed: bool) -> (settled: Option<bool>)
        requires
            old(self)@.can_settle(),
        ensures
            settled == (if old(self)@.outstanding is Some {
                Some(landed)
            } else {
                None
            }),
            final(self)@ == old(self)@.settle(landed),
    {
        proof {
            accumulator_clones_exactly();
        }
        let mut outstanding = None;
        std::mem::swap(&mut outstanding, &mut self.outstanding);
        match outstanding {
            Some(write) => {
                if landed && write.sync {
                    self.state.apply(&write);
                }
                Some(landed)
            },
            None => None,
        }
    }

    /// The state machine writes its state to disk.
    pub fn flush(&mut self, replica: &Replica<Accumulator>)
        ensures
            final(self)@ == old(self)@.flush(replica@),
    {
        self.applied = replica.applied();
        self.state_machine = replica.state_machine().flushed();
    }

    /// The state machine as a process crash leaves it, made durable by its
    /// owner before the restart: what it had flushed, and the operations
    /// after it up to `op_number`, which it had applied and which reached
    /// the page cache.
    pub fn flush_up_to(&mut self, replica: &Replica<Accumulator>, op_number: OpNumber)
        requires
            op_number <= replica@.applied,
            old(self).state_machine.inv(),
            in_op_order(replica@.machine.applied),
            records_keyed(replica@.machine.recorded),
            old(self)@.state_machine.applied.len() > 0 ==> old(
                self,
            )@.state_machine.applied.last().0 <= old(self)@.applied,
        ensures
            final(self)@ == (if old(self)@.applied < op_number {
                DiskView {
                    state_machine: replay_recorded(
                        replay_applied(
                            old(self)@.state_machine,
                            replica@.machine.applied,
                            old(self)@.applied,
                            op_number,
                        ),
                        replica@.machine.recorded,
                        old(self)@.applied,
                        op_number,
                    ),
                    applied: op_number,
                    ..old(self)@
                }
            } else {
                old(self)@
            }),
    {
        if self.applied < op_number {
            let from = self.applied;
            self.state_machine.catch_up(replica.state_machine(), from, op_number);
            self.applied = op_number;
        }
    }

    /// The replica its owner rebuilds from this disk after a power loss,
    /// with the state machine and its client table as of its last flush.
    pub fn restart(&self, id: ReplicaID, config: Config, nonce: u64) -> (replica: Replica<
        Accumulator,
    >)
        requires
            config@.is_cluster(),
            self.state_machine.inv(),
            ReplicaModel::<Accumulator>::can_restart(
                self@.state_machine,
                self@.applied,
                self@.state,
            ),
            ReplicaModel::<Accumulator>::restart(
                id,
                config@,
                self@.state_machine,
                self@.applied,
                self@.state,
                nonce,
            ).ok,
        ensures
            replica.wf(),
            replica@ == ReplicaModel::<Accumulator>::restart(
                id,
                config@,
                self@.state_machine,
                self@.applied,
                self@.state,
                nonce,
            ),
    {
        proof {
            accumulator_clones_exactly();
        }
        Replica::restart(
            id,
            config,
            self.state_machine.clone(),
            self.applied,
            self.state.clone(),
            nonce,
        )
    }

    /// Whether the disk holds what `replica` does in memory, but for the
    /// commit number, which a write may skip, and the client table, which
    /// comes back from the state machine.
    pub fn matches(&self, replica: &Replica<Accumulator>) -> (matches: bool)
        ensures
            matches == self@.matches(replica@),
    {
        self.state.view_number == replica.view_number() && self.state.last_normal_view
            == replica.last_normal_view() && self.state.recovering == replica.is_recovering()
            && self.state.log_start == replica.log_start() && same_entries(
            &self.state.log,
            replica.log(),
        )
    }

    /// Whether the disk holds the committed op `op_number`, which is
    /// `entry`: in the state machine's flush, or in the log.
    pub fn holds(&self, op_number: OpNumber, entry: &LogEntry<Op>) -> (holds: bool)
        requires
            self@.state.end() <= usize::MAX,
        ensures
            holds == self@.holds(op_number, *entry),
    {
        op_number <= self.applied || (op_number > self.state.log_start && op_number
            - self.state.log_start <= self.state.log.len() && self.state.log[op_number
            - self.state.log_start - 1] == *entry)
    }
}

/// Whether two stretches of log are the same.
pub(crate) fn same_entries(a: &[LogEntry<Op>], b: &[LogEntry<Op>]) -> (same: bool)
    ensures
        same == (a@ == b@),
{
    if a.len() != b.len() {
        return false;
    }
    let mut i: usize = 0;
    while i < a.len()
        invariant
            a@.len() == b@.len(),
            i <= a@.len(),
            forall|j: int| 0 <= j < i ==> #[trigger] a@[j] == b@[j],
        decreases a@.len() - i,
    {
        if a[i] != b[i] {
            assert(a@[i as int] != b@[i as int]);
            return false;
        }
        i += 1;
    }
    assert(a@ =~= b@);
    true
}

/// Whether `send` takes every message of a replica.
pub open spec fn can_send<E, F: Fn(
    &PersistentState<Op>,
    &Replica<Accumulator>,
    ReplicaID,
    &Msg,
) -> Result<(), E>>(send: F) -> bool {
    forall|state: PersistentState<Op>, replica: Replica<Accumulator>, to: ReplicaID, message: Msg|
        replica.wf() && state@.end() <= usize::MAX ==> #[trigger] call_requires(
            send,
            (&state, &replica, to, &message),
        )
}

/// Whether a step went through, or the error that ended it.
pub open spec fn bare<E>(result: Result<Step, E>) -> Result<(), E> {
    match result {
        Ok(_) => Ok(()),
        Err(error) => Err(error),
    }
}

/// What `after` is, once `before` was handed over.
spec fn following(before: Owned, after: Owned) -> Owned {
    Owned {
        ok: before.ok && after.ok,
        handovers: before.handovers + after.handovers,
        ..after
    }
}

/// What lands does not depend on what left before.
proof fn lands_from(x: Owned)
    ensures
        x.land() == following(x, Owned::before(x.disk, x.replica, x.replies).land()),
{
    let y = Owned::before(x.disk, x.replica, x.replies);
    assert(x.handing_back() =~= y.handing_back());
    assert(y.land().handovers =~= y.handing_back());
    assert(x.land() =~= following(x, y.land()));
}

/// What is written next does not depend on what left before.
proof fn writes_from(x: Owned, stays_out: bool)
    ensures
        x.write_next(stays_out).0 == following(
            x,
            Owned::before(x.disk, x.replica, x.replies).write_next(stays_out).0,
        ),
        x.write_next(stays_out).1 == Owned::before(x.disk, x.replica, x.replies).write_next(
            stays_out,
        ).1,
{
    let y = Owned::before(x.disk, x.replica, x.replies);
    lands_from(x.take());
    lands_from(y.take());
    assert(x.write_next(stays_out).0 =~= following(x, y.write_next(stays_out).0));
}

/// What the writes of a step do does not depend on what left before.
proof fn settles_from(x: Owned, chances: Chances)
    ensures
        x.settle_writes(chances).0 == following(
            x,
            Owned::before(x.disk, x.replica, x.replies).settle_writes(chances).0,
        ),
        x.settle_writes(chances).1 == Owned::before(x.disk, x.replica, x.replies).settle_writes(
            chances,
        ).1,
{
    let y = Owned::before(x.disk, x.replica, x.replies);
    lands_from(x);
    writes_from(x, chances.stays_out);
    writes_from(x.land(), chances.stays_out);
    writes_from(y.land(), chances.stays_out);
    assert(x.settle_writes(chances).0 =~= following(x, y.settle_writes(chances).0));
}

/// A step hands over first what need not wait.
proof fn step_hands_over_early(start: Owned, chances: Chances)
    ensures
        ({
            let early = start.send_early();
            let owned = start.step(chances).0;
            &&& owned.ok ==> early.ok && start.disk.state.end() <= usize::MAX
            &&& early.handovers == start.drain_early().send_all(start.replica.outbox_early).handovers
            &&& early.handovers.len() <= owned.handovers.len()
            &&& forall|k: int|
                0 <= k < early.handovers.len() ==> #[trigger] owned.handovers[k]
                    == early.handovers[k]
        }),
{
    settles_from(start.send_early().flush_checkpoint(), chances);
}

/// A step that stops at a message stops there whatever would follow.
proof fn ends_before<E, F: Fn(
    &PersistentState<Op>,
    &Replica<Accumulator>,
    ReplicaID,
    &Msg,
) -> Result<(), E>>(
    send: F,
    first: Owned,
    all: Owned,
    result: Result<(), E>,
    end: Stopped,
    sent: Seq<(ReplicaID, MessageViewFor<Accumulator>)>,
)
    requires
        ends(send, first, result, end, sent),
        result is Err,
        first.handovers.len() <= all.handovers.len(),
        forall|k: int|
            0 <= k < first.handovers.len() ==> #[trigger] all.handovers[k] == first.handovers[k],
    ensures
        ends(send, all, result, end, sent),
{
    reveal(ends);
    let count = choose|count: nat|
        {
            &&& #[trigger] lets_go(send, first.handovers, count, result)
            &&& end == first.stopped(count)
            &&& sent == mail_of(first.handovers).take(count as int)
        };
    assert(lets_go(send, all.handovers, count, result));
    assert(mail_of(all.handovers).take(count as int) =~= mail_of(first.handovers).take(
        count as int,
    ));
}

/// A step that goes through has sent all that it handed over.
proof fn ends_whole<E, F: Fn(
    &PersistentState<Op>,
    &Replica<Accumulator>,
    ReplicaID,
    &Msg,
) -> Result<(), E>>(
    send: F,
    first: Owned,
    all: Owned,
    result: Result<(), E>,
    end: Stopped,
    sent: Seq<(ReplicaID, MessageViewFor<Accumulator>)>,
)
    requires
        ends(send, first, result, end, sent),
        result is Ok,
        all.handovers == first.handovers,
    ensures
        end == (Stopped { disk: first.disk, replica: first.replica, replies: first.replies }),
        sent == mail_of(first.handovers),
        forall|k: int|
            0 <= k < first.handovers.len() ==> passes(send, #[trigger] first.handovers[k]),
        forall|done: Result<(), E>|
            done is Ok ==> #[trigger] ends(
                send,
                all,
                done,
                Stopped { disk: all.disk, replica: all.replica, replies: all.replies },
                sent,
            ),
{
    reveal(ends);
    let count = choose|count: nat|
        {
            &&& #[trigger] lets_go(send, first.handovers, count, result)
            &&& end == first.stopped(count)
            &&& sent == mail_of(first.handovers).take(count as int)
        };
    assert(mail_of(first.handovers).take(count as int) =~= mail_of(first.handovers));
    assert forall|done: Result<(), E>| done is Ok implies #[trigger] ends(
        send,
        all,
        done,
        Stopped { disk: all.disk, replica: all.replica, replies: all.replies },
        sent,
    ) by {
        assert(lets_go(send, all.handovers, count, done));
    }
}

/// A step that hands nothing over goes through.
proof fn ends_idle<E, F: Fn(
    &PersistentState<Op>,
    &Replica<Accumulator>,
    ReplicaID,
    &Msg,
) -> Result<(), E>>(send: F, owned: Owned)
    requires
        owned.handovers.len() == 0,
    ensures
        forall|done: Result<(), E>|
            done is Ok ==> #[trigger] ends(
                send,
                owned,
                done,
                Stopped { disk: owned.disk, replica: owned.replica, replies: owned.replies },
                Seq::empty(),
            ),
{
    reveal(ends);
    assert(mail_of(owned.handovers).take(0) =~= Seq::empty());
    assert forall|done: Result<(), E>| done is Ok implies #[trigger] ends(
        send,
        owned,
        done,
        Stopped { disk: owned.disk, replica: owned.replica, replies: owned.replies },
        Seq::empty(),
    ) by {
        assert(lets_go(send, owned.handovers, 0, done));
    }
}

/// A step ends as another that comes to the same.
proof fn same_ends<E, F: Fn(
    &PersistentState<Op>,
    &Replica<Accumulator>,
    ReplicaID,
    &Msg,
) -> Result<(), E>>(send: F, a: Owned, b: Owned)
    requires
        b == (Owned { ok: b.ok, ..a }),
    ensures
        forall|
            result: Result<(), E>,
            end: Stopped,
            sent: Seq<(ReplicaID, MessageViewFor<Accumulator>)>,
        | #[trigger]
            ends(send, a, result, end, sent) ==> ends(send, b, result, end, sent),
{
    reveal(ends);
    assert forall|
        result: Result<(), E>,
        end: Stopped,
        sent: Seq<(ReplicaID, MessageViewFor<Accumulator>)>,
    | #[trigger]
        ends(send, a, result, end, sent) implies ends(send, b, result, end, sent) by {
        let count = choose|count: nat|
            {
                &&& #[trigger] lets_go(send, a.handovers, count, result)
                &&& end == a.stopped(count)
                &&& sent == mail_of(a.handovers).take(count as int)
            };
        assert(lets_go(send, b.handovers, count, result));
    }
}

/// A step ends as its rest does, once all that it handed over before was let
/// go.
proof fn ends_after<E, F: Fn(
    &PersistentState<Op>,
    &Replica<Accumulator>,
    ReplicaID,
    &Msg,
) -> Result<(), E>>(
    send: F,
    first: Owned,
    rest: Owned,
    result: Result<(), E>,
    end: Stopped,
    gone: Seq<(ReplicaID, MessageViewFor<Accumulator>)>,
    more: Seq<(ReplicaID, MessageViewFor<Accumulator>)>,
)
    requires
        forall|k: int|
            0 <= k < first.handovers.len() ==> passes(send, #[trigger] first.handovers[k]),
        gone == mail_of(first.handovers),
        ends(send, rest, result, end, more),
    ensures
        ends(send, following(first, rest), result, end, gone + more),
{
    reveal(ends);
    let all = following(first, rest);
    let count = choose|count: nat|
        {
            &&& #[trigger] lets_go(send, rest.handovers, count, result)
            &&& end == rest.stopped(count)
            &&& more == mail_of(rest.handovers).take(count as int)
        };
    let total = first.handovers.len() + count;
    assert forall|k: int| 0 <= k < total implies passes(send, #[trigger] all.handovers[k]) by {
        if k >= first.handovers.len() {
            assert(all.handovers[k] == rest.handovers[k - first.handovers.len()]);
        }
    }
    if count < rest.handovers.len() {
        assert(all.handovers[total as int] == rest.handovers[count as int]);
    }
    assert(lets_go(send, all.handovers, total, result));
    assert(mail_of(all.handovers).take(total as int) =~= gone + more);
}

} // verus!
