use vstd::prelude::*;
use super::model::ReplicaModel;
use super::frames::frame_commit_up_to;
use super::ok::{ok_apply_committed, ok_register_ack};
use super::parts::{Outstanding, Status, Written};
use super::{mail_view, Replica};
use crate::ids::{OpNumber, ReplicaID};
use crate::log::{copy_from, LogWrite, PersistentState};
use crate::message::{MessageFor, Reply};
use crate::state_machine::StateMachine;

verus! {

impl<SM: StateMachine> Replica<SM> {
    /// Everything the owner persists, as of now, see [`PersistentState`].
    pub fn persistent_state(&self) -> (state: PersistentState<SM::Input>)
        requires
            self.wf(),
        ensures
            state@ == self@.persistent_state(),
    {
        let log = copy_from(&self.log, 0);
        assert(log@ =~= self.log@);
        PersistentState {
            view_number: self.view_number,
            last_normal_view: self.last_normal_view,
            commit_number: self.commit_number,
            log_start: self.log_start,
            log,
            recovering: self.status == Status::Recovering,
        }
    }

    /// Takes the replica's write, has `write_to_disk` persist it, and hands
    /// it back, which releases what waited for it: the persistence step of
    /// an owner that writes before it goes on. `write_to_disk` gets every
    /// write, and makes it durable when [`LogWrite::sync`] says so. If it
    /// fails, the write stays out, and the replica takes no other: the
    /// disk behind it is in doubt.
    pub fn persist<E, F: FnOnce(&LogWrite<SM::Input>) -> Result<(), E>>(
        &mut self,
        write_to_disk: F,
    ) -> (result: Result<(), E>)
        requires
            old(self).wf(),
            old(self)@.outstanding is None,
            old(self)@.take_write().ok,
            // Only a write that does not fail is handed back.
            forall|write: LogWrite<SM::Input>|
                write@ == old(self)@.write() && #[trigger] call_ensures(
                    write_to_disk,
                    (&write,),
                    Ok::<(), E>(()),
                ) ==> old(self)@.take_write().persisted().ok,
            forall|write: LogWrite<SM::Input>|
                write@ == old(self)@.write() ==> call_requires(write_to_disk, (&write,)),
        ensures
            final(self).wf(),
            exists|write: LogWrite<SM::Input>|
                write@ == old(self)@.write() && #[trigger] call_ensures(
                    write_to_disk,
                    (&write,),
                    result,
                ),
            final(self)@ == (match result {
                Ok(_) => old(self)@.take_write().persisted(),
                Err(_) => old(self)@.take_write(),
            }),
    {
        let write = self.take_write();
        let result = write_to_disk(&write);
        assert(call_ensures(write_to_disk, (&write,), result));
        match result {
            Ok(done) => {
                assert(done == ());
                self.persisted(write);
                Ok(done)
            },
            Err(error) => Err(error),
        }
    }

    /// What the steps since the last write changed, for the owner to
    /// persist; see [`LogWrite`]. The messages those steps produced that
    /// must wait for it are released when the owner hands it back with
    /// [`Replica::persisted`]. One write is out at a time; steps may run
    /// before it is handed back, and what they change goes in the next.
    /// The first write of a new or recovering replica always needs a sync,
    /// so that a disk that holds anything holds the replica's view.
    pub fn take_write(&mut self) -> (write: LogWrite<SM::Input>)
        requires
            old(self).wf(),
            old(self)@.outstanding is None,
            old(self)@.take_write().ok,
        ensures
            final(self).wf(),
            final(self)@ == old(self)@.take_write(),
            write@ == old(self)@.write(),
    {
        let op_number = self.op_number();
        // The entries the write replaces are in doubt until it is back.
        let durable = self.durable_op();
        let changed = self.log_changed_from;
        let entries_from: OpNumber = match changed {
            Some(from) => if from >= self.log_start + 1 {
                from
            } else {
                self.log_start + 1
            },
            None => op_number + 1,
        };
        let entries = self.log_from(entries_from);
        let recorded = Written {
            view_number: self.view_number,
            last_normal_view: self.last_normal_view,
            recovering: self.status == Status::Recovering,
            log_start: self.log_start,
        };
        let same = match self.written {
            Some(written) => written == recorded,
            None => false,
        };
        let sync = changed.is_some() || !same;
        self.durable = durable;
        self.log_changed_from = None;
        self.written = Some(recorded);
        self.writes = self.writes + 1;
        self.outstanding = Some(
            Outstanding {
                sequence: self.writes,
                op_number,
                last_normal_view: self.last_normal_view,
            },
        );
        std::mem::swap(&mut self.outbox, &mut self.outbox_waiting);
        assert(self@ == old(self)@.take_write());
        LogWrite {
            view_number: self.view_number,
            last_normal_view: self.last_normal_view,
            recovering: recorded.recovering,
            commit_number: self.commit_number,
            log_start: self.log_start,
            entries_from,
            entries,
            sync,
            op_number,
            sequence: self.writes,
        }
    }

    /// Tells the replica that `write`, the one it has out, is durable, or
    /// needed no sync. The primary counts its own acknowledgement for the
    /// entries the write holds, the committed operations among them are
    /// executed, and the messages that waited for it are released to
    /// [`Replica::drain_messages`]. Entries that steps since changed are
    /// left for the next write.
    #[verifier::spinoff_prover]
    #[verifier::rlimit(60)]
    pub fn persisted(&mut self, write: LogWrite<SM::Input>)
        requires
            old(self).wf(),
            old(self)@.outstanding is Some,
            old(self)@.outstanding->0.sequence == write@.sequence,
            old(self)@.persisted().ok,
        ensures
            final(self).wf(),
            final(self)@ == old(self)@.persisted(),
    {
        broadcast use {ok_register_ack, ok_apply_committed, frame_commit_up_to};

        proof {
            reveal(ReplicaModel::persisted);
        }
        let outstanding = match self.outstanding {
            Some(outstanding) => outstanding,
            None => {
                return;
            },
        };
        self.outstanding = None;
        self.durable = outstanding.op_number;
        assert(self@ == (ReplicaModel {
            outstanding: None,
            durable: outstanding.op_number,
            ..old(self)@
        }));
        // The entries the write holds and memory still has.
        let durable = self.durable_op();
        // Within a view the primary's log only grows, so a write taken
        // while normal in the current view holds a prefix of it.
        if self.leads() && outstanding.last_normal_view == self.view_number {
            let self_id = self.self_id;
            self.register_ack(self_id, durable);
        }
        self.apply_committed(durable);
        let ghost applied = self@;
        let ghost ready = self.outbox_ready@;
        let ghost waiting = self.outbox_waiting@;
        self.outbox_ready.append(&mut self.outbox_waiting);
        proof {
            assert(mail_view(ready + waiting) =~= mail_view(ready) + mail_view(waiting));
            assert(self@ == (ReplicaModel {
                outbox_ready: applied.outbox_ready + applied.outbox_waiting,
                outbox_waiting: Seq::empty(),
                ..applied
            }));
        }
    }

    /// Messages that may be sent before the step is persisted, because
    /// they promise nothing about this replica's durable state. An owner
    /// that sends them first overlaps its own write with the receivers';
    /// one that skips this gets them from [`Replica::drain_messages`].
    pub fn drain_messages_before_persist(&mut self) -> (messages: Vec<(ReplicaID, MessageFor<SM>)>)
        requires
            old(self).wf(),
        ensures
            final(self).wf(),
            mail_view(messages@) == old(self)@.outbox_early,
            final(self)@ == (ReplicaModel {
                round_unsent: false,
                outbox_early: Seq::empty(),
                ..old(self)@
            }),
    {
        self.round_unsent = false;
        let mut messages: Vec<(ReplicaID, MessageFor<SM>)> = Vec::new();
        std::mem::swap(&mut messages, &mut self.outbox_early);
        assert(self@ == (ReplicaModel {
            round_unsent: false,
            outbox_early: Seq::empty(),
            ..old(self)@
        }));
        messages
    }

    /// Messages to send to other replicas: those that need not wait for a
    /// write, and those whose write [`Replica::persisted`] has released.
    pub fn drain_messages(&mut self) -> (messages: Vec<(ReplicaID, MessageFor<SM>)>)
        requires
            old(self).wf(),
        ensures
            final(self).wf(),
            mail_view(messages@) == old(self)@.outbox_early + old(self)@.outbox_ready,
            final(self)@ == (ReplicaModel {
                round_unsent: false,
                outbox_early: Seq::empty(),
                outbox_ready: Seq::empty(),
                ..old(self)@
            }),
    {
        self.round_unsent = false;
        let mut messages: Vec<(ReplicaID, MessageFor<SM>)> = Vec::new();
        std::mem::swap(&mut messages, &mut self.outbox_early);
        messages.append(&mut self.outbox_ready);
        assert(self@ == (ReplicaModel {
            round_unsent: false,
            outbox_early: Seq::empty(),
            outbox_ready: Seq::empty(),
            ..old(self)@
        }));
        assert(mail_view(messages@) =~= old(self)@.outbox_early + old(self)@.outbox_ready);
        messages
    }

    /// Replies to send to clients: for registrations and requests
    /// executed, for re-sent ones answered from the client table, for
    /// requests of evicted sessions, and for queries. They answer entries a
    /// handed-back write holds, or read a state executed from them, so the
    /// owner may send them before the next write.
    pub fn drain_replies(&mut self) -> (replies: Vec<Reply<SM::Output>>)
        requires
            old(self).wf(),
        ensures
            final(self).wf(),
            replies@ == old(self)@.replies,
            final(self)@ == (ReplicaModel { replies: Seq::empty(), ..old(self)@ }),
    {
        let mut replies: Vec<Reply<SM::Output>> = Vec::new();
        std::mem::swap(&mut replies, &mut self.replies);
        assert(self@ == (ReplicaModel { replies: Seq::empty(), ..old(self)@ }));
        replies
    }
}

} // verus!
