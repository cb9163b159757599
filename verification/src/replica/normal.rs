use vstd::prelude::*;
use super::marks::quorum_op;
use super::model::{add_range, ReplicaModel};
use super::ok::group_ok;
use super::parts::Status;
use super::Replica;
use crate::duplicate::duplicate;
use crate::ids::{ClientID, CommitID, OpNumber, ReplicaID, RequestNumber, ViewNumber};
use crate::log::LogEntry;
use crate::message::{Message, Reply};
use crate::state_machine::StateMachine;

verus! {

impl<SM: StateMachine> Replica<SM> {
    /// Commits every op up to `commit_number`, and executes them, replying
    /// if `reply` is set: at once those that a handed-back write holds as
    /// memory does, the rest once one does. The commit number never moves
    /// backwards.
    pub(crate) fn commit_up_to(&mut self, commit_number: CommitID, reply: bool)
        requires
            old(self).wf(),
            old(self)@.commit_up_to(commit_number, reply).ok,
        ensures
            final(self).wf(),
            final(self)@ == old(self)@.commit_up_to(commit_number, reply),
    {
        if commit_number <= self.commit_number {
            return;
        }
        let ghost ranges = self.reply_ranges@;
        if reply {
            // A commit that follows the last extends its range, so that the
            // ranges `apply_committed` checks for every op stay few while a
            // write is out and nothing executes.
            let from: OpNumber = self.commit_number + 1;
            let last = self.reply_ranges.pop();
            match last {
                Some((start, to)) => {
                    assert(self@.reply_ranges == ranges.drop_last());
                    assert(old(self)@.reply_ranges[ranges.len() - 1].1 <= self.commit_number);
                    if to + 1 == from {
                        self.reply_ranges.push((start, commit_number));
                    } else {
                        self.reply_ranges.push((start, to));
                        self.reply_ranges.push((from, commit_number));
                    }
                },
                None => {
                    self.reply_ranges.push((from, commit_number));
                },
            }
            assert(self.reply_ranges@ =~= add_range(ranges, from, commit_number));
        }
        proof {
            assert forall|i: int| 0 <= i < self.reply_ranges@.len() implies (
            #[trigger] self.reply_ranges@[i]).1 <= commit_number by {
                if i < ranges.len() {
                    assert(old(self)@.reply_ranges[i].1 <= old(self)@.commit_number);
                }
            }
        }
        self.commit_number = commit_number;
        let durable = self.durable_op();
        self.apply_committed(durable);
    }

    /// Registers that `replica_id` holds every op up to `op_number`, and
    /// commits up to the highest op number a quorum of replicas holds. An
    /// acknowledgement covers every earlier op, so each replica's highest
    /// is all that counts: the same backup acknowledging twice, because the
    /// network replayed its message or because it answered a re-sent
    /// `Prepare`, still counts once, and an op whose own acknowledgements
    /// were lost or overtaken commits with the later ones that cover it.
    pub(crate) fn register_ack(&mut self, replica_id: ReplicaID, op_number: OpNumber)
        requires
            old(self).wf(),
            replica_id < old(self)@.acked.len(),
            old(self)@.register_ack(replica_id, op_number).ok,
        ensures
            final(self).wf(),
            final(self)@ == old(self)@.register_ack(replica_id, op_number),
    {
        let held = self.op_number();
        let mark: OpNumber = if op_number <= held {
            op_number
        } else {
            held
        };
        if mark <= self.acked[replica_id] {
            return;
        }
        self.acked.set(replica_id, mark);
        // A quorum holds every op up to the quorum-th highest watermark: the
        // highest that at least a quorum of watermarks reach.
        let committed = quorum_op(&self.acked, self.config.quorum());
        self.commit_up_to(committed, true);
    }

    /// A client asks the primary for a session. One the client has is
    /// answered at once; otherwise the primary appends the registration,
    /// unless one is in the log already.
    pub(crate) fn on_register(&mut self, client_id: ClientID)
        requires
            old(self).wf(),
            old(self)@.on_register(client_id).ok,
        ensures
            final(self).wf(),
            final(self)@ == old(self)@.on_register(client_id),
    {
        if !self.leads() {
            return;
        }
        if let Some(record) = self.clients.record(client_id) {
            let session = record.session;
            self.replies.push(
                Reply::Registered { view_number: self.view_number, client_id, session },
            );
            return;
        }
        if let Some((_, request_number)) = self.clients.latest_pending(client_id) {
            if request_number == 0 {
                return;
            }
        }
        self.prepare(LogEntry::Register { client_id });
    }

    /// The client sends a `Request` message to the primary, which replicates
    /// the operation to the other replicas.
    pub(crate) fn on_request(
        &mut self,
        client_id: ClientID,
        session: OpNumber,
        request_number: RequestNumber,
        answered: RequestNumber,
        op: SM::Input,
    )
        requires
            old(self).wf(),
            old(self)@.on_request(client_id, session, request_number, answered, op).ok,
        ensures
            final(self).wf(),
            final(self)@ == old(self)@.on_request(
                client_id,
                session,
                request_number,
                answered,
                op,
            ),
    {
        broadcast use group_ok;
        // Backups ignore client requests; clients send to every replica
        // when they re-send, in case the primary has changed. A primary that
        // is not in normal status drops the request too, and the client's
        // re-send will find it once it is.

        if !self.leads() {
            return;
        }
        let view_number = self.view_number;
        let found = self.clients.record(client_id);
        let in_session = match found {
            Some(record) => record.session == session,
            None => false,
        };
        let record = match found {
            Some(record) if in_session => record,
            _ => {
                // The session's registration has executed here, and its
                // record is gone: the session was evicted. A later one may
                // not have executed yet.
                if session <= self.applied {
                    self.replies.push(Reply::Evicted { view_number, client_id, session });
                }
                return;
            },
        };
        if request_number <= record.request_number {
            // A re-send of an executed request, answered while the table
            // keeps its result.
            let behind: usize = record.request_number - request_number;
            if behind < record.replies.len() {
                let index: usize = record.replies.len() - behind - 1;
                let result = duplicate(&record.replies[index]);
                self.replies.push(
                    Reply::Executed { view_number, client_id, session, request_number, result },
                );
            }
            return;
        }
        // Only the session's next request is appended, so that its requests
        // execute in order: a later one arrived out of order, and an earlier
        // one is in the log already. A client has at most `in_flight_max`
        // requests past its last executed one. An entry of a later session
        // in the log means the client has left this one, whose requests
        // may be in the log too.

        let latest = match self.clients.latest_pending(client_id) {
            Some((pending_session, pending)) => if pending_session == session {
                pending
            } else if pending_session > session {
                return;
            } else {
                record.request_number
            },
            None => record.request_number,
        };
        if request_number != latest + 1 || request_number > record.request_number
            + self.config.in_flight_max() {
            return;
        }
        self.prepare(LogEntry::Request { client_id, session, request_number, answered, op });
    }

    /// Appends `entry` to the log and sends it to the backups.
    fn prepare(&mut self, entry: LogEntry<SM::Input>)
        requires
            old(self).wf(),
            old(self)@.prepare(entry).ok,
        ensures
            final(self).wf(),
            final(self)@ == old(self)@.prepare(entry),
    {
        broadcast use group_ok;

        self.append_to_log(entry.clone());
        let message = Message::Prepare {
            view_number: self.view_number,
            op_number: self.op_number(),
            entry,
            commit_number: self.commit_number,
        };
        self.send_to_others(message);
    }

    /// The primary sends a `Prepare` message to replicate an operation to
    /// backup nodes. The nodes that receive a `Prepare` message will reply
    /// with `PrepareOk` when they have appended `op` to their logs. The
    /// message also contains the commit number of the primary, so that the
    /// backups can commit their logs up to that point.
    pub(crate) fn on_prepare(
        &mut self,
        view_number: ViewNumber,
        op_number: OpNumber,
        entry: LogEntry<SM::Input>,
        commit_number: CommitID,
    )
        requires
            old(self).wf(),
            old(self)@.on_prepare(view_number, op_number, entry, commit_number).ok,
        ensures
            final(self).wf(),
            final(self)@ == old(self)@.on_prepare(view_number, op_number, entry, commit_number),
    {
        broadcast use group_ok;
        reveal(ReplicaModel::on_prepare);
        if !self.accept_from_primary(view_number) {
            return;
        }
        // If we fell behind in the log, initiate state transfer.

        if op_number > self.op_number() + 1 {
            self.state_transfer();
            return;
        }
        if op_number == self.op_number() + 1 {
            // Append the request to our log.
            self.append_to_log(entry);
        }
        // Otherwise we already have the op: the primary re-sent it because
        // it has not seen our `PrepareOk`, so acknowledge it again below.
        //
        // Commit the log up to the commit number received in `Prepare`
        // message, which represents the committed state of the primary. A
        // re-sent `Prepare` can carry a commit number beyond our log; the
        // re-sent ops that follow close that gap.

        let held = self.op_number();
        let committed = if commit_number <= held {
            commit_number
        } else {
            held
        };
        self.commit_up_to(committed, false);
        // Acknowledge to the primary that we have every op up to our op
        // number.
        self.send_prepare_ok();
    }

    /// Backup nodes send `PrepareOk` message to the primary to acknowledge
    /// that they have appended an op to their logs. The acknowledgement
    /// covers every earlier op too: a backup only appends an op once it has
    /// every earlier one. When the primary has received `PrepareOk` messages
    /// from a quorum of replicas for an op, it commits that op and every
    /// earlier one, and replies to the clients.
    pub(crate) fn on_prepare_ok(
        &mut self,
        view_number: ViewNumber,
        op_number: OpNumber,
        replica_id: ReplicaID,
    )
        requires
            old(self).wf(),
            old(self)@.on_prepare_ok(view_number, op_number, replica_id).ok,
        ensures
            final(self).wf(),
            final(self)@ == old(self)@.on_prepare_ok(view_number, op_number, replica_id),
    {
        reveal(ReplicaModel::on_prepare_ok);
        if view_number != self.view_number || !self.leads() || replica_id >= self.acked.len() {
            return;
        }
        self.register_ack(replica_id, op_number);
    }

    /// A backup node typically commits its log as part of `Prepare`
    /// message handling because the primary uses that also to signal the
    /// current commit number. However, `Prepare` is sent only in
    /// reaction to a client `Request` message. If there are no client
    /// requests, then the primary sends a `Commit` message to backup
    /// nodes instead to give backup nodes the chance to commit.
    pub(crate) fn on_commit(&mut self, view_number: ViewNumber, commit_number: CommitID)
        requires
            old(self).wf(),
            old(self)@.on_commit(view_number, commit_number).ok,
        ensures
            final(self).wf(),
            final(self)@ == old(self)@.on_commit(view_number, commit_number),
    {
        broadcast use group_ok;
        reveal(ReplicaModel::on_commit);
        if !self.accept_from_primary(view_number) {
            return;
        }
        if commit_number > self.op_number() {
            self.state_transfer();
            return;
        }
        self.commit_up_to(commit_number, false);
    }

    /// Checks a `Prepare` or `Commit` from the primary of `view_number`
    /// against our own view and status, and returns whether to process it
    /// as a normal-case message.
    ///
    /// A message from a later view means a view change happened without
    /// us, and one for our own view while we are still changing to it means
    /// the view has started: either way we first catch up with the view's
    /// state from its primary.
    fn accept_from_primary(&mut self, view_number: ViewNumber) -> (process: bool)
        requires
            old(self).wf(),
        ensures
            final(self).wf(),
            (final(self)@, process) == old(self)@.accept_from_primary(view_number),
    {
        if view_number < self.view_number {
            return false;
        }
        if view_number > self.view_number {
            self.catch_up_with_view(view_number);
            return false;
        }
        // The primary of our view is alive.

        self.heard_from_primary = true;
        assert(self@ == (ReplicaModel { heard_from_primary: true, ..old(self)@ }));
        match self.status {
            Status::Normal => !self.is_primary(),
            Status::StateTransfer => false,
            Status::Recovering => false,
            Status::ViewChange => {
                self.catch_up_with_view(view_number);
                false
            },
        }
    }

    /// Asks the primary for the log after our op number, to fill a gap
    /// within the current view.
    pub(crate) fn state_transfer(&mut self)
        requires
            old(self).wf(),
            old(self)@.status == Status::Normal || old(self)@.status == Status::StateTransfer,
        ensures
            final(self).wf(),
            final(self)@ == old(self)@.state_transfer(),
    {
        self.status = Status::StateTransfer;
        let op_number = self.op_number();
        self.send_get_state(op_number);
    }
}

} // verus!
