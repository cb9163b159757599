use vstd::prelude::*;
use super::model::{pending_of, ReplicaModel};
use super::parts::Status;
use super::Replica;
use crate::client_table::lists_in_order;
use crate::ids::{ClientID, OpNumber, ReplicaID, RequestNumber, ViewNumber};
use crate::log::{copy_from, drop_front, LogEntry};
use crate::state_machine::{exact_clones, table_as_of, table_view, ClientRecord, StateMachine};

verus! {

impl<SM: StateMachine> Replica<SM> {
    /// Returns the ID of this replica.
    pub fn id(&self) -> (id: ReplicaID)
        ensures
            id == self@.self_id,
    {
        self.self_id
    }

    /// Returns `true` if this replica is the primary of its current view.
    pub fn is_primary(&self) -> (primary: bool)
        requires
            self.wf(),
        ensures
            primary == self@.is_primary(),
    {
        self.self_id == self.primary_id()
    }

    /// Returns the ID of the primary of the current view.
    pub fn primary_id(&self) -> (id: ReplicaID)
        requires
            self.wf(),
        ensures
            id == self@.primary_id(),
            id < self@.config.size(),
    {
        self.config.primary_id(self.view_number)
    }

    /// Returns the current view number.
    pub fn view_number(&self) -> (view_number: ViewNumber)
        ensures
            view_number == self@.view_number,
    {
        self.view_number
    }

    /// The latest view in which this replica's status was normal.
    pub fn last_normal_view(&self) -> (view_number: ViewNumber)
        ensures
            view_number == self@.last_normal_view,
    {
        self.last_normal_view
    }

    /// What this replica is doing right now.
    pub fn status(&self) -> (status: Status)
        ensures
            status == self@.status,
    {
        self.status
    }

    /// Whether this replica is still recovering from a crash.
    pub fn is_recovering(&self) -> (recovering: bool)
        ensures
            recovering == (self@.status == Status::Recovering),
    {
        self.status == Status::Recovering
    }

    /// Whether this replica leads its view.
    pub(crate) fn leads(&self) -> (leads: bool)
        requires
            self.wf(),
        ensures
            leads == self@.leads(),
    {
        self.is_primary() && self.status == Status::Normal
    }

    /// Returns the commit number, i.e. the number of log entries that are
    /// committed.
    pub fn commit_number(&self) -> (commit_number: OpNumber)
        ensures
            commit_number == self@.commit_number,
    {
        self.commit_number
    }

    /// The number of committed ops the state machine has executed, which
    /// happens once the log that holds them is durable.
    pub fn applied(&self) -> (applied: OpNumber)
        ensures
            applied == self@.applied,
    {
        self.applied
    }

    /// Returns the op number, i.e. that of the last log entry.
    pub fn op_number(&self) -> (op_number: OpNumber)
        requires
            self.wf_but_table(),
        ensures
            op_number == self@.op_number(),
    {
        self.log_start + self.log.len()
    }

    /// The op number of the last entry compacted away; the log holds the
    /// entries after it.
    pub fn log_start(&self) -> (op_number: OpNumber)
        ensures
            op_number == self@.log_start,
    {
        self.log_start
    }

    /// The log entries after [`Replica::log_start`], in op number order.
    pub fn log(&self) -> (log: &[LogEntry<SM::Input>])
        ensures
            log@ == self@.log,
    {
        self.log.as_slice()
    }

    /// Returns the state machine, as far as the persisted writes have
    /// taken it.
    pub fn state_machine(&self) -> (state_machine: &SM)
        ensures
            state_machine.state() == self@.machine,
            self.wf() ==> state_machine.inv(),
    {
        &self.state_machine
    }

    /// A copy of the log entries from `op_number` on, or from the first one
    /// held if `op_number` has been compacted.
    pub(crate) fn log_from(&self, op_number: OpNumber) -> (entries: Vec<LogEntry<SM::Input>>)
        requires
            self.wf(),
        ensures
            entries@ == self@.log_from(op_number as int),
    {
        let skip: usize = if op_number <= self.log_start + 1 {
            0
        } else if op_number - self.log_start - 1 >= self.log.len() {
            self.log.len()
        } else {
            op_number - self.log_start - 1
        };
        let entries = copy_from(&self.log, skip);
        assert(entries@ =~= self@.log_from(op_number as int));
        entries
    }

    /// The op number up to which the handed-back writes hold the log as
    /// memory does: `durable`, less the entries changed since the last
    /// write was taken.
    pub(crate) fn durable_op(&self) -> (op_number: OpNumber)
        requires
            self.wf(),
        ensures
            op_number == self@.durable_op(),
            op_number <= self@.op_number(),
    {
        match self.log_changed_from {
            Some(from) => if self.durable <= from - 1 {
                self.durable
            } else {
                from - 1
            },
            None => self.durable,
        }
    }

    /// What `pending` keeps for `entry`, appended as `op_number`: its
    /// client, and its session and request number, 0 for a registration.
    pub(crate) fn pending_key(op_number: OpNumber, entry: &LogEntry<SM::Input>) -> (key: (
        ClientID,
        (OpNumber, RequestNumber),
    ))
        ensures
            key == (entry.client(), entry.key(op_number)),
    {
        match entry {
            LogEntry::Register { client_id } => (*client_id, (op_number, 0)),
            LogEntry::Request { client_id, session, request_number, .. } => (
                *client_id,
                (*session, *request_number),
            ),
        }
    }

    /// The lowest op number changed once the entries from `op_number` on
    /// are.
    pub(crate) fn changed_with(&self, op_number: OpNumber) -> (changed: Option<OpNumber>)
        ensures
            changed == self@.mark_log_changed(op_number).log_changed_from,
    {
        match self.log_changed_from {
            Some(from) => Some(
                if from <= op_number {
                    from
                } else {
                    op_number
                },
            ),
            None => Some(op_number),
        }
    }

    /// Appends `entry` to the log.
    pub(crate) fn append_to_log(&mut self, entry: LogEntry<SM::Input>)
        requires
            old(self).wf(),
            old(self)@.append_to_log(entry).ok,
        ensures
            final(self).wf(),
            final(self)@ == old(self)@.append_to_log(entry),
    {
        let op_number: OpNumber = self.op_number() + 1;
        self.log_changed_from = self.changed_with(op_number);
        let (client_id, key) = Self::pending_key(op_number, &entry);
        self.clients.set_pending(client_id, key);
        self.log.push(entry);
    }

    /// Rebuilds the pending entries from the log after `applied`.
    pub(crate) fn rebuild_pending(&mut self)
        requires
            old(self).wf(),
        ensures
            final(self).wf(),
            final(self)@ == old(self)@.rebuild_pending(),
    {
        self.clients.clear_pending();
        let first: usize = self.applied - self.log_start;
        let ghost entries = self.log@.skip(first as int);
        let mut i: usize = first;
        assert(entries.take(0) =~= Seq::empty());
        while i < self.log.len()
            invariant
                first == self.applied - self.log_start,
                first <= i <= self.log@.len(),
                entries == self.log@.skip(first as int),
                exact_clones::<SM>(),
                self.clients.wf(self.applied as int),
                self@ == (ReplicaModel {
                    pending: pending_of(entries.take(i - first), self.applied as int),
                    ..old(self)@
                }),
                self.waiting == old(self).waiting,
                self.state_machine == old(self).state_machine,
                old(self).wf(),
            decreases self.log@.len() - i,
        {
            proof {
                let n = i - first;
                assert(entries.take(n + 1).drop_last() =~= entries.take(n));
                assert(entries.take(n + 1).last() == self.log@[i as int]);
            }
            let (client_id, key) = Self::pending_key(self.log_start + i + 1, &self.log[i]);
            self.clients.set_pending(client_id, key);
            i += 1;
        }
        assert(entries.take(i - first) =~= entries);
    }

    /// Replaces the log after `start` with `entries`, which must reach at
    /// least as far as our commit number. The caller guarantees that our
    /// entries up to `start` agree with the sender's: because they are
    /// committed, or because they came from the same primary in the same
    /// view. Our committed entries agree with the sender's too, since
    /// committed prefixes agree everywhere, so they stay as well, and the
    /// change is confined to the uncommitted suffix.
    pub(crate) fn merge_log(&mut self, start: OpNumber, entries: Vec<LogEntry<SM::Input>>)
        requires
            old(self).wf(),
            old(self)@.merge_log(start, entries@).ok,
        ensures
            final(self).wf(),
            final(self)@ == old(self)@.merge_log(start, entries@),
    {
        let keep_up_to: OpNumber = if start >= self.commit_number {
            start
        } else {
            self.commit_number
        };
        let mut rest = entries;
        let known: usize = keep_up_to - start;
        if known >= rest.len() {
            rest.clear();
        } else {
            drop_front(&mut rest, known);
        }
        self.log.truncate(keep_up_to - self.log_start);
        self.log.append(&mut rest);
        self.log_changed_from = self.changed_with(keep_up_to + 1);
        self.rebuild_pending();
    }

    /// Takes the client table from the state machine.
    pub(crate) fn load_client_table(&mut self)
        requires
            old(self).wf_but_table(),
            table_as_of(SM::table(old(self)@.machine), old(self)@.applied),
        ensures
            final(self).wf(),
            final(self)@ == old(self)@.load_client_table(),
    {
        let table = self.state_machine.client_table();
        let ghost records = SM::table(self@.machine);
        self.clients.load(table, Ghost(records), Ghost(self.applied));
    }

    /// Drops the log entries up to `op_number` from memory. The op number
    /// must be at most what the state machine has made durable, since
    /// [`Replica::restart`] cannot apply an entry that is gone; anything
    /// beyond what the state machine has applied is not compacted, nor
    /// anything after the checkpoint kept for replicas that fell behind,
    /// while it is kept. A replica that needs the dropped entries fetches a
    /// checkpoint instead.
    pub fn compact(&mut self, op_number: OpNumber)
        requires
            old(self).wf(),
        ensures
            final(self).wf(),
            final(self)@ == old(self)@.compact(op_number),
    {
        let mut target = op_number;
        if self.applied < target {
            target = self.applied;
        }
        if let Some((kept, _)) = self.serving {
            if kept < target {
                target = kept;
            }
        }
        if target <= self.log_start {
            return;
        }
        drop_front(&mut self.log, target - self.log_start);
        self.log_start = target;
    }

    /// The client table, in client id order.
    pub fn client_table(&self) -> (table: Vec<ClientRecord<SM::Output>>)
        requires
            self.wf(),
        ensures
            lists_in_order(table_view(table@), self@.records),
    {
        self.clients.in_order(Ghost(self.applied as int))
    }
}

} // verus!
