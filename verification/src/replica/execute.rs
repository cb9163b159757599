use std::collections::VecDeque;
use vstd::prelude::*;
use super::model::{in_ranges, keep_last, waiting_keys, ReplicaModel};
use super::ok::group_ok;
use super::Replica;
use crate::client_table::{oldest_session, set_remove};
use crate::duplicate::duplicate;
use crate::ids::{ClientID, OpNumber};
use crate::log::LogEntry;
use crate::message::Reply;
use crate::state_machine::{ClientRecord, StateMachine};

verus! {

/// Drops all but the last `count` of `items`.
pub(crate) fn keep_newest<T>(items: &mut VecDeque<T>, count: usize)
    ensures
        final(items)@ == keep_last(old(items)@, count as int),
{
    while items.len() > count
        invariant
            keep_last(items@, count as int) == keep_last(old(items)@, count as int),
        decreases items@.len(),
    {
        let ghost before = items@;
        let _ = items.pop_front();
        assert(keep_last(items@, count as int) =~= keep_last(before, count as int));
    }
}

proof fn lemma_execute_entries_ok<SM: StateMachine>(s: ReplicaModel<SM>, count: nat, total: nat)
    requires
        count <= total,
        s.execute_entries(total).ok,
    ensures
        s.execute_entries(count).ok,
    decreases total,
{
    broadcast use group_ok;

    if count < total {
        lemma_execute_entries_ok(s, count, (total - 1) as nat);
    }
}

impl<SM: StateMachine> Replica<SM> {
    /// Evicts the session whose latest entry executed earliest, at
    /// `op_number`.
    fn evict(&mut self, op_number: OpNumber, Ghost(applied): Ghost<int>)
        requires
            old(self).wf_but_table(),
            old(self).clients.wf(applied),
            old(self)@.records.dom().len() > 0,
            old(self)@.evict(op_number).ok,
        ensures
            final(self).wf_but_table(),
            final(self).clients.wf(applied),
            final(self)@ == old(self)@.evict(op_number),
            old(self)@.records.contains_key(oldest_session(old(self)@.records)),
    {
        let evicted = self.clients.evict_oldest(Ghost(applied));
        self.state_machine.record_client(op_number, evicted, None);
    }

    /// Opens a session numbered `op_number` for `client_id`, unless it has
    /// one, evicting the session whose latest entry executed earliest if
    /// the client table is full.
    fn register(&mut self, op_number: OpNumber, client_id: ClientID) -> (reply: Reply<SM::Output>)
        requires
            old(self).wf(),
            old(self).applied < op_number,
            old(self)@.register(op_number, client_id).0.ok,
        ensures
            final(self).wf_but_table(),
            final(self).clients.wf(op_number as int),
            (final(self)@, reply) == old(self)@.register(op_number, client_id),
    {
        let view_number = self.view_number;
        self.clients.settle(client_id, (op_number, 0));
        if let Some(record) = self.clients.record(client_id) {
            self.state_machine.record_client(op_number, client_id, Some(record));
            return Reply::Registered { view_number, client_id, session: record.session };
        }
        let sessions = self.clients.sessions(Ghost(self.applied as int));
        if sessions >= self.config.clients_max() {
            let ghost full = self@.records;
            self.evict(op_number, Ghost(self.applied as int));
            assert(self@.records.dom() =~= full.dom().remove(oldest_session(full)));
            assert(full.dom().contains(oldest_session(full)));
            assert(self@.records.dom().len() == sessions - 1);
        }
        assert(self@.records.dom().len() < usize::MAX);
        let record = ClientRecord {
            client_id,
            session: op_number,
            request_number: 0,
            replies: VecDeque::new(),
            op_number,
        };
        self.state_machine.record_client(op_number, client_id, Some(&record));
        self.clients.put_record(record, Ghost(self.applied as int));
        Reply::Registered { view_number, client_id, session: op_number }
    }

    /// Executes the entry at `op_number`, and returns the reply to it. A
    /// request executes only in its session, which holds every earlier
    /// request of the session, since the primary appends them in order.
    fn execute(&mut self, op_number: OpNumber) -> (reply: Reply<SM::Output>)
        requires
            old(self).wf(),
            op_number == old(self).applied + 1,
            op_number <= old(self)@.op_number(),
            old(self)@.execute(op_number).0.ok,
        ensures
            final(self).wf_but_table(),
            final(self).clients.wf(op_number as int),
            (final(self)@, reply) == old(self)@.execute(op_number),
    {
        let index: usize = op_number - self.log_start - 1;
        let (client_id, session, request_number, answered) = match &self.log[index] {
            LogEntry::Register { client_id } => {
                let client_id = *client_id;
                return self.register(op_number, client_id);
            },
            LogEntry::Request { client_id, session, request_number, answered, .. } => (
                *client_id,
                *session,
                *request_number,
                *answered,
            ),
        };
        let view_number = self.view_number;
        self.clients.settle(client_id, (session, request_number));
        let current = self.clients.record(client_id);
        let in_session = match current {
            Some(record) => record.session == session,
            None => false,
        };
        if !in_session {
            self.state_machine.record_client(op_number, client_id, current);
            return Reply::Evicted { view_number, client_id, session };
        }
        let ghost record = self@.records[client_id];
        let mut replies: VecDeque<SM::Output> = VecDeque::new();
        if let Some(record) = current {
            replies = record.clone().replies;
        }
        let LogEntry::Request { op, .. } = &self.log[index] else {
            return Reply::Evicted { view_number, client_id, session };
        };
        let result = self.state_machine.apply(op_number, op);
        replies.push_back(duplicate(&result));
        let unanswered: usize = if request_number > answered {
            request_number - answered
        } else {
            1
        };
        let kept: usize = if unanswered <= self.config.in_flight_max() {
            unanswered
        } else {
            self.config.in_flight_max()
        };
        keep_newest(&mut replies, kept);
        let next = ClientRecord { client_id, session, request_number, replies, op_number };
        self.state_machine.record_client(op_number, client_id, Some(&next));
        self.clients.put_record(next, Ghost(self.applied as int));
        Reply::Executed { view_number, client_id, session, request_number, result }
    }

    /// Executes the committed entries up to `op_number` that the state
    /// machine has not yet, in order, and produces the replies for those
    /// this replica committed as the primary. The log must be durable up
    /// to `op_number`.
    pub(crate) fn apply_committed(&mut self, op_number: OpNumber)
        requires
            old(self).wf(),
            op_number <= old(self)@.op_number(),
            old(self)@.apply_committed(op_number as int).ok,
        ensures
            final(self).wf(),
            final(self)@ == old(self)@.apply_committed(op_number as int),
    {
        broadcast use group_ok;

        reveal(ReplicaModel::apply_committed);
        let ghost total = old(self)@.unexecuted(op_number as int);
        let ghost mut count: nat = 0;
        let last: OpNumber = if self.commit_number <= op_number {
            self.commit_number
        } else {
            op_number
        };
        while self.applied < last
            invariant
                self.wf(),
                total == old(self)@.unexecuted(op_number as int),
                count <= total,
                count < total <==> self.applied < last,
                self.applied <= last || count == total,
                self@ == old(self)@.execute_entries(count),
                old(self)@.execute_entries(total).ok,
                total > 0 ==> self.applied == old(self)@.applied + count && last
                    == old(self)@.applied + total,
                total == 0 ==> old(self)@.applied >= last,
                last <= self@.op_number(),
                last <= self.commit_number,
            decreases last - self.applied,
        {
            proof {
                lemma_execute_entries_ok(old(self)@, count + 1, total);
            }
            let ghost before = self@;
            let next: OpNumber = self.applied + 1;
            let replies = self.owes_reply(next);
            let reply = self.execute(next);
            self.applied = next;
            if replies {
                self.replies.push(reply);
            }
            assert(self@ == before.execute_next());
            proof {
                count = count + 1;
            }
        }
        self.drop_replied();
        self.execute_queries();
    }

    /// Whether this replica committed op `op_number` as the primary.
    fn owes_reply(&self, op_number: OpNumber) -> (owes: bool)
        ensures
            owes == in_ranges(self@.reply_ranges, op_number),
    {
        let mut i: usize = 0;
        while i < self.reply_ranges.len()
            invariant
                i <= self.reply_ranges@.len(),
                forall|j: int|
                    0 <= j < i ==> !((#[trigger] self.reply_ranges@[j]).0 <= op_number && op_number
                        <= self.reply_ranges@[j].1),
            decreases self.reply_ranges@.len() - i,
        {
            let (from, to) = self.reply_ranges[i];
            if from <= op_number && op_number <= to {
                return true;
            }
            i += 1;
        }
        false
    }

    /// Drops the ranges of ops that have executed.
    fn drop_replied(&mut self)
        requires
            old(self).wf(),
        ensures
            final(self).wf(),
            final(self)@ == (ReplicaModel {
                reply_ranges: old(self)@.reply_ranges.filter(
                    |range: (OpNumber, OpNumber)| range.1 > old(self)@.applied,
                ),
                ..old(self)@
            }),
    {
        let applied = self.applied;
        let ghost ahead = |range: (OpNumber, OpNumber)| range.1 > applied;
        let mut kept: Vec<(OpNumber, OpNumber)> = Vec::new();
        let mut i: usize = 0;
        proof {
            reveal(Seq::filter);
        }
        while i < self.reply_ranges.len()
            invariant
                *self == *old(self),
                old(self).wf(),
                applied == self.applied,
                ahead == (|range: (OpNumber, OpNumber)| range.1 > applied),
                i <= self.reply_ranges@.len(),
                kept@ == self.reply_ranges@.take(i as int).filter(ahead),
                forall|j: int| 0 <= j < kept@.len() ==> (#[trigger] kept@[j]).1
                    <= self.commit_number,
            decreases self.reply_ranges@.len() - i,
        {
            proof {
                reveal(Seq::filter);
                let all = self.reply_ranges@;
                assert(all.take(i + 1).drop_last() =~= all.take(i as int));
                assert(self@.reply_ranges[i as int].1 <= self@.commit_number);
            }
            let range = self.reply_ranges[i];
            if range.1 > applied {
                kept.push(range);
            }
            i += 1;
        }
        assert(self.reply_ranges@.take(i as int) =~= self.reply_ranges@);
        self.reply_ranges = kept;
        assert(ahead =~= (|range: (OpNumber, OpNumber)| range.1 > old(self)@.applied));
    }

    /// Answers the waiting queries whose round a quorum has confirmed and
    /// whose op the state machine has applied, while this replica is the
    /// primary in normal status. Both grow with the order the queries
    /// arrived in, so those that may go come first.
    pub(crate) fn execute_queries(&mut self)
        requires
            old(self).wf(),
        ensures
            final(self).wf(),
            final(self)@ == old(self)@.execute_queries(),
    {
        if !self.leads() {
            return;
        }
        loop
            invariant
                self.wf(),
                self@.answer_queries() == old(self)@.answer_queries(),
            ensures
                self@ == old(self)@.answer_queries(),
            decreases self@.queries.len(),
        {
            if self.queries.len() == 0 || self.queries[0].round > self.round_confirmed
                || self.queries[0].op_number > self.applied {
                break;
            }
            let ghost before = self@;
            if let Some(query) = self.queries.pop_front() {
                set_remove(&mut self.waiting, (query.client_id, query.query_number));
                let result = self.state_machine.query(&query.query);
                self.replies.push(
                    Reply::Queried {
                        view_number: self.view_number,
                        client_id: query.client_id,
                        query_number: query.query_number,
                        result,
                    },
                );
            }
            proof {
                let rest = before.queries.skip(1);
                assert(self@.queries =~= rest);
                assert(self@ == before.answer_query());
                lemma_waiting_skip(before.queries);
            }
        }
    }
}

proof fn lemma_waiting_skip<Query>(queries: Seq<super::parts::WaitingQuery<Query>>)
    requires
        queries.len() > 0,
        forall|i: int, j: int|
            0 <= i < j < queries.len() ==> (#[trigger] queries[i]).client_id != (
            #[trigger] queries[j]).client_id || queries[i].query_number != queries[j].query_number,
    ensures
        waiting_keys(queries.skip(1)) == waiting_keys(queries).remove(
            (queries[0].client_id, queries[0].query_number),
        ),
{
    let rest = queries.skip(1);
    let first = (queries[0].client_id, queries[0].query_number);
    assert forall|key: (ClientID, crate::ids::QueryNumber)| #[trigger]
        waiting_keys(rest).contains(key) <==> waiting_keys(queries).remove(first).contains(key) by {
        if waiting_keys(rest).contains(key) {
            let i = choose|i: int|
                0 <= i < rest.len() && (#[trigger] rest[i]).client_id == key.0
                    && rest[i].query_number == key.1;
            assert(queries[i + 1] == rest[i]);
            assert(queries[0].client_id != queries[i + 1].client_id || queries[0].query_number
                != queries[i + 1].query_number);
        }
        if waiting_keys(queries).remove(first).contains(key) {
            let i = choose|i: int|
                0 <= i < queries.len() && (#[trigger] queries[i]).client_id == key.0
                    && queries[i].query_number == key.1;
            assert(i > 0);
            assert(rest[i - 1] == queries[i]);
        }
    }
    assert(waiting_keys(rest) =~= waiting_keys(queries).remove(first));
}

} // verus!
