use vstd::prelude::*;
use super::marks::quorum_round;
use super::model::{waiting_keys, ReplicaModel};
use super::ok::group_ok;
use super::parts::{WaitingQuery, ROUNDS_OUT};
use super::Replica;
use crate::client_table::set_insert;
use crate::ids::{ClientID, QueryNumber, ReplicaID, ViewNumber};
use crate::message::Message;
use crate::state_machine::StateMachine;

verus! {

proof fn lemma_waiting_push<Query>(
    queries: Seq<WaitingQuery<Query>>,
    query: WaitingQuery<Query>,
)
    ensures
        waiting_keys(queries.push(query)) == waiting_keys(queries).insert(
            (query.client_id, query.query_number),
        ),
{
    let longer = queries.push(query);
    let new = (query.client_id, query.query_number);
    assert forall|key: (ClientID, QueryNumber)| #[trigger]
        waiting_keys(longer).contains(key) <==> waiting_keys(queries).insert(new).contains(key) by {
        if waiting_keys(longer).contains(key) {
            let i = choose|i: int|
                0 <= i < longer.len() && (#[trigger] longer[i]).client_id == key.0
                    && longer[i].query_number == key.1;
            if i < queries.len() {
                assert(queries[i] == longer[i]);
            }
        }
        if waiting_keys(queries).contains(key) {
            let i = choose|i: int|
                0 <= i < queries.len() && (#[trigger] queries[i]).client_id == key.0
                    && queries[i].query_number == key.1;
            assert(longer[i] == queries[i]);
        }
        if key == new {
            assert(longer[queries.len() as int] == query);
        }
    }
    assert(waiting_keys(longer) =~= waiting_keys(queries).insert(new));
}

impl<SM: StateMachine> Replica<SM> {
    /// A client asks the primary to answer a query. It executes once a
    /// quorum, the primary included, has confirmed the primary's view in a
    /// round started after the query arrived, and the state machine has
    /// applied the ops that may have completed by then. A view that had
    /// started by then was started by a quorum past this view, which the
    /// confirming quorum meets, so no later view had committed anything.
    /// The ops committed in earlier views are in the log up to
    /// `view_start_op`, and the primary commits the later ones itself: no
    /// op past its commit number can have completed. A query joins the
    /// last round while its `ConfirmView` has not left; otherwise it starts
    /// a round, or, with `ROUNDS_OUT` out, waits for the next.
    pub(crate) fn on_query(
        &mut self,
        client_id: ClientID,
        query_number: QueryNumber,
        query: SM::Query,
    )
        requires
            old(self).wf(),
            old(self)@.on_query(client_id, query_number, query).ok,
        ensures
            final(self).wf(),
            final(self)@ == old(self)@.on_query(client_id, query_number, query),
    {
        broadcast use group_ok;

        if !self.leads() {
            return;
        }
        let fresh = set_insert(&mut self.waiting, (client_id, query_number));
        if !fresh {
            assert(self.waiting@ =~= old(self).waiting@);
            return;
        }
        let starts = !self.round_unsent && self.round - self.round_confirmed < ROUNDS_OUT;
        let round: u64 = if self.round_unsent {
            self.round
        } else {
            self.round + 1
        };
        let op_number = if self.commit_number >= self.view_start_op {
            self.commit_number
        } else {
            self.view_start_op
        };
        let ghost waiting = self@.queries;
        let ghost asked = WaitingQuery { client_id, query_number, query, op_number, round };
        self.queries.push_back(WaitingQuery { client_id, query_number, query, op_number, round });
        proof {
            lemma_waiting_push(waiting, asked);
            assert forall|i: int| 0 <= i < waiting.len() implies (
            #[trigger] waiting[i]).client_id != client_id || waiting[i].query_number
                != query_number by {
                if waiting[i].client_id == client_id && waiting[i].query_number == query_number {
                    assert(waiting_keys(waiting).contains((client_id, query_number)));
                }
            }
            assert(self@ == (ReplicaModel { queries: waiting.push(asked), ..old(self)@ }));
        }
        if starts {
            self.start_round();
        }
    }

    /// Starts the next round of view confirmations.
    fn start_round(&mut self)
        requires
            old(self).wf(),
            old(self)@.leads(),
            old(self)@.start_round().ok,
        ensures
            final(self).wf(),
            final(self)@ == old(self)@.start_round(),
    {
        self.round = self.round + 1;
        self.round_unsent = true;
        self.confirmed.set(self.self_id, self.round);
        let message = Message::ConfirmView { view_number: self.view_number, round: self.round };
        self.send_to_others(message);
    }

    /// A backup confirms a round of the primary's view while it is in that
    /// view. The confirmation promises nothing about its disk: a replica
    /// announces a later view only once a durable write holds it, and comes
    /// back from a crash in that view or a later one.
    pub(crate) fn on_confirm_view(&mut self, view_number: ViewNumber, round: u64)
        requires
            old(self).wf(),
        ensures
            final(self).wf(),
            final(self)@ == old(self)@.on_confirm_view(view_number, round),
    {
        if view_number != self.view_number || self.is_primary() {
            return;
        }
        let message = Message::ConfirmViewOk { view_number, round, replica_id: self.self_id };
        self.send_to_primary(message);
    }

    /// The primary counts a backup's confirmation, and once a quorum has
    /// confirmed a later round, starts the next round if queries wait for
    /// it and answers those that may go.
    pub(crate) fn on_confirm_view_ok(
        &mut self,
        view_number: ViewNumber,
        round: u64,
        replica_id: ReplicaID,
    )
        requires
            old(self).wf(),
            old(self)@.on_confirm_view_ok(view_number, round, replica_id).ok,
        ensures
            final(self).wf(),
            final(self)@ == old(self)@.on_confirm_view_ok(view_number, round, replica_id),
    {
        broadcast use group_ok;

        if view_number != self.view_number || !self.leads() || replica_id >= self.confirmed.len()
            || round > self.round || round <= self.confirmed[replica_id] {
            return;
        }
        self.confirmed.set(replica_id, round);
        let ghost counted = self@;
        assert(self@ == (ReplicaModel {
            confirmed: old(self)@.confirmed.update(replica_id as int, round),
            ..old(self)@
        }));
        let quorum = self.config.quorum();
        let round_confirmed = quorum_round(&self.confirmed, quorum);
        if round_confirmed <= self.round_confirmed {
            return;
        }
        self.round_confirmed = round_confirmed;
        assert(self@ == (ReplicaModel { round_confirmed, ..counted }));
        let count = self.queries.len();
        if count > 0 && self.queries[count - 1].round > self.round {
            // A round that ended makes room for the next.
            self.start_round();
        }
        self.execute_queries();
    }
}

} // verus!
