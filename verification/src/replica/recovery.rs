use std::collections::BTreeMap;
use vstd::prelude::*;
use super::model::{
    all_but, is_latest_view, latest_view, mail, to_unanswered, ReplicaModel,
};
use super::ok::group_ok;
use super::parts::{Installed, RecoveryResponse, ResponseView, Resume, Status};
use super::{responses_view, Replica};
use crate::ids::{ReplicaID, ViewNumber};
use crate::message::{state_view, Message, RecoveryState};
use crate::state_machine::StateMachine;

verus! {

impl<SM: StateMachine> Replica<SM> {
    /// A replica in normal status answers a recovering replica with its
    /// view; if it is the primary, with its state too.
    ///
    /// The recovering replica persisted `view_number` before it crashed.
    /// If that is ahead of us, it had started a view change we never heard
    /// of, and it will not rejoin a view older than that, so start the
    /// change now as if its `StartViewChange` had just arrived.
    pub(crate) fn on_recovery(&mut self, replica_id: ReplicaID, nonce: u64, view_number: ViewNumber)
        requires
            old(self).wf(),
            old(self)@.on_recovery(replica_id, nonce, view_number).ok,
        ensures
            final(self).wf(),
            final(self)@ == old(self)@.on_recovery(replica_id, nonce, view_number),
    {
        broadcast use group_ok;
        reveal(ReplicaModel::on_recovery);
        if view_number > self.view_number && self.status != Status::Recovering {
            self.start_view_change(view_number);
            return;
        }
        if self.status != Status::Normal {
            return;
        }
        // The recovering replica has nothing, so it needs the whole log,
        // or our checkpoint where the log has been compacted.

        let state = if self.is_primary() {
            let segment = self.segment_from(0);
            Some(RecoveryState { segment, commit_number: self.commit_number })
        } else {
            None
        };
        let message = Message::RecoveryResponse {
            view_number: self.view_number,
            nonce,
            replica_id: self.self_id,
            state,
        };
        self.send(replica_id, message);
    }

    /// Collects recovery responses. With a quorum of them, including one
    /// from the primary of the latest view among them, the replica takes
    /// that primary's state and is back. The latest view must be at least
    /// the one persisted before the crash: a lower one means the cluster
    /// has not yet caught up with a view change this replica took part in
    /// and then forgot, and joining it could let that view change complete
    /// against a view already running.
    pub(crate) fn on_recovery_response(
        &mut self,
        view_number: ViewNumber,
        nonce: u64,
        replica_id: ReplicaID,
        state: Option<RecoveryState<SM::Input>>,
    )
        requires
            old(self).wf(),
            old(self)@.on_recovery_response(view_number, nonce, replica_id, state_view(state)).ok,
        ensures
            final(self).wf(),
            final(self)@ == old(self)@.on_recovery_response(
                view_number,
                nonce,
                replica_id,
                state_view(state),
            ),
    {
        broadcast use {group_ok, vstd::std_specs::btree::group_btree_axioms};
        reveal(ReplicaModel::on_recovery_response);
        if self.status != Status::Recovering || nonce != self.recovery_nonce {
            return;
        }
        let ghost responses = old(self)@.recovery_responses.insert(
            replica_id,
            ResponseView { view_number, state: state_view(state) },
        );
        let _ = self.recovery_responses.insert(replica_id, RecoveryResponse { view_number, state });
        proof {
            assert(self@.recovery_responses =~= responses);
            assert(self@ == (ReplicaModel { recovery_responses: responses, ..old(self)@ }));
            assert(self@.recovery_responses.dom() =~= self.recovery_responses@.dom());
        }
        if self.recovery_responses.len() < self.config.quorum() {
            return;
        }
        let latest = latest_view_of(&self.recovery_responses);
        if latest < self.view_number {
            return;
        }
        let primary_id = self.config.primary_id(latest);
        let usable = match self.recovery_responses.get(&primary_id) {
            Some(response) => response.state.is_some() && response.view_number == latest,
            None => false,
        };
        if !usable {
            return;
        }
        let taken = match self.recovery_responses.remove(&primary_id) {
            Some(response) => response.state,
            None => None,
        };
        self.recovery_responses = BTreeMap::new();
        assert(self@.recovery_responses =~= Map::empty());
        assert(self@ == (ReplicaModel { recovery_responses: Map::empty(), ..old(self)@ }));
        if let Some(state) = taken {
            self.recover_into(latest, state);
        }
    }

    /// Takes the state the primary of `view_number` sent, fetching the
    /// checkpoint it names first if that is beyond ours, and is back in
    /// that view. The state machine may hold a checkpoint from an earlier
    /// attempt, which the log keeps up to; the primary's log covers it
    /// either way.
    pub(crate) fn recover_into(&mut self, view_number: ViewNumber, state: RecoveryState<SM::Input>)
        requires
            old(self).wf(),
            old(self)@.status == Status::Recovering,
            view_number >= old(self)@.view_number,
            old(self)@.recover_into(view_number, state@).ok,
        ensures
            final(self).wf(),
            final(self)@ == old(self)@.recover_into(view_number, state@),
    {
        broadcast use group_ok;

        let RecoveryState { segment, commit_number } = state;
        match self.install_segment_from_commit(segment) {
            Installed::Log => {},
            Installed::Checkpoint(segment) => {
                let state = RecoveryState { segment, commit_number };
                let from = self.config.primary_id(view_number);
                self.start_fetch(from, Resume::RecoveryResponse { view_number, state });
                return;
            },
            Installed::Nothing => {
                // The primary's log reaches back to our commit number.
                return;
            },
        }
        let ghost before = self@;
        self.view_number = view_number;
        self.fetch = None;
        assert(self@ == (ReplicaModel { view_number, fetch: None, ..before }));
        self.commit_up_to(commit_number, false);
        self.enter_normal();
    }

    /// Asks the other replicas for their state: those that have not
    /// answered this recovery, or everyone again if a quorum has answered
    /// without completing it, since those answers are then stale.
    pub(crate) fn send_recovery(&mut self)
        requires
            old(self).wf(),
        ensures
            final(self).wf(),
            final(self)@ == old(self)@.send_recovery(),
    {
        broadcast use vstd::std_specs::btree::group_btree_axioms;

        let message = Message::Recovery {
            replica_id: self.self_id,
            nonce: self.recovery_nonce,
            view_number: self.view_number,
        };
        let ghost model = self@;
        let ghost answered = model.recovery_responses.dom();
        assert(answered =~= self.recovery_responses@.dom());
        let ask_everyone = self.recovery_responses.len() >= self.config.quorum();
        let ghost letter = if ask_everyone {
            all_but(model.self_id, message@)
        } else {
            to_unanswered(model.self_id, answered, message@)
        };
        let size = self.config.size();
        let mut replica_id: ReplicaID = 0;
        while replica_id < size
            invariant
                self.wf(),
                model == old(self)@,
                size == model.config.size(),
                replica_id <= size,
                answered == model.recovery_responses.dom(),
                answered == self.recovery_responses@.dom(),
                !message@.early(),
                message is Recovery,
                ask_everyone ==> letter == all_but(model.self_id, message@),
                !ask_everyone ==> letter == to_unanswered(model.self_id, answered, message@),
                self@ == (ReplicaModel {
                    outbox: model.outbox + mail(replica_id as nat, letter),
                    ..model
                }),
            decreases size - replica_id,
        {
            let ask = replica_id != self.self_id && (ask_everyone
                || !self.recovery_responses.contains_key(&replica_id));
            if ask {
                self.send(replica_id, message.clone());
            }
            assert(self@.recovery_responses.dom() =~= self.recovery_responses@.dom());
            replica_id += 1;
        }
    }
}

/// The latest view among the responses.
fn latest_view_of<Op>(responses: &BTreeMap<ReplicaID, RecoveryResponse<Op>>) -> (view_number:
    ViewNumber)
    requires
        responses_view(responses@).dom().len() > 0,
    ensures
        view_number == latest_view(responses_view(responses@)),
{
    broadcast use vstd::std_specs::btree::group_btree_axioms;

    let ghost views = responses_view(responses@);
    let mut latest: ViewNumber = 0;
    let mut any = false;
    for entry in iter: responses.iter()
        invariant
            views == responses_view(responses@),
            forall|i: int|
                0 <= i < iter.seq().len() ==> responses@.contains_key(
                    *(#[trigger] iter.seq()[i]).0,
                ) && responses@[*iter.seq()[i].0] == *iter.seq()[i].1,
            any <==> iter.index() > 0,
            any ==> exists|id: ReplicaID| #[trigger]
                views.contains_key(id) && views[id].view_number == latest,
            forall|i: int|
                0 <= i < iter.index() ==> views[*(#[trigger] iter.seq()[i]).0].view_number
                    <= latest,
    {
        let (id, response) = entry;
        assert(views.contains_key(*id));
        assert(views[*id] == response@);
        if !any || response.view_number > latest {
            latest = response.view_number;
        }
        any = true;
    }
    proof {
        assert(views.dom() =~= responses@.dom());
        assert(is_latest_view(views, latest));
        let other = latest_view(views);
        assert(is_latest_view(views, other));
    }
    latest
}

} // verus!
