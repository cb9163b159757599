use std::collections::{BTreeMap, BTreeSet, VecDeque};
use vstd::prelude::*;
use super::model::{
    best, ends_fit, highest_commit, is_best, is_highest_commit, ranks_at_least, waiting_keys,
    ReplicaModel,
};
use super::ok::group_ok;
use super::parts::{DoViewChange, DoViewChangeView, Installed, Status, WaitingQuery};
use super::{reports_view, Replica};
use crate::client_table::new_set;
use crate::ids::{CommitID, OpNumber, ReplicaID, ViewNumber};
use crate::log::{copy_from, LogBase, LogSegment};
use crate::message::{Message, MessageFor};
use crate::state_machine::StateMachine;

verus! {

/// `count` zeros.
pub(crate) fn no_ops(count: usize) -> (marks: Vec<OpNumber>)
    ensures
        marks@ == Seq::new(count as nat, |i: int| 0usize),
{
    let mut marks: Vec<OpNumber> = Vec::new();
    while marks.len() < count
        invariant
            marks@.len() <= count,
            forall|i: int| 0 <= i < marks@.len() ==> #[trigger] marks@[i] == 0,
        decreases count - marks@.len(),
    {
        marks.push(0);
    }
    marks
}

/// `count` zeros.
pub(crate) fn no_rounds(count: usize) -> (marks: Vec<u64>)
    ensures
        marks@ == Seq::new(count as nat, |i: int| 0u64),
{
    let mut marks: Vec<u64> = Vec::new();
    while marks.len() < count
        invariant
            marks@.len() <= count,
            forall|i: int| 0 <= i < marks@.len() ==> #[trigger] marks@[i] == 0,
        decreases count - marks@.len(),
    {
        marks.push(0);
    }
    marks
}

impl<SM: StateMachine> Replica<SM> {
    /// Forgets the view change under way and the queries waiting on the
    /// last view: a replica leaving normal status or entering it again
    /// starts both anew, and clients re-send their queries.
    pub(crate) fn clear_view_change_state(&mut self)
        requires
            old(self).wf_but_fetch(),
        ensures
            final(self).wf(),
            final(self)@ == old(self)@.clear_view_change_state(),
    {
        self.start_view_change_from = BTreeSet::new();
        self.do_view_change_sent = false;
        self.do_view_change_from = BTreeMap::new();
        self.catching_up = None;
        self.fetch = None;
        self.queries = VecDeque::new();
        self.waiting = new_set();
        self.round = 0;
        self.round_confirmed = 0;
        self.confirmed = no_rounds(self.config.size());
        self.round_unsent = false;
        proof {
            assert(waiting_keys(Seq::<WaitingQuery<SM::Query>>::empty()) =~= Set::empty());
            assert(self@.do_view_change_from =~= Map::empty());
        }
    }

    /// Learns that `view_number` has started, and asks its primary for the
    /// log from our commit number on.
    pub(crate) fn catch_up_with_view(&mut self, view_number: ViewNumber)
        requires
            old(self).wf(),
        ensures
            final(self).wf(),
            final(self)@ == old(self)@.catch_up_with_view(view_number),
    {
        let primary_id = self.config.primary_id(view_number);
        if self.view_number == view_number {
            if let Some(replica_id) = self.catching_up {
                if replica_id == primary_id {
                    return;
                }
            }
        }
        self.view_number = view_number;
        self.status = Status::ViewChange;
        self.idle_periods_waiting = 0;
        self.clear_view_change_state();
        self.catching_up = Some(primary_id);
        let commit_number = self.commit_number;
        self.send_get_state(commit_number);
    }

    /// Returns to normal status in the current view. The view change
    /// backoff stays until the view has proved stable; see
    /// `view_change_attempts`.
    pub(crate) fn enter_normal(&mut self)
        requires
            old(self).wf(),
        ensures
            final(self).wf(),
            final(self)@ == old(self)@.enter_normal(),
    {
        let op_number = self.op_number();
        self.status = Status::Normal;
        self.last_normal_view = self.view_number;
        // Acknowledgements count within a view, and the first idle period
        // of a view re-sends nothing: `StartView` has just carried the log.
        self.acked = no_ops(self.config.size());
        self.resend_up_to = self.commit_number;
        self.view_start_op = op_number;
        self.heard_from_primary = true;
        self.idle_periods_waiting = 0;
        self.idle_periods_stable = 0;
        self.clear_view_change_state();
    }

    /// A replica that suspects the primary has failed, or that hears of a
    /// view change already under way, asks the others to move to a new
    /// view.
    pub(crate) fn on_start_view_change(&mut self, view_number: ViewNumber, replica_id: ReplicaID)
        requires
            old(self).wf(),
            old(self)@.on_start_view_change(view_number, replica_id).ok,
        ensures
            final(self).wf(),
            final(self)@ == old(self)@.on_start_view_change(view_number, replica_id),
    {
        broadcast use {group_ok, vstd::std_specs::btree::group_btree_axioms};
        reveal(ReplicaModel::on_start_view_change);
        if view_number < self.view_number {
            return;
        }
        if view_number > self.view_number {
            self.start_view_change(view_number);
        } else if self.status != Status::ViewChange {
            // The view has already started. If we are its primary, the
            // sender missed `StartView`, so send it again.
            if self.leads() {
                self.send_start_view(replica_id);
            }
            return;
        }
        let ghost before = self@;
        let _ = self.start_view_change_from.insert(replica_id);
        assert(self@ == (ReplicaModel {
            start_view_change_from: before.start_view_change_from.insert(replica_id),
            ..before
        }));
        self.maybe_send_do_view_change();
    }

    /// Replicas that know a majority wants the new view send their state to
    /// its primary, which starts the view once it has a quorum of them.
    pub(crate) fn on_do_view_change(
        &mut self,
        view_number: ViewNumber,
        replica_id: ReplicaID,
        report: DoViewChange<SM::Input>,
    )
        requires
            old(self).wf(),
            old(self)@.on_do_view_change(view_number, replica_id, report@).ok,
        ensures
            final(self).wf(),
            final(self)@ == old(self)@.on_do_view_change(view_number, replica_id, report@),
    {
        broadcast use group_ok;
        reveal(ReplicaModel::on_do_view_change);
        if view_number < self.view_number || self.config.primary_id(view_number) != self.self_id {
            return;
        }
        if view_number > self.view_number {
            self.start_view_change(view_number);
        } else if self.status == Status::Normal {
            // The view has already started; the sender missed `StartView`.
            self.send_start_view(replica_id);
            return;
        }
        self.record_do_view_change(replica_id, report);
    }

    /// The new primary starts the view with the log it chose. Backups
    /// replace their log with it, commit what it says is committed, and
    /// acknowledge whatever is not. A backup that has committed less than
    /// the primary has compacted cannot take the log as sent, and fetches
    /// the primary's checkpoint instead.
    pub(crate) fn on_start_view(
        &mut self,
        view_number: ViewNumber,
        segment: LogSegment<SM::Input>,
        commit_number: CommitID,
    )
        requires
            old(self).wf(),
            old(self)@.status != Status::Recovering,
            old(self)@.on_start_view(view_number, segment@, commit_number).ok,
        ensures
            final(self).wf(),
            final(self)@ == old(self)@.on_start_view(view_number, segment@, commit_number),
    {
        broadcast use group_ok;
        reveal(ReplicaModel::on_start_view);
        // A `StartView` for our own view is only new to us while we are
        // still changing to it; a replayed one after that must not replace
        // a log that has since grown.

        if view_number < self.view_number || (view_number == self.view_number && self.status
            != Status::ViewChange) {
            return;
        }
        match self.install_segment_from_commit(segment) {
            Installed::Log => {},
            _ => {
                self.catch_up_with_view(view_number);
                return;
            },
        }
        let ghost before = self@;
        self.view_number = view_number;
        assert(self@ == (ReplicaModel { view_number, ..before }));
        self.commit_up_to(commit_number, false);
        self.enter_normal();
        self.send_prepare_ok();
    }

    /// Moves to `view_number` and asks the other replicas to do the same.
    pub(crate) fn start_view_change(&mut self, view_number: ViewNumber)
        requires
            old(self).wf(),
            old(self)@.start_view_change(view_number).ok,
        ensures
            final(self).wf(),
            final(self)@ == old(self)@.start_view_change(view_number),
    {
        broadcast use group_ok;
        // A view change entered from another one, whether on our own
        // timer or because someone else's fired, means the previous one
        // did not complete: wait longer for this one.

        if self.status == Status::ViewChange {
            self.view_change_attempts = self.view_change_attempts + 1;
        }
        self.view_number = view_number;
        self.status = Status::ViewChange;
        self.idle_periods_waiting = 0;
        self.clear_view_change_state();
        let message = Message::StartViewChange { view_number, replica_id: self.self_id };
        self.send_to_others(message);
        self.maybe_send_do_view_change();
    }

    /// Sends `DoViewChange` once `f` other replicas want the same view.
    fn maybe_send_do_view_change(&mut self)
        requires
            old(self).wf(),
            old(self)@.maybe_send_do_view_change().ok,
        ensures
            final(self).wf(),
            final(self)@ == old(self)@.maybe_send_do_view_change(),
    {
        broadcast use {group_ok, vstd::std_specs::btree::group_btree_axioms};

        if self.status != Status::ViewChange || self.catching_up.is_some()
            || self.do_view_change_sent {
            return;
        }
        let f = self.config.size() / 2;
        if self.start_view_change_from.len() < f {
            return;
        }
        self.do_view_change_sent = true;
        assert(self@ == (ReplicaModel { do_view_change_sent: true, ..old(self)@ }));
        self.send_do_view_change();
    }

    /// A copy of the log, after what we have compacted.
    fn whole_log(&self) -> (segment: LogSegment<SM::Input>)
        requires
            self.wf(),
        ensures
            segment@ == self@.whole_log(),
    {
        let entries = copy_from(&self.log, 0);
        assert(entries@ =~= self.log@);
        LogSegment { base: LogBase::Op(self.log_start), entries }
    }

    /// Sends our state to the new view's primary, or records it directly if
    /// that is us.
    pub(crate) fn send_do_view_change(&mut self)
        requires
            old(self).wf(),
            old(self)@.send_do_view_change().ok,
        ensures
            final(self).wf(),
            final(self)@ == old(self)@.send_do_view_change(),
    {
        let segment = self.whole_log();
        let last_normal_view = self.last_normal_view;
        let commit_number = self.commit_number;
        let primary_id = self.primary_id();
        if primary_id == self.self_id {
            self.record_do_view_change(
                primary_id,
                DoViewChange { last_normal_view, segment, commit_number },
            );
        } else {
            let message = Message::DoViewChange {
                view_number: self.view_number,
                replica_id: self.self_id,
                last_normal_view,
                segment,
                commit_number,
            };
            self.send(primary_id, message);
        }
    }

    /// Records a `DoViewChange` and, with a quorum of them, starts the
    /// view.
    fn record_do_view_change(&mut self, replica_id: ReplicaID, report: DoViewChange<SM::Input>)
        requires
            old(self).wf(),
            old(self)@.record_do_view_change(replica_id, report@).ok,
        ensures
            final(self).wf(),
            final(self)@ == old(self)@.record_do_view_change(replica_id, report@),
    {
        broadcast use {group_ok, vstd::std_specs::btree::group_btree_axioms};

        let ghost reported = report@;
        let _ = self.do_view_change_from.insert(replica_id, report);
        proof {
            assert(self@.do_view_change_from =~= old(self)@.do_view_change_from.insert(
                replica_id,
                reported,
            ));
            assert(self@ == (ReplicaModel {
                do_view_change_from: old(self)@.do_view_change_from.insert(replica_id, reported),
                ..old(self)@
            }));
            assert(self@.do_view_change_from.dom() =~= self.do_view_change_from@.dom());
        }
        if self.do_view_change_from.len() < self.config.quorum() {
            return;
        }
        self.try_start_view();
    }

    /// Starts the view from the log with the latest normal view among the
    /// `DoViewChange` messages, the longest if several, which by quorum
    /// intersection holds every committed op. The sender may have compacted
    /// entries beyond our commit number, which its message does not carry;
    /// then we ask it for the log from our commit number on, checkpoint
    /// included, and come back here once that is installed.
    pub(crate) fn try_start_view(&mut self)
        requires
            old(self).wf(),
            old(self)@.do_view_change_from.dom().len() > 0,
            old(self)@.try_start_view().ok,
        ensures
            final(self).wf(),
            final(self)@ == old(self)@.try_start_view(),
    {
        broadcast use group_ok;

        let best_id = best_report(&self.do_view_change_from);
        let commit_number = highest_commit_of(&self.do_view_change_from);
        let segment = match self.do_view_change_from.get(&best_id) {
            Some(report) => report.segment.clone(),
            None => LogSegment { base: LogBase::Op(0), entries: Vec::new() },
        };
        assert(segment@ == old(self)@.do_view_change_from[best_id].segment);
        match self.install_segment_from_commit(segment) {
            Installed::Log => {},
            _ => {
                let ghost before = self@;
                self.catching_up = Some(best_id);
                assert(self@ == (ReplicaModel { catching_up: Some(best_id), ..before }));
                let op_number = self.commit_number;
                self.send_get_state_to(best_id, op_number);
                return;
            },
        }
        // Execute what committed in earlier views but was not yet executed
        // here, and reply to the clients: the old primary may have failed
        // before it could.
        self.commit_up_to(commit_number, true);
        self.enter_normal();
        let message = self.start_view_message();
        self.send_to_others(message);
    }

    /// What we tell a backup as we start our view.
    fn start_view_message(&self) -> (message: MessageFor<SM>)
        requires
            self.wf(),
        ensures
            message@ == self@.start_view_message(),
            message is StartView,
    {
        Message::StartView {
            view_number: self.view_number,
            segment: self.whole_log(),
            commit_number: self.commit_number,
        }
    }

    fn send_start_view(&mut self, replica_id: ReplicaID)
        requires
            old(self).wf(),
        ensures
            final(self).wf(),
            final(self)@ == old(self)@.send_start_view(replica_id),
    {
        let message = self.start_view_message();
        self.send(replica_id, message);
    }
}

proof fn lemma_best<Op>(
    reports: Map<ReplicaID, DoViewChangeView<Op>>,
    replica_id: ReplicaID,
)
    requires
        is_best(reports, replica_id),
    ensures
        best(reports) == replica_id,
{
    let other = best(reports);
    assert(is_best(reports, other));
    assert(reports.contains_key(other));
    assert(reports.contains_key(replica_id));
}

/// The replica whose report ranks highest.
fn best_report<Op>(reports: &BTreeMap<ReplicaID, DoViewChange<Op>>) -> (replica_id: ReplicaID)
    requires
        reports_view(reports@).dom().len() > 0,
        ends_fit(reports_view(reports@)),
    ensures
        replica_id == best(reports_view(reports@)),
        reports@.contains_key(replica_id),
{
    broadcast use vstd::std_specs::btree::group_btree_axioms;

    let ghost views = reports_view(reports@);
    let mut best_id: ReplicaID = 0;
    let mut best_view: ViewNumber = 0;
    let mut best_end: OpNumber = 0;
    let mut any = false;
    for entry in iter: reports.iter()
        invariant
            views == reports_view(reports@),
            ends_fit(views),
            forall|i: int|
                0 <= i < iter.seq().len() ==> reports@.contains_key(*(#[trigger] iter.seq()[i]).0)
                    && reports@[*iter.seq()[i].0] == *iter.seq()[i].1,
            any <==> iter.index() > 0,
            any ==> views.contains_key(best_id) && best_view == views[best_id].last_normal_view
                && best_end == views[best_id].segment.end(),
            forall|i: int|
                0 <= i < iter.index() ==> ranks_at_least(
                    views,
                    best_id,
                    *(#[trigger] iter.seq()[i]).0,
                ),
    {
        let (id, report) = entry;
        assert(views.contains_key(*id));
        assert(views[*id] == report@);
        let end = report.segment.end();
        if !any || report.last_normal_view > best_view || (report.last_normal_view == best_view
            && (end > best_end || (end == best_end && *id >= best_id))) {
            best_id = *id;
            best_view = report.last_normal_view;
            best_end = end;
        }
        any = true;
    }
    proof {
        assert(views.dom() =~= reports@.dom());
        assert(is_best(views, best_id));
        lemma_best(views, best_id);
    }
    best_id
}

/// The highest commit number reported.
fn highest_commit_of<Op>(reports: &BTreeMap<ReplicaID, DoViewChange<Op>>) -> (commit_number:
    CommitID)
    requires
        reports_view(reports@).dom().len() > 0,
    ensures
        commit_number == highest_commit(reports_view(reports@)),
{
    broadcast use vstd::std_specs::btree::group_btree_axioms;

    let ghost views = reports_view(reports@);
    let mut highest: CommitID = 0;
    let mut any = false;
    for entry in iter: reports.iter()
        invariant
            views == reports_view(reports@),
            forall|i: int|
                0 <= i < iter.seq().len() ==> reports@.contains_key(*(#[trigger] iter.seq()[i]).0)
                    && reports@[*iter.seq()[i].0] == *iter.seq()[i].1,
            any <==> iter.index() > 0,
            any ==> exists|id: ReplicaID| #[trigger]
                views.contains_key(id) && views[id].commit_number == highest,
            forall|i: int|
                0 <= i < iter.index() ==> views[*(#[trigger] iter.seq()[i]).0].commit_number
                    <= highest,
    {
        let (id, report) = entry;
        assert(views.contains_key(*id));
        assert(views[*id] == report@);
        if !any || report.commit_number > highest {
            highest = report.commit_number;
        }
        any = true;
    }
    proof {
        assert(views.dom() =~= reports@.dom());
        assert(is_highest_commit(views, highest));
        let other = highest_commit(views);
        assert(is_highest_commit(views, other));
    }
    highest
}

} // verus!
