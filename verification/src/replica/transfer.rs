use vstd::prelude::*;
use super::model::{ReplicaModel};
use super::frames::frame_commit_up_to;
use super::ok::group_ok;
use super::parts::{Fetch, FetchView, Installed, InstalledView, Resume, Status};
use super::Replica;
use crate::ids::{CommitID, OpNumber, ReplicaID, ViewNumber};
use crate::log::{LogBase, LogSegment};
use crate::message::Message;
use crate::state_machine::StateMachine;

verus! {

/// What installing came to, and whether a segment to fetch a checkpoint for
/// is the one installed.
pub open spec fn installed_view<Op>(
    installed: Installed<Op>,
    segment: crate::log::SegmentView<Op>,
) -> Option<InstalledView> {
    match installed {
        Installed::Log => Some(InstalledView::Log),
        Installed::Nothing => Some(InstalledView::Nothing),
        Installed::Checkpoint(kept) => if kept@ == segment {
            Some(InstalledView::Checkpoint)
        } else {
            None
        },
    }
}

impl<SM: StateMachine> Replica<SM> {
    /// Installs a segment we asked for from our commit number, which
    /// replaces everything after it, after a checkpoint beyond our commit
    /// number once that is fetched. A segment that starts beyond our commit
    /// number otherwise answers a request we made with a higher commit
    /// number, and is of no use.
    pub(crate) fn install_segment_from_commit(&mut self, segment: LogSegment<SM::Input>) -> (
        installed: Installed<SM::Input>)
        requires
            old(self).wf(),
            old(self)@.install_segment_from_commit(segment@).0.ok,
        ensures
            final(self).wf(),
            final(self)@ == old(self)@.install_segment_from_commit(segment@).0,
            installed_view(installed, segment@) == Some(
                old(self)@.install_segment_from_commit(segment@).1,
            ),
    {
        let start = segment.start();
        if start > self.commit_number {
            return match segment.base {
                LogBase::Checkpoint(_) => Installed::Checkpoint(segment),
                LogBase::Op(_) => Installed::Nothing,
            };
        }
        self.merge_log(start, segment.entries);
        Installed::Log
    }

    /// Installs a segment received within our view, which extends our log
    /// if it reaches beyond it. A checkpoint beyond our log replaces it,
    /// once fetched; one within our log covers ops we hold already, so
    /// only the entries matter.
    fn install_segment_in_view(&mut self, segment: LogSegment<SM::Input>) -> (installed: Installed<
        SM::Input,
    >)
        requires
            old(self).wf(),
            old(self)@.install_segment_in_view(segment@).0.ok,
        ensures
            final(self).wf(),
            final(self)@ == old(self)@.install_segment_in_view(segment@).0,
            installed_view(installed, segment@) == Some(
                old(self)@.install_segment_in_view(segment@).1,
            ),
    {
        broadcast use group_ok;

        let op_number = self.op_number();
        if segment.end() <= op_number {
            return Installed::Nothing;
        }
        let start = segment.start();
        if start > op_number {
            return match segment.base {
                LogBase::Checkpoint(_) => Installed::Checkpoint(segment),
                LogBase::Op(_) => Installed::Nothing,
            };
        }
        self.merge_log(start, segment.entries);
        Installed::Log
    }

    /// Answers a `GetState` with the log after `op_number`, or with a
    /// checkpoint and the log after it when `op_number` is below what we
    /// have compacted. A replica answers requests for its view while its
    /// log is settled: in normal status, or in a view change once it has
    /// sent `DoViewChange`, when the primary of that view may need the
    /// part of our log we have compacted.
    pub(crate) fn on_get_state(
        &mut self,
        replica_id: ReplicaID,
        view_number: ViewNumber,
        op_number: OpNumber,
    )
        requires
            old(self).wf(),
            old(self)@.on_get_state(replica_id, view_number, op_number).ok,
        ensures
            final(self).wf(),
            final(self)@ == old(self)@.on_get_state(replica_id, view_number, op_number),
    {
        broadcast use group_ok;
        reveal(ReplicaModel::on_get_state);
        if view_number != self.view_number || op_number > self.op_number() {
            return;
        }
        let settled = match self.status {
            Status::Normal => true,
            Status::ViewChange => self.do_view_change_sent && self.catching_up.is_none(),
            Status::StateTransfer => false,
            Status::Recovering => false,
        };
        if !settled {
            return;
        }
        let segment = self.segment_from(op_number);
        let message = Message::NewState {
            replica_id: self.self_id,
            view_number,
            segment,
            commit_number: self.commit_number,
        };
        self.send(replica_id, message);
    }

    /// The log after `op_number`, or, if that has been compacted, the log
    /// after the checkpoint this replica keeps.
    pub(crate) fn segment_from(&mut self, op_number: OpNumber) -> (segment: LogSegment<SM::Input>)
        requires
            old(self).wf(),
            op_number <= old(self)@.op_number(),
            old(self)@.segment_from(op_number).0.ok,
        ensures
            final(self).wf(),
            (final(self)@, segment@) == old(self)@.segment_from(op_number),
    {
        if op_number >= self.log_start {
            return LogSegment {
                base: LogBase::Op(op_number),
                entries: self.log_from(op_number + 1),
            };
        }
        let checkpoint = self.keep_checkpoint();
        LogSegment {
            base: LogBase::Checkpoint(checkpoint),
            entries: self.log_from(checkpoint + 1),
        }
    }

    /// The op number of the checkpoint this replica keeps for replicas that
    /// fell behind, which it keeps from now on if it kept none. Only
    /// requests for its chunks keep it longer, so a replica that keeps
    /// failing to fetch it holds compaction back no longer than it asks.
    fn keep_checkpoint(&mut self) -> (op_number: OpNumber)
        requires
            old(self).wf(),
            old(self)@.keep_checkpoint().ok,
        ensures
            final(self).wf(),
            final(self)@ == old(self)@.keep_checkpoint(),
            final(self)@.serving is Some,
            op_number == (final(self)@.serving->0).0,
    {
        if let Some((op_number, _)) = self.serving {
            return op_number;
        }
        let op_number = self.state_machine.checkpoint();
        self.serving = Some((op_number, 0));
        assert(self@ == old(self)@.keep_checkpoint());
        op_number
    }

    /// Answers a replica fetching the checkpoint this replica keeps with
    /// the chunk it asks for.
    pub(crate) fn on_get_chunk(
        &mut self,
        replica_id: ReplicaID,
        op_number: OpNumber,
        index: usize,
    ) -> (sent: Ghost<(SM::Chunk, bool)>)
        requires
            old(self).wf(),
            forall|chunk: SM::Chunk, last: bool|
                old(self)@.on_get_chunk(replica_id, op_number, index, chunk, last).ok,
        ensures
            final(self).wf(),
            final(self)@ == old(self)@.on_get_chunk(
                replica_id,
                op_number,
                index,
                sent@.0,
                sent@.1,
            ),
            old(self)@.serves(op_number) ==> SM::is_chunk(
                old(self)@.machine,
                index,
                sent@.0,
                sent@.1,
            ),
    {
        let kept = match self.serving {
            Some((kept, _)) => kept == op_number,
            None => false,
        };
        if !kept {
            return Ghost(arbitrary());
        }
        proof {
            let any: (SM::Chunk, bool) = arbitrary();
            assert(old(self)@.on_get_chunk(replica_id, op_number, index, any.0, any.1).ok);
        }
        self.serving = Some((op_number, 0));
        assert(self@ == (ReplicaModel { serving: Some((op_number, 0usize)), ..old(self)@ }));
        let (chunk, last) = self.state_machine.checkpoint_chunk(index);
        let ghost sent = (chunk, last);
        let message = Message::NewChunk {
            replica_id: self.self_id,
            op_number,
            index,
            chunk,
            last,
        };
        self.send(replica_id, message);
        Ghost(sent)
    }

    /// A replica receives a `NewState` message in response to a
    /// `GetState` message it sent itself to catch up on its log.
    pub(crate) fn on_new_state(
        &mut self,
        replica_id: ReplicaID,
        view_number: ViewNumber,
        segment: LogSegment<SM::Input>,
        commit_number: CommitID,
    )
        requires
            old(self).wf(),
            old(self)@.on_new_state(replica_id, view_number, segment@, commit_number).ok,
        ensures
            final(self).wf(),
            final(self)@ == old(self)@.on_new_state(
                replica_id,
                view_number,
                segment@,
                commit_number,
            ),
    {
        broadcast use group_ok;
        reveal(ReplicaModel::on_new_state);
        if view_number != self.view_number {
            return;
        }
        self.heard_from_primary = true;
        assert(self@ == (ReplicaModel { heard_from_primary: true, ..old(self)@ }));
        let installed = if self.status == Status::StateTransfer {
            // We are filling a gap within our view. The reply may answer an
            // earlier `GetState` that the network delayed or replayed, in
            // which case it starts before our current op number. We can
            // still use whatever it has beyond our log, since within a view
            // the overlapping entries are identical. A reply that starts
            // past our log or that ends inside it is of no use, so keep
            // waiting for another.
            self.install_segment_in_view(segment)
        } else if self.status == Status::ViewChange && self.catching_up.is_some() {
            // We asked for everything after our commit number: what we have
            // beyond that is from an earlier view and never committed, so it
            // is replaced by what the reply holds.
            self.install_segment_from_commit(segment)
        } else {
            return;
        };
        match installed {
            Installed::Log => self.new_state_installed(commit_number),
            Installed::Nothing => {},
            Installed::Checkpoint(segment) => {
                let resume = Resume::NewState { view_number, segment, commit_number };
                self.start_fetch(replica_id, resume);
            },
        }
    }

    /// Goes on from a `NewState` whose segment the log now holds: a state
    /// transfer is over, and a replica catching up with a view enters it,
    /// or starts it as its primary.
    fn new_state_installed(&mut self, commit_number: CommitID)
        requires
            old(self).wf(),
            old(self)@.status == Status::StateTransfer || old(self)@.status == Status::ViewChange,
            old(self)@.new_state_installed(commit_number).ok,
        ensures
            final(self).wf(),
            final(self)@ == old(self)@.new_state_installed(commit_number),
    {
        broadcast use {
            group_ok,
            frame_commit_up_to,
            vstd::std_specs::btree::group_btree_axioms,
        };

        self.fetch = None;
        if self.status == Status::StateTransfer {
            assert(self@ == (ReplicaModel { fetch: None, ..old(self)@ }));
            self.commit_up_to(commit_number, false);
            let ghost before = self@;
            self.status = Status::Normal;
            assert(self@ == (ReplicaModel { status: Status::Normal, ..before }));
        } else {
            self.catching_up = None;
            assert(self@ == (ReplicaModel { fetch: None, catching_up: None, ..old(self)@ }));
            assert(self@.do_view_change_from.dom() =~= self.do_view_change_from@.dom());
            if self.is_primary() && self.do_view_change_from.len() >= self.config.quorum() {
                // We are the new primary, and asked the replica whose
                // log we chose for what it had compacted.
                self.try_start_view();
                return;
            }
            self.commit_up_to(commit_number, false);
            self.enter_normal();
        }
        self.send_prepare_ok();
    }

    /// Fetches from `from` the checkpoint the segment in `resume` follows,
    /// and handles `resume` again once the checkpoint is restored. A fetch of
    /// the same checkpoint goes on from where it is, and one of a later
    /// checkpoint goes on instead unless it has stalled.
    pub(crate) fn start_fetch(&mut self, from: ReplicaID, resume: Resume<SM::Input>)
        requires
            old(self).wf(),
            match resume {
                Resume::NewState { .. } => old(self)@.status == Status::StateTransfer
                    || old(self)@.status == Status::ViewChange,
                Resume::RecoveryResponse { view_number, .. } => old(self)@.status
                    == Status::Recovering && view_number >= old(self)@.view_number,
            },
        ensures
            final(self).wf(),
            final(self)@ == old(self)@.start_fetch(from, resume@),
    {
        let op_number = resume.checkpoint();
        let mut index: usize = 0;
        let mut idle_periods: usize = 0;
        let mut ask = true;
        if let Some(fetch) = &self.fetch {
            let under_way = fetch.resume.checkpoint();
            if fetch.from == from && under_way == op_number {
                index = fetch.index;
                if !fetch.stalled {
                    idle_periods = fetch.idle_periods;
                    ask = false;
                }
            } else if under_way > op_number && !fetch.stalled {
                return;
            }
        }
        let ghost fetch = FetchView {
            from,
            index,
            idle_periods,
            stalled: false,
            resume: resume@,
        };
        self.fetch = Some(Fetch { from, index, idle_periods, stalled: false, resume });
        assert(self@ == (ReplicaModel { fetch: Some(fetch), ..old(self)@ }));
        if ask {
            self.send_get_chunk();
        }
    }

    /// Asks for the chunk the fetch under way waits for.
    pub(crate) fn send_get_chunk(&mut self)
        requires
            old(self).wf(),
        ensures
            final(self).wf(),
            final(self)@ == old(self)@.send_get_chunk(),
    {
        let (from, op_number, index) = match &self.fetch {
            Some(fetch) => (fetch.from, fetch.resume.checkpoint(), fetch.index),
            None => {
                return;
            },
        };
        let message = Message::GetChunk { replica_id: self.self_id, op_number, index };
        self.send(from, message);
    }

    /// Stages a chunk of the checkpoint under way and asks for the next,
    /// or, with the last one staged, restores the checkpoint and goes on
    /// with the message that named it, whose segment follows it. A chunk
    /// from the replica this one catches up with counts as hearing from it.
    pub(crate) fn on_new_chunk(
        &mut self,
        replica_id: ReplicaID,
        op_number: OpNumber,
        index: usize,
        chunk: SM::Chunk,
        last: bool,
    )
        requires
            old(self).wf(),
            old(self)@.on_new_chunk(replica_id, op_number, index, chunk, last).ok,
        ensures
            final(self).wf(),
            final(self)@ == old(self)@.on_new_chunk(replica_id, op_number, index, chunk, last),
    {
        broadcast use group_ok;
        reveal(ReplicaModel::on_new_chunk);
        let awaited = match &self.fetch {
            Some(fetch) => fetch.from == replica_id && fetch.resume.checkpoint() == op_number
                && fetch.index == index,
            None => false,
        };
        if !awaited {
            return;
        }
        let mut taken: Option<Fetch<SM::Input>> = None;
        std::mem::swap(&mut taken, &mut self.fetch);
        let mut fetch = match taken {
            Some(fetch) => fetch,
            None => {
                return;
            },
        };
        fetch.idle_periods = 0;
        fetch.stalled = false;
        if !last {
            fetch.index = fetch.index + 1;
        }
        self.state_machine.stage_chunk(op_number, index, chunk);
        if let Some(from) = self.catching_up {
            if from == replica_id {
                self.idle_periods_waiting = 0;
            }
        }
        if self.config.primary_id(self.view_number) == replica_id {
            self.heard_from_primary = true;
        }
        let ghost staged = old(self)@.staged(replica_id, op_number, index, chunk, last);
        assert(self@ == (ReplicaModel { fetch: None, ..staged }));
        assert(self.wf());
        if !last {
            self.fetch = Some(fetch);
            assert(self@ == staged);
            self.send_get_chunk();
            return;
        }
        if op_number <= self.commit_number {
            return;
        }
        self.restore_checkpoint(op_number);
        self.resume_after(op_number, fetch.resume);
    }

    /// Goes on, with the checkpoint at `op_number` restored, with the message
    /// that named it.
    fn resume_after(&mut self, op_number: OpNumber, resume: Resume<SM::Input>)
        requires
            old(self).wf(),
            match resume {
                Resume::NewState { .. } => old(self)@.status == Status::StateTransfer
                    || old(self)@.status == Status::ViewChange,
                Resume::RecoveryResponse { view_number, .. } => old(self)@.status
                    == Status::Recovering && view_number >= old(self)@.view_number,
            },
            old(self)@.resume_after(op_number, resume@).ok,
        ensures
            final(self).wf(),
            final(self)@ == old(self)@.resume_after(op_number, resume@),
    {
        broadcast use group_ok;

        reveal(ReplicaModel::resume_after);
        match resume {
            Resume::NewState { view_number, segment, commit_number } => {
                if view_number == self.view_number {
                    self.merge_log(op_number, segment.entries);
                    self.new_state_installed(commit_number);
                }
            },
            Resume::RecoveryResponse { view_number, state } => {
                self.recover_into(view_number, state);
            },
        }
    }

    /// Makes the checkpoint staged at `op_number` the state, and starts the
    /// log after it. The checkpoint must be beyond our commit number, so
    /// that nothing executed here is undone.
    fn restore_checkpoint(&mut self, op_number: OpNumber)
        requires
            old(self).wf(),
            op_number > old(self)@.commit_number,
            old(self)@.restore_checkpoint(op_number).ok,
        ensures
            final(self).wf(),
            final(self)@ == old(self)@.restore_checkpoint(op_number),
    {
        if self.serving.is_some() {
            self.serving = None;
            self.state_machine.release_checkpoint();
        }
        self.commit_number = op_number;
        self.applied = op_number;
        self.reply_ranges.clear();
        self.log_start = op_number;
        self.log.clear();
        self.log_changed_from = self.changed_with(op_number + 1);
        self.state_machine.restore(op_number);
        self.load_client_table();
        self.rebuild_pending();
    }
}

} // verus!
