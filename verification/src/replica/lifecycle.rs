use std::collections::{BTreeMap, BTreeSet, VecDeque};
use vstd::prelude::*;
use super::model::{waiting_keys, ReplicaModel};
use super::ok::group_ok;
use super::parts::{DoViewChange, Status, WaitingQuery, Written};
use super::view_change::{no_ops, no_rounds};
use super::Replica;
use crate::client_table::{new_set, ClientTable};
use crate::config::Config;
use crate::ids::{OpNumber, ReplicaID, ViewNumber};
use crate::log::{drop_front, PersistentState, PersistentView};
use crate::message::{Message, MessageFor, MessageView, MessageViewFor};
use crate::state_machine::{exact_clones, table_as_of, StateMachine};

verus! {

impl<SM: StateMachine> ReplicaModel<SM> {
    /// Whether a replica can come back with `state` and a state machine that
    /// has applied the first `applied` operations: the log reaches back to
    /// them and holds what is committed, and the client table is as of then.
    pub open spec fn can_restart(
        machine: SM::State,
        applied: OpNumber,
        state: PersistentView<SM::Input>,
    ) -> bool {
        &&& applied < usize::MAX
        &&& table_as_of(SM::table(machine), applied)
        &&& !state.recovering ==> {
            &&& state.log_start <= applied
            &&& state.end() < usize::MAX
            &&& applied <= state.commit_number ==> state.commit_number <= state.end()
        }
    }

    /// The chunk sent last, and whether it is the last of its checkpoint.
    pub open spec fn chunk_sent(self) -> (SM::Chunk, bool) {
        match self.outbox_early.last().1 {
            MessageView::NewChunk { chunk, last, .. } => (chunk, last),
            _ => arbitrary(),
        }
    }

    /// The index of the chunk that `message` asks for, if this replica
    /// answers it.
    pub open spec fn chunk_asked(self, message: MessageViewFor<SM>) -> Option<usize> {
        match message {
            MessageView::GetChunk { op_number, index, .. } => if self.status != Status::Recovering
                && self.serves(op_number) {
                Some(index)
            } else {
                None
            },
            _ => None,
        }
    }

    /// Whether the replica can take `message`, see [`ReplicaModel::ok`].
    pub open spec fn takes(self, message: MessageViewFor<SM>) -> bool {
        forall|chunk: (SM::Chunk, bool)| (#[trigger] self.on_message(message, chunk)).ok
    }
}

impl<SM: StateMachine> Replica<SM> {
    /// A replica `self_id` of the cluster `config` describes, that has done
    /// nothing yet.
    pub fn new(self_id: ReplicaID, config: Config, state_machine: SM) -> (replica: Replica<SM>)
        requires
            config@.is_cluster(),
            state_machine.inv(),
            exact_clones::<SM>(),
        ensures
            replica.wf(),
            replica@ == ReplicaModel::<SM>::init(self_id, config@, state_machine.state()),
    {
        let replica_count = config.size();
        let replica = Replica {
            self_id,
            config,
            state_machine,
            status: Status::Normal,
            view_number: 0,
            last_normal_view: 0,
            commit_number: 0,
            applied: 0,
            reply_ranges: Vec::new(),
            log_start: 0,
            log: Vec::new(),
            log_changed_from: None,
            written: None,
            writes: 0,
            outstanding: None,
            durable: 0,
            acked: no_ops(replica_count),
            view_start_op: 0,
            queries: VecDeque::new(),
            waiting: new_set(),
            round: 0,
            round_confirmed: 0,
            confirmed: no_rounds(replica_count),
            round_unsent: false,
            resend_up_to: 0,
            clients: ClientTable::new(),
            heard_from_primary: true,
            idle_periods_waiting: 0,
            view_change_attempts: 0,
            idle_periods_stable: 0,
            start_view_change_from: BTreeSet::new(),
            do_view_change_sent: false,
            do_view_change_from: BTreeMap::new(),
            catching_up: None,
            serving: None,
            fetch: None,
            recovery_nonce: 0,
            recovery_responses: BTreeMap::new(),
            outbox_early: Vec::new(),
            outbox: Vec::new(),
            outbox_waiting: Vec::new(),
            outbox_ready: Vec::new(),
            replies: Vec::new(),
        };
        proof {
            let init = ReplicaModel::<SM>::init(self_id, replica.config@, replica@.machine);
            assert(replica@.do_view_change_from =~= init.do_view_change_from);
            assert(replica@.recovery_responses =~= init.recovery_responses);
            assert(replica@ == init);
            assert(waiting_keys(Seq::<WaitingQuery<SM::Query>>::empty()) =~= Set::empty());
        }
        replica
    }

    /// Creates a replica that is back from a crash with no memory. It
    /// starts in recovering status, in the view the owner had persisted
    /// for it, and asks the other replicas for the current state; until a
    /// quorum has answered, it takes no part in anything else. The nonce
    /// must differ from that of any earlier recovery of this replica, so a
    /// late response to an earlier one is not taken for a current one.
    pub fn recover(
        self_id: ReplicaID,
        config: Config,
        state_machine: SM,
        view_number: ViewNumber,
        nonce: u64,
    ) -> (replica: Replica<SM>)
        requires
            config@.is_cluster(),
            state_machine.inv(),
            exact_clones::<SM>(),
        ensures
            replica.wf(),
            replica@ == ReplicaModel::<SM>::recover(
                self_id,
                config@,
                state_machine.state(),
                view_number,
                nonce,
            ),
    {
        let mut replica = Replica::new(self_id, config, state_machine);
        let ghost before = replica@;
        replica.status = Status::Recovering;
        replica.view_number = view_number;
        replica.recovery_nonce = nonce;
        assert(replica@ == (ReplicaModel {
            status: Status::Recovering,
            view_number,
            recovery_nonce: nonce,
            ..before
        }));
        replica.send_recovery();
        replica
    }

    /// Creates a replica that is back from a crash with the state the
    /// owner persisted for it, and a state machine that has applied the
    /// first `applied` operations, with its client table as of then. The
    /// replica applies the committed ones after that once more, so
    /// `applied` must be at least `log_start`. Its first write records
    /// only what the restart changed.
    ///
    /// The state machine must be durable as of `applied`, since the replica
    /// may compact its log up to there and a later crash must not take the
    /// state machine back behind it. A state machine that writes through
    /// the page cache can come back from a process crash with operations
    /// it applied but never made durable; its owner makes them durable
    /// before calling this. So must `state` be: the replica treats all of
    /// it as on disk, and a log replayed after a process crash can hold a
    /// write that reached only the page cache, which its owner syncs.
    ///
    /// A state machine ahead of the log's commit number applied operations
    /// whose commit no write recorded: in steps that changed nothing else,
    /// which the owner need not write, or in a step whose write the crash
    /// cut off. Or it holds a checkpoint it made durable before the log was
    /// persisted after it, as [`StateMachine::restore`] requires. Either
    /// way the log's entries up to `applied` give way to the state machine,
    /// and the ones after it, which this replica acknowledged, stay.
    ///
    /// A backup that was normal in its view resumes there: its log is the
    /// one it acknowledged. A primary starts the next view instead: it may
    /// have sent a `Prepare` for an entry it never made durable, which a
    /// backup then holds under an op number the primary would use again.
    /// A replica that went down in the middle of a view change enters that
    /// view change again. One that was still recovering starts a new
    /// recovery with `nonce`, keeping the checkpoint its state machine may
    /// hold.
    pub fn restart(
        self_id: ReplicaID,
        config: Config,
        state_machine: SM,
        applied: OpNumber,
        state: PersistentState<SM::Input>,
        nonce: u64,
    ) -> (replica: Replica<SM>)
        requires
            config@.is_cluster(),
            state_machine.inv(),
            exact_clones::<SM>(),
            ReplicaModel::<SM>::can_restart(state_machine.state(), applied, state@),
            ReplicaModel::<SM>::restart(
                self_id,
                config@,
                state_machine.state(),
                applied,
                state@,
                nonce,
            ).ok,
        ensures
            replica.wf(),
            replica@ == ReplicaModel::<SM>::restart(
                self_id,
                config@,
                state_machine.state(),
                applied,
                state@,
                nonce,
            ),
    {
        broadcast use group_ok;

        proof {
            reveal(ReplicaModel::restart);
        }
        let ghost machine = state_machine.state();
        let ghost cluster = config@;
        let ghost persisted = state@;
        let written = Written {
            view_number: state.view_number,
            last_normal_view: state.last_normal_view,
            recovering: state.recovering,
            log_start: state.log_start,
        };
        let recovering = state.recovering;
        let view_number = state.view_number;
        let last_normal_view = state.last_normal_view;
        let mut replica = if recovering {
            let mut replica = Replica::recover(self_id, config, state_machine, view_number, nonce);
            replica.log_start = applied;
            replica.commit_number = applied;
            replica
        } else {
            let mut replica = Replica::new(self_id, config, state_machine);
            replica.view_number = view_number;
            replica.last_normal_view = last_normal_view;
            let mut log = state.log;
            if applied > state.commit_number {
                let known: usize = applied - state.log_start;
                if known >= log.len() {
                    log.clear();
                } else {
                    drop_front(&mut log, known);
                }
                replica.log_start = applied;
                replica.commit_number = applied;
            } else {
                replica.log_start = state.log_start;
                replica.commit_number = state.commit_number;
            }
            replica.log = log;
            replica
        };
        assert(replica@ == ReplicaModel::<SM>::come_back(
            self_id,
            cluster,
            machine,
            applied,
            persisted,
            nonce,
        ));
        let ghost back = replica@;
        replica.applied = applied;
        replica.written = Some(written);
        assert(replica@ == (ReplicaModel { applied, written: Some(written), ..back }));
        replica.load_client_table();
        let ghost loaded = replica@;
        let op_number = replica.op_number();
        replica.durable = op_number;
        assert(replica@ == (ReplicaModel { durable: op_number, ..loaded }));
        replica.apply_committed(op_number);
        replica.rebuild_pending();
        if recovering {
            return replica;
        }
        if last_normal_view < view_number {
            replica.start_view_change(view_number);
        } else if replica.is_primary() {
            replica.start_next_view();
        }
        replica
    }

    /// The main entry point to replica logic.
    pub fn on_message(&mut self, message: MessageFor<SM>)
        requires
            old(self).wf(),
            old(self)@.takes(message@),
        ensures
            final(self).wf(),
            final(self)@ == old(self)@.on_message(message@, final(self)@.chunk_sent()),
            old(self)@.chunk_asked(message@) matches Some(index) ==> SM::is_chunk(
                old(self)@.machine,
                index,
                final(self)@.chunk_sent().0,
                final(self)@.chunk_sent().1,
            ),
    {
        let ghost any: (SM::Chunk, bool) = arbitrary();
        assert(old(self)@.on_message(message@, any).ok);
        // A recovering replica knows nothing it could safely act on: not
        // which view is current, not what it acknowledged before the crash.
        // Until it has recovered, only recovery responses matter, and the
        // chunks of a checkpoint one named.
        if self.status == Status::Recovering {
            match &message {
                Message::RecoveryResponse { .. } => {},
                Message::NewChunk { .. } => {},
                _ => {
                    return;
                },
            }
        }
        match message {
            Message::GetChunk { replica_id, op_number, index } => {
                proof {
                    assert forall|chunk: SM::Chunk, last: bool| (#[trigger] old(
                        self,
                    )@.on_get_chunk(replica_id, op_number, index, chunk, last)).ok by {
                        assert(old(self)@.on_message(message@, (chunk, last)).ok);
                    }
                }
                let Ghost(sent) = self.on_get_chunk(replica_id, op_number, index);
            },
            message => {
                self.handle(message);
            },
        }
    }

    /// Handles a message that asks for no chunk.
    #[verifier::rlimit(60)]
    fn handle(&mut self, message: MessageFor<SM>)
        requires
            old(self).wf(),
            !old(self)@.ignores(message@),
            !(message is GetChunk),
            old(self)@.handle(message@).ok,
        ensures
            final(self).wf(),
            final(self)@ == old(self)@.handle(message@),
    {
        reveal(ReplicaModel::handle);
        match message {
            Message::Register { client_id } => {
                self.on_register(client_id);
            },
            Message::Request { client_id, session, request_number, answered, op } => {
                self.on_request(client_id, session, request_number, answered, op);
            },
            Message::Query { client_id, query_number, query } => {
                self.on_query(client_id, query_number, query);
            },
            Message::ConfirmView { view_number, round } => {
                self.on_confirm_view(view_number, round);
            },
            Message::ConfirmViewOk { view_number, round, replica_id } => {
                self.on_confirm_view_ok(view_number, round, replica_id);
            },
            Message::Prepare { view_number, op_number, entry, commit_number } => {
                self.on_prepare(view_number, op_number, entry, commit_number);
            },
            Message::PrepareOk { view_number, op_number, replica_id } => {
                self.on_prepare_ok(view_number, op_number, replica_id);
            },
            Message::Commit { view_number, commit_number } => {
                self.on_commit(view_number, commit_number);
            },
            Message::GetState { replica_id, view_number, op_number } => {
                self.on_get_state(replica_id, view_number, op_number);
            },
            Message::NewState { replica_id, view_number, segment, commit_number } => {
                self.on_new_state(replica_id, view_number, segment, commit_number);
            },
            Message::GetChunk { .. } => {},
            Message::NewChunk { replica_id, op_number, index, chunk, last } => {
                self.on_new_chunk(replica_id, op_number, index, chunk, last);
            },
            Message::StartViewChange { view_number, replica_id } => {
                self.on_start_view_change(view_number, replica_id);
            },
            Message::DoViewChange {
                view_number,
                replica_id,
                last_normal_view,
                segment,
                commit_number,
            } => {
                let report = DoViewChange { last_normal_view, segment, commit_number };
                self.on_do_view_change(view_number, replica_id, report);
            },
            Message::StartView { view_number, segment, commit_number } => {
                self.on_start_view(view_number, segment, commit_number);
            },
            Message::Recovery { replica_id, nonce, view_number } => {
                self.on_recovery(replica_id, nonce, view_number);
            },
            Message::RecoveryResponse { view_number, nonce, replica_id, state } => {
                self.on_recovery_response(view_number, nonce, replica_id, state);
            },
        }
    }
}

} // verus!
