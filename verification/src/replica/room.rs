//! Where there is room, a replica's own promises hold.

use vstd::prelude::*;
use super::frames::frame_apply_committed;
use super::life::{come_back_executed, loaded};
use super::model::{latest_view, ReplicaModel};
use super::ok::{
    group_ok,
    ok_answer_queries,
    ok_append_to_log,
    ok_apply_committed,
    ok_catch_up_with_view,
    ok_commit_up_to,
    ok_evict,
    ok_execute,
    ok_execute_entries,
    ok_execute_next,
    ok_execute_queries,
    ok_execute_request,
    ok_fetch_on_idle,
    ok_install_segment_from_commit,
    ok_install_segment_in_view,
    ok_keep_checkpoint,
    ok_maybe_send_do_view_change,
    ok_merge_log,
    ok_new_state_installed,
    ok_note_stable,
    ok_record_do_view_change,
    ok_register,
    ok_register_ack,
    ok_restore_checkpoint,
    ok_resume_after,
    ok_send_do_view_change,
    ok_serve_on_idle,
    ok_start_fetch,
    ok_start_next_view,
    ok_start_view_change,
    ok_state_transfer,
    ok_try_start_view,
    ok_wait_timed_out,
};
use super::parts::{DoViewChangeView, ResponseView, ResumeView, Status};
use crate::ids::{ClientID, CommitID, OpNumber, ReplicaID, RequestNumber, ViewNumber};
use crate::config::ConfigView;
use crate::log::{LogEntry, PersistentView, SegmentView};
use crate::message::{MessageView, MessageViewFor, RecoveryView};
use crate::state_machine::StateMachine;

verus! {

impl<SM: StateMachine> ReplicaModel<SM> {
    /// Whether the log holds what is committed.
    pub open spec fn level(self) -> bool {
        self.commit_number <= self.op_number()
    }
}

pub broadcast proof fn room_append_to_log<SM: StateMachine>(
    s: ReplicaModel<SM>,
    entry: LogEntry<SM::Input>,
)
    ensures
        s.fits && (#[trigger] s.append_to_log(entry)).room ==> (s.append_to_log(entry)).fits,
{
}

pub broadcast proof fn room_prepare<SM: StateMachine>(
    s: ReplicaModel<SM>,
    entry: LogEntry<SM::Input>,
)
    ensures
        s.fits && (#[trigger] s.prepare(entry)).room ==> (s.prepare(entry)).fits,
{
    broadcast use {
        ok_append_to_log,
        room_append_to_log,
    };

}

pub broadcast proof fn room_merge_log<SM: StateMachine>(
    s: ReplicaModel<SM>,
    start: OpNumber,
    entries: Seq<LogEntry<SM::Input>>,
)
    ensures
        s.fits && s.level() && start <= s.op_number() && (#[trigger] s.merge_log(start, entries)).room ==> (s.merge_log(start, entries)).fits,
{
}

pub broadcast proof fn room_evict<SM: StateMachine>(
    s: ReplicaModel<SM>,
    op_number: OpNumber,
)
    ensures
        s.fits && (#[trigger] s.evict(op_number)).room ==> (s.evict(op_number)).fits,
{
}

pub broadcast proof fn room_register<SM: StateMachine>(
    s: ReplicaModel<SM>,
    op_number: OpNumber,
    client_id: ClientID,
)
    ensures
        s.fits && (#[trigger] s.register(op_number, client_id)).0.room ==> (s.register(op_number, client_id)).0.fits,
{
    broadcast use {
        ok_evict,
        room_evict,
    };

}

pub broadcast proof fn room_execute_request<SM: StateMachine>(
    s: ReplicaModel<SM>,
    op_number: OpNumber,
    client_id: ClientID,
    session: OpNumber,
    request_number: RequestNumber,
    answered: RequestNumber,
    op: SM::Input,
)
    ensures
        s.fits && (#[trigger] s.execute_request(op_number, client_id, session, request_number, answered, op)).0.room ==> (s.execute_request(op_number, client_id, session, request_number, answered, op)).0.fits,
{
}

pub broadcast proof fn room_execute<SM: StateMachine>(
    s: ReplicaModel<SM>,
    op_number: OpNumber,
)
    ensures
        s.fits && (#[trigger] s.execute(op_number)).0.room ==> (s.execute(op_number)).0.fits,
{
    broadcast use {
        ok_register,
        ok_execute_request,
        room_register,
        room_execute_request,
    };

}

pub broadcast proof fn room_execute_next<SM: StateMachine>(
    s: ReplicaModel<SM>,
)
    ensures
        s.fits && (#[trigger] s.execute_next()).room ==> (s.execute_next()).fits,
{
    broadcast use {
        ok_execute,
        room_execute,
    };

}

pub broadcast proof fn room_execute_entries<SM: StateMachine>(
    s: ReplicaModel<SM>,
    count: nat,
)
    ensures
        s.fits && (#[trigger] s.execute_entries(count)).room ==> (s.execute_entries(count)).fits,
    decreases count,
{
    broadcast use {
        ok_execute_next,
        room_execute_next,
    };

    if count > 0 {
        room_execute_entries(s, (count - 1) as nat);
    }
}

pub broadcast proof fn room_answer_queries<SM: StateMachine>(
    s: ReplicaModel<SM>,
)
    ensures
        s.fits && (#[trigger] s.answer_queries()).room ==> (s.answer_queries()).fits,
    decreases s.queries.len(),
{
    if s.query_ready() {
        room_answer_queries(s.answer_query());
    }
}

pub broadcast proof fn room_execute_queries<SM: StateMachine>(
    s: ReplicaModel<SM>,
)
    ensures
        s.fits && (#[trigger] s.execute_queries()).room ==> (s.execute_queries()).fits,
{
    broadcast use {
        ok_answer_queries,
        room_answer_queries,
    };

}

pub broadcast proof fn room_apply_committed<SM: StateMachine>(
    s: ReplicaModel<SM>,
    op_number: int,
)
    ensures
        s.fits && (#[trigger] s.apply_committed(op_number)).room ==> (s.apply_committed(op_number)).fits,
{
    broadcast use {
        ok_execute_entries,
        ok_execute_queries,
        room_execute_entries,
        room_execute_queries,
    };
    reveal(ReplicaModel::apply_committed);

}

pub broadcast proof fn room_commit_up_to<SM: StateMachine>(
    s: ReplicaModel<SM>,
    commit_number: CommitID,
    reply: bool,
)
    ensures
        s.fits && (#[trigger] s.commit_up_to(commit_number, reply)).room ==> (s.commit_up_to(commit_number, reply)).fits,
{
    broadcast use {
        ok_apply_committed,
        room_apply_committed,
    };

}

pub broadcast proof fn room_register_ack<SM: StateMachine>(
    s: ReplicaModel<SM>,
    replica_id: ReplicaID,
    op_number: OpNumber,
)
    ensures
        s.fits && (#[trigger] s.register_ack(replica_id, op_number)).room ==> (s.register_ack(replica_id, op_number)).fits,
{
    broadcast use {
        ok_commit_up_to,
        room_commit_up_to,
    };

}

pub broadcast proof fn room_start_round<SM: StateMachine>(
    s: ReplicaModel<SM>,
)
    ensures
        s.fits && (#[trigger] s.start_round()).room ==> (s.start_round()).fits,
{
}

pub broadcast proof fn room_catch_up_with_view<SM: StateMachine>(
    s: ReplicaModel<SM>,
    view_number: ViewNumber,
)
    ensures
        s.fits && (#[trigger] s.catch_up_with_view(view_number)).room ==> (s.catch_up_with_view(view_number)).fits,
{
}

pub broadcast proof fn room_accept_from_primary<SM: StateMachine>(
    s: ReplicaModel<SM>,
    view_number: ViewNumber,
)
    ensures
        s.fits && (#[trigger] s.accept_from_primary(view_number)).0.room ==> (s.accept_from_primary(view_number)).0.fits,
{
    broadcast use {
        ok_catch_up_with_view,
        room_catch_up_with_view,
    };

}

pub broadcast proof fn room_send_prepare_ok<SM: StateMachine>(
    s: ReplicaModel<SM>,
)
    ensures
        s.fits && (#[trigger] s.send_prepare_ok()).room ==> (s.send_prepare_ok()).fits,
{
}

pub broadcast proof fn room_state_transfer<SM: StateMachine>(
    s: ReplicaModel<SM>,
)
    ensures
        s.fits && (#[trigger] s.state_transfer()).room ==> (s.state_transfer()).fits,
{
}

pub broadcast proof fn room_keep_checkpoint<SM: StateMachine>(
    s: ReplicaModel<SM>,
)
    ensures
        s.fits && (#[trigger] s.keep_checkpoint()).room ==> (s.keep_checkpoint()).fits,
{
}

pub broadcast proof fn room_segment_from<SM: StateMachine>(
    s: ReplicaModel<SM>,
    op_number: OpNumber,
)
    ensures
        s.fits && (#[trigger] s.segment_from(op_number)).0.room ==> (s.segment_from(op_number)).0.fits,
{
    broadcast use {
        ok_keep_checkpoint,
        room_keep_checkpoint,
    };

}

pub broadcast proof fn room_install_segment_in_view<SM: StateMachine>(
    s: ReplicaModel<SM>,
    segment: SegmentView<SM::Input>,
)
    ensures
        s.fits && s.level() && (#[trigger] s.install_segment_in_view(segment)).0.room ==> (s.install_segment_in_view(segment)).0.fits,
{
    broadcast use {
        ok_merge_log,
        room_merge_log,
    };

}

pub broadcast proof fn room_install_segment_from_commit<SM: StateMachine>(
    s: ReplicaModel<SM>,
    segment: SegmentView<SM::Input>,
)
    ensures
        s.fits && s.level() && (#[trigger] s.install_segment_from_commit(segment)).0.room ==> (s.install_segment_from_commit(segment)).0.fits,
{
    broadcast use {
        ok_merge_log,
        room_merge_log,
    };

}

pub broadcast proof fn room_start_fetch<SM: StateMachine>(
    s: ReplicaModel<SM>,
    from: ReplicaID,
    resume: ResumeView<SM::Input>,
)
    ensures
        s.fits && (#[trigger] s.start_fetch(from, resume)).room ==> (s.start_fetch(from, resume)).fits,
{
}

pub broadcast proof fn room_try_start_view<SM: StateMachine>(
    s: ReplicaModel<SM>,
)
    ensures
        s.fits && s.level() && (#[trigger] s.try_start_view()).room ==> (s.try_start_view()).fits,
{
    broadcast use {
        ok_install_segment_from_commit,
        ok_commit_up_to,
        room_install_segment_from_commit,
        room_commit_up_to,
    };

}

pub broadcast proof fn room_record_do_view_change<SM: StateMachine>(
    s: ReplicaModel<SM>,
    replica_id: ReplicaID,
    report: DoViewChangeView<SM::Input>,
)
    ensures
        s.fits && s.level() && (#[trigger] s.record_do_view_change(replica_id, report)).room ==> (s.record_do_view_change(replica_id, report)).fits,
{
    broadcast use {
        ok_try_start_view,
        room_try_start_view,
    };

}

pub broadcast proof fn room_send_do_view_change<SM: StateMachine>(
    s: ReplicaModel<SM>,
)
    ensures
        s.fits && s.level() && (#[trigger] s.send_do_view_change()).room ==> (s.send_do_view_change()).fits,
{
    broadcast use {
        ok_record_do_view_change,
        room_record_do_view_change,
    };

}

pub broadcast proof fn room_maybe_send_do_view_change<SM: StateMachine>(
    s: ReplicaModel<SM>,
)
    ensures
        s.fits && s.level() && (#[trigger] s.maybe_send_do_view_change()).room ==> (s.maybe_send_do_view_change()).fits,
{
    broadcast use {
        ok_send_do_view_change,
        room_send_do_view_change,
    };

}

pub broadcast proof fn room_start_view_change<SM: StateMachine>(
    s: ReplicaModel<SM>,
    view_number: ViewNumber,
)
    ensures
        s.fits && s.level() && (#[trigger] s.start_view_change(view_number)).room ==> (s.start_view_change(view_number)).fits,
{
    broadcast use {
        ok_maybe_send_do_view_change,
        room_maybe_send_do_view_change,
    };

}

pub broadcast proof fn room_start_next_view<SM: StateMachine>(
    s: ReplicaModel<SM>,
)
    ensures
        s.fits && s.level() && (#[trigger] s.start_next_view()).room ==> (s.start_next_view()).fits,
{
    broadcast use {
        ok_start_view_change,
        room_start_view_change,
    };

}

pub broadcast proof fn room_new_state_installed<SM: StateMachine>(
    s: ReplicaModel<SM>,
    commit_number: CommitID,
)
    ensures
        s.fits && s.level() && (#[trigger] s.new_state_installed(commit_number)).room ==> (s.new_state_installed(commit_number)).fits,
{
    broadcast use {
        ok_commit_up_to,
        ok_try_start_view,
        room_commit_up_to,
        room_try_start_view,
    };

}

pub broadcast proof fn room_restore_checkpoint<SM: StateMachine>(
    s: ReplicaModel<SM>,
    op_number: OpNumber,
)
    ensures
        s.fits && (#[trigger] s.restore_checkpoint(op_number)).room ==> (s.restore_checkpoint(op_number)).fits,
{
}

pub broadcast proof fn room_serve_on_idle<SM: StateMachine>(
    s: ReplicaModel<SM>,
)
    ensures
        s.fits && (#[trigger] s.serve_on_idle()).room ==> (s.serve_on_idle()).fits,
{
}

pub broadcast proof fn room_fetch_on_idle<SM: StateMachine>(
    s: ReplicaModel<SM>,
)
    ensures
        s.fits && (#[trigger] s.fetch_on_idle()).0.room ==> (s.fetch_on_idle()).0.fits,
{
}

pub broadcast proof fn room_note_stable<SM: StateMachine>(
    s: ReplicaModel<SM>,
)
    ensures
        s.fits && (#[trigger] s.note_stable()).room ==> (s.note_stable()).fits,
{
}

pub broadcast proof fn room_wait_timed_out<SM: StateMachine>(
    s: ReplicaModel<SM>,
)
    ensures
        s.fits && (#[trigger] s.wait_timed_out()).0.room ==> (s.wait_timed_out()).0.fits,
{
}

/// A replica recovers into a view unless the log that it is sent starts after
/// what it has.
pub proof fn room_recover_into<SM: StateMachine>(
    s: ReplicaModel<SM>,
    view_number: ViewNumber,
    state: RecoveryView<SM::Input>,
)
    requires
        s.fits,
        s.level(),
        state.segment.base is Op ==> state.segment.start() <= s.commit_number,
        s.recover_into(view_number, state).room,
    ensures
        s.recover_into(view_number, state).fits,
{
    broadcast use {
        ok_install_segment_from_commit,
        ok_commit_up_to,
        ok_start_fetch,
        room_install_segment_from_commit,
        room_commit_up_to,
        room_start_fetch,
    };

}

/// A replica that has restored a checkpoint goes on with the log after it.
proof fn room_resume_after<SM: StateMachine>(
    s: ReplicaModel<SM>,
    op_number: OpNumber,
    resume: ResumeView<SM::Input>,
)
    requires
        s.fits,
        s.commit_number == op_number,
        s.op_number() == op_number,
        resume.checkpoint() == op_number,
        s.resume_after(op_number, resume).room,
    ensures
        s.resume_after(op_number, resume).fits,
{
    broadcast use {
        ok_merge_log,
        ok_new_state_installed,
        room_merge_log,
        room_new_state_installed,
    };

    reveal(ReplicaModel::resume_after);
    match resume {
        ResumeView::RecoveryResponse { view_number, state } => {
            room_recover_into(s, view_number, state);
        },
        _ => {},
    }
}

proof fn room_on_new_state<SM: StateMachine>(
    s: ReplicaModel<SM>,
    replica_id: ReplicaID,
    view_number: ViewNumber,
    segment: SegmentView<SM::Input>,
    commit_number: CommitID,
)
    requires
        s.fits,
        s.level(),
        s.on_new_state(replica_id, view_number, segment, commit_number).room,
    ensures
        s.on_new_state(replica_id, view_number, segment, commit_number).fits,
{
    broadcast use {
        ok_install_segment_in_view,
        ok_install_segment_from_commit,
        ok_new_state_installed,
        ok_start_fetch,
        room_install_segment_in_view,
        room_install_segment_from_commit,
        room_new_state_installed,
        room_start_fetch,
    };

    reveal(ReplicaModel::on_new_state);
}

proof fn room_on_new_chunk<SM: StateMachine>(
    s: ReplicaModel<SM>,
    replica_id: ReplicaID,
    op_number: OpNumber,
    index: usize,
    chunk: SM::Chunk,
    last: bool,
)
    requires
        s.fits,
        s.on_new_chunk(replica_id, op_number, index, chunk, last).room,
    ensures
        s.on_new_chunk(replica_id, op_number, index, chunk, last).fits,
{
    broadcast use {
        ok_restore_checkpoint,
        ok_resume_after,
        room_restore_checkpoint,
    };

    reveal(ReplicaModel::on_new_chunk);
    if s.awaits_chunk(replica_id, op_number, index) {
        let staged = s.staged(replica_id, op_number, index, chunk, last);
        let done = ReplicaModel { fetch: None, ..staged };
        if last && op_number > s.commit_number {
            let restored = done.restore_checkpoint(op_number);
            room_resume_after(restored, op_number, (s.fetch->0).resume);
        }
    }
}

proof fn room_on_do_view_change<SM: StateMachine>(
    s: ReplicaModel<SM>,
    view_number: ViewNumber,
    replica_id: ReplicaID,
    report: DoViewChangeView<SM::Input>,
)
    requires
        s.fits,
        s.level(),
        s.config.size() >= 2,
        s.on_do_view_change(view_number, replica_id, report).room,
    ensures
        s.on_do_view_change(view_number, replica_id, report).fits,
{
    broadcast use {
        ok_start_view_change,
        ok_record_do_view_change,
        room_start_view_change,
        room_record_do_view_change,
    };

    reveal(ReplicaModel::on_do_view_change);
    let changing = s.start_view_change(view_number);
    assert(changing.level());
}

proof fn room_on_recovery_response<SM: StateMachine>(
    s: ReplicaModel<SM>,
    view_number: ViewNumber,
    nonce: u64,
    replica_id: ReplicaID,
    state: Option<RecoveryView<SM::Input>>,
)
    requires
        s.fits,
        s.level(),
        state matches Some(state) ==> (nonce == s.recovery_nonce ==> fresh_start(state)),
        s.status == Status::Recovering ==> forall|q: ReplicaID| #[trigger]
            s.recovery_responses.contains_key(q) ==> (s.recovery_responses[q].state matches Some(
                state,
            ) ==> fresh_start(state)),
        s.on_recovery_response(view_number, nonce, replica_id, state).room,
    ensures
        s.on_recovery_response(view_number, nonce, replica_id, state).fits,
{
    reveal(ReplicaModel::on_recovery_response);
    if s.status == Status::Recovering && nonce == s.recovery_nonce {
        let responses = s.recovery_responses.insert(
            replica_id,
            ResponseView { view_number, state },
        );
        let counted = ReplicaModel { recovery_responses: responses, ..s };
        let latest = latest_view(responses);
        let primary_id = s.config.primary_of(latest);
        if responses.contains_key(primary_id) && responses[primary_id].state is Some {
            let cleared = ReplicaModel { recovery_responses: Map::empty(), ..counted };
            let taken = responses[primary_id].state->0;
            assert(primary_id != replica_id ==> s.recovery_responses.contains_key(primary_id));
            assert(fresh_start(taken));
            if cleared.recover_into(latest, taken).room {
                room_recover_into(cleared, latest, taken);
            }
        }
    }
}

/// Whether a log that a replica recovers with is whole, if it starts after no
/// checkpoint.
pub open spec fn fresh_start<Op>(state: RecoveryView<Op>) -> bool {
    state.segment.base is Op ==> state.segment.start() == 0
}

/// Whether `message` is one that a replica can do something with: the reports
/// are those of others, and the logs that a recovery may take are whole.
pub open spec fn can_take<SM: StateMachine>(
    s: ReplicaModel<SM>,
    message: MessageViewFor<SM>,
) -> bool {
    &&& message is DoViewChange ==> s.config.size() >= 2
    &&& message matches MessageView::RecoveryResponse { nonce, state: Some(state), .. } ==> (nonce
        == s.recovery_nonce ==> fresh_start(state))
    &&& s.status == Status::Recovering ==> forall|q: ReplicaID| #[trigger]
        s.recovery_responses.contains_key(q) ==> (s.recovery_responses[q].state matches Some(
            state,
        ) ==> fresh_start(state))
}

/// Where there is room for what a message makes of a replica, it fits.
pub proof fn room_on_message<SM: StateMachine>(
    s: ReplicaModel<SM>,
    message: MessageViewFor<SM>,
    chunk: (SM::Chunk, bool),
)
    requires
        s.fits,
        s.level(),
        can_take(s, message),
        s.on_message(message, chunk).room,
    ensures
        s.on_message(message, chunk).fits,
{
    if !s.ignores(message) {
        reveal(ReplicaModel::handle);
        match message {
            MessageView::NewState { replica_id, view_number, segment, commit_number } => {
                room_on_new_state(s, replica_id, view_number, segment, commit_number);
            },
            MessageView::NewChunk { replica_id, op_number, index, chunk, last } => {
                room_on_new_chunk(s, replica_id, op_number, index, chunk, last);
            },
            MessageView::DoViewChange {
                view_number,
                replica_id,
                last_normal_view,
                segment,
                commit_number,
            } => {
                room_on_do_view_change(
                    s,
                    view_number,
                    replica_id,
                    DoViewChangeView { last_normal_view, segment, commit_number },
                );
            },
            MessageView::RecoveryResponse { view_number, nonce, replica_id, state } => {
                room_on_recovery_response(s, view_number, nonce, replica_id, state);
            },
            MessageView::StartViewChange { view_number, replica_id } => {
                room_on_start_view_change(s, view_number, replica_id);
            },
            _ => {
                room_on_other(s, message, chunk);
            },
        }
    }
}

proof fn room_on_start_view_change<SM: StateMachine>(
    s: ReplicaModel<SM>,
    view_number: ViewNumber,
    replica_id: ReplicaID,
)
    requires
        s.fits,
        s.level(),
        s.on_start_view_change(view_number, replica_id).room,
    ensures
        s.on_start_view_change(view_number, replica_id).fits,
{
    broadcast use {
        ok_start_view_change,
        ok_maybe_send_do_view_change,
        room_start_view_change,
        room_maybe_send_do_view_change,
    };

    reveal(ReplicaModel::on_start_view_change);
    let changing = s.start_view_change(view_number);
    assert(changing.status == Status::ViewChange ==> changing.level());
}

proof fn room_on_other<SM: StateMachine>(
    s: ReplicaModel<SM>,
    message: MessageViewFor<SM>,
    chunk: (SM::Chunk, bool),
)
    requires
        s.fits,
        s.level(),
        !(message is NewState),
        !(message is NewChunk),
        !(message is DoViewChange),
        !(message is RecoveryResponse),
        !(message is StartViewChange),
        s.on_message(message, chunk).room,
    ensures
        s.on_message(message, chunk).fits,
{
    broadcast use {group_ok, group_room};

    reveal(ReplicaModel::handle);
    reveal(ReplicaModel::on_prepare);
    reveal(ReplicaModel::on_prepare_ok);
    reveal(ReplicaModel::on_commit);
    reveal(ReplicaModel::on_get_state);
    reveal(ReplicaModel::on_start_view);
    reveal(ReplicaModel::on_recovery);
}

/// Where there is room for what an idle period makes of a replica, it fits.
pub proof fn room_on_idle<SM: StateMachine>(s: ReplicaModel<SM>)
    requires
        s.fits,
        s.level(),
        s.on_idle().room,
    ensures
        s.on_idle().fits,
{
    broadcast use {
        ok_serve_on_idle,
        ok_fetch_on_idle,
        ok_note_stable,
        ok_wait_timed_out,
        ok_start_next_view,
        ok_send_do_view_change,
        ok_state_transfer,
        room_serve_on_idle,
        room_fetch_on_idle,
        room_note_stable,
        room_wait_timed_out,
        room_start_next_view,
        room_send_do_view_change,
        room_state_transfer,
    };

    reveal(ReplicaModel::on_idle);
}

/// Where there is room for a write that is handed back, it fits.
pub proof fn room_persisted<SM: StateMachine>(s: ReplicaModel<SM>)
    requires
        s.fits,
        s.persisted().room,
    ensures
        s.persisted().fits,
{
    broadcast use {
        ok_register_ack,
        ok_apply_committed,
        room_register_ack,
        room_apply_committed,
    };

    reveal(ReplicaModel::persisted);
}

/// Where there is room for a replica to come back from a crash, it fits.
pub proof fn room_restart<SM: StateMachine>(
    id: ReplicaID,
    config: ConfigView,
    machine: SM::State,
    applied: OpNumber,
    state: PersistentView<SM::Input>,
    nonce: u64,
)
    requires
        ReplicaModel::<SM>::can_restart(machine, applied, state),
        ReplicaModel::<SM>::restart(id, config, machine, applied, state, nonce).room,
    ensures
        ReplicaModel::<SM>::restart(id, config, machine, applied, state, nonce).fits,
{
    broadcast use {
        ok_apply_committed,
        ok_start_view_change,
        ok_start_next_view,
        room_apply_committed,
        room_start_view_change,
        room_start_next_view,
        frame_apply_committed,
    };

    reveal(ReplicaModel::restart);
    let ready = loaded::<SM>(id, config, machine, applied, state, nonce);
    assert(ready.fits);
    assert(ready.level());
    let back = come_back_executed::<SM>(id, config, machine, applied, state, nonce);
    assert(back.level());
    assert(back.room);
}

pub broadcast group group_room {
    room_append_to_log,
    room_prepare,
    room_merge_log,
    room_evict,
    room_register,
    room_execute_request,
    room_execute,
    room_execute_next,
    room_execute_entries,
    room_answer_queries,
    room_execute_queries,
    room_apply_committed,
    room_commit_up_to,
    room_register_ack,
    room_start_round,
    room_catch_up_with_view,
    room_accept_from_primary,
    room_send_prepare_ok,
    room_state_transfer,
    room_keep_checkpoint,
    room_segment_from,
    room_install_segment_in_view,
    room_install_segment_from_commit,
    room_start_fetch,
    room_try_start_view,
    room_record_do_view_change,
    room_send_do_view_change,
    room_maybe_send_do_view_change,
    room_start_view_change,
    room_start_next_view,
    room_new_state_installed,
    room_restore_checkpoint,
    room_serve_on_idle,
    room_fetch_on_idle,
    room_note_stable,
    room_wait_timed_out,
}

} // verus!
