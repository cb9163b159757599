use vstd::prelude::*;
use super::model::ReplicaModel;
use super::parts::{DoViewChangeView, ResumeView};
use crate::ids::{ClientID, CommitID, OpNumber, ReplicaID, RequestNumber, ViewNumber};
use crate::log::{LogEntry, SegmentView};
use crate::message::RecoveryView;
use crate::state_machine::StateMachine;

verus! {

// A step leads to a state the replica can be in only from such a state.

pub broadcast proof fn ok_append_to_log<SM: StateMachine>(
    s: ReplicaModel<SM>,
    entry: LogEntry<SM::Input>,
)
    ensures
        (#[trigger] s.append_to_log(entry)).ok ==> s.ok,
        (s.append_to_log(entry)).fits ==> s.fits,
        (s.append_to_log(entry)).room ==> s.room,
        (s.append_to_log(entry)).ok && (s.ok ==> s.fits && s.room)
            ==> (s.append_to_log(entry)).fits && (s.append_to_log(entry)).room,
{
}

pub broadcast proof fn ok_prepare<SM: StateMachine>(
    s: ReplicaModel<SM>,
    entry: LogEntry<SM::Input>,
)
    ensures
        (#[trigger] s.prepare(entry)).ok ==> s.ok,
        (s.prepare(entry)).fits ==> s.fits,
        (s.prepare(entry)).room ==> s.room,
        (s.prepare(entry)).ok && (s.ok ==> s.fits && s.room)
            ==> (s.prepare(entry)).fits && (s.prepare(entry)).room,
{
    broadcast use ok_append_to_log;

}

pub broadcast proof fn ok_merge_log<SM: StateMachine>(
    s: ReplicaModel<SM>,
    start: OpNumber,
    entries: Seq<LogEntry<SM::Input>>,
)
    ensures
        (#[trigger] s.merge_log(start, entries)).ok ==> s.ok,
        (s.merge_log(start, entries)).fits ==> s.fits,
        (s.merge_log(start, entries)).room ==> s.room,
        (s.merge_log(start, entries)).ok && (s.ok ==> s.fits && s.room)
            ==> (s.merge_log(start, entries)).fits && (s.merge_log(start, entries)).room,
{
}

pub broadcast proof fn ok_evict<SM: StateMachine>(
    s: ReplicaModel<SM>,
    op_number: OpNumber,
)
    ensures
        (#[trigger] s.evict(op_number)).ok ==> s.ok,
        (s.evict(op_number)).fits ==> s.fits,
        (s.evict(op_number)).room ==> s.room,
        (s.evict(op_number)).ok && (s.ok ==> s.fits && s.room)
            ==> (s.evict(op_number)).fits && (s.evict(op_number)).room,
{
}

pub broadcast proof fn ok_register<SM: StateMachine>(
    s: ReplicaModel<SM>,
    op_number: OpNumber,
    client_id: ClientID,
)
    ensures
        (#[trigger] s.register(op_number, client_id)).0.ok ==> s.ok,
        (s.register(op_number, client_id)).0.fits ==> s.fits,
        (s.register(op_number, client_id)).0.room ==> s.room,
        (s.register(op_number, client_id)).0.ok && (s.ok ==> s.fits && s.room)
            ==> (s.register(op_number, client_id)).0.fits && (s.register(op_number, client_id)).0.room,
{
    broadcast use ok_evict;

}

pub broadcast proof fn ok_execute_request<SM: StateMachine>(
    s: ReplicaModel<SM>,
    op_number: OpNumber,
    client_id: ClientID,
    session: OpNumber,
    request_number: RequestNumber,
    answered: RequestNumber,
    op: SM::Input,
)
    ensures
        (#[trigger] s.execute_request(op_number, client_id, session, request_number, answered, op)).0.ok ==> s.ok,
        (s.execute_request(op_number, client_id, session, request_number, answered, op)).0.fits ==> s.fits,
        (s.execute_request(op_number, client_id, session, request_number, answered, op)).0.room ==> s.room,
        (s.execute_request(op_number, client_id, session, request_number, answered, op)).0.ok && (s.ok ==> s.fits && s.room)
            ==> (s.execute_request(op_number, client_id, session, request_number, answered, op)).0.fits && (s.execute_request(op_number, client_id, session, request_number, answered, op)).0.room,
{
}

pub broadcast proof fn ok_execute<SM: StateMachine>(
    s: ReplicaModel<SM>,
    op_number: OpNumber,
)
    ensures
        (#[trigger] s.execute(op_number)).0.ok ==> s.ok,
        (s.execute(op_number)).0.fits ==> s.fits,
        (s.execute(op_number)).0.room ==> s.room,
        (s.execute(op_number)).0.ok && (s.ok ==> s.fits && s.room)
            ==> (s.execute(op_number)).0.fits && (s.execute(op_number)).0.room,
{
    broadcast use {ok_register, ok_execute_request};

}

pub broadcast proof fn ok_execute_next<SM: StateMachine>(
    s: ReplicaModel<SM>,
)
    ensures
        (#[trigger] s.execute_next()).ok ==> s.ok,
        (s.execute_next()).fits ==> s.fits,
        (s.execute_next()).room ==> s.room,
        (s.execute_next()).ok && (s.ok ==> s.fits && s.room)
            ==> (s.execute_next()).fits && (s.execute_next()).room,
{
    broadcast use ok_execute;

}

pub broadcast proof fn ok_execute_entries<SM: StateMachine>(
    s: ReplicaModel<SM>,
    count: nat,
)
    ensures
        (#[trigger] s.execute_entries(count)).ok ==> s.ok,
        (s.execute_entries(count)).fits ==> s.fits,
        (s.execute_entries(count)).room ==> s.room,
        (s.execute_entries(count)).ok && (s.ok ==> s.fits && s.room)
            ==> (s.execute_entries(count)).fits && (s.execute_entries(count)).room,
    decreases count,
{
    broadcast use ok_execute_next;

    if count > 0 {
        ok_execute_entries(s, (count - 1) as nat);
    }
}

pub broadcast proof fn ok_answer_queries<SM: StateMachine>(
    s: ReplicaModel<SM>,
)
    ensures
        (#[trigger] s.answer_queries()).ok ==> s.ok,
        (s.answer_queries()).fits ==> s.fits,
        (s.answer_queries()).room ==> s.room,
        (s.answer_queries()).ok && (s.ok ==> s.fits && s.room)
            ==> (s.answer_queries()).fits && (s.answer_queries()).room,
    decreases s.queries.len(),
{
    if s.query_ready() {
        ok_answer_queries(s.answer_query());
    }
}

pub broadcast proof fn ok_execute_queries<SM: StateMachine>(
    s: ReplicaModel<SM>,
)
    ensures
        (#[trigger] s.execute_queries()).ok ==> s.ok,
        (s.execute_queries()).fits ==> s.fits,
        (s.execute_queries()).room ==> s.room,
        (s.execute_queries()).ok && (s.ok ==> s.fits && s.room)
            ==> (s.execute_queries()).fits && (s.execute_queries()).room,
{
    broadcast use ok_answer_queries;

}

pub broadcast proof fn ok_apply_committed<SM: StateMachine>(
    s: ReplicaModel<SM>,
    op_number: int,
)
    ensures
        (#[trigger] s.apply_committed(op_number)).ok ==> s.ok,
        (s.apply_committed(op_number)).fits ==> s.fits,
        (s.apply_committed(op_number)).room ==> s.room,
        (s.apply_committed(op_number)).ok && (s.ok ==> s.fits && s.room)
            ==> (s.apply_committed(op_number)).fits && (s.apply_committed(op_number)).room,
{
    broadcast use {ok_execute_entries, ok_execute_queries};
    reveal(ReplicaModel::apply_committed);

}

pub broadcast proof fn ok_commit_up_to<SM: StateMachine>(
    s: ReplicaModel<SM>,
    commit_number: CommitID,
    reply: bool,
)
    ensures
        (#[trigger] s.commit_up_to(commit_number, reply)).ok ==> s.ok,
        (s.commit_up_to(commit_number, reply)).fits ==> s.fits,
        (s.commit_up_to(commit_number, reply)).room ==> s.room,
        (s.commit_up_to(commit_number, reply)).ok && (s.ok ==> s.fits && s.room)
            ==> (s.commit_up_to(commit_number, reply)).fits && (s.commit_up_to(commit_number, reply)).room,
{
    broadcast use ok_apply_committed;

}

pub broadcast proof fn ok_register_ack<SM: StateMachine>(
    s: ReplicaModel<SM>,
    replica_id: ReplicaID,
    op_number: OpNumber,
)
    ensures
        (#[trigger] s.register_ack(replica_id, op_number)).ok ==> s.ok,
        (s.register_ack(replica_id, op_number)).fits ==> s.fits,
        (s.register_ack(replica_id, op_number)).room ==> s.room,
        (s.register_ack(replica_id, op_number)).ok && (s.ok ==> s.fits && s.room)
            ==> (s.register_ack(replica_id, op_number)).fits && (s.register_ack(replica_id, op_number)).room,
{
    broadcast use ok_commit_up_to;

}

pub broadcast proof fn ok_start_round<SM: StateMachine>(
    s: ReplicaModel<SM>,
)
    ensures
        (#[trigger] s.start_round()).ok ==> s.ok,
        (s.start_round()).fits ==> s.fits,
        (s.start_round()).room ==> s.room,
        (s.start_round()).ok && (s.ok ==> s.fits && s.room)
            ==> (s.start_round()).fits && (s.start_round()).room,
{
}

pub broadcast proof fn ok_catch_up_with_view<SM: StateMachine>(
    s: ReplicaModel<SM>,
    view_number: ViewNumber,
)
    ensures
        (#[trigger] s.catch_up_with_view(view_number)).ok ==> s.ok,
        (s.catch_up_with_view(view_number)).fits ==> s.fits,
        (s.catch_up_with_view(view_number)).room ==> s.room,
        (s.catch_up_with_view(view_number)).ok && (s.ok ==> s.fits && s.room)
            ==> (s.catch_up_with_view(view_number)).fits && (s.catch_up_with_view(view_number)).room,
{
}

pub broadcast proof fn ok_accept_from_primary<SM: StateMachine>(
    s: ReplicaModel<SM>,
    view_number: ViewNumber,
)
    ensures
        (#[trigger] s.accept_from_primary(view_number)).0.ok ==> s.ok,
        (s.accept_from_primary(view_number)).0.fits ==> s.fits,
        (s.accept_from_primary(view_number)).0.room ==> s.room,
        (s.accept_from_primary(view_number)).0.ok && (s.ok ==> s.fits && s.room)
            ==> (s.accept_from_primary(view_number)).0.fits && (s.accept_from_primary(view_number)).0.room,
{
    broadcast use ok_catch_up_with_view;

}

pub broadcast proof fn ok_send_prepare_ok<SM: StateMachine>(
    s: ReplicaModel<SM>,
)
    ensures
        (#[trigger] s.send_prepare_ok()).ok ==> s.ok,
        (s.send_prepare_ok()).fits ==> s.fits,
        (s.send_prepare_ok()).room ==> s.room,
        (s.send_prepare_ok()).ok && (s.ok ==> s.fits && s.room)
            ==> (s.send_prepare_ok()).fits && (s.send_prepare_ok()).room,
{
}

pub broadcast proof fn ok_state_transfer<SM: StateMachine>(
    s: ReplicaModel<SM>,
)
    ensures
        (#[trigger] s.state_transfer()).ok ==> s.ok,
        (s.state_transfer()).fits ==> s.fits,
        (s.state_transfer()).room ==> s.room,
        (s.state_transfer()).ok && (s.ok ==> s.fits && s.room)
            ==> (s.state_transfer()).fits && (s.state_transfer()).room,
{
}

pub broadcast proof fn ok_keep_checkpoint<SM: StateMachine>(
    s: ReplicaModel<SM>,
)
    ensures
        (#[trigger] s.keep_checkpoint()).ok ==> s.ok,
        (s.keep_checkpoint()).fits ==> s.fits,
        (s.keep_checkpoint()).room ==> s.room,
        (s.keep_checkpoint()).ok && (s.ok ==> s.fits && s.room)
            ==> (s.keep_checkpoint()).fits && (s.keep_checkpoint()).room,
{
}

pub broadcast proof fn ok_segment_from<SM: StateMachine>(
    s: ReplicaModel<SM>,
    op_number: OpNumber,
)
    ensures
        (#[trigger] s.segment_from(op_number)).0.ok ==> s.ok,
        (s.segment_from(op_number)).0.fits ==> s.fits,
        (s.segment_from(op_number)).0.room ==> s.room,
        (s.segment_from(op_number)).0.ok && (s.ok ==> s.fits && s.room)
            ==> (s.segment_from(op_number)).0.fits && (s.segment_from(op_number)).0.room,
{
    broadcast use ok_keep_checkpoint;

}

pub broadcast proof fn ok_install_segment_in_view<SM: StateMachine>(
    s: ReplicaModel<SM>,
    segment: SegmentView<SM::Input>,
)
    ensures
        (#[trigger] s.install_segment_in_view(segment)).0.ok ==> s.ok,
        (s.install_segment_in_view(segment)).0.fits ==> s.fits,
        (s.install_segment_in_view(segment)).0.room ==> s.room,
        (s.install_segment_in_view(segment)).0.ok && (s.ok ==> s.fits && s.room)
            ==> (s.install_segment_in_view(segment)).0.fits && (s.install_segment_in_view(segment)).0.room,
{
    broadcast use ok_merge_log;

}

pub broadcast proof fn ok_install_segment_from_commit<SM: StateMachine>(
    s: ReplicaModel<SM>,
    segment: SegmentView<SM::Input>,
)
    ensures
        (#[trigger] s.install_segment_from_commit(segment)).0.ok ==> s.ok,
        (s.install_segment_from_commit(segment)).0.fits ==> s.fits,
        (s.install_segment_from_commit(segment)).0.room ==> s.room,
        (s.install_segment_from_commit(segment)).0.ok && (s.ok ==> s.fits && s.room)
            ==> (s.install_segment_from_commit(segment)).0.fits && (s.install_segment_from_commit(segment)).0.room,
{
    broadcast use ok_merge_log;

}

pub broadcast proof fn ok_start_fetch<SM: StateMachine>(
    s: ReplicaModel<SM>,
    from: ReplicaID,
    resume: ResumeView<SM::Input>,
)
    ensures
        (#[trigger] s.start_fetch(from, resume)).ok ==> s.ok,
        (s.start_fetch(from, resume)).fits ==> s.fits,
        (s.start_fetch(from, resume)).room ==> s.room,
        (s.start_fetch(from, resume)).ok && (s.ok ==> s.fits && s.room)
            ==> (s.start_fetch(from, resume)).fits && (s.start_fetch(from, resume)).room,
{
}

pub broadcast proof fn ok_try_start_view<SM: StateMachine>(
    s: ReplicaModel<SM>,
)
    ensures
        (#[trigger] s.try_start_view()).ok ==> s.ok,
        (s.try_start_view()).fits ==> s.fits,
        (s.try_start_view()).room ==> s.room,
        (s.try_start_view()).ok && (s.ok ==> s.fits && s.room)
            ==> (s.try_start_view()).fits && (s.try_start_view()).room,
{
    broadcast use {ok_install_segment_from_commit, ok_commit_up_to};

}

pub broadcast proof fn ok_record_do_view_change<SM: StateMachine>(
    s: ReplicaModel<SM>,
    replica_id: ReplicaID,
    report: DoViewChangeView<SM::Input>,
)
    ensures
        (#[trigger] s.record_do_view_change(replica_id, report)).ok ==> s.ok,
        (s.record_do_view_change(replica_id, report)).fits ==> s.fits,
        (s.record_do_view_change(replica_id, report)).room ==> s.room,
        (s.record_do_view_change(replica_id, report)).ok && (s.ok ==> s.fits && s.room)
            ==> (s.record_do_view_change(replica_id, report)).fits && (s.record_do_view_change(replica_id, report)).room,
{
    broadcast use ok_try_start_view;

}

pub broadcast proof fn ok_send_do_view_change<SM: StateMachine>(
    s: ReplicaModel<SM>,
)
    ensures
        (#[trigger] s.send_do_view_change()).ok ==> s.ok,
        (s.send_do_view_change()).fits ==> s.fits,
        (s.send_do_view_change()).room ==> s.room,
        (s.send_do_view_change()).ok && (s.ok ==> s.fits && s.room)
            ==> (s.send_do_view_change()).fits && (s.send_do_view_change()).room,
{
    broadcast use ok_record_do_view_change;

}

pub broadcast proof fn ok_maybe_send_do_view_change<SM: StateMachine>(
    s: ReplicaModel<SM>,
)
    ensures
        (#[trigger] s.maybe_send_do_view_change()).ok ==> s.ok,
        (s.maybe_send_do_view_change()).fits ==> s.fits,
        (s.maybe_send_do_view_change()).room ==> s.room,
        (s.maybe_send_do_view_change()).ok && (s.ok ==> s.fits && s.room)
            ==> (s.maybe_send_do_view_change()).fits && (s.maybe_send_do_view_change()).room,
{
    broadcast use ok_send_do_view_change;

}

pub broadcast proof fn ok_start_view_change<SM: StateMachine>(
    s: ReplicaModel<SM>,
    view_number: ViewNumber,
)
    ensures
        (#[trigger] s.start_view_change(view_number)).ok ==> s.ok,
        (s.start_view_change(view_number)).fits ==> s.fits,
        (s.start_view_change(view_number)).room ==> s.room,
        (s.start_view_change(view_number)).ok && (s.ok ==> s.fits && s.room)
            ==> (s.start_view_change(view_number)).fits && (s.start_view_change(view_number)).room,
{
    broadcast use ok_maybe_send_do_view_change;

}

pub broadcast proof fn ok_start_next_view<SM: StateMachine>(
    s: ReplicaModel<SM>,
)
    ensures
        (#[trigger] s.start_next_view()).ok ==> s.ok,
        (s.start_next_view()).fits ==> s.fits,
        (s.start_next_view()).room ==> s.room,
        (s.start_next_view()).ok && (s.ok ==> s.fits && s.room)
            ==> (s.start_next_view()).fits && (s.start_next_view()).room,
{
    broadcast use ok_start_view_change;

}

pub broadcast proof fn ok_new_state_installed<SM: StateMachine>(
    s: ReplicaModel<SM>,
    commit_number: CommitID,
)
    ensures
        (#[trigger] s.new_state_installed(commit_number)).ok ==> s.ok,
        (s.new_state_installed(commit_number)).fits ==> s.fits,
        (s.new_state_installed(commit_number)).room ==> s.room,
        (s.new_state_installed(commit_number)).ok && (s.ok ==> s.fits && s.room)
            ==> (s.new_state_installed(commit_number)).fits && (s.new_state_installed(commit_number)).room,
{
    broadcast use {ok_commit_up_to, ok_try_start_view};

}

pub broadcast proof fn ok_restore_checkpoint<SM: StateMachine>(
    s: ReplicaModel<SM>,
    op_number: OpNumber,
)
    ensures
        (#[trigger] s.restore_checkpoint(op_number)).ok ==> s.ok,
        (s.restore_checkpoint(op_number)).fits ==> s.fits,
        (s.restore_checkpoint(op_number)).room ==> s.room,
        (s.restore_checkpoint(op_number)).ok && (s.ok ==> s.fits && s.room)
            ==> (s.restore_checkpoint(op_number)).fits && (s.restore_checkpoint(op_number)).room,
{
}

pub broadcast proof fn ok_recover_into<SM: StateMachine>(
    s: ReplicaModel<SM>,
    view_number: ViewNumber,
    state: RecoveryView<SM::Input>,
)
    ensures
        (#[trigger] s.recover_into(view_number, state)).ok ==> s.ok,
        (s.recover_into(view_number, state)).fits ==> s.fits,
        (s.recover_into(view_number, state)).room ==> s.room,
        (s.recover_into(view_number, state)).ok && (s.ok ==> s.fits && s.room)
            ==> (s.recover_into(view_number, state)).fits && (s.recover_into(view_number, state)).room,
{
    broadcast use {ok_install_segment_from_commit, ok_commit_up_to, ok_start_fetch};

}

pub broadcast proof fn ok_resume_after<SM: StateMachine>(
    s: ReplicaModel<SM>,
    op_number: OpNumber,
    resume: ResumeView<SM::Input>,
)
    ensures
        (#[trigger] s.resume_after(op_number, resume)).ok ==> s.ok,
        (s.resume_after(op_number, resume)).fits ==> s.fits,
        (s.resume_after(op_number, resume)).room ==> s.room,
        (s.resume_after(op_number, resume)).ok && (s.ok ==> s.fits && s.room)
            ==> (s.resume_after(op_number, resume)).fits && (s.resume_after(op_number, resume)).room,
{
    broadcast use {ok_merge_log, ok_new_state_installed, ok_recover_into};

    reveal(ReplicaModel::resume_after);
}

pub broadcast proof fn ok_serve_on_idle<SM: StateMachine>(
    s: ReplicaModel<SM>,
)
    ensures
        (#[trigger] s.serve_on_idle()).ok ==> s.ok,
        (s.serve_on_idle()).fits ==> s.fits,
        (s.serve_on_idle()).room ==> s.room,
        (s.serve_on_idle()).ok && (s.ok ==> s.fits && s.room)
            ==> (s.serve_on_idle()).fits && (s.serve_on_idle()).room,
{
}

pub broadcast proof fn ok_fetch_on_idle<SM: StateMachine>(
    s: ReplicaModel<SM>,
)
    ensures
        (#[trigger] s.fetch_on_idle()).0.ok ==> s.ok,
        (s.fetch_on_idle()).0.fits ==> s.fits,
        (s.fetch_on_idle()).0.room ==> s.room,
        (s.fetch_on_idle()).0.ok && (s.ok ==> s.fits && s.room)
            ==> (s.fetch_on_idle()).0.fits && (s.fetch_on_idle()).0.room,
{
}

pub broadcast proof fn ok_note_stable<SM: StateMachine>(
    s: ReplicaModel<SM>,
)
    ensures
        (#[trigger] s.note_stable()).ok ==> s.ok,
        (s.note_stable()).fits ==> s.fits,
        (s.note_stable()).room ==> s.room,
        (s.note_stable()).ok && (s.ok ==> s.fits && s.room)
            ==> (s.note_stable()).fits && (s.note_stable()).room,
{
}

pub broadcast proof fn ok_wait_timed_out<SM: StateMachine>(
    s: ReplicaModel<SM>,
)
    ensures
        (#[trigger] s.wait_timed_out()).0.ok ==> s.ok,
        (s.wait_timed_out()).0.fits ==> s.fits,
        (s.wait_timed_out()).0.room ==> s.room,
        (s.wait_timed_out()).0.ok && (s.ok ==> s.fits && s.room)
            ==> (s.wait_timed_out()).0.fits && (s.wait_timed_out()).0.room,
{
}

pub broadcast group group_ok {
    ok_append_to_log,
    ok_prepare,
    ok_merge_log,
    ok_evict,
    ok_register,
    ok_execute_request,
    ok_execute,
    ok_execute_next,
    ok_execute_entries,
    ok_answer_queries,
    ok_execute_queries,
    ok_apply_committed,
    ok_commit_up_to,
    ok_register_ack,
    ok_start_round,
    ok_catch_up_with_view,
    ok_accept_from_primary,
    ok_send_prepare_ok,
    ok_state_transfer,
    ok_keep_checkpoint,
    ok_segment_from,
    ok_install_segment_in_view,
    ok_install_segment_from_commit,
    ok_start_fetch,
    ok_try_start_view,
    ok_record_do_view_change,
    ok_send_do_view_change,
    ok_maybe_send_do_view_change,
    ok_start_view_change,
    ok_start_next_view,
    ok_new_state_installed,
    ok_restore_checkpoint,
    ok_recover_into,
    ok_resume_after,
    ok_serve_on_idle,
    ok_fetch_on_idle,
    ok_note_stable,
    ok_wait_timed_out,
}

} // verus!
