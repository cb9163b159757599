use vstd::prelude::*;
use super::frames::{frame_apply_committed, frame_commit_up_to};
use super::keeps::{
    advances,
    advances_trans,
    executes_durable,
    goes_forward,
    goes_on,
    goes_on_advances,
    goes_on_refl,
    goes_on_trans,
    keep_accept_from_primary,
    keep_append_to_log,
    keep_apply_committed,
    keep_catch_up_with_view,
    keep_commit_up_to,
    keep_enter_normal,
    keep_execute_queries,
    keep_install_segment_from_commit,
    keep_install_segment_in_view,
    keep_maybe_send_do_view_change,
    keep_new_state_installed,
    keep_prepare,
    keep_record_do_view_change,
    keep_recover_into,
    keep_register_ack,
    keep_restore_checkpoint,
    keep_resume_after,
    keep_segment_from,
    keep_send,
    keep_send_do_view_change,
    keep_send_prepare_ok,
    keep_send_to_others,
    keep_start_fetch,
    keep_start_next_view,
    keep_start_round,
    keep_start_view_change,
    keep_state_transfer,
    marks_changes,
};
use super::model::{min, quorum_mark, round_marks, to_unacked, waiting_keys, ReplicaModel};
use super::ok::{
    ok_accept_from_primary, ok_append_to_log, ok_catch_up_with_view, ok_commit_up_to,
    ok_execute_queries, ok_install_segment_from_commit, ok_install_segment_in_view,
    ok_maybe_send_do_view_change, ok_new_state_installed, ok_prepare, ok_record_do_view_change,
    ok_recover_into, ok_register_ack, ok_restore_checkpoint, ok_resume_after, ok_segment_from,
    ok_send_prepare_ok, ok_start_fetch, ok_start_round, ok_start_view_change, ok_state_transfer,
};
use super::outboxes::{group_posts, posts_early, posts_early_trans};
use super::parts::{DoViewChangeView, ResponseView, Status, ROUNDS_OUT};
use super::runs::{
    executes, executes_compact, executes_trans, group_executes, works, works_trans,
};
use crate::ids::{ClientID, CommitID, OpNumber, QueryNumber, ReplicaID, RequestNumber, ViewNumber};
use crate::log::{LogEntry, SegmentView};
use crate::message::{MessageView, MessageViewFor, RecoveryView};
use crate::state_machine::StateMachine;

verus! {

broadcast use {group_posts, group_executes};

proof fn keep_on_register<SM: StateMachine>(s: ReplicaModel<SM>, client_id: ClientID)
    requires
        s.inv(),
        s.on_register(client_id).fits,
    ensures
        s.on_register(client_id).inv(),
        goes_on(s, s.on_register(client_id)),
{
    broadcast use {
        goes_on_refl,
        keep_prepare,
        ok_prepare,
    };

    if s.leads() && s.records.contains_key(client_id) {
        reveal(goes_on);
    }
}

proof fn keep_on_request<SM: StateMachine>(
    s: ReplicaModel<SM>,
    client_id: ClientID,
    session: OpNumber,
    request_number: RequestNumber,
    answered: RequestNumber,
    op: SM::Input,
)
    requires
        s.inv(),
        s.on_request(client_id, session, request_number, answered, op).fits,
    ensures
        s.on_request(client_id, session, request_number, answered, op).inv(),
        goes_on(s, s.on_request(client_id, session, request_number, answered, op)),
{
    broadcast use {
        goes_on_refl,
        goes_on_trans,
        keep_prepare,
        ok_prepare,
    };

    let t = s.on_request(client_id, session, request_number, answered, op);
    let latest = s.latest_request(client_id, session);
    let limit = s.records[client_id].request_number + s.config.in_flight_max;
    let checked = s.check(
        latest < usize::MAX && (request_number == latest + 1 ==> limit <= usize::MAX),
    );
    assert(checked.inv());
    assert(goes_on(s, checked)) by {
        reveal(goes_on);
    }
    if t.log == s.log {
        assert(goes_on(s, t)) by {
            reveal(goes_on);
        }
    }
}

proof fn keep_on_query<SM: StateMachine>(
    s: ReplicaModel<SM>,
    client_id: ClientID,
    query_number: QueryNumber,
    query: SM::Query,
)
    requires
        s.inv(),
        s.on_query(client_id, query_number, query).fits,
    ensures
        s.on_query(client_id, query_number, query).inv(),
        goes_on(s, s.on_query(client_id, query_number, query)),
{
    broadcast use {
        goes_on_refl,
        goes_on_trans,
        keep_start_round,
        ok_start_round,
    };

    let t = s.on_query(client_id, query_number, query);
    if s.leads() && !s.waits(client_id, query_number) {
        assert forall|i: int| 0 <= i < s.queries.len() implies (
        #[trigger] s.queries[i]).client_id != client_id || s.queries[i].query_number
            != query_number by {
            if s.queries[i].client_id == client_id && s.queries[i].query_number == query_number {
                assert(waiting_keys(s.queries).contains((client_id, query_number)));
            }
        }
        let starts = !s.round_unsent && s.round - s.round_confirmed < ROUNDS_OUT;
        let next = if starts {
            s.start_round()
        } else {
            s.check(s.round_unsent || s.round < u64::MAX)
        };
        assert(next.inv());
        assert(next.queries == s.queries);
        assert(t.inv());
        assert(goes_on(s, t)) by {
            reveal(goes_on);
        }
    }
}

proof fn keep_on_confirm_view_ok<SM: StateMachine>(
    s: ReplicaModel<SM>,
    view_number: ViewNumber,
    round: u64,
    replica_id: ReplicaID,
)
    requires
        s.inv(),
        s.on_confirm_view_ok(view_number, round, replica_id).fits,
    ensures
        s.on_confirm_view_ok(view_number, round, replica_id).inv(),
        goes_on(s, s.on_confirm_view_ok(view_number, round, replica_id)),
{
    broadcast use {
        goes_on_refl,
        goes_on_trans,
        keep_start_round,
        keep_execute_queries,
        ok_start_round,
        ok_execute_queries,
    };

    if !(view_number != s.view_number || !s.leads() || replica_id >= s.confirmed.len() || round
        > s.round || round <= s.confirmed[replica_id as int]) {
        let counted = ReplicaModel {
            confirmed: s.confirmed.update(replica_id as int, round),
            ..s
        };
        let mark = quorum_mark(round_marks(counted.confirmed), s.config.quorum());
        super::marks::lemma_quorum_mark_is_mark(round_marks(counted.confirmed), s.config.quorum());
        assert(counted.inv());
        assert(goes_on(s, counted)) by {
            reveal(goes_on);
        }
        assert(0 <= mark <= s.round) by {
            if mark != 0 {
                let i = choose|i: int|
                    0 <= i < counted.confirmed.len() && round_marks(counted.confirmed)[i] == mark;
                assert(counted.confirmed[i] <= s.round);
            }
        }
        let confirmed = ReplicaModel { round_confirmed: mark as u64, ..counted };
        assert(confirmed.inv());
        if mark > s.round_confirmed {
            assert(goes_on(counted, confirmed)) by {
                reveal(goes_on);
            }
            if s.queries.len() > 0 && s.queries.last().round > s.round {
                assert(goes_on(s, confirmed.start_round())) by {
                    reveal(goes_on);
                }
            }
        }
    }
}

proof fn keep_on_prepare<SM: StateMachine>(
    s: ReplicaModel<SM>,
    view_number: ViewNumber,
    op_number: OpNumber,
    entry: LogEntry<SM::Input>,
    commit_number: CommitID,
)
    requires
        s.inv(),
        s.on_prepare(view_number, op_number, entry, commit_number).fits,
    ensures
        s.on_prepare(view_number, op_number, entry, commit_number).inv(),
        goes_on(s, s.on_prepare(view_number, op_number, entry, commit_number)),
{
    reveal(ReplicaModel::on_prepare);
    broadcast use {
        goes_on_refl,
        goes_on_trans,
        keep_accept_from_primary,
        keep_state_transfer,
        keep_append_to_log,
        keep_commit_up_to,
        keep_send_prepare_ok,
        ok_accept_from_primary,
        ok_state_transfer,
        ok_append_to_log,
        ok_commit_up_to,
        ok_send_prepare_ok,
    };

}

proof fn keep_on_prepare_ok<SM: StateMachine>(
    s: ReplicaModel<SM>,
    view_number: ViewNumber,
    op_number: OpNumber,
    replica_id: ReplicaID,
)
    requires
        s.inv(),
        s.on_prepare_ok(view_number, op_number, replica_id).fits,
    ensures
        s.on_prepare_ok(view_number, op_number, replica_id).inv(),
        goes_on(s, s.on_prepare_ok(view_number, op_number, replica_id)),
{
    reveal(ReplicaModel::on_prepare_ok);
    broadcast use {
        goes_on_refl,
        keep_register_ack,
        ok_register_ack,
    };

}

proof fn keep_on_commit<SM: StateMachine>(
    s: ReplicaModel<SM>,
    view_number: ViewNumber,
    commit_number: CommitID,
)
    requires
        s.inv(),
        s.on_commit(view_number, commit_number).fits,
    ensures
        s.on_commit(view_number, commit_number).inv(),
        goes_on(s, s.on_commit(view_number, commit_number)),
{
    reveal(ReplicaModel::on_commit);
    broadcast use {
        goes_on_refl,
        goes_on_trans,
        keep_accept_from_primary,
        keep_state_transfer,
        keep_commit_up_to,
        ok_accept_from_primary,
        ok_state_transfer,
        ok_commit_up_to,
    };

}

proof fn keep_on_get_state<SM: StateMachine>(
    s: ReplicaModel<SM>,
    replica_id: ReplicaID,
    view_number: ViewNumber,
    op_number: OpNumber,
)
    requires
        s.inv(),
        s.on_get_state(replica_id, view_number, op_number).fits,
    ensures
        s.on_get_state(replica_id, view_number, op_number).inv(),
        goes_on(s, s.on_get_state(replica_id, view_number, op_number)),
{
    reveal(ReplicaModel::on_get_state);
    broadcast use {
        goes_on_refl,
        goes_on_trans,
        keep_segment_from,
        keep_send,
        ok_segment_from,
    };

}

proof fn keep_on_get_chunk<SM: StateMachine>(
    s: ReplicaModel<SM>,
    replica_id: ReplicaID,
    op_number: OpNumber,
    index: usize,
    chunk: SM::Chunk,
    last: bool,
)
    requires
        s.inv(),
        s.on_get_chunk(replica_id, op_number, index, chunk, last).fits,
    ensures
        s.on_get_chunk(replica_id, op_number, index, chunk, last).inv(),
        advances(s, s.on_get_chunk(replica_id, op_number, index, chunk, last)),
        s.on_get_chunk(replica_id, op_number, index, chunk, last).log_start == s.log_start,
{
    reveal(advances);
}

proof fn keep_on_new_state<SM: StateMachine>(
    s: ReplicaModel<SM>,
    replica_id: ReplicaID,
    view_number: ViewNumber,
    segment: SegmentView<SM::Input>,
    commit_number: CommitID,
)
    requires
        s.inv(),
        s.on_new_state(replica_id, view_number, segment, commit_number).fits,
    ensures
        s.on_new_state(replica_id, view_number, segment, commit_number).inv(),
        goes_on(s, s.on_new_state(replica_id, view_number, segment, commit_number)),
{
    reveal(ReplicaModel::on_new_state);
    broadcast use {
        goes_on_refl,
        goes_on_trans,
        keep_install_segment_in_view,
        keep_install_segment_from_commit,
        keep_new_state_installed,
        keep_start_fetch,
        ok_install_segment_in_view,
        ok_install_segment_from_commit,
        ok_new_state_installed,
        ok_start_fetch,
    };

    let heard = ReplicaModel { heard_from_primary: true, ..s };
    assert(heard.inv());
    assert(goes_on(s, heard)) by {
        reveal(goes_on);
    }
}

proof fn keep_on_new_chunk<SM: StateMachine>(
    s: ReplicaModel<SM>,
    replica_id: ReplicaID,
    op_number: OpNumber,
    index: usize,
    chunk: SM::Chunk,
    last: bool,
)
    requires
        s.inv(),
        s.on_new_chunk(replica_id, op_number, index, chunk, last).fits,
    ensures
        s.on_new_chunk(replica_id, op_number, index, chunk, last).inv(),
        advances(s, s.on_new_chunk(replica_id, op_number, index, chunk, last)),
        ({
            let message = MessageView::NewChunk { replica_id, op_number, index, chunk, last };
            let t = s.on_new_chunk(replica_id, op_number, index, chunk, last);
            &&& !s.awaits(message) ==> goes_on(s, t)
            &&& !s.restores(message) ==> t.log_start == s.log_start && (s.serving is Some
                ==> t.serving == s.serving)
            &&& s.restores(message) ==> s.restored(message).inv() && goes_on(
                s.restored(message),
                t,
            )
        }),
{
    reveal(ReplicaModel::on_new_chunk);
    broadcast use {
        goes_on_advances,
        keep_restore_checkpoint,
        keep_resume_after,
        ok_restore_checkpoint,
        ok_resume_after,
    };

    goes_on_refl(s);
    if s.awaits_chunk(replica_id, op_number, index) {
        let staged = s.staged(replica_id, op_number, index, chunk, last);
        assert(staged.inv());
        assert(advances(s, staged)) by {
            reveal(advances);
        }
        let done = ReplicaModel { fetch: None, ..staged };
        assert(done.inv());
        assert(advances(s, done)) by {
            reveal(advances);
        }
        if !last {
            assert(advances(s, staged.send_get_chunk())) by {
                reveal(advances);
            }
        } else if op_number > s.commit_number {
            let restored = done.restore_checkpoint(op_number);
            let resume = (s.fetch->0).resume;
            advances_trans(s, done, restored);
            advances_trans(s, restored, restored.resume_after(op_number, resume));
        }
    }
}

proof fn keep_on_start_view_change<SM: StateMachine>(
    s: ReplicaModel<SM>,
    view_number: ViewNumber,
    replica_id: ReplicaID,
)
    requires
        s.inv(),
        s.on_start_view_change(view_number, replica_id).fits,
    ensures
        s.on_start_view_change(view_number, replica_id).inv(),
        goes_on(s, s.on_start_view_change(view_number, replica_id)),
{
    reveal(ReplicaModel::on_start_view_change);
    goes_on_refl(s);
    if view_number == s.view_number && s.status != Status::ViewChange {
        keep_send(s, replica_id, s.start_view_message());
    } else if view_number >= s.view_number {
        let changing = if view_number > s.view_number {
            s.start_view_change(view_number)
        } else {
            s
        };
        let t = keep_counting(changing, replica_id);
        if view_number > s.view_number {
            keep_start_view_change(s, view_number);
            goes_on_trans(s, changing, t);
        }
    }
}

/// Counting that replica `replica_id` wants the view.
proof fn keep_counting<SM: StateMachine>(changing: ReplicaModel<SM>, replica_id: ReplicaID) -> (t:
    ReplicaModel<SM>)
    ensures
        t == (ReplicaModel {
            start_view_change_from: changing.start_view_change_from.insert(replica_id),
            ..changing
        }).maybe_send_do_view_change(),
        t.fits ==> changing.fits,
        changing.inv() && t.fits ==> t.inv() && goes_on(changing, t),
{
    let counted = ReplicaModel {
        start_view_change_from: changing.start_view_change_from.insert(replica_id),
        ..changing
    };
    let t = counted.maybe_send_do_view_change();
    ok_maybe_send_do_view_change(counted);
    if changing.inv() && t.fits {
        assert(counted.inv());
        assert(goes_on(changing, counted)) by {
            reveal(goes_on);
        }
        keep_maybe_send_do_view_change(counted);
        goes_on_trans(changing, counted, t);
    }
    t
}

proof fn keep_on_do_view_change<SM: StateMachine>(
    s: ReplicaModel<SM>,
    view_number: ViewNumber,
    replica_id: ReplicaID,
    report: DoViewChangeView<SM::Input>,
)
    requires
        s.inv(),
        s.on_do_view_change(view_number, replica_id, report).fits,
    ensures
        s.on_do_view_change(view_number, replica_id, report).inv(),
        goes_on(s, s.on_do_view_change(view_number, replica_id, report)),
{
    reveal(ReplicaModel::on_do_view_change);
    broadcast use {
        goes_on_refl,
        goes_on_trans,
        keep_start_view_change,
        keep_record_do_view_change,
        keep_send,
        ok_start_view_change,
        ok_record_do_view_change,
    };

}

proof fn keep_on_start_view<SM: StateMachine>(
    s: ReplicaModel<SM>,
    view_number: ViewNumber,
    segment: SegmentView<SM::Input>,
    commit_number: CommitID,
)
    requires
        s.inv(),
        s.status != Status::Recovering,
        s.on_start_view(view_number, segment, commit_number).fits,
    ensures
        s.on_start_view(view_number, segment, commit_number).inv(),
        goes_on(s, s.on_start_view(view_number, segment, commit_number)),
{
    reveal(ReplicaModel::on_start_view);
    broadcast use {
        goes_on_refl,
        goes_on_trans,
        keep_install_segment_from_commit,
        keep_commit_up_to,
        keep_enter_normal,
        keep_send_prepare_ok,
        keep_catch_up_with_view,
        ok_install_segment_from_commit,
        ok_commit_up_to,
        ok_send_prepare_ok,
        ok_catch_up_with_view,
    };

    let (next, installed) = s.install_segment_from_commit(segment);
    if installed is Log && next.inv() {
        let moved = ReplicaModel { view_number, ..next };
        if view_number >= s.view_number {
            assert(moved.inv());
            assert(goes_on(next, moved)) by {
                reveal(goes_on);
            }
        }
    }
}

proof fn keep_on_recovery<SM: StateMachine>(
    s: ReplicaModel<SM>,
    replica_id: ReplicaID,
    nonce: u64,
    view_number: ViewNumber,
)
    requires
        s.inv(),
        s.on_recovery(replica_id, nonce, view_number).fits,
    ensures
        s.on_recovery(replica_id, nonce, view_number).inv(),
        goes_on(s, s.on_recovery(replica_id, nonce, view_number)),
{
    reveal(ReplicaModel::on_recovery);
    broadcast use {
        goes_on_refl,
        goes_on_trans,
        keep_start_view_change,
        keep_segment_from,
        keep_send,
        ok_start_view_change,
        ok_segment_from,
    };

}

proof fn keep_on_recovery_response<SM: StateMachine>(
    s: ReplicaModel<SM>,
    view_number: ViewNumber,
    nonce: u64,
    replica_id: ReplicaID,
    state: Option<RecoveryView<SM::Input>>,
)
    requires
        s.inv(),
        s.on_recovery_response(view_number, nonce, replica_id, state).fits,
    ensures
        s.on_recovery_response(view_number, nonce, replica_id, state).inv(),
        goes_on(s, s.on_recovery_response(view_number, nonce, replica_id, state)),
{
    reveal(ReplicaModel::on_recovery_response);
    broadcast use {
        goes_on_refl,
        goes_on_trans,
        keep_recover_into,
        ok_recover_into,
    };

    let counted = ReplicaModel {
        recovery_responses: s.recovery_responses.insert(
            replica_id,
            ResponseView { view_number, state },
        ),
        ..s
    };
    assert(counted.inv());
    assert(goes_on(s, counted)) by {
        reveal(goes_on);
    }
    let cleared = ReplicaModel { recovery_responses: Map::empty(), ..counted };
    assert(cleared.inv());
    assert(goes_on(counted, cleared)) by {
        reveal(goes_on);
    }
}

/// Handling a message keeps what every step keeps, and only goes forward.
pub proof fn message_advances<SM: StateMachine>(
    s: ReplicaModel<SM>,
    message: MessageViewFor<SM>,
    chunk: (SM::Chunk, bool),
)
    requires
        s.inv(),
        s.on_message(message, chunk).fits,
    ensures
        s.on_message(message, chunk).inv(),
        advances(s, s.on_message(message, chunk)),
        !(message is GetChunk) && !s.awaits(message) ==> goes_on(s, s.on_message(message, chunk)),
        !(message is GetChunk) && !s.restores(message) ==> (s.serving is Some ==> s.on_message(
            message,
            chunk,
        ).serving == s.serving),
        !s.restores(message) ==> s.on_message(message, chunk).log_start == s.log_start,
        s.restores(message) ==> s.restored(message).inv() && goes_on(
            s.restored(message),
            s.on_message(message, chunk),
        ),
{
    broadcast use goes_on_advances;

    goes_on_refl(s);
    if !s.ignores(message) {
        reveal(ReplicaModel::handle);
        match message {
            MessageView::Register { client_id } => keep_on_register(s, client_id),
            MessageView::Request { client_id, session, request_number, answered, op } =>
                keep_on_request(s, client_id, session, request_number, answered, op),
            MessageView::Query { client_id, query_number, query } => keep_on_query(
                s,
                client_id,
                query_number,
                query,
            ),
            MessageView::ConfirmView { view_number, round } => keep_send(
                s,
                s.primary_id(),
                MessageView::ConfirmViewOk { view_number, round, replica_id: s.self_id },
            ),
            MessageView::ConfirmViewOk { view_number, round, replica_id } =>
                keep_on_confirm_view_ok(s, view_number, round, replica_id),
            MessageView::Prepare { view_number, op_number, entry, commit_number } =>
                keep_on_prepare(s, view_number, op_number, entry, commit_number),
            MessageView::PrepareOk { view_number, op_number, replica_id } => keep_on_prepare_ok(
                s,
                view_number,
                op_number,
                replica_id,
            ),
            MessageView::Commit { view_number, commit_number } => keep_on_commit(
                s,
                view_number,
                commit_number,
            ),
            MessageView::GetState { replica_id, view_number, op_number } => keep_on_get_state(
                s,
                replica_id,
                view_number,
                op_number,
            ),
            MessageView::NewState { replica_id, view_number, segment, commit_number } =>
                keep_on_new_state(s, replica_id, view_number, segment, commit_number),
            MessageView::GetChunk { replica_id, op_number, index } => keep_on_get_chunk(
                s,
                replica_id,
                op_number,
                index,
                chunk.0,
                chunk.1,
            ),
            MessageView::NewChunk { replica_id, op_number, index, chunk, last } =>
                keep_on_new_chunk(s, replica_id, op_number, index, chunk, last),
            MessageView::StartViewChange { view_number, replica_id } => keep_on_start_view_change(
                s,
                view_number,
                replica_id,
            ),
            MessageView::DoViewChange {
                view_number,
                replica_id,
                last_normal_view,
                segment,
                commit_number,
            } => keep_on_do_view_change(
                s,
                view_number,
                replica_id,
                DoViewChangeView { last_normal_view, segment, commit_number },
            ),
            MessageView::StartView { view_number, segment, commit_number } => keep_on_start_view(
                s,
                view_number,
                segment,
                commit_number,
            ),
            MessageView::Recovery { replica_id, nonce, view_number } => keep_on_recovery(
                s,
                replica_id,
                nonce,
                view_number,
            ),
            MessageView::RecoveryResponse { view_number, nonce, replica_id, state } =>
                keep_on_recovery_response(s, view_number, nonce, replica_id, state),
        }
    }
    let t = s.on_message(message, chunk);
    assert(goes_on(s, t) ==> t.log_start == s.log_start && (s.serving is Some ==> t.serving
        == s.serving)) by {
        reveal(goes_on);
    }
}

proof fn keep_serve_on_idle<SM: StateMachine>(s: ReplicaModel<SM>)
    requires
        s.inv(),
    ensures
        s.serve_on_idle().inv(),
        advances(s, s.serve_on_idle()),
{
    reveal(advances);
}

proof fn keep_fetch_on_idle<SM: StateMachine>(s: ReplicaModel<SM>)
    requires
        s.inv(),
    ensures
        s.fetch_on_idle().0.inv(),
        goes_on(s, s.fetch_on_idle().0),
{
    reveal(goes_on);
}

proof fn keep_primary_on_idle<SM: StateMachine>(s: ReplicaModel<SM>)
    requires
        s.inv(),
    ensures
        s.primary_on_idle().inv(),
        goes_on(s, s.primary_on_idle()),
{
    broadcast use posts_early_trans;

    reveal(goes_on);
    let told = s.note_stable().send_to_others(
        MessageView::Commit { view_number: s.view_number, commit_number: s.commit_number },
    );
    assert(posts_early(s.outbox_early, told.outbox_early));
    let due = min(s.resend_up_to as int, s.op_number()) as OpNumber;
    let message = MessageView::Prepare {
        view_number: s.view_number,
        op_number: due,
        entry: s.entry(due as int),
        commit_number: s.commit_number,
    };
    let resent = told.send_each_early(to_unacked(s.self_id, s.acked, due, message));
    assert(posts_early(told.outbox_early, resent.outbox_early));
    let kept = if due > s.commit_number {
        resent
    } else {
        told
    };
    assert(posts_early(kept.outbox_early, s.primary_on_idle().outbox_early));
}

/// Hearing of the primary, or waiting for it.
proof fn keep_waiting<SM: StateMachine>(asked: ReplicaModel<SM>)
    requires
        asked.inv(),
    ensures
        ({
            let next = ReplicaModel { heard_from_primary: false, ..asked };
            let t = ReplicaModel { idle_periods_waiting: 0, ..next }.note_stable();
            let u = ReplicaModel { idle_periods_stable: 0, ..next }.wait_timed_out().0;
            &&& t.inv() && goes_on(asked, t)
            &&& u.inv() && goes_on(asked, u)
        }),
{
    reveal(goes_on);
}

/// Asking for what is missing.
proof fn keep_asking<SM: StateMachine>(s: ReplicaModel<SM>) -> (asked: ReplicaModel<SM>)
    requires
        s.inv(),
        s.status == Status::Normal || s.status == Status::StateTransfer,
    ensures
        asked == if s.status == Status::StateTransfer {
            let (next, under_way) = s.fetch_on_idle();
            if under_way {
                next
            } else {
                next.state_transfer()
            }
        } else {
            s
        },
        asked.inv(),
        goes_on(s, asked),
{
    keep_fetch_on_idle(s);
    goes_on_refl(s);
    if s.status == Status::StateTransfer {
        let (next, under_way) = s.fetch_on_idle();
        if under_way {
            next
        } else {
            keep_state_transfer(next);
            goes_on_trans(s, next, next.state_transfer());
            next.state_transfer()
        }
    } else {
        s
    }
}

proof fn keep_backup_on_idle<SM: StateMachine>(s: ReplicaModel<SM>)
    requires
        s.inv(),
        s.status == Status::Normal || s.status == Status::StateTransfer,
        s.backup_on_idle().fits,
    ensures
        s.backup_on_idle().inv(),
        goes_on(s, s.backup_on_idle()),
{
    let asked = keep_asking(s);
    keep_waiting(asked);
    let next = ReplicaModel { heard_from_primary: false, ..asked };
    let t = s.backup_on_idle();
    if asked.heard_from_primary {
        goes_on_trans(s, asked, t);
    } else {
        let (waited, timed_out) = ReplicaModel { idle_periods_stable: 0, ..next }.wait_timed_out();
        goes_on_trans(s, asked, waited);
        if timed_out {
            keep_start_next_view(waited);
            goes_on_trans(s, waited, t);
        }
    }
}

/// Asking again for the log to catch up with.
proof fn keep_catching_up<SM: StateMachine>(waited: ReplicaModel<SM>) -> (asked: ReplicaModel<SM>)
    requires
        waited.inv(),
    ensures
        asked == if waited.catching_up is Some {
            let (next, under_way) = waited.fetch_on_idle();
            if under_way {
                next
            } else {
                next.send_get_state_to(waited.catching_up->0, waited.commit_number)
            }
        } else {
            waited
        },
        asked.inv(),
        goes_on(waited, asked),
{
    keep_fetch_on_idle(waited);
    goes_on_refl(waited);
    if waited.catching_up is Some {
        let (next, under_way) = waited.fetch_on_idle();
        if under_way {
            next
        } else {
            let to = waited.catching_up->0;
            let message = MessageView::GetState {
                replica_id: next.self_id,
                view_number: next.view_number,
                op_number: waited.commit_number,
            };
            keep_send(next, to, message);
            goes_on_trans(waited, next, next.send(to, message));
            next.send(to, message)
        }
    } else {
        waited
    }
}

proof fn keep_view_change_on_idle<SM: StateMachine>(s: ReplicaModel<SM>)
    requires
        s.inv(),
        s.view_change_on_idle().fits,
    ensures
        s.view_change_on_idle().inv(),
        goes_on(s, s.view_change_on_idle()),
{
    let (waited, timed_out) = s.wait_timed_out();
    assert(waited.inv() && goes_on(s, waited)) by {
        reveal(goes_on);
    }
    let t = s.view_change_on_idle();
    if timed_out {
        keep_start_next_view(waited);
        goes_on_trans(s, waited, t);
    } else {
        let asked = keep_catching_up(waited);
        goes_on_trans(s, waited, asked);
        let message = MessageView::StartViewChange {
            view_number: s.view_number,
            replica_id: s.self_id,
        };
        keep_send_to_others(asked, message);
        goes_on_trans(s, asked, asked.send_to_others(message));
        let told = if asked.catching_up is None || asked.do_view_change_sent {
            asked.send_to_others(message)
        } else {
            asked
        };
        if told.do_view_change_sent && told.catching_up is None {
            keep_send_do_view_change(told);
            goes_on_trans(s, told, t);
        }
    }
}

proof fn keep_send_recovery<SM: StateMachine>(s: ReplicaModel<SM>)
    requires
        s.inv(),
    ensures
        s.send_recovery().inv(),
        goes_on(s, s.send_recovery()),
{
    reveal(goes_on);
}

/// An idle period keeps what every step keeps, and only goes forward.
pub proof fn idle_advances<SM: StateMachine>(s: ReplicaModel<SM>)
    requires
        s.inv(),
        s.on_idle().fits,
    ensures
        s.on_idle().inv(),
        advances(s, s.on_idle()),
        goes_on(s.serve_on_idle(), s.on_idle()),
{
    reveal(ReplicaModel::on_idle);
    keep_serve_on_idle(s);
    let served = s.serve_on_idle();
    match s.status {
        Status::Normal => if s.is_primary() {
            keep_primary_on_idle(served);
        } else {
            keep_backup_on_idle(served);
        },
        Status::StateTransfer => keep_backup_on_idle(served),
        Status::Recovering => {
            keep_fetch_on_idle(served);
            let (next, under_way) = served.fetch_on_idle();
            if !under_way {
                keep_send_recovery(next);
                goes_on_trans(served, next, next.send_recovery());
            }
        },
        Status::ViewChange => keep_view_change_on_idle(served),
    }
    goes_on_advances(served, s.on_idle());
    advances_trans(s, served, s.on_idle());
}

/// Taking a write keeps what every step keeps, and only goes forward.
pub proof fn take_write_advances<SM: StateMachine>(s: ReplicaModel<SM>)
    requires
        s.inv(),
    ensures
        s.take_write().inv(),
        goes_forward(s, s.take_write()),
        executes(s, s.take_write()),
        works(s, s.take_write()),
        s.take_write().log_start == s.log_start,
{
}

/// Handing a write back keeps what every step keeps, and only goes forward.
pub proof fn persisted_advances<SM: StateMachine>(s: ReplicaModel<SM>)
    requires
        s.inv(),
        s.outstanding is Some,
    ensures
        s.persisted().inv(),
        goes_forward(s, s.persisted()),
        marks_changes(s, s.persisted()),
        executes_durable(
            ReplicaModel { durable: (s.outstanding->0).op_number, ..s },
            s.persisted(),
        ),
        s.serving is Some ==> s.persisted().serving == s.serving,
        executes(s, s.persisted()),
        works(s, s.persisted()),
        s.persisted().log_start == s.log_start,
        s.persisted().outstanding is None,
        s.persisted().round == s.round,
        s.persisted().round_confirmed == s.round_confirmed,
        s.persisted().outbox_early == s.outbox_early,
        s.persisted().outbox == s.outbox,
        s.persisted().outbox_waiting == Seq::<(ReplicaID, MessageViewFor<SM>)>::empty(),
        s.persisted().outbox_ready == s.outbox_ready + s.outbox_waiting,
{
    broadcast use {goes_on_refl, goes_on_trans, frame_apply_committed, frame_commit_up_to};

    reveal(ReplicaModel::persisted);
    let outstanding = s.outstanding->0;
    let held = ReplicaModel { outstanding: None, durable: outstanding.op_number, ..s };
    assert(held.inv());
    let durable = held.durable_op();
    let acked = if s.leads() && outstanding.last_normal_view == s.view_number {
        keep_register_ack(held, s.self_id, durable as OpNumber);
        held.register_ack(s.self_id, durable as OpNumber)
    } else {
        held
    };
    keep_apply_committed(acked, durable);
    let applied = acked.apply_committed(durable);
    assert(s.persisted().inv());
    assert(goes_on(held, applied));
    reveal(goes_on);
    let t = s.persisted();
    executes_trans(s, held, applied);
    works_trans(s, held, applied);
    executes_trans(s, applied, t);
    works_trans(s, applied, t);
    assert forall|op_number: int| #[trigger] t.entry(op_number) == applied.entry(op_number) && s.entry(
        op_number,
    ) == held.entry(op_number) by {}
}

/// Compacting keeps what every step keeps, and only goes forward.
pub proof fn compact_advances<SM: StateMachine>(s: ReplicaModel<SM>, op_number: OpNumber)
    requires
        s.inv(),
    ensures
        s.compact(op_number).inv(),
        advances(s, s.compact(op_number)),
        works(s, s.compact(op_number)),
        s.compact(op_number).log_start <= s.applied,
        s.compact(op_number).serving == s.serving,
{
    reveal(advances);
    executes_compact(s, op_number);
}

} // verus!
