//! What a replica answers, and what it asks for.

use vstd::prelude::*;
use super::frames::{frame_apply_committed, frame_commit_up_to};
use super::keeps::goes_on;
use super::model::{
    all_but, highest_commit, is_highest_commit, mail, max, min, to_unacked, to_unanswered,
    to_unconfirmed, ReplicaModel,
};
use super::ok::ok_commit_up_to;
use super::parts::{DoViewChangeView, ResponseView, Status, ROUNDS_OUT};
use super::recovery_laws::{latest_is, suffices};
use super::steps::message_advances;
use super::timeout_laws::{asks_everybody, mail_holds, wait};
use super::view_change_laws::{gathers, reports_in};
use crate::ids::{ClientID, CommitID, OpNumber, QueryNumber, ReplicaID, ViewNumber};
use crate::log::{LogEntry, SegmentView};
use crate::message::{MessageView, MessageViewFor, RecoveryView};
use crate::state_machine::StateMachine;

verus! {

/// Whether a replica has queued `message` for replica `to`.
pub open spec fn has_queued<SM: StateMachine>(
    s: ReplicaModel<SM>,
    to: ReplicaID,
    message: MessageViewFor<SM>,
) -> bool {
    s.outbox_early.contains((to, message)) || s.outbox.contains((to, message))
}

/// Whether `segment` is the log of `s` from a point that it still holds on, no
/// later than what it has applied, or from `from` on.
pub open spec fn is_log_from<SM: StateMachine>(
    s: ReplicaModel<SM>,
    segment: SegmentView<SM::Input>,
    from: OpNumber,
) -> bool {
    &&& segment.start() == from || segment.start() <= s.applied
    &&& s.log_start <= segment.start() <= s.op_number()
    &&& segment.entries == s.log.skip(segment.start() - s.log_start)
}

proof fn segment_is_log<SM: StateMachine>(s: ReplicaModel<SM>, op_number: OpNumber)
    requires
        s.inv(),
        op_number <= s.op_number(),
        s.segment_from(op_number).0.fits,
    ensures
        is_log_from(s, s.segment_from(op_number).1, op_number),
        op_number >= s.log_start ==> s.segment_from(op_number).1.start() == op_number,
{
    let segment = s.segment_from(op_number).1;
    let from = segment.start();
    assert(s.log_start <= from <= s.op_number());
    assert(segment.entries =~= s.log.skip(from - s.log_start));
}

/// A replica in normal operation answers a recovery: with its view, and, if it
/// is the primary, with its log and how far it is committed.
pub proof fn a_recovery_is_answered<SM: StateMachine>(
    s: ReplicaModel<SM>,
    replica_id: ReplicaID,
    nonce: u64,
    view_number: ViewNumber,
    chunk: (SM::Chunk, bool),
) -> (state: Option<RecoveryView<SM::Input>>)
    requires
        s.inv(),
        s.status == Status::Normal,
        view_number <= s.view_number,
        s.on_message(MessageView::Recovery { replica_id, nonce, view_number }, chunk).fits,
    ensures
        has_queued(
            s.on_message(MessageView::Recovery { replica_id, nonce, view_number }, chunk),
            replica_id,
            MessageView::RecoveryResponse {
                view_number: s.view_number,
                nonce,
                replica_id: s.self_id,
                state,
            },
        ),
        state is Some <==> s.is_primary(),
        state matches Some(state) ==> state.commit_number == s.commit_number && is_log_from(
            s,
            state.segment,
            0,
        ),
{
    reveal(ReplicaModel::handle);
    reveal(ReplicaModel::on_recovery);
    let t = s.on_message(MessageView::Recovery { replica_id, nonce, view_number }, chunk);
    let last = t.outbox.last();
    assert(t.outbox.contains(last));
    if s.is_primary() {
        segment_is_log(s, 0);
    }
    last.1->RecoveryResponse_state
}

/// A backup takes the next op from its primary, and acknowledges everything
/// that it holds.
pub proof fn the_next_op_is_acknowledged<SM: StateMachine>(
    s: ReplicaModel<SM>,
    op_number: OpNumber,
    entry: LogEntry<SM::Input>,
    commit_number: CommitID,
    chunk: (SM::Chunk, bool),
)
    requires
        s.inv(),
        s.status == Status::Normal,
        !s.is_primary(),
        op_number <= s.op_number() + 1,
        s.on_message(
            MessageView::Prepare { view_number: s.view_number, op_number, entry, commit_number },
            chunk,
        ).fits,
    ensures
        ({
            let t = s.on_message(
                MessageView::Prepare {
                    view_number: s.view_number,
                    op_number,
                    entry,
                    commit_number,
                },
                chunk,
            );
            &&& t.status == Status::Normal && t.view_number == s.view_number
            &&& t.op_number() == max(op_number as int, s.op_number())
            &&& op_number == s.op_number() + 1 ==> t.entry(op_number as int) == entry
            &&& t.log.take(s.log.len() as int) == s.log
            &&& t.commit_number == max(
                s.commit_number as int,
                min(commit_number as int, t.op_number()),
            )
            &&& has_queued(
                t,
                s.primary_id(),
                MessageView::PrepareOk {
                    view_number: s.view_number,
                    op_number: t.op_number() as OpNumber,
                    replica_id: s.self_id,
                },
            )
        }),
{
    broadcast use frame_apply_committed;

    reveal(ReplicaModel::handle);
    reveal(ReplicaModel::on_prepare);
    let t = s.on_message(
        MessageView::Prepare { view_number: s.view_number, op_number, entry, commit_number },
        chunk,
    );
    let last = t.outbox.last();
    assert(t.outbox.contains(last));
    assert(t.log.take(s.log.len() as int) =~= s.log);
}

/// A backup that lacks entries asks its primary for them: one that hears of an
/// op after the next, or that one it does not hold is committed.
pub proof fn what_is_missing_is_asked_for<SM: StateMachine>(
    s: ReplicaModel<SM>,
    message: MessageViewFor<SM>,
    chunk: (SM::Chunk, bool),
)
    requires
        s.status == Status::Normal,
        !s.is_primary(),
        ({
            ||| message matches MessageView::Prepare { view_number, op_number, .. } && view_number
                == s.view_number && op_number > s.op_number() + 1
            ||| message matches MessageView::Commit { view_number, commit_number } && view_number
                == s.view_number && commit_number > s.op_number()
        }),
    ensures
        ({
            let t = s.on_message(message, chunk);
            &&& t.status == Status::StateTransfer && t.view_number == s.view_number
            &&& t.log == s.log && t.commit_number == s.commit_number
            &&& has_queued(
                t,
                s.primary_id(),
                MessageView::GetState {
                    replica_id: s.self_id,
                    view_number: s.view_number,
                    op_number: s.op_number() as OpNumber,
                },
            )
        }),
{
    reveal(ReplicaModel::handle);
    reveal(ReplicaModel::on_prepare);
    reveal(ReplicaModel::on_commit);
    let t = s.on_message(message, chunk);
    assert(t.outbox_early.contains(t.outbox_early.last()));
}

/// A backup commits what its primary says is committed, as far as it holds it.
pub proof fn what_the_primary_commits_is_committed<SM: StateMachine>(
    s: ReplicaModel<SM>,
    commit_number: CommitID,
    chunk: (SM::Chunk, bool),
)
    requires
        s.status == Status::Normal,
        !s.is_primary(),
        commit_number <= s.op_number(),
    ensures
        s.on_message(
            MessageView::Commit { view_number: s.view_number, commit_number },
            chunk,
        ).commit_number == max(s.commit_number as int, commit_number as int),
        s.on_message(
            MessageView::Commit { view_number: s.view_number, commit_number },
            chunk,
        ).heard_from_primary,
{
    broadcast use frame_apply_committed;

    reveal(ReplicaModel::handle);
    reveal(ReplicaModel::on_commit);
}

/// A replica that hears from the primary of a later view goes to that view,
/// and asks the primary for what it does not have committed.
pub proof fn a_later_view_is_joined<SM: StateMachine>(
    s: ReplicaModel<SM>,
    message: MessageViewFor<SM>,
    view_number: ViewNumber,
    chunk: (SM::Chunk, bool),
)
    requires
        s.status != Status::Recovering,
        view_number > s.view_number,
        ({
            ||| message matches MessageView::Prepare { view_number: v, .. } && v == view_number
            ||| message matches MessageView::Commit { view_number: v, .. } && v == view_number
        }),
    ensures
        ({
            let t = s.on_message(message, chunk);
            &&& t.status == Status::ViewChange && t.view_number == view_number
            &&& t.catching_up == Some(s.config.primary_of(view_number))
            &&& has_queued(
                t,
                s.config.primary_of(view_number),
                MessageView::GetState {
                    replica_id: s.self_id,
                    view_number,
                    op_number: s.commit_number,
                },
            )
        }),
{
    reveal(ReplicaModel::handle);
    reveal(ReplicaModel::on_prepare);
    reveal(ReplicaModel::on_commit);
    let t = s.on_message(message, chunk);
    assert(t.outbox_early.contains(t.outbox_early.last()));
}

/// A replica in normal operation hands its log over to one that asks for it in
/// the same view: from the op it asks from on, or, if that is compacted, from
/// a checkpoint on.
pub proof fn a_log_is_handed_over<SM: StateMachine>(
    s: ReplicaModel<SM>,
    replica_id: ReplicaID,
    op_number: OpNumber,
    chunk: (SM::Chunk, bool),
) -> (segment: SegmentView<SM::Input>)
    requires
        s.inv(),
        s.status == Status::Normal,
        op_number <= s.op_number(),
        s.on_message(
            MessageView::GetState { replica_id, view_number: s.view_number, op_number },
            chunk,
        ).fits,
    ensures
        is_log_from(s, segment, op_number),
        op_number >= s.log_start ==> segment.start() == op_number,
        has_queued(
            s.on_message(
                MessageView::GetState { replica_id, view_number: s.view_number, op_number },
                chunk,
            ),
            replica_id,
            MessageView::NewState {
                replica_id: s.self_id,
                view_number: s.view_number,
                segment,
                commit_number: s.commit_number,
            },
        ),
{
    reveal(ReplicaModel::handle);
    reveal(ReplicaModel::on_get_state);
    let t = s.on_message(
        MessageView::GetState { replica_id, view_number: s.view_number, op_number },
        chunk,
    );
    let last = t.outbox_early.last();
    assert(t.outbox_early.contains(last));
    segment_is_log(s, op_number);
    last.1->NewState_segment
}

/// A backup confirms its view to the primary that asks.
pub proof fn a_view_is_confirmed<SM: StateMachine>(
    s: ReplicaModel<SM>,
    round: u64,
    chunk: (SM::Chunk, bool),
)
    requires
        s.status != Status::Recovering,
        !s.is_primary(),
    ensures
        has_queued(
            s.on_message(MessageView::ConfirmView { view_number: s.view_number, round }, chunk),
            s.primary_id(),
            MessageView::ConfirmViewOk {
                view_number: s.view_number,
                round,
                replica_id: s.self_id,
            },
        ),
{
    reveal(ReplicaModel::handle);
    let t = s.on_message(MessageView::ConfirmView { view_number: s.view_number, round }, chunk);
    assert(t.outbox_early.contains(t.outbox_early.last()));
}

/// A replica that waits for a log in its view, and gets one that its own
/// reaches the start of and that goes on after it, is back in normal
/// operation with it, and acknowledges it.
#[verifier::spinoff_prover]
#[verifier::rlimit(30)]
pub proof fn a_log_that_was_asked_for_is_taken<SM: StateMachine>(
    s: ReplicaModel<SM>,
    replica_id: ReplicaID,
    segment: SegmentView<SM::Input>,
    commit_number: CommitID,
    chunk: (SM::Chunk, bool),
)
    requires
        s.inv(),
        s.status == Status::StateTransfer,
        segment.start() <= s.op_number() < segment.end(),
        s.on_message(
            MessageView::NewState {
                replica_id,
                view_number: s.view_number,
                segment,
                commit_number,
            },
            chunk,
        ).fits,
    ensures
        ({
            let t = s.on_message(
                MessageView::NewState {
                    replica_id,
                    view_number: s.view_number,
                    segment,
                    commit_number,
                },
                chunk,
            );
            let kept = max(segment.start(), s.commit_number as int);
            &&& t.status == Status::Normal && t.view_number == s.view_number
            &&& t.op_number() == segment.end()
            &&& forall|n: int|
                s.log_start < n <= kept ==> #[trigger] t.entry(n) == s.entry(n)
            &&& forall|n: int|
                kept < n <= t.op_number() ==> #[trigger] t.entry(n) == segment.entries[n
                    - segment.start() - 1]
            &&& t.commit_number == max(s.commit_number as int, commit_number as int)
            &&& has_queued(
                t,
                s.primary_id(),
                MessageView::PrepareOk {
                    view_number: s.view_number,
                    op_number: t.op_number() as OpNumber,
                    replica_id: s.self_id,
                },
            )
        }),
{
    broadcast use {frame_apply_committed, ok_commit_up_to};

    reveal(ReplicaModel::handle);
    reveal(ReplicaModel::on_new_state);
    let t = s.on_message(
        MessageView::NewState { replica_id, view_number: s.view_number, segment, commit_number },
        chunk,
    );
    assert(t.outbox.contains(t.outbox.last()));
}

/// A view that has started is joined: a replica that is not past it, nor in it
/// already, and that has all that is committed before the log of the view
/// starts, takes part in the view with that log, and acknowledges it.
pub proof fn a_view_that_starts_is_joined<SM: StateMachine>(
    s: ReplicaModel<SM>,
    view_number: ViewNumber,
    segment: SegmentView<SM::Input>,
    commit_number: CommitID,
    chunk: (SM::Chunk, bool),
)
    requires
        s.inv(),
        s.status != Status::Recovering,
        view_number > s.view_number || view_number == s.view_number && s.status
            == Status::ViewChange,
        segment.start() <= s.commit_number <= segment.end(),
        s.on_message(MessageView::StartView { view_number, segment, commit_number }, chunk).fits,
    ensures
        ({
            let t = s.on_message(
                MessageView::StartView { view_number, segment, commit_number },
                chunk,
            );
            &&& t.status == Status::Normal && t.view_number == view_number
            &&& t.last_normal_view == view_number
            &&& t.op_number() == segment.end()
            &&& forall|n: int|
                s.log_start < n <= s.commit_number ==> #[trigger] t.entry(n) == s.entry(n)
            &&& forall|n: int|
                s.commit_number < n <= t.op_number() ==> #[trigger] t.entry(n)
                    == segment.entries[n - segment.start() - 1]
            &&& t.commit_number == max(s.commit_number as int, commit_number as int)
            &&& has_queued(
                t,
                s.config.primary_of(view_number),
                MessageView::PrepareOk {
                    view_number,
                    op_number: t.op_number() as OpNumber,
                    replica_id: s.self_id,
                },
            )
        }),
{
    broadcast use {frame_apply_committed, ok_commit_up_to};

    reveal(ReplicaModel::handle);
    reveal(ReplicaModel::on_start_view);
    let t = s.on_message(
        MessageView::StartView { view_number, segment, commit_number },
        chunk,
    );
    assert(t.outbox.contains(t.outbox.last()));
}

/// The primary of a view tells a replica that still wants the view, or reports
/// for it, that it has started, and with which log.
pub proof fn a_latecomer_is_told_of_the_view<SM: StateMachine>(
    s: ReplicaModel<SM>,
    message: MessageViewFor<SM>,
    replica_id: ReplicaID,
    chunk: (SM::Chunk, bool),
)
    requires
        s.leads(),
        ({
            ||| message matches MessageView::StartViewChange { view_number, replica_id: q }
                && view_number == s.view_number && q == replica_id
            ||| message matches MessageView::DoViewChange { view_number, replica_id: q, .. }
                && view_number == s.view_number && q == replica_id
        }),
    ensures
        has_queued(
            s.on_message(message, chunk),
            replica_id,
            MessageView::StartView {
                view_number: s.view_number,
                segment: s.whole_log(),
                commit_number: s.commit_number,
            },
        ),
        s.whole_log().end() == s.op_number(),
        s.whole_log().entries == s.log,
{
    reveal(ReplicaModel::handle);
    reveal(ReplicaModel::on_start_view_change);
    reveal(ReplicaModel::on_do_view_change);
    let t = s.on_message(message, chunk);
    assert(t.outbox.contains(t.outbox.last()));
}

/// What a primary appends it sends to every other replica.
pub proof fn what_is_appended_is_sent<SM: StateMachine>(
    s: ReplicaModel<SM>,
    message: MessageViewFor<SM>,
    chunk: (SM::Chunk, bool),
    q: ReplicaID,
)
    requires
        s.inv(),
        s.leads(),
        message is Register || message is Request,
        s.on_message(message, chunk).op_number() > s.op_number(),
        q < s.config.size(),
        q != s.self_id,
    ensures
        ({
            let t = s.on_message(message, chunk);
            &&& t.op_number() == s.op_number() + 1
            &&& has_queued(
                t,
                q,
                MessageView::Prepare {
                    view_number: s.view_number,
                    op_number: t.op_number() as OpNumber,
                    entry: t.entry(t.op_number()),
                    commit_number: s.commit_number,
                },
            )
        }),
{
    reveal(ReplicaModel::handle);
    let t = s.on_message(message, chunk);
    let sent = MessageView::Prepare {
        view_number: s.view_number,
        op_number: t.op_number() as OpNumber,
        entry: t.entry(t.op_number()),
        commit_number: s.commit_number,
    };
    let n = mail_holds(s.config.size(), all_but(s.self_id, sent), q);
    assert(t.outbox_early == s.outbox_early + mail(s.config.size(), all_but(s.self_id, sent)));
    assert(t.outbox_early[s.outbox_early.len() + n] == (q, sent));
}

/// What an idle period makes of a replica, by what it is doing.
pub proof fn an_idle_period_is<SM: StateMachine>(s: ReplicaModel<SM>)
    ensures
        s.leads() ==> s.on_idle() == s.serve_on_idle().primary_on_idle(),
        s.status == Status::ViewChange ==> s.on_idle() == s.serve_on_idle().view_change_on_idle(),
        s.status == Status::Recovering && s.fetch is None ==> s.on_idle()
            == s.serve_on_idle().send_recovery(),
{
    reveal(ReplicaModel::on_idle);
}

/// An idle primary tells every other replica how far it has committed.
pub proof fn an_idle_primary_tells_of_itself<SM: StateMachine>(s: ReplicaModel<SM>, q: ReplicaID)
    requires
        s.inv(),
        s.leads(),
        q < s.config.size(),
        q != s.self_id,
    ensures
        has_queued(
            s.on_idle(),
            q,
            MessageView::Commit { view_number: s.view_number, commit_number: s.commit_number },
        ),
{
    an_idle_period_is(s);
    let message: MessageViewFor<SM> = MessageView::Commit {
        view_number: s.view_number,
        commit_number: s.commit_number,
    };
    let letter = all_but(s.self_id, message);
    let n = mail_holds(s.config.size(), letter, q);
    let told = s.outbox_early + mail(s.config.size(), letter);
    let t = s.on_idle();
    assert(told[s.outbox_early.len() + n] == (q, message));
    assert(t.outbox_early.take(told.len() as int) =~= told);
    assert(t.outbox_early[s.outbox_early.len() + n] == (q, message));
}

/// An idle primary sends again the latest op that it held at the last idle
/// period, if that is not committed yet, to those that have not acknowledged
/// it.
pub proof fn what_goes_unacknowledged_is_sent_again<SM: StateMachine>(
    s: ReplicaModel<SM>,
    q: ReplicaID,
)
    requires
        s.inv(),
        s.leads(),
        s.commit_number < s.resend_up_to <= s.op_number(),
        q < s.config.size(),
        q != s.self_id,
        s.acked[q as int] < s.resend_up_to,
    ensures
        has_queued(
            s.on_idle(),
            q,
            MessageView::Prepare {
                view_number: s.view_number,
                op_number: s.resend_up_to,
                entry: s.entry(s.resend_up_to as int),
                commit_number: s.commit_number,
            },
        ),
        s.on_idle().resend_up_to == s.op_number(),
{
    an_idle_period_is(s);
    let message: MessageViewFor<SM> = MessageView::Prepare {
        view_number: s.view_number,
        op_number: s.resend_up_to,
        entry: s.entry(s.resend_up_to as int),
        commit_number: s.commit_number,
    };
    let letter = to_unacked(s.self_id, s.acked, s.resend_up_to, message);
    let n = mail_holds(s.config.size(), letter, q);
    let commit: MessageViewFor<SM> = MessageView::Commit {
        view_number: s.view_number,
        commit_number: s.commit_number,
    };
    let told = s.outbox_early + mail(s.config.size(), all_but(s.self_id, commit));
    let resent = told + mail(s.config.size(), letter);
    let t = s.on_idle();
    assert(resent[told.len() + n] == (q, message));
    assert(t.outbox_early.take(resent.len() as int) =~= resent);
    assert(t.outbox_early[told.len() + n] == (q, message));
}

/// A replica that gathers for a view says so again to every other replica in
/// every idle period, and reports again if it has.
pub proof fn what_a_view_change_wants_is_sent_again<SM: StateMachine>(
    s: ReplicaModel<SM>,
    q: ReplicaID,
)
    requires
        s.inv(),
        gathers(s),
        s.idle_periods_waiting + 1 < wait(s.config, s.view_change_attempts),
        q < s.config.size(),
        q != s.self_id,
    ensures
        has_queued(
            s.on_idle(),
            q,
            MessageView::StartViewChange {
                view_number: s.view_number,
                replica_id: s.self_id,
            },
        ) || s.is_primary() && s.on_idle().status == Status::Normal,
        s.do_view_change_sent && !s.is_primary() ==> reports_in::<SM>(
            s.on_idle().outbox,
            s.config,
            s.self_id,
            s.view_number,
        ),
{
    an_idle_period_is(s);
    let message: MessageViewFor<SM> = MessageView::StartViewChange {
        view_number: s.view_number,
        replica_id: s.self_id,
    };
    let letter = all_but(s.self_id, message);
    let n = mail_holds(s.config.size(), letter, q);
    let told = s.outbox + mail(s.config.size(), letter);
    assert(told[s.outbox.len() + n] == (q, message));
    let t = s.on_idle();
    if !s.is_primary() || !s.do_view_change_sent {
        assert(t.outbox.take(told.len() as int) =~= told);
        assert(t.outbox[s.outbox.len() + n] == (q, message));
        if s.do_view_change_sent {
            assert(t.outbox.last().0 == s.config.primary_of(s.view_number));
        }
    } else {
        idle_primary_of_change(s, told);
        if t.status != Status::Normal {
            assert(t.outbox[s.outbox.len() + n] == (q, message));
        }
    }
}

proof fn idle_primary_of_change<SM: StateMachine>(
    s: ReplicaModel<SM>,
    told: Seq<(ReplicaID, MessageViewFor<SM>)>,
)
    requires
        gathers(s),
        s.is_primary(),
        s.do_view_change_sent,
        s.idle_periods_waiting + 1 < wait(s.config, s.view_change_attempts),
        told == s.outbox + mail(
            s.config.size(),
            all_but(
                s.self_id,
                MessageView::<SM::Input, SM::Query, SM::Chunk>::StartViewChange {
                    view_number: s.view_number,
                    replica_id: s.self_id,
                },
            ),
        ),
    ensures
        s.on_idle().status == Status::Normal || s.on_idle().outbox == told,
{
    broadcast use frame_commit_up_to;

    an_idle_period_is(s);
}

/// An idle replica that recovers asks everybody that has not answered again.
pub proof fn an_unanswered_recovery_is_sent_again<SM: StateMachine>(
    s: ReplicaModel<SM>,
    q: ReplicaID,
)
    requires
        s.inv(),
        s.status == Status::Recovering,
        s.fetch is None,
        q < s.config.size(),
        q != s.self_id,
        !s.recovery_responses.contains_key(q),
    ensures
        has_queued(
            s.on_idle(),
            q,
            MessageView::Recovery {
                replica_id: s.self_id,
                nonce: s.recovery_nonce,
                view_number: s.view_number,
            },
        ),
{
    an_idle_period_is(s);
    let message: MessageViewFor<SM> = MessageView::Recovery {
        replica_id: s.self_id,
        nonce: s.recovery_nonce,
        view_number: s.view_number,
    };
    let answered = s.recovery_responses.dom();
    let a = all_but(s.self_id, message);
    let b = to_unanswered(s.self_id, answered, message);
    let m = mail_holds(s.config.size(), a, q);
    let n = mail_holds(s.config.size(), b, q);
    let t = s.on_idle();
    if answered.len() >= s.config.quorum() {
        assert(t.outbox == s.outbox + mail(s.config.size(), a));
        assert(t.outbox[s.outbox.len() + m] == (q, message));
    } else {
        assert(t.outbox == s.outbox + mail(s.config.size(), b));
        assert(t.outbox[s.outbox.len() + n] == (q, message));
    }
}

/// A replica that catches up with a view, and gets a log that starts no later
/// than what it has committed, takes part in the view with that log, and
/// acknowledges it. The primary-to-be of the view starts it instead.
#[verifier::spinoff_prover]
#[verifier::rlimit(30)]
pub proof fn a_log_to_catch_up_with_is_taken<SM: StateMachine>(
    s: ReplicaModel<SM>,
    replica_id: ReplicaID,
    segment: SegmentView<SM::Input>,
    commit_number: CommitID,
    chunk: (SM::Chunk, bool),
)
    requires
        s.inv(),
        s.status == Status::ViewChange,
        s.catching_up is Some,
        !s.is_primary(),
        segment.start() <= s.commit_number <= segment.end(),
        s.on_message(
            MessageView::NewState {
                replica_id,
                view_number: s.view_number,
                segment,
                commit_number,
            },
            chunk,
        ).fits,
    ensures
        ({
            let t = s.on_message(
                MessageView::NewState {
                    replica_id,
                    view_number: s.view_number,
                    segment,
                    commit_number,
                },
                chunk,
            );
            &&& t.status == Status::Normal && t.view_number == s.view_number
            &&& t.last_normal_view == s.view_number
            &&& t.op_number() == segment.end()
            &&& forall|n: int|
                s.commit_number < n <= t.op_number() ==> #[trigger] t.entry(n)
                    == segment.entries[n - segment.start() - 1]
            &&& t.commit_number == max(s.commit_number as int, commit_number as int)
            &&& has_queued(
                t,
                s.primary_id(),
                MessageView::PrepareOk {
                    view_number: s.view_number,
                    op_number: t.op_number() as OpNumber,
                    replica_id: s.self_id,
                },
            )
        }),
{
    broadcast use {frame_apply_committed, ok_commit_up_to};

    reveal(ReplicaModel::handle);
    reveal(ReplicaModel::on_new_state);
    let t = s.on_message(
        MessageView::NewState { replica_id, view_number: s.view_number, segment, commit_number },
        chunk,
    );
    assert(t.outbox.contains(t.outbox.last()));
}

/// A replica that lacks what a log starts after fetches the checkpoint that
/// the log starts at from the replica that named it.
pub proof fn a_checkpoint_that_is_named_is_fetched<SM: StateMachine>(
    s: ReplicaModel<SM>,
    replica_id: ReplicaID,
    segment: SegmentView<SM::Input>,
    commit_number: CommitID,
    chunk: (SM::Chunk, bool),
)
    requires
        s.status == Status::StateTransfer && segment.start() > s.op_number() || s.status
            == Status::ViewChange && s.catching_up is Some && segment.start() > s.commit_number,
        segment.base is Checkpoint,
        s.fetch is None,
    ensures
        ({
            let t = s.on_message(
                MessageView::NewState {
                    replica_id,
                    view_number: s.view_number,
                    segment,
                    commit_number,
                },
                chunk,
            );
            &&& t.fetch is Some
            &&& has_queued(
                t,
                replica_id,
                MessageView::GetChunk {
                    replica_id: s.self_id,
                    op_number: segment.base.op(),
                    index: 0,
                },
            )
        }),
{
    reveal(ReplicaModel::handle);
    reveal(ReplicaModel::on_new_state);
    let t = s.on_message(
        MessageView::NewState { replica_id, view_number: s.view_number, segment, commit_number },
        chunk,
    );
    assert(t.outbox_early.contains(t.outbox_early.last()));
}

/// A replica that keeps a checkpoint hands out the chunk of it that it is
/// asked for.
pub proof fn a_chunk_is_handed_out<SM: StateMachine>(
    s: ReplicaModel<SM>,
    replica_id: ReplicaID,
    op_number: OpNumber,
    index: usize,
    chunk: (SM::Chunk, bool),
)
    requires
        s.status != Status::Recovering,
        s.serving is Some,
        (s.serving->0).0 == op_number,
    ensures
        has_queued(
            s.on_message(MessageView::GetChunk { replica_id, op_number, index }, chunk),
            replica_id,
            MessageView::NewChunk {
                replica_id: s.self_id,
                op_number,
                index,
                chunk: chunk.0,
                last: chunk.1,
            },
        ),
{
    let t = s.on_message(MessageView::GetChunk { replica_id, op_number, index }, chunk);
    assert(t.outbox_early.contains(t.outbox_early.last()));
}

/// A replica that gets the chunk that it waits for asks for the next one.
pub proof fn the_next_chunk_is_asked_for<SM: StateMachine>(
    s: ReplicaModel<SM>,
    replica_id: ReplicaID,
    op_number: OpNumber,
    index: usize,
    content: SM::Chunk,
    chunk: (SM::Chunk, bool),
)
    requires
        s.fetch matches Some(fetch) && fetch.from == replica_id && fetch.resume.checkpoint()
            == op_number && fetch.index == index,
        index < usize::MAX,
    ensures
        has_queued(
            s.on_message(
                MessageView::NewChunk { replica_id, op_number, index, chunk: content, last: false },
                chunk,
            ),
            replica_id,
            MessageView::GetChunk { replica_id: s.self_id, op_number, index: (index + 1) as usize },
        ),
{
    reveal(ReplicaModel::handle);
    reveal(ReplicaModel::on_new_chunk);
    let t = s.on_message(
        MessageView::NewChunk { replica_id, op_number, index, chunk: content, last: false },
        chunk,
    );
    assert(t.outbox_early.contains(t.outbox_early.last()));
}

/// A replica that gets the last chunk of a checkpoint of what it has not
/// committed has executed what the checkpoint holds.
pub proof fn a_checkpoint_that_is_whole_is_taken<SM: StateMachine>(
    s: ReplicaModel<SM>,
    replica_id: ReplicaID,
    op_number: OpNumber,
    index: usize,
    content: SM::Chunk,
    chunk: (SM::Chunk, bool),
)
    requires
        s.inv(),
        s.fetch matches Some(fetch) && fetch.from == replica_id && fetch.resume.checkpoint()
            == op_number && fetch.index == index,
        op_number > s.commit_number,
        s.on_message(
            MessageView::NewChunk { replica_id, op_number, index, chunk: content, last: true },
            chunk,
        ).fits,
    ensures
        ({
            let t = s.on_message(
                MessageView::NewChunk { replica_id, op_number, index, chunk: content, last: true },
                chunk,
            );
            t.log_start == op_number && t.applied >= op_number && t.commit_number >= op_number
        }),
{
    let message = MessageView::NewChunk { replica_id, op_number, index, chunk: content, last: true };
    message_advances(s, message, chunk);
    reveal(goes_on);
}

/// Whether a replica has asked every other replica to change to view
/// `view_number`.
pub open spec fn asks_all<SM: StateMachine>(s: ReplicaModel<SM>, view_number: ViewNumber) -> bool {
    forall|q: ReplicaID|
        q < s.config.size() && q != s.self_id ==> #[trigger] s.outbox.contains(
            (
                q,
                MessageView::<SM::Input, SM::Query, SM::Chunk>::StartViewChange {
                    view_number,
                    replica_id: s.self_id,
                },
            ),
        )
}

/// A change to another view is told to all, whatever is sent after it.
proof fn starting_asks_all<SM: StateMachine>(
    s: ReplicaModel<SM>,
    view_number: ViewNumber,
    t: ReplicaModel<SM>,
)
    requires
        s.config.is_cluster(),
        t.config == s.config,
        t.self_id == s.self_id,
        forall|mail: (ReplicaID, MessageViewFor<SM>)| #[trigger]
            s.start_view_change(view_number).outbox.contains(mail) ==> t.outbox.contains(mail),
    ensures
        asks_all(t, view_number),
{
    assert forall|q: ReplicaID| q < t.config.size() && q != t.self_id implies #[trigger] t.outbox.contains(
        (
            q,
            MessageView::<SM::Input, SM::Query, SM::Chunk>::StartViewChange {
                view_number,
                replica_id: t.self_id,
            },
        ),
    ) by {
        asks_everybody(s, view_number, q);
        assert(s.start_view_change(view_number).outbox.contains(
            (
                q,
                MessageView::<SM::Input, SM::Query, SM::Chunk>::StartViewChange {
                    view_number,
                    replica_id: s.self_id,
                },
            ),
        ));
    }
}

/// A replica that hears that another wants a later view, or recovers into one,
/// wants it too, and says so to everybody.
pub proof fn a_wish_for_a_later_view_is_taken_up<SM: StateMachine>(
    s: ReplicaModel<SM>,
    message: MessageViewFor<SM>,
    view_number: ViewNumber,
    chunk: (SM::Chunk, bool),
)
    requires
        s.inv(),
        s.status != Status::Recovering,
        view_number > s.view_number,
        ({
            ||| message matches MessageView::StartViewChange { view_number: v, .. } && v
                == view_number
            ||| message matches MessageView::Recovery { view_number: v, .. } && v == view_number
        }),
    ensures
        ({
            let t = s.on_message(message, chunk);
            &&& t.view_number == view_number
            &&& t.status == Status::ViewChange || t.status == Status::Normal && t.is_primary()
            &&& t.status == Status::ViewChange ==> asks_all(t, view_number)
        }),
{
    reveal(ReplicaModel::handle);
    reveal(ReplicaModel::on_start_view_change);
    reveal(ReplicaModel::on_recovery);
    let t = s.on_message(message, chunk);
    let changing = s.start_view_change(view_number);
    assert(changing.view_number == view_number && changing.status == Status::ViewChange
        && changing.catching_up is None && !changing.do_view_change_sent
        && changing.do_view_change_from.len() == 0 && changing.start_view_change_from.len() == 0);
    if let MessageView::StartViewChange { replica_id, .. } = message {
        wish_is_counted(changing, replica_id);
        if t.status == Status::ViewChange {
            starting_asks_all(s, view_number, t);
        }
    } else {
        starting_asks_all(s, view_number, t);
    }
}

proof fn wish_is_counted<SM: StateMachine>(changing: ReplicaModel<SM>, replica_id: ReplicaID)
    requires
        changing.status == Status::ViewChange,
    ensures
        ({
            let t = ReplicaModel {
                start_view_change_from: changing.start_view_change_from.insert(replica_id),
                ..changing
            }.maybe_send_do_view_change();
            &&& t.config == changing.config
            &&& t.self_id == changing.self_id
            &&& t.view_number == changing.view_number
            &&& t.status == Status::ViewChange || t.status == Status::Normal && t.is_primary()
            &&& t.status == Status::ViewChange ==> forall|mail: (ReplicaID, MessageViewFor<SM>)|
                #[trigger] changing.outbox.contains(mail) ==> t.outbox.contains(mail)
        }),
{
    broadcast use frame_commit_up_to;

    let counted = ReplicaModel {
        start_view_change_from: changing.start_view_change_from.insert(replica_id),
        ..changing
    };
    let t = counted.maybe_send_do_view_change();
    if t.status == Status::ViewChange {
        assert forall|mail: (ReplicaID, MessageViewFor<SM>)| #[trigger]
            changing.outbox.contains(mail) implies t.outbox.contains(mail) by {
            let n = choose|n: int| 0 <= n < changing.outbox.len() && changing.outbox[n] == mail;
            assert(t.outbox[n] == mail);
        }
    }
}

/// A query that comes while no round waits to leave, and few enough are out,
/// starts a round, which goes to every other replica.
pub proof fn a_query_starts_a_round<SM: StateMachine>(
    s: ReplicaModel<SM>,
    client_id: ClientID,
    query_number: QueryNumber,
    query: SM::Query,
    chunk: (SM::Chunk, bool),
    q: ReplicaID,
)
    requires
        s.inv(),
        s.leads(),
        !s.waits(client_id, query_number),
        !s.round_unsent,
        s.round - s.round_confirmed < ROUNDS_OUT,
        s.round < u64::MAX,
        q < s.config.size(),
        q != s.self_id,
    ensures
        ({
            let t = s.on_message(MessageView::Query { client_id, query_number, query }, chunk);
            &&& t.round == s.round + 1
            &&& t.queries == s.queries.push(t.queries.last())
            &&& t.queries.last().round == t.round && t.queries.last().client_id == client_id
                && t.queries.last().query_number == query_number && t.queries.last().query == query
            &&& has_queued(
                t,
                q,
                MessageView::ConfirmView { view_number: s.view_number, round: t.round },
            )
        }),
{
    reveal(ReplicaModel::handle);
    let message: MessageViewFor<SM> = MessageView::ConfirmView {
        view_number: s.view_number,
        round: (s.round + 1) as u64,
    };
    let letter = all_but(s.self_id, message);
    let n = mail_holds(s.config.size(), letter, q);
    let t = s.on_message(MessageView::Query { client_id, query_number, query }, chunk);
    assert(t.outbox_early == s.outbox_early + mail(s.config.size(), letter));
    assert(t.outbox_early[s.outbox_early.len() + n] == (q, message));
}

/// An idle primary asks again those that have not confirmed its latest round,
/// while that is not over.
pub proof fn an_unconfirmed_round_is_sent_again<SM: StateMachine>(s: ReplicaModel<SM>, q: ReplicaID)
    requires
        s.inv(),
        s.leads(),
        s.round > s.round_confirmed,
        q < s.config.size(),
        s.confirmed[q as int] < s.round,
    ensures
        has_queued(
            s.on_idle(),
            q,
            MessageView::ConfirmView { view_number: s.view_number, round: s.round },
        ),
{
    an_idle_period_is(s);
    let message: MessageViewFor<SM> = MessageView::ConfirmView {
        view_number: s.view_number,
        round: s.round,
    };
    let letter = to_unconfirmed(s.confirmed, s.round, message);
    let n = mail_holds(s.config.size(), letter, q);
    let t = s.on_idle();
    let sent = mail(s.config.size(), letter);
    let before = t.outbox_early.len() - sent.len();
    assert(t.outbox_early[before + n] == sent[n]);
}

/// A replica that recovers takes the log of the primary that its answers
/// suffice for, if it has all that is committed before the log starts, and
/// takes part in the view again.
pub proof fn a_recovery_takes_the_log_of_the_primary<SM: StateMachine>(
    s: ReplicaModel<SM>,
    view_number: ViewNumber,
    replica_id: ReplicaID,
    state: Option<RecoveryView<SM::Input>>,
    latest: ViewNumber,
    chunk: (SM::Chunk, bool),
)
    requires
        s.inv(),
        s.status == Status::Recovering,
        latest >= s.view_number,
        ({
            let responses = s.recovery_responses.insert(
                replica_id,
                ResponseView { view_number, state },
            );
            let taken = responses[s.config.primary_of(latest)].state->0;
            &&& suffices(s.config, responses, latest)
            &&& taken.segment.start() <= s.commit_number <= taken.segment.end()
        }),
        s.on_message(
            MessageView::RecoveryResponse {
                view_number,
                nonce: s.recovery_nonce,
                replica_id,
                state,
            },
            chunk,
        ).fits,
    ensures
        ({
            let responses = s.recovery_responses.insert(
                replica_id,
                ResponseView { view_number, state },
            );
            let taken = responses[s.config.primary_of(latest)].state->0;
            let t = s.on_message(
                MessageView::RecoveryResponse {
                    view_number,
                    nonce: s.recovery_nonce,
                    replica_id,
                    state,
                },
                chunk,
            );
            &&& t.status == Status::Normal && t.view_number == latest && t.last_normal_view
                == latest
            &&& t.op_number() == taken.segment.end()
            &&& forall|n: int|
                s.commit_number < n <= t.op_number() ==> #[trigger] t.entry(n)
                    == taken.segment.entries[n - taken.segment.start() - 1]
            &&& t.commit_number == max(s.commit_number as int, taken.commit_number as int)
        }),
{
    broadcast use {frame_apply_committed, ok_commit_up_to};

    reveal(ReplicaModel::handle);
    reveal(ReplicaModel::on_recovery_response);
    let responses = s.recovery_responses.insert(replica_id, ResponseView { view_number, state });
    latest_is(s.config, responses, latest);
}

/// A view that starts is told to every other replica, with its log, and has
/// committed what any of the reports it starts from has.
pub proof fn a_view_that_starts_is_told_to_all<SM: StateMachine>(
    s: ReplicaModel<SM>,
    replica_id: ReplicaID,
    report: DoViewChangeView<SM::Input>,
    chunk: (SM::Chunk, bool),
    q: ReplicaID,
)
    requires
        s.inv(),
        s.status == Status::ViewChange,
        s.is_primary(),
        s.on_message(
            MessageView::DoViewChange {
                view_number: s.view_number,
                replica_id,
                last_normal_view: report.last_normal_view,
                segment: report.segment,
                commit_number: report.commit_number,
            },
            chunk,
        ).leads(),
        q < s.config.size(),
        q != s.self_id,
    ensures
        ({
            let t = s.on_message(
                MessageView::DoViewChange {
                    view_number: s.view_number,
                    replica_id,
                    last_normal_view: report.last_normal_view,
                    segment: report.segment,
                    commit_number: report.commit_number,
                },
                chunk,
            );
            &&& t.view_number == s.view_number
            &&& t.commit_number >= s.commit_number
            &&& t.commit_number >= report.commit_number
            &&& forall|p: ReplicaID| #[trigger]
                s.do_view_change_from.contains_key(p) && p != replica_id ==> t.commit_number
                    >= s.do_view_change_from[p].commit_number
            &&& has_queued(
                t,
                q,
                MessageView::StartView {
                    view_number: t.view_number,
                    segment: t.whole_log(),
                    commit_number: t.commit_number,
                },
            )
        }),
{
    broadcast use {frame_apply_committed, frame_commit_up_to};

    reveal(ReplicaModel::handle);
    reveal(ReplicaModel::on_do_view_change);
    let t = s.on_message(
        MessageView::DoViewChange {
            view_number: s.view_number,
            replica_id,
            last_normal_view: report.last_normal_view,
            segment: report.segment,
            commit_number: report.commit_number,
        },
        chunk,
    );
    let reports = s.do_view_change_from.insert(replica_id, report);
    let highest = highest_commit(reports);
    a_commit_is_highest(reports);
    assert(reports.contains_key(replica_id));
    assert forall|p: ReplicaID| #[trigger]
        s.do_view_change_from.contains_key(p) && p != replica_id implies reports.contains_key(p)
        && reports[p] == s.do_view_change_from[p] by {}
    let message: MessageViewFor<SM> = MessageView::StartView {
        view_number: t.view_number,
        segment: t.whole_log(),
        commit_number: t.commit_number,
    };
    let letter = all_but(s.self_id, message);
    let n = mail_holds(s.config.size(), letter, q);
    let sent = mail(s.config.size(), letter);
    let before = t.outbox.len() - sent.len();
    assert(t.outbox[before + n] == sent[n]);
}

/// Of the commit numbers reported one is the highest.
proof fn a_commit_is_highest<Op>(reports: Map<ReplicaID, DoViewChangeView<Op>>)
    requires
        reports.dom().finite(),
        reports.dom().len() > 0,
    ensures
        is_highest_commit(reports, highest_commit(reports)),
    decreases reports.dom().len(),
{
    let q = reports.dom().choose();
    let rest = reports.remove(q);
    assert(rest.dom() =~= reports.dom().remove(q));
    if rest.dom().len() == 0 {
        assert forall|p: ReplicaID| #[trigger] reports.contains_key(p) implies p == q by {
            if p != q {
                assert(rest.dom().contains(p));
                assert(rest.dom() =~= Set::empty());
            }
        }
        assert(reports.contains_key(q));
        assert(is_highest_commit(reports, reports[q].commit_number));
    } else {
        a_commit_is_highest(rest);
        let before = highest_commit(rest);
        let p = choose|p: ReplicaID| #[trigger]
            rest.contains_key(p) && rest[p].commit_number == before;
        assert(reports.contains_key(p) && reports.contains_key(q));
        assert forall|r: ReplicaID| #[trigger] reports.contains_key(r) implies
            reports[r].commit_number <= before || reports[r].commit_number
            <= reports[q].commit_number by {
            if r != q {
                assert(rest.contains_key(r));
            }
        }
        if before >= reports[q].commit_number {
            assert(is_highest_commit(reports, before));
        } else {
            assert(is_highest_commit(reports, reports[q].commit_number));
        }
    }
}

} // verus!
