use vstd::prelude::*;
use super::frames::{frame_answer_queries, frame_commit_up_to, frame_execute_entries};
use super::model::{
    add_range, best, ends_fit, highest_commit, max, min, op_marks, quorum_mark, ReplicaModel,
};
use super::ok::group_ok;
use super::outboxes::{
    group_posts, posts_early, posts_early_trans, posts_late, posts_late_ack, posts_late_trans,
};
use super::parts::{DoViewChangeView, ResumeView, Status, ROUNDS_OUT};
use super::runs::{executes, executes_next, executes_trans, group_executes, works, works_trans};
use crate::ids::{CommitID, OpNumber, ReplicaID, ViewNumber};
use crate::log::{LogEntry, SegmentView};
use crate::message::{MessageView, MessageViewFor, RecoveryView};
use crate::state_machine::StateMachine;

verus! {

broadcast use {group_posts, group_executes};

/// Whether a step from `s` to `t` only goes forward: no counter that a
/// replica's promises rest on goes back, and every committed entry that `s`
/// holds is the same in `t`, unless it has been compacted.
pub open spec fn goes_forward<SM: StateMachine>(s: ReplicaModel<SM>, t: ReplicaModel<SM>) -> bool {
    &&& t.config == s.config
    &&& t.self_id == s.self_id
    &&& t.view_number >= s.view_number
    &&& s.last_normal_view <= s.view_number ==> s.last_normal_view <= t.last_normal_view
        && t.last_normal_view <= t.view_number
    &&& t.commit_number >= s.commit_number
    &&& t.applied >= s.applied
    &&& t.log_start >= s.log_start
    &&& forall|op_number: int|
        t.log_start < op_number && op_number <= s.commit_number && op_number <= s.op_number()
            ==> op_number <= t.op_number() && #[trigger] t.entry(op_number) == s.entry(op_number)
}

impl<SM: StateMachine> ReplicaModel<SM> {
    /// The op number up to which no entry has changed since the last write
    /// was taken.
    pub open spec fn unchanged(self) -> int {
        match self.log_changed_from {
            Some(from) => from - 1,
            None => self.op_number(),
        }
    }
}

/// Whether a step from `s` to `t` marks every entry that it changes for the
/// next write.
pub open spec fn marks_changes<SM: StateMachine>(s: ReplicaModel<SM>, t: ReplicaModel<SM>) -> bool {
    &&& t.log_start >= s.log_start
    &&& t.unchanged() <= max(s.unchanged(), t.log_start as int)
    &&& t.log_changed_from is None ==> s.log_changed_from is None && t.op_number() == s.op_number()
    &&& t.written == s.written
    &&& forall|op_number: int|
        t.log_start < op_number && op_number <= t.unchanged() ==> op_number <= s.op_number()
            && #[trigger] t.entry(op_number) == s.entry(op_number)
}

/// Whether a step from `s` to `t` leaves the write that is out, and what
/// waits for it or has come back from one, as they are.
pub open spec fn keeps_write<SM: StateMachine>(s: ReplicaModel<SM>, t: ReplicaModel<SM>) -> bool {
    &&& t.outstanding == s.outstanding
    &&& t.outbox_waiting == s.outbox_waiting
    &&& t.outbox_ready == s.outbox_ready
}

/// Whether a step from `s` to `t` only queues messages: those that may leave
/// before the next write with one another, those that must wait likewise,
/// and nothing is dropped but an acknowledgement that a later one stands for.
pub open spec fn keeps_mail<SM: StateMachine>(s: ReplicaModel<SM>, t: ReplicaModel<SM>) -> bool {
    &&& posts_early(s.outbox_early, t.outbox_early)
    &&& posts_late(s.outbox, t.outbox)
}

/// Whether a step from `s` to `t` has no more rounds of view confirmations
/// out than before, or than may be out at a time.
pub open spec fn limits_rounds<SM: StateMachine>(s: ReplicaModel<SM>, t: ReplicaModel<SM>) -> bool {
    t.round - t.round_confirmed <= max(s.round - s.round_confirmed, ROUNDS_OUT as int)
}

/// Whether what `s` has executed of its log is durable.
pub open spec fn executed_durable<SM: StateMachine>(s: ReplicaModel<SM>) -> bool {
    s.applied <= s.durable_op() || s.applied == s.log_start
}

/// Whether a step from `s` to `t` makes nothing durable, and executes only
/// what is.
pub open spec fn executes_durable<SM: StateMachine>(
    s: ReplicaModel<SM>,
    t: ReplicaModel<SM>,
) -> bool {
    t.durable == s.durable && (executed_durable(s) ==> executed_durable(t))
}

/// Whether a step from `s` to `t` only goes forward, marks what it changes,
/// leaves the write that is out alone, executes only what is durable, and
/// that as its log has it, loses no message, and has no more rounds out than
/// may be.
#[verifier::opaque]
pub open spec fn advances<SM: StateMachine>(s: ReplicaModel<SM>, t: ReplicaModel<SM>) -> bool {
    &&& goes_forward(s, t)
    &&& marks_changes(s, t)
    &&& keeps_write(s, t)
    &&& executes_durable(s, t)
    &&& keeps_mail(s, t)
    &&& limits_rounds(s, t)
    &&& executes(s, t)
}

/// Whether a step from `s` to `t` advances, leaves the checkpoint kept and the
/// start of the log as they are, and does nothing to the state machine but
/// execute.
#[verifier::opaque]
pub open spec fn goes_on<SM: StateMachine>(s: ReplicaModel<SM>, t: ReplicaModel<SM>) -> bool {
    &&& goes_forward(s, t)
    &&& marks_changes(s, t)
    &&& keeps_write(s, t)
    &&& executes_durable(s, t)
    &&& keeps_mail(s, t)
    &&& limits_rounds(s, t)
    &&& executes(s, t)
    &&& works(s, t)
    &&& t.log_start == s.log_start
    &&& s.serving is Some ==> t.serving == s.serving
}

pub broadcast proof fn goes_on_advances<SM: StateMachine>(s: ReplicaModel<SM>, t: ReplicaModel<SM>)
    requires
        #[trigger] goes_on(s, t),
    ensures
        advances(s, t),
{
    reveal(goes_on);
    reveal(advances);
}

pub proof fn advances_trans<SM: StateMachine>(
    s: ReplicaModel<SM>,
    t: ReplicaModel<SM>,
    u: ReplicaModel<SM>,
)
    requires
        advances(s, t),
        advances(t, u),
    ensures
        advances(s, u),
{
    reveal(advances);
    posts_early_trans(s.outbox_early, t.outbox_early, u.outbox_early);
    posts_late_trans(s.outbox, t.outbox, u.outbox);
    executes_trans(s, t, u);
    assert forall|op_number: int|
        u.log_start < op_number && op_number <= u.unchanged() implies op_number <= s.op_number()
        && #[trigger] u.entry(op_number) == s.entry(op_number) by {
        assert(u.entry(op_number) == t.entry(op_number));
        assert(t.entry(op_number) == s.entry(op_number));
    }
    assert forall|op_number: int|
        u.log_start < op_number && op_number <= s.commit_number && op_number
            <= s.op_number() implies op_number <= u.op_number() && #[trigger] u.entry(op_number)
        == s.entry(op_number) by {
        assert(t.entry(op_number) == s.entry(op_number));
    }
}

pub broadcast proof fn goes_on_refl<SM: StateMachine>(s: ReplicaModel<SM>)
    requires
        s.inv(),
    ensures
        #[trigger] goes_on(s, s),
{
    reveal(goes_on);
}

pub broadcast proof fn goes_on_trans<SM: StateMachine>(
    s: ReplicaModel<SM>,
    t: ReplicaModel<SM>,
    u: ReplicaModel<SM>,
)
    requires
        #[trigger] goes_on(s, t),
        #[trigger] goes_on(t, u),
    ensures
        goes_on(s, u),
{
    reveal(goes_on);
    posts_early_trans(s.outbox_early, t.outbox_early, u.outbox_early);
    posts_late_trans(s.outbox, t.outbox, u.outbox);
    executes_trans(s, t, u);
    works_trans(s, t, u);
    assert forall|op_number: int|
        u.log_start < op_number && op_number <= u.unchanged() implies op_number <= s.op_number()
        && #[trigger] u.entry(op_number) == s.entry(op_number) by {
        assert(u.entry(op_number) == t.entry(op_number));
        assert(t.entry(op_number) == s.entry(op_number));
    }
    assert forall|op_number: int|
        u.log_start < op_number && op_number <= s.commit_number && op_number
            <= s.op_number() implies op_number <= u.op_number() && #[trigger] u.entry(op_number)
        == s.entry(op_number) by {
        assert(t.entry(op_number) == s.entry(op_number));
    }
}


pub broadcast proof fn keep_append_to_log<SM: StateMachine>(
    s: ReplicaModel<SM>,
    entry: LogEntry<SM::Input>,
)
    requires
        s.inv(),
        (#[trigger] s.append_to_log(entry)).fits,
    ensures
        s.append_to_log(entry).inv(),
        goes_on(s, s.append_to_log(entry)),
{
    reveal(goes_on);
}

pub broadcast proof fn keep_prepare<SM: StateMachine>(
    s: ReplicaModel<SM>,
    entry: LogEntry<SM::Input>,
)
    requires
        s.inv(),
        (#[trigger] s.prepare(entry)).fits,
    ensures
        s.prepare(entry).inv(),
        goes_on(s, s.prepare(entry)),
{
    broadcast use {goes_on_trans, keep_append_to_log, keep_send_to_others};

}

pub broadcast proof fn keep_merge_log<SM: StateMachine>(
    s: ReplicaModel<SM>,
    start: OpNumber,
    entries: Seq<LogEntry<SM::Input>>,
)
    requires
        s.inv(),
        (#[trigger] s.merge_log(start, entries)).fits,
    ensures
        s.merge_log(start, entries).inv(),
        goes_on(s, s.merge_log(start, entries)),
        s.merge_log(start, entries).commit_number <= s.merge_log(start, entries).op_number(),
{
    reveal(goes_on);
}

proof fn keep_execute_entries<SM: StateMachine>(s: ReplicaModel<SM>, count: nat)
    requires
        s.inv(),
        s.applied + count <= s.commit_number,
        s.applied + count <= s.op_number(),
        count > 0 ==> s.applied + count <= s.durable_op(),
    ensures
        s.execute_entries(count).inv(),
        s.execute_entries(count).applied == s.applied + count,
        goes_on(s, s.execute_entries(count)),
    decreases count,
{
    broadcast use {frame_execute_entries, goes_on_refl, goes_on_trans};

    if count > 0 {
        let before = s.execute_entries((count - 1) as nat);
        keep_execute_entries(s, (count - 1) as nat);
        executes_next(before);
        assert(goes_on(before, before.execute_next())) by {
            reveal(goes_on);
        }
    }
}

proof fn keep_answer_queries<SM: StateMachine>(s: ReplicaModel<SM>)
    requires
        s.inv(),
    ensures
        s.answer_queries().inv(),
        goes_on(s, s.answer_queries()),
    decreases s.queries.len(),
{
    reveal(goes_on);
    broadcast use frame_answer_queries;

    if s.query_ready() {
        assert(s.answer_query().inv());
        keep_answer_queries(s.answer_query());
    }
}

pub broadcast proof fn keep_execute_queries<SM: StateMachine>(s: ReplicaModel<SM>)
    requires
        s.inv(),
    ensures
        (#[trigger] s.execute_queries()).inv(),
        goes_on(s, s.execute_queries()),
{
    broadcast use goes_on_refl;

    keep_answer_queries(s);
}

pub broadcast proof fn keep_apply_committed<SM: StateMachine>(s: ReplicaModel<SM>, op_number: int)
    requires
        s.inv(),
        op_number <= s.durable_op(),
    ensures
        (#[trigger] s.apply_committed(op_number)).inv(),
        goes_on(s, s.apply_committed(op_number)),
        s.apply_committed(op_number).applied == s.applied + s.unexecuted(op_number),
{
    reveal(ReplicaModel::apply_committed);
    broadcast use {goes_on_trans, frame_execute_entries, frame_answer_queries};

    let count = s.unexecuted(op_number);
    keep_execute_entries(s, count);
    let executed = s.execute_entries(count);
    let ahead = |range: (OpNumber, OpNumber)| range.1 > executed.applied;
    let next = ReplicaModel { reply_ranges: executed.reply_ranges.filter(ahead), ..executed };
    assert forall|i: int| 0 <= i < next.reply_ranges.len() implies (
    #[trigger] next.reply_ranges[i]).1 <= next.commit_number by {
        lemma_filter_from(executed.reply_ranges, ahead, i);
    }
    assert(next.inv());
    assert(goes_on(executed, next)) by {
        reveal(goes_on);
    }
    keep_execute_queries(next);
}

/// What passes a filter was there before.
proof fn lemma_filter_from<A>(items: Seq<A>, keep: spec_fn(A) -> bool, i: int)
    requires
        0 <= i < items.filter(keep).len(),
    ensures
        exists|j: int| 0 <= j < items.len() && #[trigger] items[j] == items.filter(keep)[i],
    decreases items.len(),
{
    reveal(Seq::filter);
    if items.len() > 0 {
        let before = items.drop_last().filter(keep);
        if i < before.len() {
            lemma_filter_from(items.drop_last(), keep, i);
            let j = choose|j: int|
                0 <= j < items.drop_last().len() && #[trigger] items.drop_last()[j] == before[i];
            assert(items[j] == items.filter(keep)[i]);
        } else {
            assert(items[items.len() - 1] == items.filter(keep)[i]);
        }
    }
}

pub broadcast proof fn keep_commit_up_to<SM: StateMachine>(
    s: ReplicaModel<SM>,
    commit_number: CommitID,
    reply: bool,
)
    requires
        s.inv(),
    ensures
        (#[trigger] s.commit_up_to(commit_number, reply)).inv(),
        goes_on(s, s.commit_up_to(commit_number, reply)),
{
    broadcast use {goes_on_refl, goes_on_trans};

    if commit_number > s.commit_number {
        let next = ReplicaModel {
            commit_number,
            reply_ranges: if reply {
                add_range(s.reply_ranges, (s.commit_number + 1) as OpNumber, commit_number)
            } else {
                s.reply_ranges
            },
            ..s
        };
        assert(next.inv());
        assert(goes_on(s, next)) by {
            reveal(goes_on);
        }
        keep_apply_committed(next, s.durable_op());
    }
}

pub broadcast proof fn keep_register_ack<SM: StateMachine>(
    s: ReplicaModel<SM>,
    replica_id: ReplicaID,
    op_number: OpNumber,
)
    requires
        s.inv(),
        replica_id < s.acked.len(),
    ensures
        (#[trigger] s.register_ack(replica_id, op_number)).inv(),
        goes_on(s, s.register_ack(replica_id, op_number)),
{
    broadcast use {goes_on_refl, goes_on_trans};

    let mark = min(op_number as int, s.op_number()) as OpNumber;
    let next = ReplicaModel { acked: s.acked.update(replica_id as int, mark), ..s };
    assert(next.inv());
    assert(goes_on(s, next)) by {
        reveal(goes_on);
    }
    keep_commit_up_to(
        next,
        quorum_mark(op_marks(next.acked), s.config.quorum()) as CommitID,
        true,
    );
}

/// A message queued changes nothing else.
pub broadcast proof fn keep_send<SM: StateMachine>(
    s: ReplicaModel<SM>,
    replica_id: ReplicaID,
    message: MessageViewFor<SM>,
)
    requires
        s.inv(),
    ensures
        (#[trigger] s.send(replica_id, message)).inv(),
        goes_on(s, s.send(replica_id, message)),
{
    reveal(goes_on);
}

pub broadcast proof fn keep_send_to_others<SM: StateMachine>(
    s: ReplicaModel<SM>,
    message: MessageViewFor<SM>,
)
    requires
        s.inv(),
    ensures
        (#[trigger] s.send_to_others(message)).inv(),
        goes_on(s, s.send_to_others(message)),
{
    reveal(goes_on);
}

pub broadcast proof fn keep_start_round<SM: StateMachine>(
    s: ReplicaModel<SM>,
)
    requires
        s.inv(),
        s.leads(),
        s.start_round().fits,
    ensures
        (#[trigger] s.start_round()).inv(),
        s.round - s.round_confirmed < ROUNDS_OUT ==> goes_on(s, s.start_round()),
{
    reveal(goes_on);
}

pub broadcast proof fn keep_clear_view_change_state<SM: StateMachine>(
    s: ReplicaModel<SM>,
)
    requires
        s.inv(),
    ensures
        (#[trigger] s.clear_view_change_state()).inv(),
        goes_on(s, s.clear_view_change_state()),
{
    reveal(goes_on);
}

pub broadcast proof fn keep_catch_up_with_view<SM: StateMachine>(
    s: ReplicaModel<SM>,
    view_number: ViewNumber,
)
    requires
        s.inv(),
        view_number >= s.view_number,
    ensures
        (#[trigger] s.catch_up_with_view(view_number)).inv(),
        goes_on(s, s.catch_up_with_view(view_number)),
{
    reveal(goes_on);
}

pub broadcast proof fn keep_accept_from_primary<SM: StateMachine>(
    s: ReplicaModel<SM>,
    view_number: ViewNumber,
)
    requires
        s.inv(),
    ensures
        (#[trigger] s.accept_from_primary(view_number)).0.inv(),
        goes_on(s, s.accept_from_primary(view_number).0),
{
    broadcast use {goes_on_refl, goes_on_trans, keep_catch_up_with_view};

    let heard = ReplicaModel { heard_from_primary: true, ..s };
    assert(heard.inv());
    assert(goes_on(s, heard)) by {
        reveal(goes_on);
    }
}

pub broadcast proof fn keep_send_prepare_ok<SM: StateMachine>(
    s: ReplicaModel<SM>,
)
    requires
        s.inv(),
    ensures
        (#[trigger] s.send_prepare_ok()).inv(),
        goes_on(s, s.send_prepare_ok()),
{
    reveal(goes_on);
    let stale = |mail: (ReplicaID, MessageViewFor<SM>)|
        mail.0 == s.primary_id() && mail.1 is PrepareOk && mail.1->PrepareOk_view_number
            == s.view_number;
    let ack = MessageView::PrepareOk {
        view_number: s.view_number,
        op_number: s.op_number() as OpNumber,
        replica_id: s.self_id,
    };
    posts_late_ack(
        s.outbox,
        |mail: (ReplicaID, MessageViewFor<SM>)| !stale(mail),
        (s.primary_id(), ack),
    );
}

pub broadcast proof fn keep_state_transfer<SM: StateMachine>(
    s: ReplicaModel<SM>,
)
    requires
        s.inv(),
        s.status == Status::Normal || s.status == Status::StateTransfer,
    ensures
        (#[trigger] s.state_transfer()).inv(),
        goes_on(s, s.state_transfer()),
{
    reveal(goes_on);
}

pub broadcast proof fn keep_keep_checkpoint<SM: StateMachine>(
    s: ReplicaModel<SM>,
)
    requires
        s.inv(),
        s.keep_checkpoint().fits,
    ensures
        (#[trigger] s.keep_checkpoint()).inv(),
        goes_on(s, s.keep_checkpoint()),
{
    reveal(goes_on);
}

pub broadcast proof fn keep_segment_from<SM: StateMachine>(
    s: ReplicaModel<SM>,
    op_number: OpNumber,
)
    requires
        s.inv(),
        s.segment_from(op_number).0.fits,
    ensures
        (#[trigger] s.segment_from(op_number)).0.inv(),
        goes_on(s, s.segment_from(op_number).0),
{
    broadcast use {goes_on_refl, keep_keep_checkpoint};

}

pub broadcast proof fn keep_install_segment_in_view<SM: StateMachine>(
    s: ReplicaModel<SM>,
    segment: SegmentView<SM::Input>,
)
    requires
        s.inv(),
        s.install_segment_in_view(segment).0.fits,
    ensures
        (#[trigger] s.install_segment_in_view(segment)).0.inv(),
        goes_on(s, s.install_segment_in_view(segment).0),
        s.install_segment_in_view(segment).1 is Log ==> s.install_segment_in_view(segment).0.status == s.status,
{
    broadcast use {goes_on_refl, goes_on_trans, keep_merge_log, group_ok};

    let checked = s.check(segment.end() <= usize::MAX);
    assert(checked.inv());
    assert(goes_on(s, checked)) by {
        reveal(goes_on);
    }
}

pub broadcast proof fn keep_install_segment_from_commit<SM: StateMachine>(
    s: ReplicaModel<SM>,
    segment: SegmentView<SM::Input>,
)
    requires
        s.inv(),
        s.install_segment_from_commit(segment).0.fits,
    ensures
        (#[trigger] s.install_segment_from_commit(segment)).0.inv(),
        goes_on(s, s.install_segment_from_commit(segment).0),
        s.install_segment_from_commit(segment).0.status == s.status,
        s.install_segment_from_commit(segment).0.view_number == s.view_number,
{
    broadcast use {goes_on_refl, keep_merge_log};

}

pub broadcast proof fn keep_enter_normal<SM: StateMachine>(
    s: ReplicaModel<SM>,
)
    requires
        s.inv(),
    ensures
        (#[trigger] s.enter_normal()).inv(),
        goes_on(s, s.enter_normal()),
{
    reveal(goes_on);
}

pub broadcast proof fn keep_try_start_view<SM: StateMachine>(
    s: ReplicaModel<SM>,
)
    requires
        s.inv(),
        s.try_start_view().fits,
    ensures
        (#[trigger] s.try_start_view()).inv(),
        goes_on(s, s.try_start_view()),
{
    broadcast use {
        goes_on_refl,
        goes_on_trans,
        keep_install_segment_from_commit,
        keep_commit_up_to,
        keep_enter_normal,
        group_ok,
    };

    let checked = s.check(ends_fit(s.do_view_change_from));
    assert(checked.inv());
    assert(goes_on(s, checked)) by {
        reveal(goes_on);
    }
    let best_id = best(s.do_view_change_from);
    let (next, installed) = checked.install_segment_from_commit(
        s.do_view_change_from[best_id].segment,
    );
    if installed is Log {
        let started = next.commit_up_to(
            highest_commit(s.do_view_change_from),
            true,
        ).enter_normal();
        keep_send_to_others(started, started.start_view_message());
    } else {
        let asked = ReplicaModel { catching_up: Some(best_id), ..next };
        assert(asked.inv());
        assert(goes_on(next, asked)) by {
            reveal(goes_on);
        }
        keep_send(
            asked,
            best_id,
            MessageView::GetState {
                replica_id: asked.self_id,
                view_number: asked.view_number,
                op_number: s.commit_number,
            },
        );
    }
}

pub broadcast proof fn keep_record_do_view_change<SM: StateMachine>(
    s: ReplicaModel<SM>,
    replica_id: ReplicaID,
    report: DoViewChangeView<SM::Input>,
)
    requires
        s.inv(),
        s.record_do_view_change(replica_id, report).fits,
    ensures
        (#[trigger] s.record_do_view_change(replica_id, report)).inv(),
        goes_on(s, s.record_do_view_change(replica_id, report)),
{
    broadcast use {goes_on_refl, goes_on_trans, keep_try_start_view};

    let recorded = ReplicaModel {
        do_view_change_from: s.do_view_change_from.insert(replica_id, report),
        ..s
    };
    assert(recorded.inv());
    assert(goes_on(s, recorded)) by {
        reveal(goes_on);
    }
}

pub broadcast proof fn keep_send_do_view_change<SM: StateMachine>(
    s: ReplicaModel<SM>,
)
    requires
        s.inv(),
        s.send_do_view_change().fits,
    ensures
        (#[trigger] s.send_do_view_change()).inv(),
        goes_on(s, s.send_do_view_change()),
{
    broadcast use keep_record_do_view_change;

    if !s.is_primary() {
        reveal(goes_on);
    }
}

pub broadcast proof fn keep_maybe_send_do_view_change<SM: StateMachine>(
    s: ReplicaModel<SM>,
)
    requires
        s.inv(),
        s.maybe_send_do_view_change().fits,
    ensures
        (#[trigger] s.maybe_send_do_view_change()).inv(),
        goes_on(s, s.maybe_send_do_view_change()),
{
    broadcast use {goes_on_refl, goes_on_trans, keep_send_do_view_change};

    let next = ReplicaModel { do_view_change_sent: true, ..s };
    assert(next.inv());
    assert(goes_on(s, next)) by {
        reveal(goes_on);
    }
}

pub broadcast proof fn keep_start_view_change<SM: StateMachine>(
    s: ReplicaModel<SM>,
    view_number: ViewNumber,
)
    requires
        s.inv(),
        view_number >= s.view_number,
        s.start_view_change(view_number).fits,
    ensures
        (#[trigger] s.start_view_change(view_number)).inv(),
        goes_on(s, s.start_view_change(view_number)),
{
    broadcast use {goes_on_refl, goes_on_trans, keep_maybe_send_do_view_change, group_ok};

    let again = s.status == Status::ViewChange;
    let changing = ReplicaModel {
        view_change_attempts: if again {
            (s.view_change_attempts + 1) as u32
        } else {
            s.view_change_attempts
        },
        view_number,
        status: Status::ViewChange,
        idle_periods_waiting: 0,
        ..s.check(!again || s.view_change_attempts < u32::MAX)
    }.clear_view_change_state();
    assert(changing.inv());
    assert(goes_on(s, changing)) by {
        reveal(goes_on);
    }
    let message: MessageViewFor<SM> = MessageView::StartViewChange {
        view_number,
        replica_id: s.self_id,
    };
    keep_send_to_others(changing, message);
}

pub broadcast proof fn keep_start_next_view<SM: StateMachine>(
    s: ReplicaModel<SM>,
)
    requires
        s.inv(),
        s.start_next_view().fits,
    ensures
        (#[trigger] s.start_next_view()).inv(),
        goes_on(s, s.start_next_view()),
{
    broadcast use {goes_on_refl, goes_on_trans, group_ok};

    let checked = s.check(s.view_number < usize::MAX);
    assert(checked.inv());
    assert(goes_on(s, checked)) by {
        reveal(goes_on);
    }
    keep_start_view_change(checked, (s.view_number + 1) as ViewNumber);
}

pub broadcast proof fn keep_new_state_installed<SM: StateMachine>(
    s: ReplicaModel<SM>,
    commit_number: CommitID,
)
    requires
        s.inv(),
        s.status == Status::StateTransfer || s.status == Status::ViewChange,
        s.new_state_installed(commit_number).fits,
    ensures
        (#[trigger] s.new_state_installed(commit_number)).inv(),
        goes_on(s, s.new_state_installed(commit_number)),
{
    broadcast use {
        goes_on_refl,
        goes_on_trans,
        keep_commit_up_to,
        keep_try_start_view,
        keep_enter_normal,
        keep_send_prepare_ok,
        frame_commit_up_to,
        group_ok,
    };

    let next = ReplicaModel { fetch: None, ..s };
    assert(next.inv());
    assert(goes_on(s, next)) by {
        reveal(goes_on);
    }
    if s.status == Status::StateTransfer {
        let committed = next.commit_up_to(commit_number, false);
        let normal = ReplicaModel { status: Status::Normal, ..committed };
        assert(normal.inv());
        assert(goes_on(committed, normal)) by {
            reveal(goes_on);
        }
    } else {
        let caught_up = ReplicaModel { catching_up: None, ..next };
        assert(caught_up.inv());
        assert(goes_on(next, caught_up)) by {
            reveal(goes_on);
        }
    }
}

pub broadcast proof fn keep_start_fetch<SM: StateMachine>(
    s: ReplicaModel<SM>,
    from: ReplicaID,
    resume: ResumeView<SM::Input>,
)
    requires
        s.inv(),
        match resume {
            ResumeView::NewState { .. } => s.status == Status::StateTransfer || s.status
                == Status::ViewChange,
            ResumeView::RecoveryResponse { view_number, .. } => s.status == Status::Recovering
                && view_number >= s.view_number,
        },
    ensures
        (#[trigger] s.start_fetch(from, resume)).inv(),
        goes_on(s, s.start_fetch(from, resume)),
{
    reveal(goes_on);
}

pub broadcast proof fn keep_restore_checkpoint<SM: StateMachine>(
    s: ReplicaModel<SM>,
    op_number: OpNumber,
)
    requires
        s.inv(),
        op_number > s.commit_number,
        s.restore_checkpoint(op_number).fits,
    ensures
        (#[trigger] s.restore_checkpoint(op_number)).inv(),
        advances(s, s.restore_checkpoint(op_number)),
{
    reveal(advances);
}

pub broadcast proof fn keep_recover_into<SM: StateMachine>(
    s: ReplicaModel<SM>,
    view_number: ViewNumber,
    state: RecoveryView<SM::Input>,
)
    requires
        s.inv(),
        s.status == Status::Recovering,
        view_number >= s.view_number,
        s.recover_into(view_number, state).fits,
    ensures
        (#[trigger] s.recover_into(view_number, state)).inv(),
        goes_on(s, s.recover_into(view_number, state)),
{
    broadcast use {
        goes_on_refl,
        goes_on_trans,
        keep_install_segment_from_commit,
        keep_commit_up_to,
        keep_enter_normal,
        keep_start_fetch,
        group_ok,
    };

    let (next, installed) = s.install_segment_from_commit(state.segment);
    if installed is Log {
        let moved = ReplicaModel { view_number, fetch: None, ..next };
        assert(moved.inv());
        assert(goes_on(next, moved)) by {
            reveal(goes_on);
        }
    }
}

pub broadcast proof fn keep_resume_after<SM: StateMachine>(
    s: ReplicaModel<SM>,
    op_number: OpNumber,
    resume: ResumeView<SM::Input>,
)
    requires
        s.inv(),
        match resume {
            ResumeView::NewState { .. } => s.status == Status::StateTransfer || s.status
                == Status::ViewChange,
            ResumeView::RecoveryResponse { view_number, .. } => s.status == Status::Recovering
                && view_number >= s.view_number,
        },
        s.resume_after(op_number, resume).fits,
    ensures
        (#[trigger] s.resume_after(op_number, resume)).inv(),
        goes_on(s, s.resume_after(op_number, resume)),
{
    reveal(ReplicaModel::resume_after);
    broadcast use {
        goes_on_refl,
        goes_on_trans,
        keep_merge_log,
        keep_new_state_installed,
        keep_recover_into,
        group_ok,
    };

}

pub broadcast group group_keeps {
    goes_on_refl,
    goes_on_trans,
    keep_append_to_log,
    keep_prepare,
    keep_merge_log,
    keep_execute_queries,
    keep_apply_committed,
    keep_commit_up_to,
    keep_register_ack,
    keep_send,
    keep_send_to_others,
    keep_start_round,
    keep_clear_view_change_state,
    keep_catch_up_with_view,
    keep_accept_from_primary,
    keep_send_prepare_ok,
    keep_state_transfer,
    keep_keep_checkpoint,
    keep_segment_from,
    keep_install_segment_in_view,
    keep_install_segment_from_commit,
    keep_enter_normal,
    keep_try_start_view,
    keep_record_do_view_change,
    keep_send_do_view_change,
    keep_maybe_send_do_view_change,
    keep_start_view_change,
    keep_start_next_view,
    keep_new_state_installed,
    keep_start_fetch,
    keep_restore_checkpoint,
    keep_recover_into,
    keep_resume_after,
}

} // verus!
