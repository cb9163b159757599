use vstd::prelude::*;
use super::changes::{follows_on, follows_with, merges, reports_ok, starts_view};
use super::history::{
    committed_extends, committed_length, committed_less, committed_stays, complete_below,
    complete_has_committed, complete_stays, prefix_take, regular_has_committed, History,
};
use super::moves::{follow_grows, hold_grows};
use super::normal::{acknowledges, bound, follows_now, quiet, same_core_ok};
use super::outbox::{same_mail, same_mail_ok, send_ok};
use super::recovery::restores_to_recover;
use super::safety::{acks_ok, change_ok, follows, leads_ok, log_ok, outbox_ok, replica_ok};
use super::stays::{outbox_ok_stays, report_ok_stays};
use crate::ids::{CommitID, OpNumber, ReplicaID, ViewNumber};
use crate::log::{LogEntry, SegmentView};
use crate::message::MessageView;
use crate::replica::frames::{frame_apply_committed, frame_commit_up_to};
use crate::replica::keeps::{keep_install_segment_from_commit, keep_install_segment_in_view};
use crate::replica::model::{max, ReplicaModel};
use crate::replica::ok::{
    ok_install_segment_from_commit, ok_install_segment_in_view, ok_new_state_installed,
    ok_start_fetch,
};
use crate::replica::parts::{InstalledView, ResumeView, Status};
use crate::state_machine::StateMachine;

verus! {

/// What a replica's log has after an op that it holds.
pub proof fn log_from_is<SM: StateMachine>(
    s: ReplicaModel<SM>,
    log: Seq<LogEntry<SM::Input>>,
    op_number: int,
)
    requires
        log.len() == s.op_number(),
        log.skip(s.log_start as int) == s.log,
        s.log_start <= op_number <= log.len(),
    ensures
        s.log_from(op_number + 1) == log.skip(op_number),
{
    assert(s.log_from(op_number + 1) =~= log.skip(op_number)) by {
        assert forall|k: int| 0 <= k < log.len() - op_number implies log.skip(op_number)[k] == s.log[k
            + op_number - s.log_start] by {
            assert(log.skip(s.log_start as int)[k + op_number - s.log_start] == log[k + op_number]);
        }
    }
}

pub proof fn follows_on_get_state<SM: StateMachine>(
    h: History<SM::Input>,
    i: ReplicaID,
    s: ReplicaModel<SM>,
    replica_id: ReplicaID,
    view_number: ViewNumber,
    op_number: OpNumber,
)
    requires
        h.wf(),
        replica_ok(h, i, s),
        s.inv(),
        h.may_ask(i, replica_id, view_number),
        s.on_get_state(replica_id, view_number, op_number).fits,
    ensures
        follows(h, i, s.on_get_state(replica_id, view_number, op_number)),
{
    reveal(ReplicaModel::on_get_state);
    let v = view_number;
    let t = s.on_get_state(replica_id, v, op_number);
    if v != s.view_number || op_number > s.op_number() || !s.settled() {
        follows_now(h, i, t);
    } else {
        let log = h.logs[i as int];
        let (next, segment) = s.segment_from(op_number);
        let c = s.commit_number;
        assert(s.config == h.config && s.self_id == i && log.len() == s.op_number() && log.skip(
            s.log_start as int,
        ) == s.log && s.commit_number <= log.len()) by {
            reveal(log_ok);
            committed_length(h, log, c as nat, bound(s));
        }
        assert(h.segment_ok(log, segment, c)) by {
            if op_number >= s.log_start {
                log_from_is(s, log, op_number as int);
            } else {
                log_from_is(s, log, segment.start());
            }
        }
        assert(h.offers(replica_id, v, log, c)) by {
            reveal(log_ok);
            reveal(change_ok);
        }
        assert(h.state_ok(replica_id, v, segment, c));
        let message = MessageView::NewState {
            replica_id: i,
            view_number: v,
            segment,
            commit_number: c,
        };
        same_mail_ok(h, s, next);
        send_ok(h, next, replica_id, message);
        same_core_ok(h, i, s, t);
        follows_now(h, i, t);
    }
}

pub proof fn follows_on_get_chunk<SM: StateMachine>(
    h: History<SM::Input>,
    i: ReplicaID,
    s: ReplicaModel<SM>,
    replica_id: ReplicaID,
    op_number: OpNumber,
    index: usize,
    chunk: SM::Chunk,
    last: bool,
)
    requires
        h.wf(),
        replica_ok(h, i, s),
    ensures
        follows(h, i, s.on_get_chunk(replica_id, op_number, index, chunk, last)),
{
    let t = s.on_get_chunk(replica_id, op_number, index, chunk, last);
    if s.serves(op_number) {
        let next = ReplicaModel {
            serving: Some((op_number, 0)),
            ..s.check(
                SM::takes(
                    s.machine,
                    crate::state_machine::StateCall::ReadChunk { index },
                ),
            )
        };
        same_mail_ok(h, s, next);
        send_ok(
            h,
            next,
            replica_id,
            MessageView::NewChunk { replica_id: s.self_id, op_number, index, chunk, last },
        );
        same_core_ok(h, i, s, t);
    }
    follows_now(h, i, t);
}

/// Whether two states are the same but for their log and what is committed
/// of it.
pub open spec fn same_but_log<SM: StateMachine>(s: ReplicaModel<SM>, t: ReplicaModel<SM>) -> bool {
    &&& t.self_id == s.self_id
    &&& t.config == s.config
    &&& t.status == s.status
    &&& t.view_number == s.view_number
    &&& t.last_normal_view == s.last_normal_view
    &&& t.acked == s.acked
    &&& t.do_view_change_sent == s.do_view_change_sent
    &&& t.do_view_change_from == s.do_view_change_from
    &&& t.catching_up == s.catching_up
    &&& t.recovery_nonce == s.recovery_nonce
    &&& t.recovery_responses == s.recovery_responses
    &&& same_mail(s, t)
}

/// Below which view what a replica takes with a log must have been chosen.
spec fn taken_bound<SM: StateMachine>(s: ReplicaModel<SM>) -> int {
    if s.status == Status::ViewChange && s.is_primary() {
        s.view_number as int
    } else {
        s.view_number + 1
    }
}

/// A replica goes on with a log that it may take in its view.
proof fn goes_on<SM: StateMachine>(
    h: History<SM::Input>,
    i: ReplicaID,
    s: ReplicaModel<SM>,
    x: ReplicaModel<SM>,
    log: Seq<LogEntry<SM::Input>>,
    commit_number: CommitID,
)
    requires
        h.wf(),
        replica_ok(h, i, s),
        x.inv_but_fetch(),
        same_but_log(s, x),
        s.status == Status::StateTransfer && log.len() >= s.op_number() || s.status
            == Status::ViewChange && s.catching_up is Some,
        h.offers(i, s.view_number, log, commit_number),
        x.log == log.skip(x.log_start as int),
        x.op_number() == log.len(),
        x.commit_number >= s.commit_number,
        h.committed(log, x.commit_number as nat, taken_bound(s)),
        x.new_state_installed(commit_number).fits,
    ensures
        follows(h, i, x.new_state_installed(commit_number)),
{
    broadcast use {
        crate::replica::ok::group_ok,
        crate::replica::keeps::group_keeps,
        frame_commit_up_to,
        frame_apply_committed,
    };

    let v = s.view_number;
    let c = commit_number;
    let mine = h.logs[i as int];
    let t = x.new_state_installed(c);
    let next = ReplicaModel { fetch: None, ..x };
    assert(next.inv());
    assert(s.config == h.config && s.self_id == i && i < h.config.size() && h.at[i as int] == v
        && mine.len() == s.op_number()) by {
        reveal(log_ok);
    }
    if s.status == Status::StateTransfer {
        assert(h.regular(log, v) && h.committed(log, c as nat, v + 1) && h.acc(i, v) == mine.len()
            && h.recovering[i as int] is None) by {
            reveal(log_ok);
        }
        let g = h.follow(i, v, log);
        follow_grows(h, i, v, log);
        let done = next.commit_up_to(c, false);
        let normal = ReplicaModel { status: Status::Normal, ..done };
        committed_stays(h, g, i, log, c as nat, v + 1);
        committed_stays(h, g, i, log, x.commit_number as nat, v + 1);
        complete_stays(h, g, i, log, v as int);
        assert(g.log_of(v) == h.log_of(v));
        assert(log_ok(g, i, normal)) by {
            reveal(log_ok);
            assert forall|u: ViewNumber| #[trigger] g.acc(i, u) > 0 implies u
                <= normal.last_normal_view by {
                if u != v {
                    assert(g.acc(i, u) == h.acc(i, u));
                }
            }
        }
        assert(acks_ok(g, normal)) by {
            assert forall|q: int| 0 <= q < normal.acked.len() implies #[trigger] normal.acked[q] <= g.ack(q as ReplicaID, v) by {
                assert(s.acked[q] <= h.ack(q as ReplicaID, v));
                assert(g.ack(q as ReplicaID, v) >= h.ack(q as ReplicaID, v));
            }
        }
        assert(change_ok(g, i, normal)) by {
            reveal(change_ok);
            assert forall|q: ReplicaID| #[trigger]
                normal.do_view_change_from.contains_key(q) implies g.report_ok(
                q,
                v,
                normal.do_view_change_from[q],
            ) by {
                report_ok_stays(h, g, i, q, v, s.do_view_change_from[q]);
            }
        }
        assert(leads_ok(g, i, normal)) by {
            reveal(leads_ok);
            reveal(log_ok);
        }
        outbox_ok_stays(h, g, i, s);
        same_mail_ok(g, s, normal);
        acknowledges(g, i, normal);
        assert(t == normal.send_prepare_ok());
        assert(replica_ok(g, i, t));
    } else {
        let caught_up = ReplicaModel { catching_up: None, ..next };
        assert(caught_up.inv());
        if s.is_primary() {
            assert(!h.started(v) && h.complete(log, v as int) && s.last_normal_view < v) by {
                reveal(log_ok);
            }
            assert(s.do_view_change_from.dom().len() >= s.config.quorum() && reports_ok(h, i, s)) by {
                reveal(change_ok);
            }
            let g = h.hold(i, log);
            hold_grows(h, i, log);
            committed_stays(h, g, i, log, x.commit_number as nat, v as int);
            complete_stays(h, g, i, log, v as int);
            complete_below(g, log, v as int, s.last_normal_view as int);
            complete_below(g, log, v as int, s.last_normal_view + 1);
            assert forall|u: ViewNumber| #[trigger] g.acc(i, u) == h.acc(i, u) by {}
            assert(log_ok(g, i, caught_up)) by {
                reveal(log_ok);
            }
            outbox_ok_stays(h, g, i, s);
            same_mail_ok(g, s, caught_up);
            assert(reports_ok(g, i, caught_up)) by {
                assert forall|q: ReplicaID| #[trigger]
                    caught_up.do_view_change_from.contains_key(q) implies g.report_ok(
                    q,
                    v,
                    caught_up.do_view_change_from[q],
                ) by {
                    report_ok_stays(h, g, i, q, v, s.do_view_change_from[q]);
                }
            }
            starts_view(g, i, caught_up);
            follows_on(h, g, i, t);
        } else {
            assert(h.regular(log, v) && h.committed(log, c as nat, v + 1));
            let done = caught_up.commit_up_to(c, false);
            let entered = done.enter_normal();
            assert(done.inv());
            assert(entered.inv());
            follows_with(h, i, s, v, log, entered);
        }
    }
}

/// A replica fetches the checkpoint that a log it may take starts at.
proof fn fetches<SM: StateMachine>(
    h: History<SM::Input>,
    i: ReplicaID,
    s: ReplicaModel<SM>,
    from: ReplicaID,
    segment: SegmentView<SM::Input>,
    commit_number: CommitID,
)
    requires
        h.wf(),
        replica_ok(h, i, s),
        h.state_ok(i, s.view_number, segment, commit_number),
        segment.base is Checkpoint,
        s.status == Status::StateTransfer && segment.end() > s.op_number() || s.status
            == Status::ViewChange && s.catching_up is Some,
    ensures
        replica_ok(
            h,
            i,
            s.start_fetch(
                from,
                ResumeView::NewState { view_number: s.view_number, segment, commit_number },
            ),
        ),
{
    let resume = ResumeView::NewState { view_number: s.view_number, segment, commit_number };
    let t = s.start_fetch(from, resume);
    assert(outbox_ok(h, t)) by {
        reveal(outbox_ok);
    }
    assert(log_ok(h, i, t)) by {
        reveal(log_ok);
    }
    assert(change_ok(h, i, t)) by {
        reveal(change_ok);
    }
    assert(leads_ok(h, i, t)) by {
        reveal(leads_ok);
    }
}

pub proof fn follows_on_new_state<SM: StateMachine>(
    h: History<SM::Input>,
    i: ReplicaID,
    s: ReplicaModel<SM>,
    replica_id: ReplicaID,
    view_number: ViewNumber,
    segment: SegmentView<SM::Input>,
    commit_number: CommitID,
)
    requires
        h.wf(),
        replica_ok(h, i, s),
        s.inv(),
        s.status != Status::Recovering,
        h.state_ok(i, view_number, segment, commit_number),
        s.on_new_state(replica_id, view_number, segment, commit_number).fits,
    ensures
        follows(h, i, s.on_new_state(replica_id, view_number, segment, commit_number)),
{
    broadcast use {
        ok_install_segment_in_view,
        ok_install_segment_from_commit,
        ok_new_state_installed,
        ok_start_fetch,
        keep_install_segment_in_view,
        keep_install_segment_from_commit,
    };

    reveal(ReplicaModel::on_new_state);
    let v = view_number;
    let c = commit_number;
    let t = s.on_new_state(replica_id, v, segment, c);
    if v != s.view_number {
        follows_now(h, i, t);
    } else {
        let heard = ReplicaModel { heard_from_primary: true, ..s };
        quiet(h, i, s, heard);
        assert(heard.inv());
        let mine = h.logs[i as int];
        let log = choose|log: Seq<LogEntry<SM::Input>>|
            #![trigger h.offers(i, v, log, c)]
            h.offers(i, v, log, c) && h.segment_ok(log, segment, c);
        assert(s.config == h.config && s.self_id == i && mine.len() == s.op_number() && mine.skip(
            s.log_start as int,
        ) == s.log && h.committed(mine, s.commit_number as nat, bound(s))) by {
            reveal(log_ok);
        }
        committed_length(h, mine, s.commit_number as nat, bound(s));
        if s.status == Status::StateTransfer {
            let (next, installed) = heard.install_segment_in_view(segment);
            let checked = heard.check(segment.end() <= usize::MAX);
            quiet(h, i, heard, checked);
            match installed {
                InstalledView::Log => {
                    assert(h.regular(log, v) && h.regular(mine, v)) by {
                        reveal(log_ok);
                    }
                    let keep = max(segment.start(), s.commit_number as int);
                    prefix_take(log, h.log_of(v), keep);
                    prefix_take(mine, h.log_of(v), keep);
                    merges(checked, mine, log, segment);
                    regular_has_committed(h, log, mine, s.commit_number as nat, v);
                    assert(next.inv());
                    goes_on(h, i, heard, next, log, c);
                },
                InstalledView::Nothing => {
                    follows_now(h, i, t);
                },
                InstalledView::Checkpoint => {
                    fetches(h, i, next, replica_id, segment, c);
                    follows_now(h, i, t);
                },
            }
        } else if s.status == Status::ViewChange && s.catching_up is Some {
            let (next, installed) = heard.install_segment_from_commit(segment);
            match installed {
                InstalledView::Log => {
                    complete_has_committed(h, log, mine, s.commit_number as nat, v as int);
                    committed_extends(
                        h,
                        log,
                        log,
                        s.commit_number as nat,
                        v as int,
                        taken_bound(s),
                    );
                    merges(heard, mine, log, segment);
                    assert(next.inv());
                    goes_on(h, i, heard, next, log, c);
                },
                InstalledView::Nothing => {
                    follows_now(h, i, t);
                },
                InstalledView::Checkpoint => {
                    fetches(h, i, next, replica_id, segment, c);
                    follows_now(h, i, t);
                },
            }
        } else {
            follows_now(h, i, t);
        }
    }
}

/// A replica restores a checkpoint and goes on with the log that starts at
/// it.
proof fn restores<SM: StateMachine>(
    h: History<SM::Input>,
    i: ReplicaID,
    s: ReplicaModel<SM>,
    op_number: OpNumber,
    segment: SegmentView<SM::Input>,
    commit_number: CommitID,
)
    requires
        h.wf(),
        replica_ok(h, i, s),
        s.inv(),
        h.state_ok(i, s.view_number, segment, commit_number),
        segment.base is Checkpoint,
        segment.start() == op_number,
        op_number > s.commit_number,
        s.status == Status::StateTransfer && segment.end() > s.op_number() || s.status
            == Status::ViewChange && s.catching_up is Some,
        s.restore_checkpoint(op_number).merge_log(op_number, segment.entries).new_state_installed(
            commit_number,
        ).fits,
    ensures
        follows(
            h,
            i,
            s.restore_checkpoint(op_number).merge_log(
                op_number,
                segment.entries,
            ).new_state_installed(commit_number),
        ),
{
    let v = s.view_number;
    let c = commit_number;
    let log = choose|log: Seq<LogEntry<SM::Input>>|
        #![trigger h.offers(i, v, log, c)]
        h.offers(i, v, log, c) && h.segment_ok(log, segment, c);
    let restored = s.restore_checkpoint(op_number);
    let next = restored.merge_log(op_number, segment.entries);
    crate::replica::ok::ok_new_state_installed(next, c);
    crate::replica::ok::ok_merge_log(restored, op_number, segment.entries);
    crate::replica::keeps::keep_restore_checkpoint(s, op_number);
    crate::replica::keeps::keep_merge_log(restored, op_number, segment.entries);
    assert(next.log =~= log.skip(op_number as int)) by {
        assert(segment.entries == log.skip(op_number as int));
    }
    assert(h.committed(log, op_number as nat, taken_bound(s))) by {
        assert(h.committed(log, c as nat, taken_bound(s))) by {
            reveal(log_ok);
        }
        committed_less(h, log, c as nat, op_number as nat, taken_bound(s));
    }
    assert(same_but_log(s, next));
    goes_on(h, i, s, next, log, c);
}

pub proof fn follows_on_new_chunk<SM: StateMachine>(
    h: History<SM::Input>,
    i: ReplicaID,
    s: ReplicaModel<SM>,
    replica_id: ReplicaID,
    op_number: OpNumber,
    index: usize,
    chunk: SM::Chunk,
    last: bool,
)
    requires
        h.wf(),
        replica_ok(h, i, s),
        s.inv(),
        s.on_new_chunk(replica_id, op_number, index, chunk, last).fits,
    ensures
        follows(h, i, s.on_new_chunk(replica_id, op_number, index, chunk, last)),
{
    reveal(ReplicaModel::on_new_chunk);
    reveal(ReplicaModel::resume_after);
    let t = s.on_new_chunk(replica_id, op_number, index, chunk, last);
    let staged = s.staged(replica_id, op_number, index, chunk, last);
    let done = ReplicaModel { fetch: None, ..staged };
    if !s.awaits_chunk(replica_id, op_number, index) {
        follows_now(h, i, t);
    } else {
        same_mail_ok(h, s, staged);
        same_mail_ok(h, s, done);
        assert(log_ok(h, i, staged) && log_ok(h, i, done)) by {
            reveal(log_ok);
        }
        assert(change_ok(h, i, staged) && change_ok(h, i, done)) by {
            reveal(change_ok);
        }
        assert(leads_ok(h, i, staged) && leads_ok(h, i, done)) by {
            reveal(leads_ok);
            reveal(log_ok);
        }
        if !last {
            let fetch = staged.fetch->0;
            send_ok(
                h,
                staged,
                fetch.from,
                MessageView::GetChunk {
                    replica_id: s.self_id,
                    op_number: fetch.resume.checkpoint(),
                    index: fetch.index,
                },
            );
            same_core_ok(h, i, staged, t);
            follows_now(h, i, t);
        } else if op_number <= s.commit_number {
            follows_now(h, i, t);
        } else {
            let resume = (s.fetch->0).resume;
            match resume {
                ResumeView::NewState { view_number, segment, commit_number } => {
                    assert(view_number == s.view_number && h.state_ok(
                        i,
                        view_number,
                        segment,
                        commit_number,
                    ) && (s.status == Status::StateTransfer && segment.end() > s.op_number()
                        || s.status == Status::ViewChange && s.catching_up is Some)
                        && segment.base is Checkpoint) by {
                        reveal(change_ok);
                    }
                    restores(h, i, done, op_number, segment, commit_number);
                },
                ResumeView::RecoveryResponse { view_number, state } => {
                    assert(s.status == Status::Recovering && view_number >= s.view_number
                        && h.config.primary_of(view_number) != i
                        && state.segment.base is Checkpoint && h.recovery_ok(
                        i,
                        s.recovery_nonce,
                        view_number,
                        state.segment,
                        state.commit_number,
                    )) by {
                        reveal(change_ok);
                    }
                    restores_to_recover(h, i, done, op_number, view_number, state);
                },
            }
        }
    }
}

} // verus!
