use vstd::prelude::*;
use super::changes::{asks_for_view, merges};
use super::history::{
    chosen_is_not_blocked, committed_length, committed_less, committed_stays, complete_stays,
    declared_is_chosen, segment_of, History, Recovery,
};
use super::moves::regain_grows;
use super::normal::{follows_now, same_core_ok};
use super::quorums::latest_is_latest;
use super::outbox::{letters_are, letters_ok, same_mail, same_mail_ok, send_ok};
use super::safety::{
    change_ok, follows, leads_ok, log_ok, message_ok, outbox_ok, replica_ok, stands,
};
use super::stays::outbox_ok_stays;
use crate::config::quorums_intersect;
use crate::ids::{OpNumber, ReplicaID, ViewNumber};
use crate::log::LogEntry;
use crate::message::{MessageView, RecoveryView};
use crate::replica::frames::{frame_apply_committed, frame_commit_up_to};
use crate::replica::model::{all_but, latest_view, to_unanswered, ReplicaModel};
use crate::replica::parts::{InstalledView, ResponseView, ResumeView, Status};
use crate::state_machine::StateMachine;

verus! {

/// A replica recovers into view `v` with a log of it.
pub proof fn recovers<SM: StateMachine>(
    h: History<SM::Input>,
    i: ReplicaID,
    s: ReplicaModel<SM>,
    x: ReplicaModel<SM>,
    v: ViewNumber,
    state: RecoveryView<SM::Input>,
    log: Seq<LogEntry<SM::Input>>,
)
    requires
        h.wf(),
        log_ok(h, i, s),
        outbox_ok(h, s),
        s.status == Status::Recovering,
        x.inv(),
        x.self_id == s.self_id,
        x.config == s.config,
        x.status == s.status,
        same_mail(s, x),
        x.op_number() == x.commit_number,
        state.segment.start() <= x.commit_number,
        h.committed(log, x.commit_number as nat, v + 1),
        h.regular(log, v),
        h.committed(log, state.commit_number as nat, v + 1),
        segment_of(log, state.segment),
        h.acc(i, v) <= log.len(),
        v >= s.view_number,
        x.view_number == s.view_number,
        h.config.primary_of(v) != i,
        x.recover_into(v, state).fits,
        forall|k: int| x.log_start <= k < x.commit_number ==> x.log[k - x.log_start] == #[trigger] log[k],
    ensures
        follows(h, i, x.recover_into(v, state)),
{
    broadcast use {
        crate::replica::ok::group_ok,
        crate::replica::keeps::group_keeps,
        frame_commit_up_to,
        frame_apply_committed,
    };

    let t = x.recover_into(v, state);
    let n = x.commit_number as nat;
    committed_length(h, log, n, v + 1);
    let mine = log.take(n as int);
    assert(mine.skip(x.log_start as int) =~= x.log) by {
        assert forall|k: int| 0 <= k < x.log.len() implies mine.skip(x.log_start as int)[k] == x.log[k] by {
            assert(x.log[k] == log[k + x.log_start]);
        }
    }
    assert(mine.take(n as int) =~= mine);
    merges(x, mine, log, state.segment);
    let (next, installed) = x.install_segment_from_commit(state.segment);
    assert(installed is Log);
    let moved = ReplicaModel { view_number: v, fetch: None, ..next };
    let done = moved.commit_up_to(state.commit_number, false);
    assert(t == done.enter_normal());
    assert(next.inv());
    assert(s.config == h.config && s.self_id == i && i < h.config.size() && h.at[i as int]
        == s.view_number) by {
        reveal(log_ok);
    }
    let g = h.regain(i, v, log);
    regain_grows(h, i, v, log);
    committed_stays(h, g, i, log, t.commit_number as nat, v + 1);
    complete_stays(h, g, i, log, v as int);
    assert(g.log_of(v) == h.log_of(v));
    assert(log_ok(g, i, t)) by {
        reveal(log_ok);
        assert forall|u: ViewNumber| #[trigger] g.acc(i, u) > 0 implies u <= t.last_normal_view by {
            if u != v {
                assert(g.acc(i, u) == h.acc(i, u));
            }
        }
    }
    assert(change_ok(g, i, t)) by {
        reveal(change_ok);
    }
    assert(leads_ok(g, i, t)) by {
        reveal(leads_ok);
    }
    outbox_ok_stays(h, g, i, s);
    same_mail_ok(g, s, t);
    assert(replica_ok(g, i, t));
}

/// A replica fetches the checkpoint that the log it recovers with starts at.
proof fn fetches_to_recover<SM: StateMachine>(
    h: History<SM::Input>,
    i: ReplicaID,
    s: ReplicaModel<SM>,
    from: ReplicaID,
    v: ViewNumber,
    state: RecoveryView<SM::Input>,
)
    requires
        replica_ok(h, i, s),
        s.status == Status::Recovering,
        v >= s.view_number,
        h.config.primary_of(v) != i,
        state.segment.base is Checkpoint,
        h.recovery_ok(i, s.recovery_nonce, v, state.segment, state.commit_number),
    ensures
        replica_ok(
            h,
            i,
            s.start_fetch(from, ResumeView::RecoveryResponse { view_number: v, state }),
        ),
{
    let resume = ResumeView::RecoveryResponse { view_number: v, state };
    let t = s.start_fetch(from, resume);
    assert(outbox_ok(h, t)) by {
        reveal(outbox_ok);
    }
    assert(log_ok(h, i, t)) by {
        reveal(log_ok);
    }
    assert(change_ok(h, i, t)) by {
        reveal(change_ok);
    }
    assert(leads_ok(h, i, t)) by {
        reveal(leads_ok);
    }
}

pub proof fn follows_on_recovery_response<SM: StateMachine>(
    h: History<SM::Input>,
    i: ReplicaID,
    s: ReplicaModel<SM>,
    view_number: ViewNumber,
    nonce: u64,
    replica_id: ReplicaID,
    state: Option<RecoveryView<SM::Input>>,
)
    requires
        h.wf(),
        replica_ok(h, i, s),
        s.inv(),
        message_ok::<SM>(
            h,
            i,
            MessageView::RecoveryResponse { view_number, nonce, replica_id, state },
        ),
        s.on_recovery_response(view_number, nonce, replica_id, state).fits,
    ensures
        follows(h, i, s.on_recovery_response(view_number, nonce, replica_id, state)),
{
    broadcast use crate::replica::ok::group_ok;

    reveal(ReplicaModel::on_recovery_response);
    let t = s.on_recovery_response(view_number, nonce, replica_id, state);
    if s.status != Status::Recovering || nonce != s.recovery_nonce {
        follows_now(h, i, t);
    } else {
        let responses = s.recovery_responses.insert(
            replica_id,
            ResponseView { view_number, state },
        );
        let counted = ReplicaModel { recovery_responses: responses, ..s };
        assert(counted.inv());
        let recovery = h.recovering[i as int]->0;
        let n = s.commit_number as nat;
        assert(s.config == h.config && s.self_id == i && s.commit_number == s.op_number()
            && s.log_start == s.op_number() && h.recovers(i, nonce) && recovery.kept == n && (n >= 1
            ==> h.is_quorum(recovery.quorum))) by {
            reveal(log_ok);
        }
        same_mail_ok(h, s, counted);
        assert(log_ok(h, i, counted)) by {
            reveal(log_ok);
        }
        assert(change_ok(h, i, counted)) by {
            reveal(change_ok);
            assert(responses.dom() =~= s.recovery_responses.dom().insert(replica_id));
        }
        assert(leads_ok(h, i, counted)) by {
            reveal(leads_ok);
        }
        let latest = latest_view(responses);
        let primary_id = s.config.primary_of(latest);
        if responses.dom().len() < s.config.quorum() || latest < s.view_number
            || !responses.contains_key(primary_id) || responses[primary_id].state is None
            || responses[primary_id].view_number != latest {
            follows_now(h, i, t);
        } else {
            let taken = responses[primary_id].state->0;
            let next = ReplicaModel { recovery_responses: Map::empty(), ..counted };
            assert(next.inv());
            same_mail_ok(h, s, next);
            assert(log_ok(h, i, next)) by {
                reveal(log_ok);
            }
            assert(change_ok(h, i, next)) by {
                reveal(change_ok);
            }
            assert(leads_ok(h, i, next)) by {
                reveal(leads_ok);
            }
            assert(h.recovery_ok(i, nonce, latest, taken.segment, taken.commit_number)
                && primary_id != i) by {
                reveal(change_ok);
            }
            let (installing, installed) = next.install_segment_from_commit(taken.segment);
            match installed {
                InstalledView::Log => {
                    let log = choose|log: Seq<LogEntry<SM::Input>>|
                        #![trigger h.regular(log, latest)]
                        {
                            &&& h.regular(log, latest)
                            &&& h.committed(log, taken.commit_number as nat, latest + 1)
                            &&& h.segment_ok(log, taken.segment, taken.commit_number)
                            &&& h.recovers(i, nonce) ==> {
                                &&& h.acc(i, latest) <= log.len()
                                &&& h.has_kept(recovery, latest, log)
                            }
                        };
                    if n >= 1 {
                        latest_knows_kept(h, i, counted);
                    }
                    assert(h.committed(log, n, latest + 1)) by {
                        reveal(History::committed);
                    }
                    recovers(h, i, s, next, latest, taken, log);
                },
                InstalledView::Checkpoint => {
                    fetches_to_recover(h, i, next, primary_id, latest, taken);
                    follows_now(h, i, t);
                },
                InstalledView::Nothing => {},
            }
        }
    }
}

/// Of a quorum that answered a recovery, somebody knows what the recovery
/// keeps.
proof fn latest_knows_kept<SM: StateMachine>(
    h: History<SM::Input>,
    i: ReplicaID,
    s: ReplicaModel<SM>,
)
    requires
        h.wf(),
        replica_ok(h, i, s),
        s.status == Status::Recovering,
        s.recovery_responses.dom().len() >= h.config.quorum(),
        s.commit_number >= 1,
    ensures
        (h.recovering[i as int]->0).view_number <= latest_view(s.recovery_responses),
{
    reveal(log_ok);
    reveal(change_ok);
    let recovery = h.recovering[i as int]->0;
    let responses = s.recovery_responses;
    let answered = responses.dom();
    quorums_intersect(h.config, recovery.quorum, answered);
    let q = choose|q: ReplicaID| recovery.quorum.contains(q) && answered.contains(q);
    assert(h.knows_kept(recovery, q, responses[q].view_number));
    latest_is_latest(responses, q);
}

/// The log of a view has what a recovery keeps of an earlier one.
proof fn primary_has_kept<Op>(h: History<Op>, v: ViewNumber, recovery: Recovery)
    requires
        h.wf(),
        h.started(v),
        h.kept_chosen(recovery),
    ensures
        h.has_kept(recovery, v, h.log_of(v)),
{
    let (n, u) = (recovery.kept, recovery.view_number);
    if n >= 1 && u <= v {
        reveal(History::committed);
        reveal(History::complete);
        declared_is_chosen(h, u, n);
        if u < v {
            chosen_is_not_blocked(h, u, n);
            assert(h.settles(h.log_of(v), u, n));
        }
        assert(h.has(h.log_of(v), u, n));
        assert(h.declares(u, n));
    }
}

/// A replica restores a checkpoint and recovers with the log that starts at
/// it.
pub proof fn restores_to_recover<SM: StateMachine>(
    h: History<SM::Input>,
    i: ReplicaID,
    s: ReplicaModel<SM>,
    op_number: OpNumber,
    v: ViewNumber,
    state: RecoveryView<SM::Input>,
)
    requires
        h.wf(),
        replica_ok(h, i, s),
        s.inv(),
        s.status == Status::Recovering,
        v >= s.view_number,
        h.config.primary_of(v) != i,
        h.recovery_ok(i, s.recovery_nonce, v, state.segment, state.commit_number),
        state.segment.base is Checkpoint,
        state.segment.start() == op_number,
        op_number > s.commit_number,
        s.restore_checkpoint(op_number).recover_into(v, state).fits,
    ensures
        follows(h, i, s.restore_checkpoint(op_number).recover_into(v, state)),
{
    let log = choose|log: Seq<LogEntry<SM::Input>>|
        #![trigger h.regular(log, v)]
        {
            &&& h.regular(log, v)
            &&& h.committed(log, state.commit_number as nat, v + 1)
            &&& h.segment_ok(log, state.segment, state.commit_number)
            &&& h.recovers(i, s.recovery_nonce) ==> {
                &&& h.acc(i, v) <= log.len()
                &&& h.has_kept(h.recovering[i as int]->0, v, log)
            }
        };
    assert(h.recovers(i, s.recovery_nonce)) by {
        reveal(log_ok);
    }
    let restored = s.restore_checkpoint(op_number);
    crate::replica::ok::ok_recover_into(restored, v, state);
    crate::replica::keeps::keep_restore_checkpoint(s, op_number);
    committed_less(h, log, state.commit_number as nat, op_number as nat, v + 1);
    recovers(h, i, s, restored, v, state, log);
}

pub proof fn follows_on_recovery<SM: StateMachine>(
    h: History<SM::Input>,
    i: ReplicaID,
    s: ReplicaModel<SM>,
    replica_id: ReplicaID,
    nonce: u64,
    view_number: ViewNumber,
)
    requires
        h.wf(),
        replica_ok(h, i, s),
        s.inv(),
        message_ok::<SM>(h, i, MessageView::Recovery { replica_id, nonce, view_number }),
        s.on_recovery(replica_id, nonce, view_number).fits,
    ensures
        follows(h, i, s.on_recovery(replica_id, nonce, view_number)),
{
    reveal(ReplicaModel::on_recovery);
    let t = s.on_recovery(replica_id, nonce, view_number);
    if view_number > s.view_number && s.status != Status::Recovering {
        assert(stands(h, i, s)) by {
            reveal(log_ok);
        }
        asks_for_view(h, i, s, view_number);
        assert(replica_ok(h.move_to(i, view_number), i, t));
    } else if s.status != Status::Normal {
        follows_now(h, i, t);
    } else {
        let log = h.logs[i as int];
        let v = s.view_number;
        let (next, segment) = if s.is_primary() {
            s.segment_from(0)
        } else {
            (s, s.whole_log())
        };
        let state = if s.is_primary() {
            Some(RecoveryView { segment, commit_number: s.commit_number })
        } else {
            None
        };
        assert(s.config == h.config && s.self_id == i && log.len() == s.op_number() && log.skip(
            s.log_start as int,
        ) == s.log && s.commit_number <= log.len() && h.regular(log, v) && h.committed(
            log,
            s.commit_number as nat,
            v + 1,
        ) && (s.is_primary() ==> log == h.log_of(v))) by {
            reveal(log_ok);
            committed_length(h, log, s.commit_number as nat, v + 1);
        }
        let message = MessageView::<SM::Input, SM::Query, SM::Chunk>::RecoveryResponse {
            view_number: v,
            nonce,
            replica_id: i,
            state,
        };
        if s.is_primary() {
            assert(h.segment_ok(log, segment, s.commit_number)) by {
                super::transfer::log_from_is(s, log, segment.start());
            }
            assert(h.acc(replica_id, v) <= h.log_of(v).len());
            if h.recovers(replica_id, nonce) {
                primary_has_kept(h, v, h.recovering[replica_id as int]->0);
            }
            assert(h.recovery_ok(replica_id, nonce, v, segment, s.commit_number));
        }
        if h.recovers(replica_id, nonce) {
            let recovery = h.recovering[replica_id as int]->0;
            if recovery.kept >= 1 && recovery.quorum.contains(i) {
                let u = recovery.view_number;
                assert(h.ack(i, u) >= recovery.kept);
                assert(h.acc(i, u) >= h.ack(i, u));
                assert(u <= v) by {
                    reveal(log_ok);
                }
            }
        }
        assert(i < h.config.size()) by {
            reveal(log_ok);
        }
        assert(message_ok::<SM>(h, replica_id, message));
        same_mail_ok(h, s, next);
        send_ok(h, next, replica_id, message);
        same_core_ok(h, i, s, t);
        follows_now(h, i, t);
    }
}

/// A replica that recovers asks the others for their state.
pub proof fn asks_to_recover<SM: StateMachine>(
    h: History<SM::Input>,
    i: ReplicaID,
    s: ReplicaModel<SM>,
)
    requires
        replica_ok(h, i, s),
        s.inv(),
        s.status == Status::Recovering,
    ensures
        replica_ok(h, i, s.send_recovery()),
{
    let message = MessageView::<SM::Input, SM::Query, SM::Chunk>::Recovery {
        replica_id: s.self_id,
        nonce: s.recovery_nonce,
        view_number: s.view_number,
    };
    assert(s.self_id == i && i < h.config.size() && h.used.contains((i, s.recovery_nonce))
        && h.kept_chosen(h.recovering[i as int]->0)) by {
        reveal(log_ok);
    }
    assert forall|to: ReplicaID| to != i implies #[trigger] message_ok::<SM>(h, to, message) by {}
    let answered = s.recovery_responses.dom();
    letters_ok::<SM>(h, s.config, s.self_id, s.config.size(), all_but(s.self_id, message));
    letters_ok::<SM>(
        h,
        s.config,
        s.self_id,
        s.config.size(),
        to_unanswered(s.self_id, answered, message),
    );
    letters_are::<SM>(s.config.size(), all_but(s.self_id, message), message);
    letters_are::<SM>(s.config.size(), to_unanswered(s.self_id, answered, message), message);
    assert(outbox_ok(h, s.send_recovery())) by {
        reveal(outbox_ok);
    }
    same_core_ok(h, i, s, s.send_recovery());
}

} // verus!
