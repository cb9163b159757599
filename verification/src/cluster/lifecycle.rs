use vstd::prelude::*;
use super::branches::branch_ok;
use super::changes::asks_for_view;
use super::history::{
    committed_extends, committed_length, committed_less, committed_stays, complete_extends, complete_is_ordered,
    complete_stays, prefix, prefix_refl, prefix_take, prefix_trans, History, Recovery,
};
use super::moves::{cut_grew, grows_refl, lose_grows};
use super::normal::{quiet, same_core};
use super::outbox::{same_mail, same_mail_ok};
use super::recovery::asks_to_recover;
use super::rests::{back_as, can_come_back, held_ok, held_stays, holds_log, later, rests, write_ok};
use super::stays::kept_stays;
use super::safety::{acks_ok, change_ok, leads_ok, log_ok, outbox_ok, replica_ok, stands};
use crate::config::ConfigView;
use crate::ids::{OpNumber, ReplicaID, ViewNumber};
use crate::log::{LogEntry, PersistentView};
use crate::replica::frames::frame_apply_committed;
use crate::replica::keeps::{
    goes_on, keep_apply_committed, keep_start_next_view, keep_start_view_change,
};
use crate::replica::life::{come_back_executed, loaded};
use crate::replica::ok::{group_ok, ok_start_next_view, ok_start_view_change};
use crate::replica::model::ReplicaModel;
use crate::replica::parts::{DoViewChangeView, Status};
use crate::state_machine::StateMachine;

verus! {

/// A replica that has done nothing has sent nothing.
pub proof fn init_ok<SM: StateMachine>(
    h: History<SM::Input>,
    i: ReplicaID,
    config: ConfigView,
    machine: SM::State,
)
    requires
        h.config == config,
        i < config.size(),
        config.is_cluster(),
    ensures
        outbox_ok(h, ReplicaModel::<SM>::init(i, config, machine)),
        ReplicaModel::<SM>::init(i, config, machine).inv(),
{
    reveal(outbox_ok);
}

/// A recovery with nothing kept.
pub open spec fn bare_recovery(nonce: u64) -> Recovery {
    Recovery { nonce, kept: 0, view_number: 0, quorum: Set::empty() }
}

/// A replica recovers, with what its state machine keeps of a checkpoint.
proof fn starts_recovery<SM: StateMachine>(
    h: History<SM::Input>,
    i: ReplicaID,
    shown: PersistentView<SM::Input>,
    base: ReplicaModel<SM>,
    recovery: Recovery,
    log: Seq<LogEntry<SM::Input>>,
)
    requires
        h.wf(),
        rests(h, i, shown),
        base.view_number >= shown.view_number,
        !h.used.contains((i, recovery.nonce)),
        h.kept_ok(recovery, log),
        outbox_ok(h, ReplicaModel::<SM>::init(i, h.config, base.machine)),
        base == (ReplicaModel {
            status: Status::Recovering,
            view_number: base.view_number,
            recovery_nonce: recovery.nonce,
            applied: base.applied,
            log_start: base.log_start,
            commit_number: base.commit_number,
            ..ReplicaModel::<SM>::init(i, h.config, base.machine)
        }),
        base.commit_number == log.len(),
        base.log_start == log.len(),
        base.applied == log.len(),
        log.len() < usize::MAX,
    ensures
        ({
            let g = h.lose(i, base.view_number, recovery, log);
            &&& h.grows(g, i)
            &&& g.wf()
            &&& replica_ok(g, i, base.send_recovery())
            &&& base.inv()
        }),
{
    let v = base.view_number;
    let g = h.lose(i, v, recovery, log);
    lose_grows(h, i, v, recovery, log);
    kept_stays(h, g, i, recovery, log);
    assert(outbox_ok(g, base)) by {
        reveal(outbox_ok);
    }
    assert(log_ok(g, i, base)) by {
        reveal(log_ok);
        assert(log.skip(log.len() as int) =~= base.log);
        assert forall|u: ViewNumber| #[trigger] g.acc(i, u) > 0 implies u <= v by {
            assert(g.acc(i, u) == h.acc(i, u));
        }
    }
    assert(change_ok(g, i, base)) by {
        reveal(change_ok);
    }
    assert(leads_ok(g, i, base)) by {
        reveal(leads_ok);
    }
    assert(base.inv());
    asks_to_recover(g, i, base);
}

/// A replica comes back with nothing but its view.
pub proof fn follows_recover<SM: StateMachine>(
    h: History<SM::Input>,
    i: ReplicaID,
    shown: PersistentView<SM::Input>,
    machine: SM::State,
    v: ViewNumber,
    nonce: u64,
)
    requires
        h.wf(),
        rests(h, i, shown),
        v >= shown.view_number,
        !h.used.contains((i, nonce)),
    ensures
        ({
            let g = h.lose(i, v, bare_recovery(nonce), Seq::empty());
            let t = ReplicaModel::<SM>::recover(i, h.config, machine, v, nonce);
            &&& h.grows(g, i)
            &&& g.wf()
            &&& replica_ok(g, i, t)
            &&& t.inv()
        }),
{
    let none = Seq::<LogEntry<SM::Input>>::empty();
    let base = ReplicaModel {
        status: Status::Recovering,
        view_number: v,
        recovery_nonce: nonce,
        ..ReplicaModel::<SM>::init(i, h.config, machine)
    };
    init_ok::<SM>(h, i, h.config, machine);
    starts_recovery(h, i, shown, base, bare_recovery(nonce), none);
}

/// Whether replica `i` is back as `t` from `state`, of `log`: the others may
/// know it as `shown` in history `g`, and it is in history `f`.
pub open spec fn back_ok<SM: StateMachine>(
    h: History<SM::Input>,
    g: History<SM::Input>,
    f: History<SM::Input>,
    i: ReplicaID,
    t: ReplicaModel<SM>,
    state: PersistentView<SM::Input>,
    shown: PersistentView<SM::Input>,
    log: Seq<LogEntry<SM::Input>>,
    used: Set<(ReplicaID, u64)>,
) -> bool {
    &&& h.grew(g, i)
    &&& g.moment == h.moment
    &&& g.wf()
    &&& g.used == used
    &&& rests(g, i, shown)
    &&& write_ok(g, i, shown, state, log)
    &&& branch_ok(g, f, i)
    &&& replica_ok(f, i, t)
    &&& t.inv()
    &&& later(shown, t.persistent_state())
    &&& t.outbox_waiting.len() == 0
    &&& t.outbox_ready.len() == 0
    &&& t.outstanding is None
}

/// What a replica comes back with in its view stands: `log`, or what its
/// state machine has executed if that is more.
proof fn stands_cut<SM: StateMachine>(
    h: History<SM::Input>,
    i: ReplicaID,
    shown: PersistentView<SM::Input>,
    state: PersistentView<SM::Input>,
    applied: OpNumber,
    x: ReplicaModel<SM>,
    log: Seq<LogEntry<SM::Input>>,
    back: Seq<LogEntry<SM::Input>>,
)
    requires
        h.wf(),
        rests(h, i, shown),
        !shown.recovering,
        shown.last_normal_view == shown.view_number,
        prefix(log, h.logs[i as int]),
        h.complete(log, shown.view_number as int),
        h.ack(i, shown.view_number) <= log.len(),
        prefix(log, back),
        prefix(back, h.logs[i as int]),
        h.committed(h.logs[i as int], x.commit_number as nat, shown.view_number + 1),
        x.commit_number <= back.len(),
        x.self_id == i,
        x.config == h.config,
        x.status == Status::Normal,
        x.view_number == shown.view_number,
        x.last_normal_view == shown.view_number,
        x.log == back.skip(x.log_start as int),
        x.op_number() == back.len(),
        holds_log(state, log),
        holds_log(back_as(state, applied), back),
        state.view_number == shown.view_number,
        state.last_normal_view == shown.view_number,
        !state.recovering,
        state.commit_number <= x.commit_number,
        back_as(state, applied).commit_number == x.commit_number,
        held_ok(h, i, state, log),
    ensures
        h.grew(h.cut(i, back), i),
        h.cut(i, back).wf(),
        stands(h.cut(i, back), i, x),
        rests(h.cut(i, back), i, back_as(state, applied)),
        write_ok(h.cut(i, back), i, back_as(state, applied), state, log),
{
    let v = shown.view_number;
    let g = h.cut(i, back);
    let n = x.commit_number as nat;
    let mine = h.logs[i as int];
    cut_grew(h, i, back);
    prefix_take(back, mine, n as int);
    committed_extends(h, mine, back, n, v + 1, v + 1);
    committed_stays(h, g, i, back, n, v + 1);
    complete_stays(h, g, i, log, v as int);
    complete_stays(h, g, i, mine, v as int);
    complete_is_ordered(g, mine, back, v as int);
    complete_extends(g, log, back, v as int);
    prefix_trans(back, mine, h.log_of(v));
    assert(g.log_of(v) == h.log_of(v));
    assert forall|u: ViewNumber| #[trigger] g.ack(i, u) == h.ack(i, u) by {}
    held_stays(h, g, i, i, state, log);
    assert forall|u: ViewNumber| #[trigger] g.acc(i, u) > 0 implies u <= x.last_normal_view by {
        if u != v {
            assert(g.acc(i, u) == h.acc(i, u));
        }
    }
}

/// A replica that was changing views comes back in the same change.
proof fn comes_back_changing<SM: StateMachine>(
    h: History<SM::Input>,
    i: ReplicaID,
    shown: PersistentView<SM::Input>,
    state: PersistentView<SM::Input>,
    applied: OpNumber,
    x: ReplicaModel<SM>,
    log: Seq<LogEntry<SM::Input>>,
    t: ReplicaModel<SM>,
)
    requires
        h.wf(),
        rests(h, i, shown),
        !shown.recovering,
        shown.last_normal_view < shown.view_number,
        log == h.logs[i as int],
        h.committed(log, x.commit_number as nat, shown.view_number as int),
        x.self_id == i,
        x.config == h.config,
        x.status == Status::Normal,
        x.view_number == shown.view_number,
        x.last_normal_view == shown.last_normal_view,
        x.log == log.skip(x.log_start as int),
        x.op_number() == log.len(),
        outbox_ok(h, x),
        x.acked.len() == h.config.size(),
        x.inv(),
        x.do_view_change_from == Map::<ReplicaID, DoViewChangeView<SM::Input>>::empty(),
        x.catching_up is None,
        x.fetch is None,
        !x.do_view_change_sent,
        x.view_change_attempts == 0,
        x.outbox_waiting.len() == 0,
        x.outbox_ready.len() == 0,
        x.outstanding is None,
        holds_log(state, log),
        state.view_number == shown.view_number,
        state.last_normal_view == shown.last_normal_view,
        !state.recovering,
        state.commit_number <= x.commit_number,
        applied <= state.end(),
        back_as(state, applied).commit_number == x.commit_number,
        held_ok(h, i, state, log),
        t == x.start_view_change(shown.view_number),
        t.fits,
    ensures
        back_ok(
            h,
            h,
            h.move_to(i, shown.view_number),
            i,
            t,
            state,
            back_as(state, applied),
            log,
            h.used,
        ),
{
    broadcast use {
        group_ok,
        keep_start_view_change,
    };

    let v = shown.view_number;
    let w = ReplicaModel { status: Status::ViewChange, ..x };
    same_mail_ok(h, x, w);
    assert(change_ok(h, i, w)) by {
        reveal(change_ok);
    }
    assert(w.inv());
    let again = w.start_view_change(v);
    keep_start_view_change(x, v);
    assert(t.fits ==> again.fits);
    asks_for_view(h, i, w, v);
    let g = h.move_to(i, v);
    quiet(g, i, again, t);
    grows_refl(h, i);
    committed_length(h, log, x.commit_number as nat, v as int);
    reveal(goes_on);
}

/// A replica that was recovering recovers anew, with what its state machine
/// keeps of a checkpoint.
pub proof fn follows_restart_of_recovery<SM: StateMachine>(
    h: History<SM::Input>,
    i: ReplicaID,
    shown: PersistentView<SM::Input>,
    machine: SM::State,
    applied: OpNumber,
    state: PersistentView<SM::Input>,
    written: Seq<LogEntry<SM::Input>>,
    recovery: Recovery,
    log: Seq<LogEntry<SM::Input>>,
) -> (to: (History<SM::Input>, History<SM::Input>))
    requires
        h.wf(),
        rests(h, i, shown),
        shown.recovering,
        state.recovering,
        state.view_number == shown.view_number,
        state.last_normal_view == shown.last_normal_view,
        state.log_start <= applied,
        holds_log(state, written),
        state.log_start == written.len(),
        !h.used.contains((i, recovery.nonce)),
        h.kept_ok(recovery, log),
        log.len() == applied,
        applied < usize::MAX,
    ensures
        back_ok(
            h,
            to.0,
            to.1,
            i,
            ReplicaModel::<SM>::restart(i, h.config, machine, applied, state, recovery.nonce),
            state,
            back_as(state, applied),
            written,
            h.used.insert((i, recovery.nonce)),
        ),
{
    broadcast use frame_apply_committed;

    reveal(ReplicaModel::restart);
    let v = shown.view_number;
    let nonce = recovery.nonce;
    let t = ReplicaModel::<SM>::restart(i, h.config, machine, applied, state, nonce);
    let base = ReplicaModel {
        status: Status::Recovering,
        view_number: v,
        recovery_nonce: nonce,
        applied,
        log_start: applied,
        commit_number: applied,
        ..ReplicaModel::<SM>::init(i, h.config, machine)
    };
    init_ok::<SM>(h, i, h.config, machine);
    starts_recovery(h, i, shown, base, recovery, log);
    let g = h.lose(i, v, recovery, log);
    let r = base.send_recovery();
    assert(same_core(r, t));
    assert(same_mail(r, t));
    quiet(g, i, r, t);
    grows_refl(g, i);
    kept_stays(h, g, i, recovery, log);
    assert(log.skip(log.len() as int) =~= Seq::<LogEntry<SM::Input>>::empty());
    assert(written.skip(written.len() as int) =~= Seq::<LogEntry<SM::Input>>::empty());
    assert(holds_log(back_as(state, applied), log));
    assert forall|u: ViewNumber| #[trigger] g.acc(i, u) > 0 implies u <= v by {
        assert(g.acc(i, u) == h.acc(i, u));
    }
    assert(t.inv()) by {
        let ready = loaded::<SM>(i, h.config, machine, applied, state, nonce);
        assert(ready.inv());
        keep_apply_committed(ready, ready.op_number());
    }
    (g, g)
}

/// A replica comes back with what it has written.
#[verifier::rlimit(30)]
pub proof fn follows_restart<SM: StateMachine>(
    h: History<SM::Input>,
    i: ReplicaID,
    shown: PersistentView<SM::Input>,
    machine: SM::State,
    applied: OpNumber,
    state: PersistentView<SM::Input>,
    log: Seq<LogEntry<SM::Input>>,
    nonce: u64,
) -> (to: (History<SM::Input>, History<SM::Input>))
    requires
        h.wf(),
        rests(h, i, shown),
        can_come_back(shown, state, shown.commit_number, applied),
        !shown.recovering,
        holds_log(state, log),
        held_ok(h, i, state, log),
        state.commit_number <= shown.commit_number,
        shown.last_normal_view < shown.view_number ==> log == h.logs[i as int],
        shown.last_normal_view == shown.view_number ==> {
            &&& prefix(log, h.logs[i as int])
            &&& h.complete(log, shown.view_number as int)
            &&& h.ack(i, shown.view_number) <= log.len()
        },
        ReplicaModel::<SM>::restart(i, h.config, machine, applied, state, nonce).fits,
    ensures
        back_ok(
            h,
            to.0,
            to.1,
            i,
            ReplicaModel::<SM>::restart(i, h.config, machine, applied, state, nonce),
            state,
            back_as(state, applied),
            log,
            h.used,
        ),
{
    broadcast use {
        frame_apply_committed,
        ok_start_view_change,
        ok_start_next_view,
        keep_start_view_change,
        keep_start_next_view,
    };

    reveal(ReplicaModel::restart);
    let t = ReplicaModel::<SM>::restart(i, h.config, machine, applied, state, nonce);
    let x = come_back_executed::<SM>(i, h.config, machine, applied, state, nonce);
    let mine = h.logs[i as int];
    let v = shown.view_number;
    assert(x.inv()) by {
        let ready = loaded::<SM>(i, h.config, machine, applied, state, nonce);
        assert(ready.inv());
        keep_apply_committed(ready, ready.op_number());
    }
    init_ok::<SM>(h, i, h.config, machine);
    let fresh = ReplicaModel::<SM>::init(i, h.config, machine);
    let n = shown.commit_number as nat;
    let c = x.commit_number as nat;
    same_mail_ok(h, fresh, x);
    let held = if applied > log.len() {
        mine.take(applied as int)
    } else {
        log
    };
    assert(x.log == held.skip(x.log_start as int)) by {
        if applied > state.commit_number {
            assert(x.log =~= held.skip(x.log_start as int));
        }
    }
    if shown.last_normal_view < v {
        committed_less(h, mine, n, c, v as int);
        comes_back_changing(h, i, shown, state, applied, x, log, t);
        (h, h.move_to(i, v))
    } else {
        committed_less(h, mine, n, c, v + 1);
        let g = h.cut(i, held);
        assert(prefix(log, held) && prefix(held, mine)) by {
            prefix_refl(log);
            if applied > log.len() {
                assert(mine.take(applied as int).take(log.len() as int) =~= mine.take(
                    log.len() as int,
                ));
                assert(mine.take(held.len() as int) == held);
            }
        }
        assert(holds_log(back_as(state, applied), held)) by {
            if applied > log.len() {
                assert(held.skip(applied as int) =~= Seq::<LogEntry<SM::Input>>::empty());
            }
        }
        stands_cut(h, i, shown, state, applied, x, log, held);
        init_ok::<SM>(g, i, h.config, machine);
        same_mail_ok(g, fresh, x);
        grows_refl(g, i);
        if x.is_primary() {
            let checked = x.check(x.view_number < usize::MAX);
            let next = (x.view_number + 1) as ViewNumber;
            assert(t == checked.start_view_change(next));
            same_mail_ok(g, x, checked);
            assert(checked.inv());
            asks_for_view(g, i, checked, next);
            assert(t.last_normal_view == x.last_normal_view && t.commit_number >= x.commit_number) by {
                reveal(goes_on);
            }
            (g, g.move_to(i, next))
        } else {
            assert(log_ok(g, i, x)) by {
                reveal(log_ok);
            }
            assert(change_ok(g, i, x)) by {
                reveal(change_ok);
            }
            assert(leads_ok(g, i, x)) by {
                reveal(leads_ok);
            }
            assert(acks_ok(g, x));
            (g, g)
        }
    }
}

} // verus!
