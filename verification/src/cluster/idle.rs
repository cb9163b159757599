use vstd::prelude::*;
use super::changes::{asks_for_view, reports};
use super::history::History;
use super::moves::grows_refl;
use super::normal::{asks_for_state, counts_ack, follows_now, quiet, same_core_ok};
use super::outbox::{same_mail_ok, send_each_early_ok, send_ok, send_to_others_ok};
use super::recovery::asks_to_recover;
use super::safety::{
    change_ok, follows, leads_ok, log_ok, message_ok, outbox_ok, replica_ok, stands,
};
use crate::ids::{OpNumber, ReplicaID, ViewNumber};
use crate::message::MessageView;
use crate::replica::frames::frame_apply_committed;
use crate::replica::model::{min, to_unacked, to_unconfirmed, ReplicaModel};
use crate::replica::parts::Status;
use crate::state_machine::StateMachine;

verus! {

/// An idle period of the fetch under way.
proof fn fetch_idles<SM: StateMachine>(h: History<SM::Input>, i: ReplicaID, s: ReplicaModel<SM>)
    requires
        replica_ok(h, i, s),
    ensures
        replica_ok(h, i, s.fetch_on_idle().0),
        s.fetch_on_idle().0.status == s.status,
        s.fetch_on_idle().0.view_number == s.view_number,
        s.fetch_on_idle().0.config == s.config,
        s.fetch_on_idle().0.self_id == s.self_id,
        s.fetch_on_idle().0.catching_up == s.catching_up,
        s.fetch_on_idle().0.do_view_change_sent == s.do_view_change_sent,
{
    let t = s.fetch_on_idle().0;
    assert(outbox_ok(h, t)) by {
        reveal(outbox_ok);
    }
    assert(log_ok(h, i, t)) by {
        reveal(log_ok);
    }
    assert(change_ok(h, i, t)) by {
        reveal(change_ok);
    }
    assert(leads_ok(h, i, t)) by {
        reveal(leads_ok);
    }
}

/// An idle period of the primary.
proof fn primary_idles<SM: StateMachine>(h: History<SM::Input>, i: ReplicaID, s: ReplicaModel<SM>)
    requires
        h.wf(),
        replica_ok(h, i, s),
        s.inv(),
        s.leads(),
    ensures
        replica_ok(h, i, s.primary_on_idle()),
{
    let v = s.view_number;
    let c = s.commit_number;
    let log = h.logs[i as int];
    let noted = s.note_stable();
    let commit = MessageView::<SM::Input, SM::Query, SM::Chunk>::Commit {
        view_number: v,
        commit_number: c,
    };
    assert(s.config == h.config && s.self_id == i && h.started(v) && log == h.log_of(v)
        && log.len() == s.op_number() && log.skip(s.log_start as int) == s.log && h.committed(
        log,
        c as nat,
        v + 1,
    ) && h.config.primary_of(v) == i) by {
        reveal(log_ok);
    }
    quiet(h, i, s, noted);
    assert forall|to: ReplicaID|
        to < noted.config.size() && to != noted.self_id implies #[trigger] message_ok::<SM>(
        h,
        to,
        commit,
    ) by {}
    send_to_others_ok(h, noted, commit);
    let told = noted.send_to_others(commit);
    let due = min(s.resend_up_to as int, s.op_number());
    let kept = ReplicaModel { resend_up_to: s.op_number() as OpNumber, ..told };
    same_mail_ok(h, told, kept);
    let prepare = MessageView::<SM::Input, SM::Query, SM::Chunk>::Prepare {
        view_number: v,
        op_number: due as OpNumber,
        entry: s.entry(due),
        commit_number: c,
    };
    let letter = to_unacked(i, s.acked, due as OpNumber, prepare);
    let resent = if due > c {
        kept.send_each_early(letter)
    } else {
        kept
    };
    if due > c {
        assert(h.log_of(v)[due - 1] == s.entry(due)) by {
            assert(log.skip(s.log_start as int)[due - s.log_start - 1] == log[due - 1]);
        }
        assert forall|to: ReplicaID|
            to < kept.config.size() && (#[trigger] letter(to)) is Some implies message_ok::<SM>(
            h,
            to,
            letter(to)->0,
        ) by {}
        send_each_early_ok(h, kept, letter);
    }
    if s.round > s.round_confirmed {
        let message = MessageView::<SM::Input, SM::Query, SM::Chunk>::ConfirmView {
            view_number: v,
            round: s.round,
        };
        assert(h.rounds_of(v) == s.round) by {
            reveal(leads_ok);
        }
        let unconfirmed = to_unconfirmed(s.confirmed, s.round, message);
        assert forall|to: ReplicaID|
            to < resent.config.size() && (#[trigger] unconfirmed(to)) is Some implies message_ok::<
            SM,
        >(h, to, unconfirmed(to)->0) by {}
        send_each_early_ok(h, resent, unconfirmed);
    }
    same_core_ok(h, i, s, s.primary_on_idle());
}

/// A replica gives up on its view.
pub proof fn asks_for_next_view<SM: StateMachine>(
    h: History<SM::Input>,
    i: ReplicaID,
    s: ReplicaModel<SM>,
)
    requires
        h.wf(),
        stands(h, i, s),
        outbox_ok(h, s),
        s.acked.len() == h.config.size(),
        s.inv(),
        s.status != Status::Recovering,
        s.start_next_view().fits,
    ensures
        follows(h, i, s.start_next_view()),
{
    let checked = s.check(s.view_number < usize::MAX);
    let v = (s.view_number + 1) as ViewNumber;
    crate::replica::ok::ok_start_view_change(checked, v);
    same_mail_ok(h, s, checked);
    assert(checked.inv());
    asks_for_view(h, i, checked, v);
    assert(replica_ok(h.move_to(i, v), i, s.start_next_view()));
}

/// An idle period of a replica that follows a primary.
proof fn backup_idles<SM: StateMachine>(h: History<SM::Input>, i: ReplicaID, s: ReplicaModel<SM>)
    requires
        h.wf(),
        replica_ok(h, i, s),
        s.inv(),
        s.status == Status::Normal && !s.is_primary() || s.status == Status::StateTransfer,
        s.backup_on_idle().fits,
    ensures
        follows(h, i, s.backup_on_idle()),
{
    let t = s.backup_on_idle();
    let (fetched, under_way) = s.fetch_on_idle();
    let asked = if s.status == Status::StateTransfer {
        if under_way {
            fetched
        } else {
            fetched.state_transfer()
        }
    } else {
        s
    };
    assert(asked.inv() && replica_ok(h, i, asked)) by {
        if s.status == Status::StateTransfer {
            fetch_idles(h, i, s);
            assert(!s.is_primary()) by {
                reveal(log_ok);
            }
            assert(fetched.inv());
            if !under_way {
                asks_for_state(h, i, fetched);
                assert(asked.inv());
            }
        }
    }
    let next = ReplicaModel { heard_from_primary: false, ..asked };
    if asked.heard_from_primary {
        quiet(h, i, asked, t);
        follows_now(h, i, t);
    } else {
        let (waited, timed_out) = ReplicaModel { idle_periods_stable: 0, ..next }.wait_timed_out();
        quiet(h, i, asked, waited);
        if timed_out {
            assert(waited.inv());
            assert(stands(h, i, waited)) by {
                reveal(log_ok);
            }
            asks_for_next_view(h, i, waited);
        } else {
            follows_now(h, i, t);
        }
    }
}

/// An idle period of a replica that changes views.
#[verifier::spinoff_prover]
proof fn view_change_idles<SM: StateMachine>(
    h: History<SM::Input>,
    i: ReplicaID,
    s: ReplicaModel<SM>,
)
    requires
        h.wf(),
        replica_ok(h, i, s),
        s.inv(),
        s.status == Status::ViewChange,
        s.view_change_on_idle().fits,
    ensures
        follows(h, i, s.view_change_on_idle()),
{
    let t = s.view_change_on_idle();
    let (waited, timed_out) = s.wait_timed_out();
    quiet(h, i, s, waited);
    assert(waited.inv());
    if timed_out {
        assert(stands(h, i, waited)) by {
            reveal(log_ok);
        }
        asks_for_next_view(h, i, waited);
    } else {
        let (fetched, under_way) = waited.fetch_on_idle();
        assert(s.config == h.config && s.self_id == i) by {
            reveal(log_ok);
        }
        let asked = if waited.catching_up is Some {
            if under_way {
                fetched
            } else {
                fetched.send_get_state_to(waited.catching_up->0, s.commit_number)
            }
        } else {
            waited
        };
        assert(replica_ok(h, i, asked) && asked.inv()) by {
            if waited.catching_up is Some {
                fetch_idles(h, i, waited);
                assert(fetched.inv());
                if !under_way {
                    let from = waited.catching_up->0;
                    assert(h.may_ask(from, i, s.view_number)) by {
                        reveal(change_ok);
                    }
                    send_ok(
                        h,
                        fetched,
                        from,
                        MessageView::GetState {
                            replica_id: i,
                            view_number: s.view_number,
                            op_number: s.commit_number,
                        },
                    );
                    same_core_ok(h, i, fetched, asked);
                }
            }
        }
        let message = MessageView::<SM::Input, SM::Query, SM::Chunk>::StartViewChange {
            view_number: s.view_number,
            replica_id: i,
        };
        let told = if asked.catching_up is None || asked.do_view_change_sent {
            asked.send_to_others(message)
        } else {
            asked
        };
        assert(replica_ok(h, i, told) && told.inv()) by {
            if asked.catching_up is None || asked.do_view_change_sent {
                assert forall|to: ReplicaID|
                    to < asked.config.size() && to != asked.self_id implies #[trigger] message_ok::<
                    SM,
                >(h, to, message) by {}
                send_to_others_ok(h, asked, message);
                same_core_ok(h, i, asked, told);
            }
        }
        if told.do_view_change_sent && told.catching_up is None {
            reports(h, i, told);
        } else {
            follows_now(h, i, t);
        }
    }
}

#[verifier::spinoff_prover]
#[verifier::rlimit(40)]
pub proof fn follows_on_idle<SM: StateMachine>(
    h: History<SM::Input>,
    i: ReplicaID,
    s: ReplicaModel<SM>,
)
    requires
        h.wf(),
        replica_ok(h, i, s),
        s.inv(),
        s.on_idle().fits,
    ensures
        follows(h, i, s.on_idle()),
{
    reveal(ReplicaModel::on_idle);
    let served = s.serve_on_idle();
    quiet(h, i, s, served);
    assert(served.inv());
    match s.status {
        Status::Normal => {
            if s.is_primary() {
                primary_idles(h, i, served);
                follows_now(h, i, s.on_idle());
            } else {
                backup_idles(h, i, served);
            }
        },
        Status::StateTransfer => {
            backup_idles(h, i, served);
        },
        Status::Recovering => {
            let (next, under_way) = served.fetch_on_idle();
            fetch_idles(h, i, served);
            assert(next.inv());
            if !under_way {
                asks_to_recover(h, i, next);
            }
            follows_now(h, i, s.on_idle());
        },
        Status::ViewChange => {
            view_change_idles(h, i, served);
        },
    }
}

pub proof fn keeps_take_write<SM: StateMachine>(
    h: History<SM::Input>,
    i: ReplicaID,
    s: ReplicaModel<SM>,
)
    requires
        replica_ok(h, i, s),
        s.outbox_waiting.len() == 0,
    ensures
        replica_ok(h, i, s.take_write()),
{
    assert(outbox_ok(h, s.take_write())) by {
        reveal(outbox_ok);
    }
    same_core_ok(h, i, s, s.take_write());
}

pub proof fn follows_persisted<SM: StateMachine>(
    h: History<SM::Input>,
    i: ReplicaID,
    s: ReplicaModel<SM>,
)
    requires
        h.wf(),
        replica_ok(h, i, s),
        s.inv(),
        s.outstanding is Some,
        s.leads() && (s.outstanding->0).last_normal_view == s.view_number ==> (
        s.outstanding->0).op_number <= h.ack(i, s.view_number),
    ensures
        follows(h, i, s.persisted()),
{
    broadcast use frame_apply_committed;

    reveal(ReplicaModel::persisted);
    let outstanding = s.outstanding->0;
    let held = ReplicaModel { outstanding: None, durable: outstanding.op_number, ..s };
    let durable = held.durable_op();
    quiet(h, i, s, held);
    let acked = if s.leads() && outstanding.last_normal_view == s.view_number {
        held.register_ack(s.self_id, durable as OpNumber)
    } else {
        held
    };
    grows_refl(h, i);
    let g = if s.leads() && outstanding.last_normal_view == s.view_number {
        assert(s.self_id == i && i < h.config.size()) by {
            reveal(log_ok);
        }
        assert(held.inv());
        counts_ack(h, i, held, s.self_id, durable as OpNumber)
    } else {
        h
    };
    let applied = acked.apply_committed(durable);
    quiet(g, i, acked, applied);
    let t = s.persisted();
    assert(outbox_ok(g, t)) by {
        reveal(outbox_ok);
    }
    same_core_ok(g, i, applied, t);
    assert(replica_ok(g, i, t));
}

pub proof fn keeps_compact<SM: StateMachine>(
    h: History<SM::Input>,
    i: ReplicaID,
    s: ReplicaModel<SM>,
    op_number: OpNumber,
)
    requires
        replica_ok(h, i, s),
        s.inv(),
    ensures
        replica_ok(h, i, s.compact(op_number)),
{
    let t = s.compact(op_number);
    let log = h.logs[i as int];
    same_mail_ok(h, s, t);
    assert(log_ok(h, i, t)) by {
        reveal(log_ok);
        if t.log_start != s.log_start {
            assert(log.skip(t.log_start as int) =~= log.skip(s.log_start as int).skip(
                t.log_start - s.log_start,
            ));
        }
    }
    assert(change_ok(h, i, t)) by {
        reveal(change_ok);
    }
    assert(leads_ok(h, i, t)) by {
        reveal(leads_ok);
    }
}

} // verus!
