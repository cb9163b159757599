use vstd::prelude::*;
use super::history::{
    committed_extends, committed_length, committed_stays, complete_has_committed, complete_stays,
    prefix_refl, segment_of, History,
};
use super::moves::{follow_grows, grows_refl, grows_trans, lead_grows, report_grows};
use super::normal::{acknowledges, bound, catches_up, follows_now, leaves_view, quiet, same_core_ok};
use super::outbox::{same_mail, same_mail_ok, send_ok, send_to_others_ok};
use super::quorums::{best_is_complete, highest_is_highest};
use super::safety::{
    acks_ok, change_ok, follows, leads_ok, log_ok, message_ok, outbox_ok, replica_ok, stands,
};
use super::stays::{outbox_ok_stays, report_ok_stays};
use crate::ids::{CommitID, ReplicaID, ViewNumber};
use crate::log::{LogEntry, SegmentView};
use crate::message::MessageView;
use crate::replica::frames::{frame_apply_committed, frame_commit_up_to};
use crate::replica::model::{best, ends_fit, highest_commit, max, ReplicaModel};
use crate::replica::parts::{DoViewChangeView, Status};
use crate::state_machine::StateMachine;

verus! {

/// A log that is the same up to where the segment takes over becomes the
/// segment's log.
pub proof fn merges<SM: StateMachine>(
    s: ReplicaModel<SM>,
    mine: Seq<LogEntry<SM::Input>>,
    log: Seq<LogEntry<SM::Input>>,
    segment: SegmentView<SM::Input>,
)
    requires
        s.inv_but_fetch(),
        mine.len() == s.op_number(),
        mine.skip(s.log_start as int) == s.log,
        segment_of(log, segment),
        ({
            let keep = max(segment.start(), s.commit_number as int);
            &&& keep <= mine.len()
            &&& keep <= log.len()
            &&& log.take(keep) == mine.take(keep)
        }),
    ensures
        s.merge_log(segment.base.op(), segment.entries).log == log.skip(s.log_start as int),
        s.merge_log(segment.base.op(), segment.entries).op_number() == log.len(),
{
    let start = segment.start();
    let keep = max(start, s.commit_number as int);
    let t = s.merge_log(segment.base.op(), segment.entries);
    let from = s.log_start as int;
    assert(t.log =~= log.skip(from)) by {
        assert(t.log.len() == log.len() - from);
        assert forall|k: int| 0 <= k < t.log.len() implies t.log[k] == log.skip(from)[k] by {
            if k + from < keep {
                assert(t.log[k] == s.log[k]);
                assert(mine.skip(from)[k] == mine[k + from]);
                assert(log.take(keep)[k + from] == mine.take(keep)[k + from]);
            } else {
                assert(segment.entries == log.skip(start));
                assert(t.log[k] == segment.entries[k + from - start]);
            }
        }
    }
}

/// A view that could start with `log`, and starts with it.
pub proof fn leads_with<SM: StateMachine>(
    h: History<SM::Input>,
    i: ReplicaID,
    s: ReplicaModel<SM>,
    log: Seq<LogEntry<SM::Input>>,
    commit_number: CommitID,
    t: ReplicaModel<SM>,
)
    requires
        h.wf(),
        log_ok(h, i, s),
        outbox_ok(h, s),
        s.inv(),
        s.status == Status::ViewChange,
        s.is_primary(),
        h.complete(log, s.view_number as int),
        h.committed(log, commit_number as nat, s.view_number as int),
        t.self_id == s.self_id,
        t.config == s.config,
        t.status == Status::Normal,
        t.view_number == s.view_number,
        t.last_normal_view == s.view_number,
        t.commit_number == commit_number,
        t.log == log.skip(t.log_start as int),
        t.op_number() == log.len(),
        t.op_number() < usize::MAX,
        t.acked == Seq::new(s.config.size(), |k: int| 0usize),
        t.do_view_change_from == Map::<ReplicaID, DoViewChangeView<SM::Input>>::empty(),
        t.catching_up is None,
        t.fetch is None,
        t.round == 0,
        t.round_confirmed == 0,
        t.confirmed == Seq::new(s.config.size(), |k: int| 0u64),
        !t.round_unsent,
        t.view_start_op == log.len(),
        same_mail(s, t),
    ensures
        follows(h, i, t.send_to_others(t.start_view_message())),
{
    let v = s.view_number;
    let g = h.lead(i, v, log);
    assert(s.config == h.config && s.self_id == i && !h.started(v) && i < h.config.size()
        && h.recovering[i as int] is None && h.at[i as int] == v && h.config.primary_of(v) == i) by {
        reveal(log_ok);
    }
    assert(h.log_of(v) == Seq::<LogEntry<SM::Input>>::empty());
    assert(log.take(0) =~= h.log_of(v));
    lead_grows(h, i, v, log);
    committed_stays(h, g, i, log, commit_number as nat, v as int);
    committed_length(g, log, commit_number as nat, v as int);
    committed_extends(g, log, log, commit_number as nat, v as int, v + 1);
    complete_stays(h, g, i, log, v as int);
    prefix_refl(log);
    assert(g.regular(log, v));
    assert(log_ok(g, i, t)) by {
        reveal(log_ok);
        assert forall|u: ViewNumber| #[trigger] g.acc(i, u) > 0 implies u <= t.last_normal_view by {
            if u != v {
                assert(g.acc(i, u) == h.acc(i, u));
            }
        }
    }
    assert(change_ok(g, i, t)) by {
        reveal(change_ok);
    }
    assert(leads_ok(g, i, t)) by {
        reveal(leads_ok);
        assert(h.rounds_of(v) == 0) by {
            if h.rounds_of(v) >= 1 {
                assert(h.started(v));
            }
        }
        assert(h.decl(v) == 0) by {
            if h.decl(v) >= 1 {
                assert(h.chosen(v, h.decl(v)));
            }
        }
        assert(log.take(log.len() as int) =~= log);
        assert forall|q: int| 0 <= q < t.confirmed.len() implies g.was_at_most(
            q as ReplicaID,
            v,
            (#[trigger] t.confirmed[q]) as nat,
        ) by {
        }
    }
    outbox_ok_stays(h, g, i, s);
    same_mail_ok(g, s, t);
    let message = t.start_view_message();
    assert(segment_of(log, t.whole_log()));
    assert(g.start_ok(v, t.whole_log(), commit_number));
    assert forall|to: ReplicaID|
        to < t.config.size() && to != t.self_id implies #[trigger] message_ok::<SM>(
        g,
        to,
        message,
    ) by {}
    send_to_others_ok(g, t, message);
    same_core_ok(g, i, t, t.send_to_others(message));
}

/// Whether the reports a replica has are those of its view.
pub open spec fn reports_ok<SM: StateMachine>(
    h: History<SM::Input>,
    i: ReplicaID,
    s: ReplicaModel<SM>,
) -> bool {
    &&& s.do_view_change_from.dom().finite()
    &&& s.do_view_change_from.contains_key(i) ==> s.do_view_change_from[i].segment.start()
        <= s.commit_number
    &&& forall|q: ReplicaID| #[trigger]
        s.do_view_change_from.contains_key(q) ==> h.report_ok(
            q,
            s.view_number,
            s.do_view_change_from[q],
        )
}

/// The primary starts its view, or asks for the log to start it with.
pub proof fn starts_view<SM: StateMachine>(
    h: History<SM::Input>,
    i: ReplicaID,
    s: ReplicaModel<SM>,
)
    requires
        h.wf(),
        log_ok(h, i, s),
        acks_ok(h, s),
        outbox_ok(h, s),
        reports_ok(h, i, s),
        s.inv(),
        s.status == Status::ViewChange,
        s.is_primary(),
        s.do_view_change_from.dom().len() >= s.config.quorum(),
        s.fetch matches Some(fetch) ==> change_ok(h, i, s),
        s.try_start_view().fits,
    ensures
        follows(h, i, s.try_start_view()),
{
    broadcast use {
        crate::replica::ok::group_ok,
        crate::replica::keeps::group_keeps,
        frame_commit_up_to,
        frame_apply_committed,
    };

    let v = s.view_number;
    let reports = s.do_view_change_from;
    let b = best(reports);
    let mine = h.logs[i as int];
    let t = s.try_start_view();
    assert(s.config == h.config && s.self_id == i && mine.len() == s.op_number() && mine.skip(
        s.log_start as int,
    ) == s.log && h.committed(mine, s.commit_number as nat, v as int)) by {
        reveal(log_ok);
    }
    let log = best_is_complete(h, v, reports);
    let segment = reports[b].segment;
    assert(h.report_ok(b, v, reports[b]));
    let checked = s.check(ends_fit(reports));
    let (next, installed) = checked.install_segment_from_commit(segment);
    if installed is Log {
        complete_has_committed(h, log, mine, s.commit_number as nat, v as int);
        merges(checked, mine, log, segment);
        highest_is_highest(reports);
        let hc = highest_commit(reports);
        let q = choose|q: ReplicaID| #[trigger]
            reports.contains_key(q) && reports[q].commit_number == hc;
        assert(h.report_ok(q, v, reports[q]));
        let other = choose|other: Seq<LogEntry<SM::Input>>| #[trigger]
            h.report_of(q, v, reports[q], other);
        complete_has_committed(h, log, other, hc as nat, v as int);
        let committed = next.commit_up_to(hc, true);
        let started = committed.enter_normal();
        assert(next.inv());
        leads_with(h, i, s, log, committed.commit_number, started);
    } else {
        let asking = ReplicaModel { catching_up: Some(b), ..next };
        let message = MessageView::<SM::Input, SM::Query, SM::Chunk>::GetState {
            replica_id: i,
            view_number: v,
            op_number: s.commit_number,
        };
        assert(h.may_ask(b, i, v)) by {
            reveal(log_ok);
        }
        same_mail_ok(h, s, asking);
        send_ok(h, asking, b, message);
        assert(t == asking.send(b, message));
        assert(log_ok(h, i, t)) by {
            reveal(log_ok);
        }
        assert(change_ok(h, i, t)) by {
            reveal(change_ok);
        }
        assert(leads_ok(h, i, t)) by {
            reveal(leads_ok);
        }
        follows_now(h, i, t);
    }
}

/// The primary records a report.
pub proof fn records<SM: StateMachine>(
    h: History<SM::Input>,
    i: ReplicaID,
    s: ReplicaModel<SM>,
    q: ReplicaID,
    report: DoViewChangeView<SM::Input>,
)
    requires
        h.wf(),
        replica_ok(h, i, s),
        s.inv(),
        s.status == Status::ViewChange,
        s.is_primary(),
        h.report_ok(q, s.view_number, report),
        q == i ==> report.segment.start() <= s.commit_number,
        s.record_do_view_change(q, report).fits,
    ensures
        follows(h, i, s.record_do_view_change(q, report)),
{
    let recorded = ReplicaModel {
        do_view_change_from: s.do_view_change_from.insert(q, report),
        ..s
    };
    assert(recorded.inv());
    same_mail_ok(h, s, recorded);
    assert(log_ok(h, i, recorded)) by {
        reveal(log_ok);
    }
    assert(change_ok(h, i, recorded)) by {
        reveal(change_ok);
        assert(recorded.do_view_change_from.dom() =~= s.do_view_change_from.dom().insert(q));
        assert forall|id: ReplicaID| #[trigger]
            recorded.do_view_change_from.contains_key(id) implies h.report_ok(
            id,
            s.view_number,
            recorded.do_view_change_from[id],
        ) by {
            if id != q {
                assert(s.do_view_change_from.contains_key(id));
            }
        }
    }
    assert(reports_ok(h, i, recorded)) by {
        reveal(change_ok);
    }
    assert(leads_ok(h, i, recorded)) by {
        reveal(leads_ok);
    }
    if recorded.do_view_change_from.dom().len() >= s.config.quorum() {
        starts_view(h, i, recorded);
    } else {
        follows_now(h, i, recorded);
    }
}

/// A replica that has reported its log in its view reports it again.
pub proof fn reports<SM: StateMachine>(h: History<SM::Input>, i: ReplicaID, s: ReplicaModel<SM>)
    requires
        h.wf(),
        replica_ok(h, i, s),
        s.inv(),
        s.status == Status::ViewChange,
        s.do_view_change_sent,
        s.catching_up is None,
        s.send_do_view_change().fits,
    ensures
        follows(h, i, s.send_do_view_change()),
{
    let v = s.view_number;
    let t = s.send_do_view_change();
    assert(h.report_of(i, v, s.report(), h.logs[i as int]) && s.self_id == i) by {
        reveal(log_ok);
        reveal(change_ok);
        assert(segment_of(h.logs[i as int], s.whole_log()));
    }
    if s.is_primary() {
        records(h, i, s, i, s.report());
    } else {
        let message = MessageView::DoViewChange {
            view_number: v,
            replica_id: i,
            last_normal_view: s.last_normal_view,
            segment: s.whole_log(),
            commit_number: s.commit_number,
        };
        send_ok(h, s, s.primary_id(), message);
        same_core_ok(h, i, s, t);
        follows_now(h, i, t);
    }
}

/// A replica reports its log once half of the others want the view.
pub proof fn may_report<SM: StateMachine>(h: History<SM::Input>, i: ReplicaID, s: ReplicaModel<SM>)
    requires
        h.wf(),
        replica_ok(h, i, s),
        s.inv(),
        s.maybe_send_do_view_change().fits,
    ensures
        follows(h, i, s.maybe_send_do_view_change()),
{
    let t = s.maybe_send_do_view_change();
    if s.status != Status::ViewChange || s.catching_up is Some || s.do_view_change_sent
        || s.start_view_change_from.len() < s.config.size() as int / 2 {
        follows_now(h, i, t);
    } else {
        let v = s.view_number;
        let g = h.report(i);
        let sent = ReplicaModel { do_view_change_sent: true, ..s };
        assert(sent.inv());
        if s.is_primary() {
            same_mail_ok(h, s, sent);
            assert(log_ok(h, i, sent)) by {
                reveal(log_ok);
            }
            assert(change_ok(h, i, sent)) by {
                reveal(change_ok);
            }
            assert(leads_ok(h, i, sent)) by {
                reveal(leads_ok);
            }
            reports(h, i, sent);
        } else {
            assert(i < h.config.size() && h.at[i as int] == v && (h.reported.contains_key((i, v))
                ==> h.reported[(i, v)] == h.logs[i as int])) by {
                reveal(log_ok);
                reveal(change_ok);
            }
            report_grows(h, i);
            moved_ok(h, g, i, s, sent);
            reports(g, i, sent);
            follows_on(h, g, i, t);
        }
    }
}

/// What follows from what follows, follows.
pub proof fn follows_on<SM: StateMachine>(
    h: History<SM::Input>,
    g: History<SM::Input>,
    i: ReplicaID,
    t: ReplicaModel<SM>,
)
    requires
        h.grows(g, i),
        g.used == h.used,
        g.acknowledged == h.acknowledged,
        follows(g, i, t),
    ensures
        follows(h, i, t),
{
    let f = choose|f: History<SM::Input>|
        {
            &&& g.grows(f, i)
            &&& f.wf()
            &&& f.used == g.used
            &&& f.acknowledged == g.acknowledged
            &&& #[trigger] replica_ok(f, i, t)
        };
    grows_trans(h, g, f, i);
}

/// A replica that reports its log for the first time in its view.
proof fn moved_ok<SM: StateMachine>(
    h: History<SM::Input>,
    g: History<SM::Input>,
    i: ReplicaID,
    s: ReplicaModel<SM>,
    t: ReplicaModel<SM>,
)
    requires
        h.wf(),
        g.wf(),
        replica_ok(h, i, s),
        s.status == Status::ViewChange,
        s.catching_up is None,
        g == h.report(i),
        h.grows(g, i),
        t == (ReplicaModel { do_view_change_sent: true, ..s }),
    ensures
        replica_ok(g, i, t),
{
    let v = s.view_number;
    let log = h.logs[i as int];
    assert forall|u: ViewNumber| #[trigger] g.acc(i, u) == h.acc(i, u) by {}
    assert forall|u: ViewNumber| #[trigger] g.log_of(u) == h.log_of(u) by {}
    assert(log_ok(g, i, t)) by {
        reveal(log_ok);
        committed_stays(h, g, i, log, s.commit_number as nat, v as int);
        complete_stays(h, g, i, log, s.last_normal_view as int);
        if h.complete(log, s.last_normal_view + 1) {
            complete_stays(h, g, i, log, s.last_normal_view + 1);
        }
        assert forall|u: ViewNumber| #[trigger] g.reported.contains_key((i, u)) implies u
            <= t.view_number by {
            if u != v {
                assert(h.reported.contains_key((i, u)));
            }
        }
    }
    assert(change_ok(g, i, t)) by {
        reveal(change_ok);
        reveal(log_ok);
        assert forall|q: ReplicaID| #[trigger]
            t.do_view_change_from.contains_key(q) implies g.report_ok(
            q,
            v,
            t.do_view_change_from[q],
        ) by {
            report_ok_stays(h, g, i, q, v, s.do_view_change_from[q]);
        }
    }
    assert(leads_ok(g, i, t)) by {
        reveal(leads_ok);
    }
    outbox_ok_stays(h, g, i, s);
    same_mail_ok(g, s, t);
}

/// A replica asks the others for a later view.
pub proof fn asks_for_view<SM: StateMachine>(
    h: History<SM::Input>,
    i: ReplicaID,
    s: ReplicaModel<SM>,
    v: ViewNumber,
)
    requires
        h.wf(),
        stands(h, i, s),
        outbox_ok(h, s),
        s.acked.len() == h.config.size(),
        v == s.view_number ==> change_ok(h, i, s),
        s.inv(),
        s.status != Status::Recovering,
        v > s.view_number || (v == s.view_number && s.status == Status::ViewChange),
        s.start_view_change(v).fits,
    ensures
        ({
            let g = h.move_to(i, v);
            let t = s.start_view_change(v);
            &&& h.grows(g, i)
            &&& g.wf()
            &&& replica_ok(g, i, t)
            &&& t.inv()
            &&& t.view_number == v
            &&& t.status == Status::ViewChange
            &&& t.config == s.config
            &&& t.self_id == s.self_id
        }),
{
    broadcast use {crate::replica::ok::group_ok, crate::replica::keeps::group_keeps};

    let again = s.status == Status::ViewChange;
    let moved = ReplicaModel {
        view_change_attempts: if again {
            (s.view_change_attempts + 1) as u32
        } else {
            s.view_change_attempts
        },
        view_number: v,
        status: Status::ViewChange,
        idle_periods_waiting: 0,
        ..s.check(!again || s.view_change_attempts < u32::MAX)
    }.clear_view_change_state();
    let message = MessageView::<SM::Input, SM::Query, SM::Chunk>::StartViewChange {
        view_number: v,
        replica_id: s.self_id,
    };
    let told = moved.send_to_others(message);
    let t = s.start_view_change(v);
    let g = h.move_to(i, v);
    assert(h.config.primary_of(v) == i ==> !h.started(v)) by {
        if h.config.primary_of(v) == i && h.started(v) {
            assert(h.at[i as int] >= v);
        }
    }
    leaves_view(h, i, s, v, moved);
    assert(change_ok(g, i, moved)) by {
        reveal(change_ok);
        reveal(log_ok);
        if g.reported.contains_key((i, v)) {
            assert(h.reported.contains_key((i, v)));
        }
    }
    assert(leads_ok(g, i, moved)) by {
        reveal(leads_ok);
    }
    outbox_ok_stays(h, g, i, s);
    same_mail_ok(g, s, moved);
    assert forall|to: ReplicaID|
        to < moved.config.size() && to != moved.self_id implies #[trigger] message_ok::<SM>(
        g,
        to,
        message,
    ) by {}
    send_to_others_ok(g, moved, message);
    same_core_ok(g, i, moved, told);
    // Nobody else has asked for the view yet.
    assert(told.start_view_change_from.len() == 0);
    assert(t == told);
}

pub proof fn follows_on_start_view_change<SM: StateMachine>(
    h: History<SM::Input>,
    i: ReplicaID,
    s: ReplicaModel<SM>,
    view_number: ViewNumber,
    replica_id: ReplicaID,
)
    requires
        h.wf(),
        replica_ok(h, i, s),
        s.inv(),
        s.status != Status::Recovering,
        replica_id != i,
        s.on_start_view_change(view_number, replica_id).fits,
    ensures
        follows(h, i, s.on_start_view_change(view_number, replica_id)),
{
    broadcast use {crate::replica::ok::group_ok, crate::replica::keeps::group_keeps};

    reveal(ReplicaModel::on_start_view_change);
    let t = s.on_start_view_change(view_number, replica_id);
    if view_number < s.view_number {
        follows_now(h, i, t);
    } else if view_number == s.view_number && s.status != Status::ViewChange {
        if s.leads() {
            sends_start_view(h, i, s, replica_id);
        }
        follows_now(h, i, t);
    } else {
        let changing = if view_number > s.view_number {
            s.start_view_change(view_number)
        } else {
            s
        };
        let g = if view_number > s.view_number {
            h.move_to(i, view_number)
        } else {
            h
        };
        let wanted = ReplicaModel {
            start_view_change_from: changing.start_view_change_from.insert(replica_id),
            ..changing
        };
        if view_number > s.view_number {
            assert(stands(h, i, s)) by {
                reveal(log_ok);
            }
            assert(stands(h, i, s)) by {
            reveal(log_ok);
        }
        asks_for_view(h, i, s, view_number);
        } else {
            grows_refl(h, i);
        }
        quiet(g, i, changing, wanted);
        assert(wanted.inv());
        may_report(g, i, wanted);
        follows_on(h, g, i, t);
    }
}

/// The primary tells a replica that the view has started.
pub proof fn sends_start_view<SM: StateMachine>(
    h: History<SM::Input>,
    i: ReplicaID,
    s: ReplicaModel<SM>,
    to: ReplicaID,
)
    requires
        h.wf(),
        replica_ok(h, i, s),
        s.leads(),
        to != i,
    ensures
        replica_ok(h, i, s.send_start_view(to)),
{
    let log = h.logs[i as int];
    assert(message_ok::<SM>(h, to, s.start_view_message())) by {
        reveal(log_ok);
        assert(segment_of(log, s.whole_log()));
        assert(h.regular(log, s.view_number));
    }
    send_ok(h, s, to, s.start_view_message());
    same_core_ok(h, i, s, s.send_start_view(to));
}

pub proof fn follows_on_do_view_change<SM: StateMachine>(
    h: History<SM::Input>,
    i: ReplicaID,
    s: ReplicaModel<SM>,
    view_number: ViewNumber,
    replica_id: ReplicaID,
    report: DoViewChangeView<SM::Input>,
)
    requires
        h.wf(),
        replica_ok(h, i, s),
        s.inv(),
        h.report_ok(replica_id, view_number, report),
        s.status != Status::Recovering,
        replica_id != i,
        s.on_do_view_change(view_number, replica_id, report).fits,
    ensures
        follows(h, i, s.on_do_view_change(view_number, replica_id, report)),
{
    broadcast use {crate::replica::ok::group_ok, crate::replica::keeps::group_keeps};

    reveal(ReplicaModel::on_do_view_change);
    let t = s.on_do_view_change(view_number, replica_id, report);
    assert(s.config == h.config && s.self_id == i) by {
        reveal(log_ok);
    }
    if view_number < s.view_number || s.config.primary_of(view_number) != s.self_id {
        follows_now(h, i, t);
    } else if view_number > s.view_number {
        let changing = s.start_view_change(view_number);
        let g = h.move_to(i, view_number);
        assert(stands(h, i, s)) by {
            reveal(log_ok);
        }
        asks_for_view(h, i, s, view_number);
        report_ok_stays(h, g, i, replica_id, view_number, report);
        records(g, i, changing, replica_id, report);
        follows_on(h, g, i, t);
    } else if s.status == Status::Normal {
        sends_start_view(h, i, s, replica_id);
        follows_now(h, i, t);
    } else {
        assert(s.status == Status::ViewChange) by {
            reveal(log_ok);
        }
        records(h, i, s, replica_id, report);
    }
}

/// A replica takes a log of view `v`, which has started, and follows it.
pub proof fn follows_with<SM: StateMachine>(
    h: History<SM::Input>,
    i: ReplicaID,
    s: ReplicaModel<SM>,
    v: ViewNumber,
    log: Seq<LogEntry<SM::Input>>,
    t: ReplicaModel<SM>,
)
    requires
        h.wf(),
        log_ok(h, i, s),
        outbox_ok(h, s),
        v > s.view_number || (v == s.view_number && s.status == Status::ViewChange),
        s.status != Status::Recovering,
        h.config.primary_of(v) != i,
        h.regular(log, v),
        h.committed(log, t.commit_number as nat, v + 1),
        t.self_id == s.self_id,
        t.config == s.config,
        t.status == Status::Normal,
        t.view_number == v,
        t.last_normal_view == v,
        t.log == log.skip(t.log_start as int),
        t.op_number() == log.len(),
        t.op_number() < usize::MAX,
        t.acked == Seq::new(s.config.size(), |k: int| 0usize),
        t.do_view_change_from == Map::<ReplicaID, DoViewChangeView<SM::Input>>::empty(),
        t.catching_up is None,
        t.fetch is None,
        same_mail(s, t),
        t.inv(),
    ensures
        follows(h, i, t.send_prepare_ok()),
{
    let g = h.follow(i, v, log);
    assert(s.config == h.config && s.self_id == i && i < h.config.size() && h.at[i as int]
        == s.view_number && h.acc(i, v) == 0 && h.recovering[i as int] is None) by {
        reveal(log_ok);
    }
    follow_grows(h, i, v, log);
    committed_stays(h, g, i, log, t.commit_number as nat, v + 1);
    complete_stays(h, g, i, log, v as int);
    assert(g.log_of(v) == h.log_of(v));
    assert(g.regular(log, v));
    assert(log_ok(g, i, t)) by {
        reveal(log_ok);
        assert forall|u: ViewNumber| #[trigger] g.acc(i, u) > 0 implies u <= t.last_normal_view by {
            if u != v {
                assert(g.acc(i, u) == h.acc(i, u));
            }
        }
    }
    assert(change_ok(g, i, t)) by {
        reveal(change_ok);
    }
    assert(leads_ok(g, i, t)) by {
        reveal(leads_ok);
    }
    outbox_ok_stays(h, g, i, s);
    same_mail_ok(g, s, t);
    acknowledges(g, i, t);
}

pub proof fn follows_on_start_view<SM: StateMachine>(
    h: History<SM::Input>,
    i: ReplicaID,
    s: ReplicaModel<SM>,
    view_number: ViewNumber,
    segment: SegmentView<SM::Input>,
    commit_number: CommitID,
)
    requires
        h.wf(),
        replica_ok(h, i, s),
        s.inv(),
        s.status != Status::Recovering,
        message_ok::<SM>(h, i, MessageView::StartView { view_number, segment, commit_number }),
        s.on_start_view(view_number, segment, commit_number).fits,
    ensures
        follows(h, i, s.on_start_view(view_number, segment, commit_number)),
{
    broadcast use {
        crate::replica::ok::group_ok,
        crate::replica::keeps::group_keeps,
        frame_commit_up_to,
        frame_apply_committed,
    };

    reveal(ReplicaModel::on_start_view);
    let v = view_number;
    let t = s.on_start_view(v, segment, commit_number);
    if v < s.view_number || (v == s.view_number && s.status != Status::ViewChange) {
        follows_now(h, i, t);
    } else {
        let mine = h.logs[i as int];
        let log = choose|log: Seq<LogEntry<SM::Input>>|
            #![trigger h.regular(log, v)]
            h.regular(log, v) && h.committed(log, commit_number as nat, v + 1) && segment_of(
                log,
                segment,
            );
        assert(mine.len() == s.op_number() && mine.skip(s.log_start as int) == s.log
            && h.committed(mine, s.commit_number as nat, bound(s))) by {
            reveal(log_ok);
        }
        let n = s.commit_number as nat;
        committed_length(h, mine, n, bound(s));
        committed_extends(h, mine, mine, n, bound(s), v as int);
        let (next, installed) = s.install_segment_from_commit(segment);
        if installed is Log {
            complete_has_committed(h, log, mine, n, v as int);
            committed_length(h, log, n, v as int);
            committed_extends(h, log, log, n, v as int, v + 1);
            merges(s, mine, log, segment);
            let moved = ReplicaModel { view_number: v, ..next };
            let done = moved.commit_up_to(commit_number, false);
            let entered = done.enter_normal();
            assert(next.inv());
            assert(moved.inv()) by {
                reveal(log_ok);
            }
            crate::replica::keeps::keep_commit_up_to(moved, commit_number, false);
            assert(entered.inv());
            follows_with(h, i, s, v, log, entered);
        } else {
            catches_up(h, i, s, v);
        }
    }
}

} // verus!
