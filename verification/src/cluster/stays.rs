use vstd::prelude::*;
use super::history::{
    committed_extends, committed_stays, complete_stays, has_stays, prefix, prefix_take,
    prefix_trans, segment_of, History, Recovery,
};
use super::safety::{
    acks_ok, asker_ok, asks_ok, base_ok, change_ok, leads_ok, log_ok, mail_ok, message_ok,
    outbox_ok, replica_ok,
};
use crate::config::ConfigView;
use crate::ids::{CommitID, ReplicaID, ViewNumber};
use crate::log::{LogEntry, SegmentView};
use crate::message::{MessageView, MessageViewFor};
use crate::replica::model::ReplicaModel;
use crate::replica::parts::{DoViewChangeView, ResumeView, Status};
use crate::state_machine::StateMachine;

verus! {

pub proof fn regular_stays<Op>(
    h: History<Op>,
    g: History<Op>,
    i: ReplicaID,
    log: Seq<LogEntry<Op>>,
    v: ViewNumber,
)
    requires
        h.wf(),
        h.grew(g, i),
        h.regular(log, v),
    ensures
        g.regular(log, v),
{
    complete_stays(h, g, i, log, v as int);
    assert(prefix(h.log_of(v), g.log_of(v)));
    prefix_trans(log, h.log_of(v), g.log_of(v));
}

pub proof fn keeps_stays<Op>(
    h: History<Op>,
    g: History<Op>,
    i: ReplicaID,
    log: Seq<LogEntry<Op>>,
    v: ViewNumber,
    a: nat,
)
    requires
        h.wf(),
        h.grew(g, i),
        h.keeps(log, v, a),
    ensures
        g.keeps(log, v, a),
{
    complete_stays(h, g, i, log, v as int);
    if h.complete(log, v + 1) {
        complete_stays(h, g, i, log, v + 1);
    } else {
        assert(prefix(h.log_of(v), g.log_of(v)));
        prefix_trans(log, h.log_of(v), g.log_of(v));
    }
}

pub proof fn state_ok_stays<Op>(
    h: History<Op>,
    g: History<Op>,
    i: ReplicaID,
    to: ReplicaID,
    v: ViewNumber,
    segment: SegmentView<Op>,
    commit_number: CommitID,
)
    requires
        h.wf(),
        h.grew(g, i),
        h.state_ok(to, v, segment, commit_number),
    ensures
        g.state_ok(to, v, segment, commit_number),
{
    let log = choose|log: Seq<LogEntry<Op>>|
        #![trigger h.offers(to, v, log, commit_number)]
        h.offers(to, v, log, commit_number) && h.segment_ok(log, segment, commit_number);
    if h.regular(log, v) && h.committed(log, commit_number as nat, v + 1) {
        regular_stays(h, g, i, log, v);
        committed_stays(h, g, i, log, commit_number as nat, v + 1);
    } else {
        complete_stays(h, g, i, log, v as int);
        committed_stays(h, g, i, log, commit_number as nat, v as int);
    }
    assert(g.offers(to, v, log, commit_number));
    assert(g.segment_ok(log, segment, commit_number));
}

proof fn start_ok_stays<Op>(
    h: History<Op>,
    g: History<Op>,
    i: ReplicaID,
    v: ViewNumber,
    segment: SegmentView<Op>,
    commit_number: CommitID,
)
    requires
        h.wf(),
        h.grew(g, i),
        h.start_ok(v, segment, commit_number),
    ensures
        g.start_ok(v, segment, commit_number),
{
    let log = choose|log: Seq<LogEntry<Op>>|
        #![trigger h.regular(log, v)]
        h.regular(log, v) && h.committed(log, commit_number as nat, v + 1) && segment_of(
            log,
            segment,
        );
    regular_stays(h, g, i, log, v);
    committed_stays(h, g, i, log, commit_number as nat, v + 1);
}

pub proof fn may_ask_stays<Op>(
    h: History<Op>,
    g: History<Op>,
    i: ReplicaID,
    s: ReplicaID,
    r: ReplicaID,
    v: ViewNumber,
)
    requires
        h.wf(),
        h.grew(g, i),
        h.may_ask(s, r, v),
    ensures
        g.may_ask(s, r, v),
{
    if s == h.config.primary_of(v) && h.started(v) {
        assert(g.started(v));
    } else {
        assert(g.reported.contains_key((s, v)));
        complete_stays(h, g, i, h.reported[(s, v)], v as int);
    }
}

pub proof fn report_ok_stays<Op>(
    h: History<Op>,
    g: History<Op>,
    i: ReplicaID,
    q: ReplicaID,
    v: ViewNumber,
    report: DoViewChangeView<Op>,
)
    requires
        h.wf(),
        h.grew(g, i),
        h.report_ok(q, v, report),
    ensures
        g.report_ok(q, v, report),
{
    let log = choose|log: Seq<LogEntry<Op>>| #[trigger] h.report_of(q, v, report, log);
    if q != i {
        assert(g.at[q as int] == h.at[q as int]);
    }
    assert forall|u: ViewNumber| u < v && #[trigger] g.acc(q, u) > 0 implies u
        <= report.last_normal_view by {
        assert(g.acc(q, u) == h.acc(q, u));
    }
    let lv = report.last_normal_view;
    assert(g.acc(q, lv) == h.acc(q, lv));
    keeps_stays(h, g, i, log, lv, h.acc(q, lv));
    committed_stays(h, g, i, log, report.commit_number as nat, v as int);
    if q != h.config.primary_of(v) {
        assert(h.reported.contains_key((q, v)));
    }
    assert(g.report_of(q, v, report, log));
}

/// A recovery is the same for good.
proof fn recovery_stays<Op>(
    h: History<Op>,
    g: History<Op>,
    i: ReplicaID,
    to: ReplicaID,
    nonce: u64,
)
    requires
        h.wf(),
        h.grew(g, i),
        to < h.config.size(),
        h.used.contains((to, nonce)),
        g.recovers(to, nonce),
    ensures
        g.recovering[to as int] == h.recovering[to as int],
{
    if to != i {
        assert(g.recovering[to as int] == h.recovering[to as int]);
    }
}

/// What a recovery keeps, it keeps for good.
pub proof fn kept_stays<Op>(
    h: History<Op>,
    g: History<Op>,
    i: ReplicaID,
    recovery: Recovery,
    log: Seq<LogEntry<Op>>,
)
    requires
        h.grew(g, i),
        h.kept_ok(recovery, log),
    ensures
        g.kept_ok(recovery, log),
{
    kept_stays_chosen(h, g, i, recovery);
    if recovery.kept >= 1 {
        has_stays(h, g, i, log, recovery.view_number, recovery.kept);
    }
}

proof fn kept_stays_chosen<Op>(h: History<Op>, g: History<Op>, i: ReplicaID, recovery: Recovery)
    requires
        h.grew(g, i),
        h.kept_chosen(recovery),
    ensures
        g.kept_chosen(recovery),
{
    if recovery.kept >= 1 {
        let (q, u, n) = (recovery.quorum, recovery.view_number, recovery.kept);
        assert(g.all_acked(q, u, n)) by {
            assert forall|id: ReplicaID| #[trigger] q.contains(id) implies g.ack(id, u) >= n by {
                assert(h.ack(id, u) >= n);
                assert(g.ack(id, u) >= h.ack(id, u));
            }
        }
        assert(g.decl(u) >= h.decl(u));
    }
}

pub proof fn recovery_ok_stays<Op>(
    h: History<Op>,
    g: History<Op>,
    i: ReplicaID,
    to: ReplicaID,
    nonce: u64,
    v: ViewNumber,
    segment: SegmentView<Op>,
    commit_number: CommitID,
)
    requires
        h.wf(),
        h.grew(g, i),
        to < h.config.size(),
        h.used.contains((to, nonce)),
        h.recovery_ok(to, nonce, v, segment, commit_number),
    ensures
        g.recovery_ok(to, nonce, v, segment, commit_number),
{
    let log = choose|log: Seq<LogEntry<Op>>|
        #![trigger h.regular(log, v)]
        {
            &&& h.regular(log, v)
            &&& h.committed(log, commit_number as nat, v + 1)
            &&& h.segment_ok(log, segment, commit_number)
            &&& h.recovers(to, nonce) ==> {
                &&& h.acc(to, v) <= log.len()
                &&& h.has_kept(h.recovering[to as int]->0, v, log)
            }
        };
    regular_stays(h, g, i, log, v);
    committed_stays(h, g, i, log, commit_number as nat, v + 1);
    if g.recovers(to, nonce) {
        recovery_stays(h, g, i, to, nonce);
        assert(g.acc(to, v) == h.acc(to, v));
        let recovery = g.recovering[to as int]->0;
        if recovery.kept >= 1 && recovery.view_number <= v {
            committed_stays(h, g, i, log, recovery.kept, v + 1);
        }
    }
    assert(g.segment_ok(log, segment, commit_number));
}

/// What holds of a message holds for good.
pub proof fn message_ok_stays<SM: StateMachine>(
    h: History<SM::Input>,
    g: History<SM::Input>,
    i: ReplicaID,
    to: ReplicaID,
    message: MessageViewFor<SM>,
)
    requires
        h.wf(),
        h.grew(g, i),
        message_ok::<SM>(h, to, message),
        g.moment == h.moment || (message matches MessageView::ConfirmViewOk {
            view_number,
            round,
            replica_id,
        } ==> g.was_at_most(replica_id, view_number, round as nat)),
        h.grows(g, i) || (message matches MessageView::PrepareOk {
            view_number,
            op_number,
            replica_id,
        } ==> g.acc(replica_id, view_number) >= op_number),
    ensures
        message_ok::<SM>(g, to, message),
{
    match message {
        MessageView::Prepare { view_number, op_number, entry, commit_number } => {
            let v = view_number;
            let c = commit_number as nat;
            assert(g.started(v));
            assert(prefix(h.log_of(v), g.log_of(v)));
            assert(g.log_of(v).take(h.log_of(v).len() as int)[op_number - 1] == entry);
            committed_stays(h, g, i, h.log_of(v), c, v + 1);
            committed_grows(g, h.log_of(v), g.log_of(v), c, v + 1);
        },
        MessageView::PrepareOk { view_number, op_number, replica_id } => {
            if h.grows(g, i) {
                assert(g.acc(replica_id, view_number) >= h.acc(replica_id, view_number));
            }
        },
        MessageView::Commit { view_number, commit_number } => {
            let v = view_number;
            let c = commit_number as nat;
            assert(g.started(v));
            assert(prefix(h.log_of(v), g.log_of(v)));
            committed_stays(h, g, i, h.log_of(v), c, v + 1);
            committed_grows(g, h.log_of(v), g.log_of(v), c, v + 1);
        },
        MessageView::ConfirmView { view_number, round } => {
            assert(g.rounds_of(view_number) >= h.rounds_of(view_number));
        },
        MessageView::ConfirmViewOk { view_number, round, replica_id } => {
            assert(g.asked_of(view_number) >= h.asked_of(view_number));
        },
        MessageView::GetState { replica_id, view_number, op_number } => {
            may_ask_stays(h, g, i, to, replica_id, view_number);
        },
        MessageView::NewState { replica_id, view_number, segment, commit_number } => {
            state_ok_stays(h, g, i, to, view_number, segment, commit_number);
        },
        MessageView::DoViewChange {
            view_number,
            replica_id,
            last_normal_view,
            segment,
            commit_number,
        } => {
            report_ok_stays(
                h,
                g,
                i,
                replica_id,
                view_number,
                DoViewChangeView { last_normal_view, segment, commit_number },
            );
        },
        MessageView::StartView { view_number, segment, commit_number } => {
            start_ok_stays(h, g, i, view_number, segment, commit_number);
        },
        MessageView::Recovery { replica_id, nonce, view_number } => {
            if g.recovers(replica_id, nonce) {
                recovery_stays(h, g, i, replica_id, nonce);
                kept_stays_chosen(h, g, i, h.recovering[replica_id as int]->0);
            }
        },
        MessageView::RecoveryResponse { view_number, nonce, replica_id, state } => {
            if g.recovers(to, nonce) {
                recovery_stays(h, g, i, to, nonce);
            }
            if let Some(state) = state {
                recovery_ok_stays(
                    h,
                    g,
                    i,
                    to,
                    nonce,
                    view_number,
                    state.segment,
                    state.commit_number,
                );
            }
        },
        _ => {},
    }
}

/// What is committed of a log is committed of a longer one.
pub proof fn committed_grows<Op>(
    h: History<Op>,
    log: Seq<LogEntry<Op>>,
    longer: Seq<LogEntry<Op>>,
    n: nat,
    w: int,
)
    requires
        h.committed(log, n, w),
        prefix(log, longer),
    ensures
        h.committed(longer, n, w),
{
    super::history::committed_length(h, log, n, w);
    prefix_take(log, longer, n as int);
    committed_extends(h, log, longer, n, w, w);
}

pub proof fn mail_ok_stays<SM: StateMachine>(
    h: History<SM::Input>,
    g: History<SM::Input>,
    i: ReplicaID,
    mail: Seq<(ReplicaID, MessageViewFor<SM>)>,
)
    requires
        h.wf(),
        h.grows(g, i),
        mail_ok::<SM>(h, mail),
    ensures
        mail_ok::<SM>(g, mail),
{
    assert forall|k: int| 0 <= k < mail.len() implies message_ok::<SM>(
        g,
        (#[trigger] mail[k]).0,
        mail[k].1,
    ) by {
        message_ok_stays::<SM>(h, g, i, mail[k].0, mail[k].1);
    }
}

pub proof fn outbox_ok_stays<SM: StateMachine>(
    h: History<SM::Input>,
    g: History<SM::Input>,
    i: ReplicaID,
    s: ReplicaModel<SM>,
)
    requires
        h.wf(),
        h.grows(g, i),
        outbox_ok(h, s),
    ensures
        outbox_ok(g, s),
{
    reveal(outbox_ok);
    mail_ok_stays::<SM>(h, g, i, s.outbox_early);
    mail_ok_stays::<SM>(h, g, i, s.outbox);
    mail_ok_stays::<SM>(h, g, i, s.outbox_waiting);
    mail_ok_stays::<SM>(h, g, i, s.outbox_ready);
}

/// Whether nothing of replica `j` differs between two histories.
pub open spec fn unmoved<Op>(h: History<Op>, g: History<Op>, j: ReplicaID) -> bool {
    &&& g.logs[j as int] == h.logs[j as int]
    &&& g.at[j as int] == h.at[j as int]
    &&& g.recovering[j as int] == h.recovering[j as int]
    &&& forall|u: ViewNumber| #[trigger] g.acc(j, u) == h.acc(j, u)
    &&& forall|u: ViewNumber| #[trigger]
        g.reported.contains_key((j, u)) ==> h.reported.contains_key((j, u))
    &&& forall|u: ViewNumber|
        h.config.primary_of(u) == j ==> #[trigger] g.log_of(u) == h.log_of(u) && g.started(u)
            == h.started(u)
}

/// What holds of a replica but for its mail holds as long as nothing of it
/// changes.
pub proof fn unmoved_ok<SM: StateMachine>(
    h: History<SM::Input>,
    g: History<SM::Input>,
    i: ReplicaID,
    j: ReplicaID,
    s: ReplicaModel<SM>,
)
    requires
        h.wf(),
        h.grew(g, i),
        unmoved(h, g, j),
        base_ok(h, j, s),
    ensures
        log_ok(g, j, s),
        acks_ok(g, s),
        change_ok(g, j, s),
{
    let log = h.logs[j as int];
    let v = s.view_number;
    reveal(log_ok);
    reveal(change_ok);
    if s.status == Status::Recovering {
        kept_stays(h, g, i, h.recovering[j as int]->0, log);
    } else if s.status == Status::ViewChange {
        committed_stays(h, g, i, log, s.commit_number as nat, v as int);
        keeps_stays(h, g, i, log, s.last_normal_view, h.acc(j, s.last_normal_view));
        if s.is_primary() {
            assert(g.log_of(v) == h.log_of(v));
        }
    } else {
        committed_stays(h, g, i, log, s.commit_number as nat, v + 1);
        regular_stays(h, g, i, log, v);
        if s.is_primary() {
            assert(g.log_of(v) == h.log_of(v));
        }
        assert forall|q: int| 0 <= q < s.acked.len() implies #[trigger] s.acked[q] <= g.ack(
            q as ReplicaID,
            v,
        ) by {
            assert(g.ack(q as ReplicaID, v) >= h.ack(q as ReplicaID, v));
        }
    }
    assert(log_ok(g, j, s));
    assert forall|q: ReplicaID| #[trigger] s.do_view_change_from.contains_key(q) implies g.report_ok(
        q,
        v,
        s.do_view_change_from[q],
    ) by {
        report_ok_stays(h, g, i, q, v, s.do_view_change_from[q]);
    }
    if s.status == Status::ViewChange && s.catching_up is Some {
        may_ask_stays(h, g, i, s.catching_up->0, j, v);
    }
    if h.reported.contains_key((j, v)) {
        assert(g.reported.contains_key((j, v)));
    }
    if g.reported.contains_key((j, v)) {
        assert(h.reported.contains_key((j, v)));
    }
    if let Some(fetch) = s.fetch {
        match fetch.resume {
            ResumeView::NewState { view_number, segment, commit_number } => {
                state_ok_stays(h, g, i, j, view_number, segment, commit_number);
            },
            ResumeView::RecoveryResponse { view_number, state } => {
                recovery_ok_stays(
                    h,
                    g,
                    i,
                    j,
                    s.recovery_nonce,
                    view_number,
                    state.segment,
                    state.commit_number,
                );
            },
        }
    }
    if s.status == Status::Recovering {
        assert forall|q: ReplicaID| #[trigger] s.recovery_responses.contains_key(
            q,
        ) && s.recovery_responses[q].state is Some implies g.recovery_ok(
            j,
            s.recovery_nonce,
            s.recovery_responses[q].view_number,
            (s.recovery_responses[q].state->0).segment,
            (s.recovery_responses[q].state->0).commit_number,
        ) by {
            recovery_ok_stays(
                h,
                g,
                i,
                j,
                s.recovery_nonce,
                s.recovery_responses[q].view_number,
                (s.recovery_responses[q].state->0).segment,
                (s.recovery_responses[q].state->0).commit_number,
            );
        }
    }
    assert(change_ok(g, j, s));
}

/// What holds of a replica's mail holds whatever the others do.
proof fn outbox_of_another_stays<SM: StateMachine>(
    h: History<SM::Input>,
    g: History<SM::Input>,
    i: ReplicaID,
    j: ReplicaID,
    s: ReplicaModel<SM>,
)
    requires
        h.wf(),
        h.grew(g, i),
        g.moment == h.moment,
        i != j,
        s.self_id == j,
        outbox_ok(h, s),
    ensures
        outbox_ok(g, s),
{
    reveal(outbox_ok);
    mail_of_another_stays::<SM>(h, g, i, j, s.config, s.outbox_early);
    mail_of_another_stays::<SM>(h, g, i, j, s.config, s.outbox);
    mail_of_another_stays::<SM>(h, g, i, j, s.config, s.outbox_waiting);
    mail_of_another_stays::<SM>(h, g, i, j, s.config, s.outbox_ready);
}

proof fn mail_of_another_stays<SM: StateMachine>(
    h: History<SM::Input>,
    g: History<SM::Input>,
    i: ReplicaID,
    j: ReplicaID,
    config: ConfigView,
    mail: Seq<(ReplicaID, MessageViewFor<SM>)>,
)
    requires
        h.wf(),
        h.grew(g, i),
        g.moment == h.moment,
        i != j,
        mail_ok::<SM>(h, mail),
        asks_ok::<SM>(config, j, mail),
    ensures
        mail_ok::<SM>(g, mail),
{
    assert forall|k: int| 0 <= k < mail.len() implies message_ok::<SM>(
        g,
        (#[trigger] mail[k]).0,
        mail[k].1,
    ) by {
        assert(asker_ok::<SM>(config, j, mail[k].1));
        if let MessageView::PrepareOk { view_number, op_number, replica_id } = mail[k].1 {
            assert(g.acc(j, view_number) == h.acc(j, view_number));
        }
        message_ok_stays::<SM>(h, g, i, mail[k].0, mail[k].1);
    }
}

/// What holds of a replica holds whatever the others do.
pub proof fn replica_ok_stays<SM: StateMachine>(
    h: History<SM::Input>,
    g: History<SM::Input>,
    i: ReplicaID,
    j: ReplicaID,
    s: ReplicaModel<SM>,
)
    requires
        h.wf(),
        h.grew(g, i),
        g.moment == h.moment,
        i != j,
        replica_ok(h, j, s),
    ensures
        replica_ok(g, j, s),
{
    let v = s.view_number;
    let log = h.logs[j as int];
    assert(s.self_id == j) by {
        reveal(log_ok);
    }
    assert(unmoved(h, g, j)) by {
        assert(j < h.config.size()) by {
            reveal(log_ok);
        }
        assert(g.logs[j as int] == log);
        assert(g.at[j as int] == h.at[j as int]);
        assert(g.recovering[j as int] == h.recovering[j as int]);
        assert forall|u: ViewNumber| #[trigger]
            g.reported.contains_key((j, u)) implies h.reported.contains_key((j, u)) by {}
    }
    unmoved_ok(h, g, i, j, s);
    outbox_of_another_stays(h, g, i, j, s);
    assert(leads_ok(g, j, s)) by {
        reveal(leads_ok);
        reveal(log_ok);
        if s.leads() {
            assert(g.rounds_of(v) == h.rounds_of(v));
            assert(g.asked_of(v) == h.asked_of(v));
            assert(g.decl(v) == h.decl(v));
            complete_stays(h, g, i, log.take(s.view_start_op as int), v as int);
        }
    }
}

} // verus!
