use vstd::prelude::*;
use super::history::{
    committed_extends, committed_length, committed_less, complete_extends, complete_is_ordered, prefix, prefix_push,
    prefix_refl, regular_has_committed, History,
};
use super::moves::{
    declare_grows, follow_grows, grows_refl, lead_grows, move_to_grows, start_round_grows,
};
use super::outbox::{same_mail, same_mail_ok, send_ok, send_prepare_ok_ok, send_to_others_ok};
use super::quorums::{reach_grows, reaching, reaching_counts};
use super::safety::{
    acks_ok, base_ok, change_ok, follows, leads_ok, log_ok, message_ok, outbox_ok, replica_ok,
    stands,
};
use super::stays::{committed_grows, outbox_ok_stays, report_ok_stays};
use crate::ids::{ClientID, CommitID, OpNumber, QueryNumber, ReplicaID, RequestNumber, ViewNumber};
use crate::log::LogEntry;
use crate::message::MessageView;
use crate::replica::frames::{frame_answer_queries, frame_apply_committed, frame_commit_up_to};
use crate::replica::marks::lemma_quorum_mark_is_mark;
use crate::replica::model::{min, op_marks, quorum_mark, round_marks, ReplicaModel};
use crate::replica::parts::{Status, ROUNDS_OUT};
use crate::replica::runs::knows_what_to_append;
use crate::state_machine::StateMachine;

verus! {

/// Whether two states are the same in what the cluster's safety rests on,
/// but for their mail.
pub open spec fn same_core<SM: StateMachine>(s: ReplicaModel<SM>, t: ReplicaModel<SM>) -> bool {
    &&& t.self_id == s.self_id
    &&& t.config == s.config
    &&& t.status == s.status
    &&& t.view_number == s.view_number
    &&& t.last_normal_view == s.last_normal_view
    &&& t.commit_number == s.commit_number
    &&& t.log_start == s.log_start
    &&& t.log == s.log
    &&& t.acked == s.acked
    &&& t.do_view_change_sent == s.do_view_change_sent
    &&& t.do_view_change_from == s.do_view_change_from
    &&& t.catching_up == s.catching_up
    &&& t.fetch == s.fetch
    &&& t.recovery_nonce == s.recovery_nonce
    &&& t.recovery_responses == s.recovery_responses
    &&& t.round == s.round
    &&& t.round_confirmed == s.round_confirmed
    &&& t.confirmed == s.confirmed
    &&& t.round_unsent == s.round_unsent
    &&& t.view_start_op == s.view_start_op
}

pub proof fn same_core_ok<SM: StateMachine>(
    h: History<SM::Input>,
    i: ReplicaID,
    s: ReplicaModel<SM>,
    t: ReplicaModel<SM>,
)
    requires
        replica_ok(h, i, s),
        same_core(s, t),
        outbox_ok(h, t),
    ensures
        replica_ok(h, i, t),
{
    reveal(log_ok);
    reveal(change_ok);
    reveal(leads_ok);
}

/// Nothing that the cluster's safety rests on changes.
pub proof fn quiet<SM: StateMachine>(
    h: History<SM::Input>,
    i: ReplicaID,
    s: ReplicaModel<SM>,
    t: ReplicaModel<SM>,
)
    requires
        replica_ok(h, i, s),
        same_core(s, t),
        same_mail(s, t),
    ensures
        replica_ok(h, i, t),
{
    same_mail_ok(h, s, t);
    same_core_ok(h, i, s, t);
}

/// What a replica keeps follows where the history stays.
pub proof fn follows_now<SM: StateMachine>(
    h: History<SM::Input>,
    i: ReplicaID,
    t: ReplicaModel<SM>,
)
    requires
        h.wf(),
        replica_ok(h, i, t),
    ensures
        follows(h, i, t),
{
    grows_refl(h, i);
}

/// Below which view what a replica has committed was chosen.
pub open spec fn bound<SM: StateMachine>(s: ReplicaModel<SM>) -> int {
    if s.status == Status::ViewChange {
        s.view_number as int
    } else {
        s.view_number + 1
    }
}

/// A replica commits what is committed of its log.
pub proof fn commits<SM: StateMachine>(
    h: History<SM::Input>,
    i: ReplicaID,
    s: ReplicaModel<SM>,
    commit_number: CommitID,
    reply: bool,
)
    requires
        replica_ok(h, i, s),
        s.status != Status::Recovering,
        h.committed(h.logs[i as int], commit_number as nat, bound(s)),
    ensures
        replica_ok(h, i, s.commit_up_to(commit_number, reply)),
        same_mail(s, s.commit_up_to(commit_number, reply)),
{
    broadcast use {frame_commit_up_to, frame_apply_committed};

    let t = s.commit_up_to(commit_number, reply);
    same_mail_ok(h, s, t);
    assert(log_ok(h, i, t)) by {
        reveal(log_ok);
    }
    assert(change_ok(h, i, t)) by {
        reveal(change_ok);
    }
    assert(leads_ok(h, i, t)) by {
        reveal(leads_ok);
    }
}

/// A replica answers queries.
pub proof fn answers<SM: StateMachine>(h: History<SM::Input>, i: ReplicaID, s: ReplicaModel<SM>)
    requires
        replica_ok(h, i, s),
    ensures
        replica_ok(h, i, s.execute_queries()),
{
    broadcast use frame_answer_queries;

    quiet(h, i, s, s.execute_queries());
}

/// The primary appends an entry.
pub proof fn prepares<SM: StateMachine>(
    h: History<SM::Input>,
    i: ReplicaID,
    s: ReplicaModel<SM>,
    entry: LogEntry<SM::Input>,
)
    requires
        h.wf(),
        replica_ok(h, i, s),
        s.inv(),
        s.leads(),
        h.ordered(h.logs[i as int].push(entry)),
        s.prepare(entry).fits,
    ensures
        follows(h, i, s.prepare(entry)),
{
    let v = s.view_number;
    let log = h.logs[i as int];
    let longer = log.push(entry);
    reveal(log_ok);
    prefix_push(log, entry);
    complete_extends(h, log, longer, v as int);
    lead_grows(h, i, v, longer);
    let g = h.lead(i, v, longer);
    let appended = s.append_to_log(entry);
    assert(longer.skip(s.log_start as int) =~= appended.log);
    assert(log_ok(g, i, appended)) by {
        super::history::committed_stays(h, g, i, log, s.commit_number as nat, v + 1);
        committed_grows(g, log, longer, s.commit_number as nat, v + 1);
        super::history::complete_stays(h, g, i, longer, v as int);
        prefix_refl(longer);
        assert forall|u: ViewNumber| #[trigger] g.acc(i, u) > 0 implies u
            <= appended.last_normal_view by {
            if u != v {
                assert(g.acc(i, u) == h.acc(i, u));
            }
        }
    }
    assert(acks_ok(g, appended)) by {
        assert forall|q: int| 0 <= q < appended.acked.len() implies #[trigger] appended.acked[q] <= g.ack(q as ReplicaID, v) by {
            assert(s.acked[q] <= h.ack(q as ReplicaID, v));
            assert(g.ack(q as ReplicaID, v) >= h.ack(q as ReplicaID, v));
        }
    }
    assert(change_ok(g, i, appended)) by {
        reveal(change_ok);
        assert forall|q: ReplicaID| #[trigger]
            appended.do_view_change_from.contains_key(q) implies g.report_ok(
            q,
            v,
            appended.do_view_change_from[q],
        ) by {
            report_ok_stays(h, g, i, q, v, s.do_view_change_from[q]);
        }
    }
    assert(leads_ok(g, i, appended)) by {
        reveal(leads_ok);
        let start = s.view_start_op as int;
        assert(longer.take(start) =~= log.take(start));
        super::history::complete_stays(h, g, i, log.take(start), v as int);
    }
    outbox_ok_stays(h, g, i, s);
    same_mail_ok(g, s, appended);
    let message = MessageView::<SM::Input, SM::Query, SM::Chunk>::Prepare {
        view_number: v,
        op_number: appended.op_number() as OpNumber,
        entry,
        commit_number: s.commit_number,
    };
    assert forall|to: ReplicaID|
        to < appended.config.size() && to != appended.self_id implies #[trigger] message_ok::<SM>(
        g,
        to,
        message,
    ) by {}
    send_to_others_ok(g, appended, message);
    same_core_ok(g, i, appended, s.prepare(entry));
}

/// What the primary appends is in order.
proof fn appends_in_order<SM: StateMachine>(
    h: History<SM::Input>,
    i: ReplicaID,
    s: ReplicaModel<SM>,
    entry: LogEntry<SM::Input>,
)
    requires
        replica_ok(h, i, s),
        s.inv(),
        s.leads(),
        h.orderly ==> s.knows(h.logs[i as int]),
        s.op_number() + 1 < usize::MAX,
        entry matches LogEntry::Request { client_id, session, request_number, .. } ==> {
            &&& s.records.contains_key(client_id)
            &&& s.records[client_id].session == session
            &&& s.records[client_id].request_number < request_number
            &&& s.pending.contains_key(client_id) ==> s.pending[client_id].0 <= session
            &&& request_number == s.latest_request(client_id, session) + 1
        },
    ensures
        h.ordered(h.logs[i as int].push(entry)),
{
    let log = h.logs[i as int];
    reveal(log_ok);
    prefix_refl(log);
    complete_is_ordered(h, log, log, s.view_number as int);
    if h.orderly {
        assert(log.skip(s.applied as int) =~= s.tail()) by {
            assert(s.tail() == log.skip(s.log_start as int).skip(s.applied - s.log_start));
        }
        knows_what_to_append(s, log, entry);
    }
}

pub proof fn follows_on_register<SM: StateMachine>(
    h: History<SM::Input>,
    i: ReplicaID,
    s: ReplicaModel<SM>,
    client_id: ClientID,
)
    requires
        h.wf(),
        replica_ok(h, i, s),
        s.inv(),
        h.orderly && s.leads() ==> s.knows(h.logs[i as int]),
        s.on_register(client_id).fits,
    ensures
        follows(h, i, s.on_register(client_id)),
{
    let t = s.on_register(client_id);
    if s.leads() && !s.records.contains_key(client_id) && !(s.pending.contains_key(client_id)
        && s.pending[client_id].1 == 0) {
        appends_in_order(h, i, s, LogEntry::Register { client_id });
        prepares(h, i, s, LogEntry::Register { client_id });
    } else {
        quiet(h, i, s, t);
        follows_now(h, i, t);
    }
}

pub proof fn follows_on_request<SM: StateMachine>(
    h: History<SM::Input>,
    i: ReplicaID,
    s: ReplicaModel<SM>,
    client_id: ClientID,
    session: OpNumber,
    request_number: RequestNumber,
    answered: RequestNumber,
    op: SM::Input,
)
    requires
        h.wf(),
        replica_ok(h, i, s),
        s.inv(),
        h.orderly && s.leads() ==> s.knows(h.logs[i as int]),
        s.on_request(client_id, session, request_number, answered, op).fits,
    ensures
        follows(h, i, s.on_request(client_id, session, request_number, answered, op)),
{
    let t = s.on_request(client_id, session, request_number, answered, op);
    let latest = s.latest_request(client_id, session);
    let limit = s.records[client_id].request_number + s.config.in_flight_max;
    let checked = s.check(
        latest < usize::MAX && (request_number == latest + 1 ==> limit <= usize::MAX),
    );
    let entry = LogEntry::Request { client_id, session, request_number, answered, op };
    if same_core(s, t) {
        quiet(h, i, s, t);
        follows_now(h, i, t);
    } else {
        quiet(h, i, s, checked);
        assert(t == checked.prepare(entry));
        assert(checked.inv());
        appends_in_order(h, i, s, entry);
        prepares(h, i, checked, entry);
    }
}

/// The primary starts a round of view confirmations.
proof fn starts_round<SM: StateMachine>(h: History<SM::Input>, i: ReplicaID, s: ReplicaModel<SM>)
    requires
        h.wf(),
        replica_ok(h, i, s),
        s.inv(),
        s.leads(),
        !s.round_unsent || h.asked_of(s.view_number) < s.round,
        s.round < u64::MAX,
    ensures
        ({
            let g = h.start_round(s.view_number, (s.round + 1) as nat);
            &&& h.grows(g, i)
            &&& g.wf()
            &&& replica_ok(g, i, s.start_round())
        }),
{
    let v = s.view_number;
    let round = (s.round + 1) as u64;
    let g = h.start_round(v, round as nat);
    let confirmed = s.confirmed.update(s.self_id as int, round);
    let next = ReplicaModel {
        round,
        round_unsent: true,
        confirmed,
        ..s.check(s.round < u64::MAX)
    };
    assert(s.config == h.config && s.self_id == i && i < h.config.size() && h.started(v)
        && h.at[i as int] == v && h.config.primary_of(v) == i) by {
        reveal(log_ok);
    }
    assert(h.rounds_of(v) == s.round) by {
        reveal(leads_ok);
    }
    start_round_grows(h, i, v, round as nat);
    let log = h.logs[i as int];
    base_stays(h, g, i, s, next);
    assert(leads_ok(g, i, next)) by {
        reveal(leads_ok);
        super::history::complete_stays(h, g, i, log.take(s.view_start_op as int), v as int);
        assert(g.asked_of(v) == h.asked_of(v));
        assert(h.asked_of(v) <= h.rounds_of(v));
        assert(g.decl(v) == h.decl(v));
        assert forall|q: int| 0 <= q < confirmed.len() implies g.was_at_most(
            q as ReplicaID,
            v,
            (#[trigger] confirmed[q]) as nat,
        ) by {
            if q != i {
                assert(h.was_at_most(q as ReplicaID, v, s.confirmed[q] as nat));
            } else if let Some(moment) = g.moment {
                assert(moment.at[q] <= g.at[q]);
            }
        }
        if s.round_confirmed != 0 {
            let marks = round_marks(s.confirmed);
            let later = round_marks(confirmed);
            assert forall|q: int| 0 <= q < marks.len() implies #[trigger] marks[q] <= later[q] by {
                assert(s.confirmed[q] <= s.round);
            }
            reach_grows(marks, later, s.round_confirmed as int);
        }
    }
    let message = MessageView::<SM::Input, SM::Query, SM::Chunk>::ConfirmView {
        view_number: v,
        round,
    };
    assert forall|to: ReplicaID|
        to < next.config.size() && to != next.self_id implies #[trigger] message_ok::<SM>(
        g,
        to,
        message,
    ) by {}
    send_to_others_ok(g, next, message);
    same_core_ok(g, i, next, s.start_round());
}

/// What holds of a replica holds in a history that grew without moving it.
pub proof fn base_stays<SM: StateMachine>(
    h: History<SM::Input>,
    g: History<SM::Input>,
    i: ReplicaID,
    s: ReplicaModel<SM>,
    t: ReplicaModel<SM>,
)
    requires
        h.wf(),
        h.grows(g, i),
        base_ok(h, i, s),
        s.status == Status::Normal,
        g.at == h.at,
        g.logs == h.logs,
        g.reported == h.reported,
        g.recovering == h.recovering,
        g.accepted == h.accepted,
        g.acknowledged == h.acknowledged,
        g.views == h.views,
        t.self_id == s.self_id,
        t.config == s.config,
        t.status == s.status,
        t.view_number == s.view_number,
        t.last_normal_view == s.last_normal_view,
        t.commit_number == s.commit_number,
        t.log_start == s.log_start,
        t.log == s.log,
        t.acked == s.acked,
        t.do_view_change_from == s.do_view_change_from,
        t.catching_up == s.catching_up,
        t.fetch == s.fetch,
        same_mail(s, t),
    ensures
        base_ok(g, i, t),
{
    let v = s.view_number;
    let log = h.logs[i as int];
    assert forall|q: ReplicaID, u: ViewNumber| #[trigger] g.acc(q, u) == h.acc(q, u) by {}
    assert forall|q: ReplicaID, u: ViewNumber| #[trigger] g.ack(q, u) == h.ack(q, u) by {}
    assert forall|u: ViewNumber| #[trigger] g.log_of(u) == h.log_of(u) by {}
    assert(log_ok(g, i, t)) by {
        reveal(log_ok);
        super::history::committed_stays(h, g, i, log, s.commit_number as nat, v + 1);
        super::history::complete_stays(h, g, i, log, v as int);
    }
    assert(acks_ok(g, t)) by {
        assert forall|q: int| 0 <= q < t.acked.len() implies #[trigger] t.acked[q] <= g.ack(
            q as ReplicaID,
            v,
        ) by {
            assert(s.acked[q] <= h.ack(q as ReplicaID, v));
        }
    }
    assert(change_ok(g, i, t)) by {
        reveal(change_ok);
        assert forall|q: ReplicaID| #[trigger]
            t.do_view_change_from.contains_key(q) implies g.report_ok(
            q,
            v,
            t.do_view_change_from[q],
        ) by {
            report_ok_stays(h, g, i, q, v, s.do_view_change_from[q]);
        }
    }
    outbox_ok_stays(h, g, i, s);
    same_mail_ok(g, s, t);
}

pub proof fn follows_on_query<SM: StateMachine>(
    h: History<SM::Input>,
    i: ReplicaID,
    s: ReplicaModel<SM>,
    client_id: ClientID,
    query_number: QueryNumber,
    query: SM::Query,
)
    requires
        h.wf(),
        replica_ok(h, i, s),
        s.inv(),
        s.on_query(client_id, query_number, query).fits,
    ensures
        follows(h, i, s.on_query(client_id, query_number, query)),
{
    let t = s.on_query(client_id, query_number, query);
    if s.leads() && !s.waits(client_id, query_number) {
        let starts = !s.round_unsent && s.round - s.round_confirmed < ROUNDS_OUT;
        if starts {
            starts_round(h, i, s);
            let g = h.start_round(s.view_number, (s.round + 1) as nat);
            quiet(g, i, s.start_round(), t);
            assert(replica_ok(g, i, t));
        } else {
            quiet(h, i, s, t);
            follows_now(h, i, t);
        }
    } else {
        follows_now(h, i, t);
    }
}

pub proof fn follows_on_confirm_view<SM: StateMachine>(
    h: History<SM::Input>,
    i: ReplicaID,
    s: ReplicaModel<SM>,
    view_number: ViewNumber,
    round: u64,
)
    requires
        h.wf(),
        replica_ok(h, i, s),
        round <= h.asked_of(view_number),
    ensures
        follows(h, i, s.on_confirm_view(view_number, round)),
{
    let t = s.on_confirm_view(view_number, round);
    if t != s {
        assert(s.self_id == i && i < h.config.size() && h.at[i as int] == s.view_number) by {
            reveal(log_ok);
        }
        if let Some(moment) = h.moment {
            assert(moment.at[i as int] <= h.at[i as int]);
        }
        send_ok(
            h,
            s,
            s.primary_id(),
            MessageView::ConfirmViewOk { view_number, round, replica_id: s.self_id },
        );
        same_core_ok(h, i, s, t);
    }
    follows_now(h, i, t);
}

/// The primary counts a confirmation of a round.
proof fn counts_confirmation<SM: StateMachine>(
    h: History<SM::Input>,
    i: ReplicaID,
    s: ReplicaModel<SM>,
    t: ReplicaModel<SM>,
    round: u64,
    replica_id: ReplicaID,
)
    requires
        h.wf(),
        replica_ok(h, i, s),
        s.inv(),
        s.leads(),
        replica_id < s.confirmed.len(),
        round <= h.asked_of(s.view_number),
        h.was_at_most(replica_id, s.view_number, round as nat),
        round > s.confirmed[replica_id as int],
        t == (ReplicaModel {
            confirmed: s.confirmed.update(replica_id as int, round),
            round_confirmed: t.round_confirmed,
            ..s
        }),
        t.round_confirmed == s.round_confirmed || t.round_confirmed == quorum_mark(
            round_marks(t.confirmed),
            s.config.quorum(),
        ),
    ensures
        replica_ok(h, i, t),
{
    same_mail_ok(h, s, t);
    assert(log_ok(h, i, t)) by {
        reveal(log_ok);
    }
    assert(change_ok(h, i, t)) by {
        reveal(change_ok);
    }
    assert(leads_ok(h, i, t)) by {
        reveal(leads_ok);
        let marks = round_marks(s.confirmed);
        let later = round_marks(t.confirmed);
        lemma_quorum_mark_is_mark(later, s.config.quorum());
        if s.round_confirmed != 0 {
            assert forall|q: int| 0 <= q < marks.len() implies #[trigger] marks[q] <= later[q] by {}
            reach_grows(marks, later, s.round_confirmed as int);
        }
        assert forall|q: int| 0 <= q < t.confirmed.len() implies h.was_at_most(
            q as ReplicaID,
            s.view_number,
            (#[trigger] t.confirmed[q]) as nat,
        ) by {
            if q != replica_id {
                assert(h.was_at_most(q as ReplicaID, s.view_number, s.confirmed[q] as nat));
            }
        }
        assert forall|q: int| 0 <= q < t.confirmed.len() && q != i implies #[trigger] t.confirmed[q]
            <= h.asked_of(s.view_number) by {
            if q != replica_id {
                assert(s.confirmed[q] <= h.asked_of(s.view_number));
            }
        }
    }
}

pub proof fn follows_on_confirm_view_ok<SM: StateMachine>(
    h: History<SM::Input>,
    i: ReplicaID,
    s: ReplicaModel<SM>,
    view_number: ViewNumber,
    round: u64,
    replica_id: ReplicaID,
)
    requires
        h.wf(),
        replica_ok(h, i, s),
        s.inv(),
        message_ok::<SM>(h, i, MessageView::ConfirmViewOk { view_number, round, replica_id }),
        s.on_confirm_view_ok(view_number, round, replica_id).fits,
    ensures
        follows(h, i, s.on_confirm_view_ok(view_number, round, replica_id)),
{
    broadcast use {crate::replica::ok::group_ok, frame_answer_queries};

    let t = s.on_confirm_view_ok(view_number, round, replica_id);
    if view_number != s.view_number || !s.leads() || replica_id >= s.confirmed.len() || round
        > s.round || round <= s.confirmed[replica_id as int] {
        follows_now(h, i, t);
    } else {
        let counted = ReplicaModel {
            confirmed: s.confirmed.update(replica_id as int, round),
            ..s
        };
        let marks = round_marks(counted.confirmed);
        let mark = quorum_mark(marks, s.config.quorum());
        lemma_quorum_mark_is_mark(marks, s.config.quorum());
        assert(0 <= mark <= s.round) by {
            if mark != 0 {
                let k = choose|k: int| 0 <= k < marks.len() && marks[k] == mark;
                assert(counted.confirmed[k] <= s.round);
            }
        }
        let round_confirmed = mark as u64;
        counts_confirmation(h, i, s, counted, round, replica_id);
        if round_confirmed <= s.round_confirmed {
            follows_now(h, i, counted);
        } else {
            let confirmed = ReplicaModel { round_confirmed, ..counted };
            counts_confirmation(h, i, s, confirmed, round, replica_id);
            assert(confirmed.inv());
            if s.queries.len() > 0 && s.queries.last().round > s.round {
                let next = confirmed.start_round();
                assert(next.execute_queries().fits);
                assert(s.round < u64::MAX);
                assert(confirmed.round_unsent ==> h.asked_of(confirmed.view_number)
                    < confirmed.round) by {
                    reveal(leads_ok);
                }
                starts_round(h, i, confirmed);
                let g = h.start_round(s.view_number, (s.round + 1) as nat);
                answers(g, i, next);
                assert(replica_ok(g, i, t));
            } else {
                answers(h, i, confirmed);
                follows_now(h, i, t);
            }
        }
    }
}

/// The primary counts an acknowledgement.
pub proof fn counts_ack<SM: StateMachine>(
    h: History<SM::Input>,
    i: ReplicaID,
    s: ReplicaModel<SM>,
    replica_id: ReplicaID,
    op_number: OpNumber,
) -> (g: History<SM::Input>)
    requires
        h.wf(),
        replica_ok(h, i, s),
        s.inv(),
        s.leads(),
        replica_id < s.acked.len(),
        min(op_number as int, s.op_number()) <= h.ack(replica_id, s.view_number),
    ensures
        h.grows(g, i),
        g.wf(),
        g.used == h.used,
        g.acknowledged == h.acknowledged,
        replica_ok(g, i, s.register_ack(replica_id, op_number)),
        same_mail(s, s.register_ack(replica_id, op_number)),
{
    grows_refl(h, i);
    let v = s.view_number;
    let log = h.logs[i as int];
    let mark = min(op_number as int, s.op_number()) as OpNumber;
    if mark > s.acked[replica_id as int] {
        let acked = s.acked.update(replica_id as int, mark);
        let counted = ReplicaModel { acked, ..s };
        same_mail_ok(h, s, counted);
        assert(s.config == h.config && s.self_id == i && i < h.config.size()
            && h.config.primary_of(v) == i && log == h.log_of(v)) by {
            reveal(log_ok);
        }
        assert(log_ok(h, i, counted)) by {
            reveal(log_ok);
        }
        assert(change_ok(h, i, counted)) by {
            reveal(change_ok);
        }
        assert(leads_ok(h, i, counted)) by {
            reveal(leads_ok);
        }
        assert forall|q: int| 0 <= q < acked.len() implies #[trigger] acked[q] <= h.ack(
            q as ReplicaID,
            v,
        ) by {
            assert(s.acked[q] <= h.ack(q as ReplicaID, v));
        }
        let marks = op_marks(acked);
        let quorum = s.config.quorum();
        let m = quorum_mark(marks, quorum);
        lemma_quorum_mark_is_mark(marks, quorum);
        assert(0 <= m <= usize::MAX && (m != 0 ==> h.chosen(v, m as nat))) by {
            if m != 0 {
                let at = choose|at: int| 0 <= at < marks.len() && marks[at] == m;
                assert(marks[at] == acked[at]);
                assert(acked[at] <= h.ack(at as ReplicaID, v));
                assert(h.ack(at as ReplicaID, v) <= h.acc(at as ReplicaID, v));
                let all = reaching(marks, m);
                reaching_counts(marks, m);
                assert(h.is_quorum(all));
                assert(h.all_acked(all, v, m as nat)) by {
                    assert forall|id: ReplicaID| #[trigger] all.contains(id) implies h.ack(id, v)
                        >= m as nat by {
                        assert(marks[id as int] == acked[id as int]);
                        assert(acked[id as int] <= h.ack(id, v));
                    }
                }
                assert(h.acc(at as ReplicaID, v) <= h.log_of(v).len());
            }
        }
        let t = s.register_ack(replica_id, op_number);
        if m > s.commit_number {
            let g = h.declare(v, m as nat);
            assert(h.decl(v) <= s.commit_number) by {
                reveal(leads_ok);
            }
            declare_grows(h, i, v, m as nat);
            base_stays(h, g, i, counted, counted);
            assert(g.committed(log, m as nat, v + 1)) by {
                reveal(History::committed);
                assert(g.declares(v, m as nat));
                assert(g.log_of(v) == h.log_of(v));
                assert(g.has(log, v, m as nat));
            }
            commits_declared(h, g, i, counted, m as CommitID);
            assert(t == counted.commit_up_to(m as CommitID, true));
            g
        } else {
            assert(t == counted);
            h
        }
    } else {
        h
    }
}

/// The primary commits what it has declared committed.
proof fn commits_declared<SM: StateMachine>(
    h: History<SM::Input>,
    g: History<SM::Input>,
    i: ReplicaID,
    s: ReplicaModel<SM>,
    m: CommitID,
)
    requires
        h.wf(),
        h.grows(g, i),
        g == h.declare(s.view_number, m as nat),
        base_ok(g, i, s),
        leads_ok(h, i, s),
        s.leads(),
        m > s.commit_number,
        g.committed(g.logs[i as int], m as nat, s.view_number + 1),
    ensures
        replica_ok(g, i, s.commit_up_to(m, true)),
        same_mail(s, s.commit_up_to(m, true)),
{
    broadcast use {frame_commit_up_to, frame_apply_committed};

    let v = s.view_number;
    let t = s.commit_up_to(m, true);
    same_mail_ok(g, s, t);
    assert(log_ok(g, i, t)) by {
        reveal(log_ok);
    }
    assert(change_ok(g, i, t)) by {
        reveal(change_ok);
    }
    assert(leads_ok(g, i, t)) by {
        reveal(leads_ok);
        assert(g.rounds_of(v) == h.rounds_of(v));
        assert(g.asked_of(v) == h.asked_of(v));
        super::history::complete_stays(
            h,
            g,
            i,
            h.logs[i as int].take(s.view_start_op as int),
            v as int,
        );
    }
}

pub proof fn follows_on_prepare_ok<SM: StateMachine>(
    h: History<SM::Input>,
    i: ReplicaID,
    s: ReplicaModel<SM>,
    view_number: ViewNumber,
    op_number: OpNumber,
    replica_id: ReplicaID,
)
    requires
        h.wf(),
        replica_ok(h, i, s),
        s.inv(),
        h.ack(replica_id, view_number) >= op_number,
    ensures
        follows(h, i, s.on_prepare_ok(view_number, op_number, replica_id)),
{
    reveal(ReplicaModel::on_prepare_ok);
    let t = s.on_prepare_ok(view_number, op_number, replica_id);
    if view_number == s.view_number && s.leads() && replica_id < s.acked.len() {
        let g = counts_ack(h, i, s, replica_id, op_number);
        assert(replica_ok(g, i, t));
    } else {
        follows_now(h, i, t);
    }
}

/// A replica that holds no log of a later view goes into it: what it holds
/// it keeps.
pub proof fn leaves_view<SM: StateMachine>(
    h: History<SM::Input>,
    i: ReplicaID,
    s: ReplicaModel<SM>,
    v: ViewNumber,
    t: ReplicaModel<SM>,
)
    requires
        h.wf(),
        stands(h, i, s),
        v > s.view_number || (v == s.view_number && s.status == Status::ViewChange),
        s.status != Status::Recovering,
        t.self_id == s.self_id,
        t.config == s.config,
        t.status == Status::ViewChange,
        t.view_number == v,
        t.last_normal_view == s.last_normal_view,
        t.commit_number == s.commit_number,
        t.log_start == s.log_start,
        t.log == s.log,
        h.config.primary_of(v) == i ==> !h.started(v),
    ensures
        log_ok(h.move_to(i, v), i, t),
        h.grows(h.move_to(i, v), i),
        h.move_to(i, v).wf(),
{
    let log = h.logs[i as int];
    let g = h.move_to(i, v);
    let n = s.commit_number as nat;
    reveal(log_ok);
    move_to_grows(h, i, v);
    super::history::committed_stays(h, g, i, log, n, bound(s));
    committed_length(g, log, n, bound(s));
    committed_extends(g, log, log, n, bound(s), v as int);
    let lv = s.last_normal_view;
    assert forall|u: ViewNumber| #[trigger] g.acc(i, u) == h.acc(i, u) by {}
    assert(g.log_of(lv) == h.log_of(lv));
    super::history::complete_stays(h, g, i, log, lv as int);
    if s.status == Status::ViewChange && h.complete(log, lv + 1) {
        super::history::complete_stays(h, g, i, log, lv + 1);
    }
    assert(g.keeps(log, lv, g.acc(i, lv)));
}

/// A replica that learns that a view has started catches up with it.
pub proof fn catches_up<SM: StateMachine>(
    h: History<SM::Input>,
    i: ReplicaID,
    s: ReplicaModel<SM>,
    v: ViewNumber,
)
    requires
        h.wf(),
        replica_ok(h, i, s),
        s.inv(),
        v > s.view_number || (v == s.view_number && s.status == Status::ViewChange),
        s.status != Status::Recovering,
        h.started(v),
        h.config.primary_of(v) != i,
    ensures
        follows(h, i, s.catch_up_with_view(v)),
{
    let t = s.catch_up_with_view(v);
    let p = s.config.primary_of(v);
    if s.view_number == v && s.catching_up == Some(p) {
        follows_now(h, i, t);
    } else {
        let g = h.move_to(i, v);
        assert(s.config == h.config && s.self_id == i) by {
            reveal(log_ok);
        }
        assert(stands(h, i, s)) by {
            reveal(log_ok);
        }
        leaves_view(h, i, s, v, t);
        outbox_ok_stays(h, g, i, s);
        assert(g.may_ask(p, i, v));
        let cleared = ReplicaModel {
            catching_up: Some(p),
            ..ReplicaModel {
                view_number: v,
                status: Status::ViewChange,
                idle_periods_waiting: 0,
                ..s
            }.clear_view_change_state()
        };
        same_mail_ok(g, s, cleared);
        send_ok(
            g,
            cleared,
            p,
            MessageView::GetState { replica_id: i, view_number: v, op_number: s.commit_number },
        );
        assert(change_ok(g, i, t)) by {
            reveal(change_ok);
            reveal(log_ok);
            if g.reported.contains_key((i, v)) {
                assert(h.reported.contains_key((i, v)));
            }
        }
        assert(leads_ok(g, i, t)) by {
            reveal(leads_ok);
        }
        assert(replica_ok(g, i, t));
    }
}

/// A backup asks the primary for the log.
pub proof fn asks_for_state<SM: StateMachine>(
    h: History<SM::Input>,
    i: ReplicaID,
    s: ReplicaModel<SM>,
)
    requires
        h.wf(),
        replica_ok(h, i, s),
        s.inv(),
        s.status == Status::Normal || s.status == Status::StateTransfer,
        !s.is_primary(),
    ensures
        replica_ok(h, i, s.state_transfer()),
{
    let asking = ReplicaModel { status: Status::StateTransfer, ..s };
    same_mail_ok(h, s, asking);
    assert(log_ok(h, i, asking)) by {
        reveal(log_ok);
    }
    assert(change_ok(h, i, asking)) by {
        reveal(change_ok);
    }
    assert(leads_ok(h, i, asking)) by {
        reveal(leads_ok);
    }
    assert(h.may_ask(s.primary_id(), i, s.view_number) && s.self_id == i) by {
        reveal(log_ok);
    }
    send_ok(
        h,
        asking,
        s.primary_id(),
        MessageView::GetState {
            replica_id: i,
            view_number: s.view_number,
            op_number: s.op_number() as OpNumber,
        },
    );
    same_core_ok(h, i, asking, s.state_transfer());
}

/// A backup acknowledges its log.
pub proof fn acknowledges<SM: StateMachine>(h: History<SM::Input>, i: ReplicaID, s: ReplicaModel<SM>)
    requires
        replica_ok(h, i, s),
        s.inv(),
        s.status == Status::Normal,
    ensures
        replica_ok(h, i, s.send_prepare_ok()),
{
    assert(h.acc(s.self_id, s.view_number) >= s.op_number()) by {
        reveal(log_ok);
    }
    send_prepare_ok_ok(h, s);
    same_core_ok(h, i, s, s.send_prepare_ok());
}

/// A backup appends the next entry of its view.
proof fn appends<SM: StateMachine>(
    h: History<SM::Input>,
    i: ReplicaID,
    s: ReplicaModel<SM>,
    entry: LogEntry<SM::Input>,
)
    requires
        h.wf(),
        replica_ok(h, i, s),
        s.inv(),
        s.status == Status::Normal,
        !s.is_primary(),
        s.op_number() < h.log_of(s.view_number).len(),
        h.log_of(s.view_number)[s.op_number()] == entry,
        s.append_to_log(entry).fits,
    ensures
        ({
            let g = h.follow(i, s.view_number, h.logs[i as int].push(entry));
            &&& h.grows(g, i)
            &&& g.wf()
            &&& replica_ok(g, i, s.append_to_log(entry))
        }),
{
    let v = s.view_number;
    let log = h.logs[i as int];
    let longer = log.push(entry);
    reveal(log_ok);
    prefix_push(log, entry);
    assert(prefix(longer, h.log_of(v))) by {
        let whole = h.log_of(v);
        assert(whole.take(longer.len() as int) =~= longer) by {
            assert forall|k: int| 0 <= k < log.len() implies whole[k] == log[k] by {
                assert(whole.take(log.len() as int)[k] == log[k]);
            }
        }
    }
    assert(h.started(v));
    complete_is_ordered(h, h.log_of(v), longer, v as int);
    complete_extends(h, log, longer, v as int);
    follow_grows(h, i, v, longer);
    let g = h.follow(i, v, longer);
    let t = s.append_to_log(entry);
    assert(longer.skip(s.log_start as int) =~= t.log);
    assert(log_ok(g, i, t)) by {
        super::history::committed_stays(h, g, i, log, s.commit_number as nat, v + 1);
        committed_grows(g, log, longer, s.commit_number as nat, v + 1);
        super::history::complete_stays(h, g, i, longer, v as int);
        assert forall|u: ViewNumber| #[trigger] g.acc(i, u) > 0 implies u <= t.last_normal_view by {
            if u != v {
                assert(g.acc(i, u) == h.acc(i, u));
            }
        }
    }
    assert(acks_ok(g, t)) by {
        assert forall|q: int| 0 <= q < t.acked.len() implies #[trigger] t.acked[q] <= g.ack(
            q as ReplicaID,
            v,
        ) by {
            assert(s.acked[q] <= h.ack(q as ReplicaID, v));
            assert(g.ack(q as ReplicaID, v) >= h.ack(q as ReplicaID, v));
        }
    }
    assert(change_ok(g, i, t)) by {
        reveal(change_ok);
        assert forall|q: ReplicaID| #[trigger]
            t.do_view_change_from.contains_key(q) implies g.report_ok(
            q,
            v,
            t.do_view_change_from[q],
        ) by {
            report_ok_stays(h, g, i, q, v, s.do_view_change_from[q]);
        }
    }
    assert(leads_ok(g, i, t)) by {
        reveal(leads_ok);
    }
    outbox_ok_stays(h, g, i, s);
    same_mail_ok(g, s, t);
}

/// A backup commits what its primary tells it to, as far as its log goes.
proof fn told_to_commit<SM: StateMachine>(
    h: History<SM::Input>,
    i: ReplicaID,
    s: ReplicaModel<SM>,
    commit_number: CommitID,
    told: CommitID,
)
    requires
        h.wf(),
        replica_ok(h, i, s),
        s.inv(),
        s.status == Status::Normal,
        h.committed(h.log_of(s.view_number), told as nat, s.view_number + 1),
        commit_number <= told,
        commit_number <= s.op_number(),
    ensures
        replica_ok(h, i, s.commit_up_to(commit_number, false)),
{
    let v = s.view_number;
    committed_less(h, h.log_of(v), told as nat, commit_number as nat, v + 1);
    assert(h.committed(h.logs[i as int], commit_number as nat, v + 1)) by {
        reveal(log_ok);
        regular_has_committed(h, h.logs[i as int], h.log_of(v), commit_number as nat, v);
    }
    commits(h, i, s, commit_number, false);
}

/// A message from the primary of a view is checked against the view.
proof fn accepts<SM: StateMachine>(
    h: History<SM::Input>,
    i: ReplicaID,
    s: ReplicaModel<SM>,
    v: ViewNumber,
)
    requires
        h.wf(),
        replica_ok(h, i, s),
        s.inv(),
        s.status != Status::Recovering,
        h.started(v),
        h.config.primary_of(v) != i,
    ensures
        ({
            let (accepted, process) = s.accept_from_primary(v);
            &&& !process ==> follows(h, i, accepted)
            &&& process ==> {
                &&& replica_ok(h, i, accepted)
                &&& accepted.inv()
                &&& accepted.fits == s.fits
                &&& accepted.status == Status::Normal
                &&& accepted.view_number == v
                &&& !accepted.is_primary()
                &&& accepted.op_number() == s.op_number()
            }
        }),
{
    let (accepted, process) = s.accept_from_primary(v);
    if v < s.view_number {
        follows_now(h, i, s);
    } else if v > s.view_number {
        catches_up(h, i, s, v);
    } else {
        let heard = ReplicaModel { heard_from_primary: true, ..s };
        quiet(h, i, s, heard);
        if s.status == Status::ViewChange {
            assert(heard.inv());
            catches_up(h, i, heard, v);
        } else {
            follows_now(h, i, heard);
        }
    }
}

pub proof fn follows_on_prepare<SM: StateMachine>(
    h: History<SM::Input>,
    i: ReplicaID,
    s: ReplicaModel<SM>,
    view_number: ViewNumber,
    op_number: OpNumber,
    entry: LogEntry<SM::Input>,
    commit_number: CommitID,
)
    requires
        h.wf(),
        replica_ok(h, i, s),
        s.inv(),
        s.status != Status::Recovering,
        s.on_prepare(view_number, op_number, entry, commit_number).fits,
        message_ok::<SM>(
            h,
            i,
            MessageView::Prepare { view_number, op_number, entry, commit_number },
        ),
    ensures
        follows(h, i, s.on_prepare(view_number, op_number, entry, commit_number)),
{
    broadcast use {crate::replica::ok::group_ok, crate::replica::keeps::group_keeps};

    reveal(ReplicaModel::on_prepare);
    let t = s.on_prepare(view_number, op_number, entry, commit_number);
    let (accepted, process) = s.accept_from_primary(view_number);
    accepts(h, i, s, view_number);
    if process {
        if op_number > accepted.op_number() + 1 {
            asks_for_state(h, i, accepted);
            follows_now(h, i, t);
        } else {
            let next = op_number == accepted.op_number() + 1;
            let appended = if next {
                accepted.append_to_log(entry)
            } else {
                accepted
            };
            let c = min(commit_number as int, appended.op_number()) as CommitID;
            let done = appended.commit_up_to(c, false);
            let g = if next {
                h.follow(i, view_number, h.logs[i as int].push(entry))
            } else {
                h
            };
            if next {
                appends(h, i, accepted, entry);
                super::history::committed_stays(
                    h,
                    g,
                    i,
                    h.log_of(view_number),
                    commit_number as nat,
                    view_number + 1,
                );
                assert(g.log_of(view_number) == h.log_of(view_number));
            } else {
                grows_refl(h, i);
            }
            assert(appended.inv());
            told_to_commit(g, i, appended, c, commit_number);
            frame_commit_up_to(appended, c, false);
            acknowledges(g, i, done);
            assert(replica_ok(g, i, t));
        }
    }
}

pub proof fn follows_on_commit<SM: StateMachine>(
    h: History<SM::Input>,
    i: ReplicaID,
    s: ReplicaModel<SM>,
    view_number: ViewNumber,
    commit_number: CommitID,
)
    requires
        h.wf(),
        replica_ok(h, i, s),
        s.inv(),
        s.status != Status::Recovering,
        message_ok::<SM>(h, i, MessageView::Commit { view_number, commit_number }),
    ensures
        follows(h, i, s.on_commit(view_number, commit_number)),
{
    reveal(ReplicaModel::on_commit);
    let t = s.on_commit(view_number, commit_number);
    let (accepted, process) = s.accept_from_primary(view_number);
    accepts(h, i, s, view_number);
    if process {
        if commit_number > accepted.op_number() {
            asks_for_state(h, i, accepted);
        } else {
            told_to_commit(h, i, accepted, commit_number, commit_number);
        }
        follows_now(h, i, t);
    }
}

} // verus!
