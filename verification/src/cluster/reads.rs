use vstd::prelude::*;
use super::agreement::{config_stays, run_keeps_settled};
use super::branches::{branch_joins, branch_ok};
use super::disks::{ack_left, node_ok, Trail};
use super::history::{
    chosen_is_not_blocked, chosen_stays, complete_stays, declared_is_chosen, prefix, prefix_refl,
    History, Moment,
};
use super::induction::{has_left, node_is, run_bears_out, sent_ok, Account};
use super::moves::grows_refl;
use super::normal::bound;
use super::quorums::{reaching, reaching_counts};
use super::rests::{rests, rests_unmoved, write_ok, write_unmoved};
use super::run::{is_run, Action, Cluster, Stored};
use super::safety::{leads_ok, log_ok, mail_ok, message_ok, outbox_ok, replica_ok};
use super::stays::{message_ok_stays, replica_ok_stays, unmoved, unmoved_ok};
use crate::config::{quorums_intersect, ConfigView};
use crate::ids::{ClientID, QueryNumber, ReplicaID, ViewNumber};
use crate::log::{LogEntry, PersistentView};
use crate::message::MessageViewFor;
use crate::replica::model::{max, reach, round_marks, ReplicaModel};
use crate::replica::parts::Status;
use crate::state_machine::StateMachine;

verus! {

/// What is committed by no later view than one whose start and commits a
/// number covers is covered by it.
proof fn committed_is_covered<Op>(
    h: History<Op>,
    v: ViewNumber,
    start: Seq<LogEntry<Op>>,
    log: Seq<LogEntry<Op>>,
    n: nat,
    w: int,
    quorum: Set<ReplicaID>,
    covered: nat,
)
    requires
        h.wf(),
        h.complete(start, v as int),
        start.len() <= covered,
        h.decl(v) <= covered,
        h.committed(log, n, w),
        h.is_quorum(quorum),
        forall|q: ReplicaID, u: ViewNumber|
            quorum.contains(q) && (#[trigger] h.ack(q, u)) > 0 ==> u <= v,
    ensures
        n <= covered,
{
    reveal(History::committed);
    reveal(History::complete);
    if n > 0 {
        let u = choose|u: ViewNumber| u < w && #[trigger] h.declares(u, n) && h.has(log, u, n);
        declared_is_chosen(h, u, n);
        if u > v {
            let held = choose|q: Set<ReplicaID>| h.is_quorum(q) && #[trigger] h.all_acked(q, u, n);
            quorums_intersect(h.config, quorum, held);
            let q = choose|q: ReplicaID| quorum.contains(q) && held.contains(q);
            assert(h.ack(q, u) >= n);
        } else if u < v {
            chosen_is_not_blocked(h, u, n);
            assert(h.settles(start, u, n));
        }
    }
}

/// A history looked back from.
spec fn looking<Op>(h: History<Op>, moment: Moment) -> History<Op> {
    History { moment: Some(moment), ..h }
}

/// A cluster bears out its history whatever moment is looked back on, as
/// long as the round of it has not left its primary.
proof fn looks_back<SM: StateMachine>(
    c: Cluster<SM>,
    account: Account<SM::Input>,
    p: ReplicaID,
    round: nat,
) -> (to: Account<SM::Input>)
    requires
        c.bears_out(account),
        p < c.config.size(),
        c.replicas[p as int].leads(),
        round >= 1,
        round > account.trails[p as int].ahead.asked_of(c.replicas[p as int].view_number),
    ensures
        c.bears_out(to),
        to.history.orderly == account.history.orderly,
        to.history.moment == Some(
            Moment {
                view_number: c.replicas[p as int].view_number,
                round,
                at: account.history.at,
            },
        ),
{
    let v = c.replicas[p as int].view_number;
    let h = account.history;
    let moment = Moment { view_number: v, round, at: h.at };
    let g = looking(h, moment);
    let trails = Seq::new(
        c.config.size(),
        |j: int|
            Trail {
                taken: looking(account.trails[j].taken, moment),
                ahead: looking(account.trails[j].ahead, moment),
                ..account.trails[j]
            },
    );
    let to = Account { history: g, trails };
    assert(c.has_node(account, p));
    node_is(h, p, c.replicas[p as int], c.disks[p as int], account.trails[p as int]);
    let x = account.trails[p as int].ahead;
    assert(x.at[p as int] == v && h.config.primary_of(v) == p) by {
        reveal(log_ok);
    }
    assert(x.asked_of(v) >= h.asked_of(v));
    wf_looked_back(h, g, p);
    sent_looked_back::<SM>(h, g, p, c.sent);
    assert forall|i: ReplicaID| i < c.config.size() implies #[trigger] c.has_node(to, i) by {
        assert(c.has_node(account, i));
        let trail = account.trails[i as int];
        assert(trail.ahead.asked_of(v) < round && (c.disks[i as int].out is Some
            ==> trail.taken.asked_of(v) < round)) by {
            reveal(node_ok);
            if i != p {
                assert(trail.ahead.asked_of(v) == h.asked_of(v));
            }
            if c.disks[i as int].out is Some {
                assert(trail.taken.asked_of(v) <= trail.ahead.asked_of(v)) by {
                    assert(trail.ahead.asked_of(v) >= trail.taken.asked_of(v));
                }
            }
        }
        node_looked_back(
            h,
            moment,
            p,
            i,
            c.replicas[i as int],
            c.disks[i as int],
            trail,
        );
    }
    to
}

/// A replica and its disk are sound whatever moment is looked back on.
proof fn node_looked_back<SM: StateMachine>(
    h: History<SM::Input>,
    moment: Moment,
    p: ReplicaID,
    i: ReplicaID,
    s: ReplicaModel<SM>,
    disk: Stored<SM::Input>,
    trail: Trail<SM::Input>,
)
    requires
        h.wf(),
        node_ok(h, i, s, disk, trail),
        moment.at == h.at,
        moment.round >= 1,
        moment.round > h.asked_of(moment.view_number),
        moment.round > trail.ahead.asked_of(moment.view_number),
        disk.out is Some ==> moment.round > trail.taken.asked_of(moment.view_number),
        p < h.config.size(),
        h.config.primary_of(moment.view_number) == p,
        h.at[p as int] <= moment.view_number,
    ensures
        node_ok(
            looking(h, moment),
            i,
            s,
            disk,
            Trail {
                taken: looking(trail.taken, moment),
                ahead: looking(trail.ahead, moment),
                ..trail
            },
        ),
{
    reveal(node_ok);
    let (g, taken, ahead) = (
        looking(h, moment),
        looking(trail.taken, moment),
        looking(trail.ahead, moment),
    );
    branch_looked_back(h, trail.ahead, moment, i);
    replica_looked_back(trail.ahead, ahead, p, i, s);
    rest_looked_back(h, g, i, disk.kept.shown, disk.kept.state, trail.log);
    mail_looked_back::<SM>(h, g, i, s.outbox_ready);
    assert forall|k: int| 0 <= k < s.outbox_ready.len() implies ack_left::<SM>(
        g,
        (#[trigger] s.outbox_ready[k]).1,
    ) by {
        assert(ack_left::<SM>(h, s.outbox_ready[k].1));
    }
    if let Some(out) = disk.out {
        branch_looked_back(h, trail.taken, moment, i);
        branch_of_looked_back(trail.taken, trail.ahead, moment, i);
        rest_looked_back(trail.taken, taken, i, out.shown, out.state, trail.out);
        mail_looked_back::<SM>(trail.taken, taken, i, s.outbox_waiting);
    }
}

proof fn rest_looked_back<Op>(
    h: History<Op>,
    g: History<Op>,
    i: ReplicaID,
    shown: PersistentView<Op>,
    state: PersistentView<Op>,
    log: Seq<LogEntry<Op>>,
)
    requires
        h.wf(),
        same_but_moment(h, g),
        rests(h, i, shown),
        write_ok(h, i, shown, state, log),
    ensures
        rests(g, i, shown),
        write_ok(g, i, shown, state, log),
{
    grew_but_moment(h, g, i);
    assert(unmoved(h, g, i)) by {
        assert forall|u: ViewNumber| #[trigger] g.acc(i, u) == h.acc(i, u) by {}
        assert forall|u: ViewNumber| #[trigger] g.log_of(u) == h.log_of(u) by {}
    }
    rests_unmoved(h, g, i, i, shown);
    write_unmoved(h, g, i, i, shown, state, log);
}

proof fn branch_looked_back<Op>(h: History<Op>, x: History<Op>, moment: Moment, i: ReplicaID)
    requires
        branch_ok(h, x, i),
        h.wf(),
        moment.at == h.at,
        moment.round >= 1,
        i < h.config.size(),
    ensures
        branch_ok(looking(h, moment), looking(x, moment), i),
{
    let (g, y) = (looking(h, moment), looking(x, moment));
    assert forall|q: int| 0 <= q < x.config.size() implies #[trigger] moment.at[q] <= x.at[q] by {
        if q != i {
            assert(x.at[q] == h.at[q]);
        }
    }
    wf_looked_back(x, y, i);
    branch_of_looked_back(h, x, moment, i);
}

proof fn branch_of_looked_back<Op>(h: History<Op>, x: History<Op>, moment: Moment, i: ReplicaID)
    requires
        branch_ok(h, x, i),
        looking(x, moment).wf(),
    ensures
        branch_ok(looking(h, moment), looking(x, moment), i),
{
    let (g, y) = (looking(h, moment), looking(x, moment));
    same_reads(h, g);
    same_reads(x, y);
    assert forall|u: ViewNumber| #[trigger] g.started(u) implies y.started(u) by {
        assert(h.started(u));
    }
    assert forall|q: ReplicaID, u: ViewNumber|
        #![trigger y.acc(q, u)]
        y.acc(q, u) >= g.acc(q, u) && (q != i || u < g.at[i as int] ==> y.acc(q, u) == g.acc(
            q,
            u,
        )) by {
        assert(x.acc(q, u) >= h.acc(q, u));
    }
    if let Some(recovery) = y.recovering[i as int] {
        if h.used.contains((i, recovery.nonce)) {
            assert forall|u: ViewNumber| #[trigger] y.acc(i, u) == g.acc(i, u) by {
                assert(x.acc(i, u) == h.acc(i, u));
            }
        }
    }
}

/// What two histories that differ in nothing but the moment say.
proof fn same_reads<Op>(h: History<Op>, g: History<Op>)
    requires
        same_but_moment(h, g),
    ensures
        forall|q: ReplicaID, u: ViewNumber| #[trigger] g.acc(q, u) == h.acc(q, u),
        forall|q: ReplicaID, u: ViewNumber| #[trigger] g.ack(q, u) == h.ack(q, u),
        forall|u: ViewNumber| #[trigger] g.log_of(u) == h.log_of(u),
        forall|u: ViewNumber| #[trigger] g.decl(u) == h.decl(u),
        forall|u: ViewNumber| #[trigger] g.rounds_of(u) == h.rounds_of(u),
        forall|u: ViewNumber| #[trigger] g.asked_of(u) == h.asked_of(u),
{
}

/// A history differs in nothing but the moment looked back on.
spec fn same_but_moment<Op>(h: History<Op>, g: History<Op>) -> bool {
    g == (History { moment: g.moment, ..h })
}

proof fn grew_but_moment<Op>(h: History<Op>, g: History<Op>, i: ReplicaID)
    requires
        same_but_moment(h, g),
    ensures
        h.grew(g, i),
{
    grows_refl(h, i);
    assert forall|u: ViewNumber| #[trigger] g.log_of(u) == h.log_of(u) by {}
    assert forall|q: ReplicaID, u: ViewNumber| #[trigger] g.acc(q, u) == h.acc(q, u) by {}
    assert forall|q: ReplicaID, u: ViewNumber| #[trigger] g.ack(q, u) == h.ack(q, u) by {}
    assert forall|u: ViewNumber| #[trigger] g.decl(u) == h.decl(u) by {}
    assert forall|u: ViewNumber| #[trigger] g.rounds_of(u) == h.rounds_of(u) by {}
    assert forall|u: ViewNumber| #[trigger] g.asked_of(u) == h.asked_of(u) by {}
    assert forall|u: ViewNumber| prefix(#[trigger] h.log_of(u), g.log_of(u)) by {
        prefix_refl(h.log_of(u));
    }
}

proof fn wf_looked_back<Op>(h: History<Op>, g: History<Op>, p: ReplicaID)
    requires
        h.wf(),
        same_but_moment(h, g),
        g.moment matches Some(moment) && moment.round >= 1 && moment.at.len() == h.at.len()
            && forall|q: int| 0 <= q < h.at.len() ==> #[trigger] moment.at[q] <= h.at[q],
    ensures
        g.wf(),
{
    grew_but_moment(h, g, p);
    assert forall|u: ViewNumber| #[trigger] g.started(u) implies g.complete(
        g.log_of(u),
        u as int,
    ) by {
        assert(h.started(u));
        complete_stays(h, g, p, h.log_of(u), u as int);
    }
    assert forall|u: ViewNumber| (#[trigger] g.decl(u)) >= 1 implies g.chosen(u, g.decl(u)) by {
        assert(h.decl(u) >= 1);
        chosen_stays(h, g, p, u, h.decl(u));
    }
    assert forall|u: ViewNumber| #[trigger] g.started(u) implies g.at[g.config.primary_of(
        u,
    ) as int] >= u by {
        assert(h.started(u));
    }
    assert forall|u: ViewNumber| (#[trigger] g.rounds_of(u)) >= 1 implies g.started(u) by {
        assert(h.rounds_of(u) >= 1);
    }
    assert forall|u: ViewNumber| (#[trigger] g.asked_of(u)) <= g.rounds_of(u) by {
        assert(h.asked_of(u) <= h.rounds_of(u));
    }
    assert forall|q: ReplicaID, u: ViewNumber| #[trigger] g.acc(q, u) <= g.log_of(u).len() by {
        assert(h.acc(q, u) <= h.log_of(u).len());
    }
    assert forall|q: ReplicaID, u: ViewNumber| #[trigger] g.ack(q, u) <= g.acc(q, u) by {
        assert(h.ack(q, u) <= h.acc(q, u));
    }
}

proof fn sent_looked_back<SM: StateMachine>(
    h: History<SM::Input>,
    g: History<SM::Input>,
    i: ReplicaID,
    sent: Seq<(ReplicaID, MessageViewFor<SM>)>,
)
    requires
        h.wf(),
        same_but_moment(h, g),
        g.moment matches Some(moment) && moment.round > h.asked_of(moment.view_number),
        sent_ok::<SM>(h, sent),
    ensures
        sent_ok::<SM>(g, sent),
{
    mail_looked_back::<SM>(h, g, i, sent);
    assert forall|k: int| 0 <= k < sent.len() implies message_ok::<SM>(
        g,
        (#[trigger] sent[k]).0,
        sent[k].1,
    ) && has_left::<SM>(g, sent[k].1) by {
        assert(has_left::<SM>(h, sent[k].1));
    }
}

/// Messages say nothing of a round that has not left its primary.
proof fn mail_looked_back<SM: StateMachine>(
    h: History<SM::Input>,
    g: History<SM::Input>,
    i: ReplicaID,
    mail: Seq<(ReplicaID, MessageViewFor<SM>)>,
)
    requires
        h.wf(),
        same_but_moment(h, g),
        g.moment matches Some(moment) && moment.round > h.asked_of(moment.view_number),
        mail_ok::<SM>(h, mail),
    ensures
        mail_ok::<SM>(g, mail),
{
    grew_but_moment(h, g, i);
    assert forall|k: int| 0 <= k < mail.len() implies message_ok::<SM>(
        g,
        (#[trigger] mail[k]).0,
        mail[k].1,
    ) by {
        message_ok_stays::<SM>(h, g, i, mail[k].0, mail[k].1);
    }
}

proof fn replica_looked_back<SM: StateMachine>(
    h: History<SM::Input>,
    g: History<SM::Input>,
    p: ReplicaID,
    i: ReplicaID,
    s: ReplicaModel<SM>,
)
    requires
        h.wf(),
        same_but_moment(h, g),
        g.moment matches Some(moment) && moment.round > h.asked_of(moment.view_number)
            && h.config.primary_of(moment.view_number) == p && moment.at[p as int]
            <= moment.view_number,
        replica_ok(h, i, s),
    ensures
        replica_ok(g, i, s),
{
    grew_but_moment(h, g, i);
    assert(unmoved(h, g, i)) by {
        assert forall|u: ViewNumber| #[trigger] g.acc(i, u) == h.acc(i, u) by {}
        assert forall|u: ViewNumber| #[trigger] g.log_of(u) == h.log_of(u) by {}
    }
    unmoved_ok(h, g, i, i, s);
    assert(outbox_ok(g, s)) by {
        reveal(outbox_ok);
        mail_looked_back::<SM>(h, g, i, s.outbox_early);
        mail_looked_back::<SM>(h, g, i, s.outbox);
        mail_looked_back::<SM>(h, g, i, s.outbox_waiting);
        mail_looked_back::<SM>(h, g, i, s.outbox_ready);
    }
    assert(leads_ok(g, i, s)) by {
        reveal(leads_ok);
        if s.leads() {
            let v = s.view_number;
            assert(g.asked_of(v) == h.asked_of(v));
            assert(g.rounds_of(v) == h.rounds_of(v));
            assert(g.decl(v) == h.decl(v));
            complete_stays(
                h,
                g,
                i,
                h.logs[i as int].take(s.view_start_op as int),
                v as int,
            );
            assert(s.self_id == i && s.config == h.config && h.at[i as int] == v) by {
                reveal(log_ok);
            }
            assert forall|q: int| 0 <= q < s.confirmed.len() implies g.was_at_most(
                q as ReplicaID,
                v,
                (#[trigger] s.confirmed[q]) as nat,
            ) by {
                if q != i {
                    assert(s.confirmed[q] <= h.asked_of(v));
                }
            }
        }
    }
}

/// A query that a primary takes is answered, once it is, from a state that
/// has executed everything that any replica had committed when the query
/// arrived, whatever happens in between: it sees every request completed
/// before.
pub proof fn queries_read_what_was_committed<SM: StateMachine>(
    config: ConfigView,
    machines: Seq<SM::State>,
    run: Seq<Cluster<SM>>,
    actions: Seq<Action<SM>>,
    a: int,
    b: int,
    p: ReplicaID,
    j: ReplicaID,
    client_id: ClientID,
    query_number: QueryNumber,
    query: SM::Query,
)
    requires
        is_run(config, machines, run, actions),
        0 <= a < b < run.len(),
        p < config.size(),
        j < config.size(),
        // The query arrives.
        run[a].replicas[p as int].leads(),
        !run[a].replicas[p as int].waits(client_id, query_number),
        run[a].replicas[p as int].round < u64::MAX,
        run[a + 1].replicas[p as int] == run[a].replicas[p as int].on_query(
            client_id,
            query_number,
            query,
        ),
        // It is next to be answered, in the same view.
        run[b].replicas[p as int].leads(),
        run[b].replicas[p as int].view_number == run[a].replicas[p as int].view_number,
        run[b].replicas[p as int].query_ready(),
        run[b].replicas[p as int].queries[0] == run[a + 1].replicas[p as int].queries.last(),
    ensures
        run[a].replicas[j as int].commit_number <= run[b].replicas[p as int].applied,
{
    let s = run[a].replicas[p as int];
    let t = run[b].replicas[p as int];
    let r = run[a].replicas[j as int];
    let v = s.view_number;
    config_stays(config, machines, run, actions, a);
    config_stays(config, machines, run, actions, b);
    let account = run_bears_out(config, machines, run, actions, a);
    let h = account.history;
    assert(run[a].has_node(account, p));
    assert(run[a].has_node(account, j));
    let (x, y) = (account.trails[p as int].ahead, account.trails[j as int].ahead);
    node_is(h, p, s, run[a].disks[p as int], account.trails[p as int]);
    node_is(h, j, r, run[a].disks[j as int], account.trails[j as int]);
    assert(x.rounds_of(v) == s.round && (s.round_unsent ==> x.asked_of(v) < s.round)) by {
        reveal(leads_ok);
    }
    assert(x.asked_of(v) <= x.rounds_of(v));
    let round: u64 = if s.round_unsent {
        s.round
    } else {
        (s.round + 1) as u64
    };
    let asked = t.queries[0];
    assert(asked.round == round);
    assert(asked.op_number == max(s.commit_number as int, s.view_start_op as int));
    let looking = looks_back(run[a], account, p, round as nat);
    let none = Seq::<LogEntry<SM::Input>>::empty();
    let later = run_keeps_settled(config, machines, run, actions, a, b, looking, none, 0);
    let f = later.trails[p as int].ahead;
    assert(run[b].has_node(later, p));
    node_is(later.history, p, t, run[b].disks[p as int], later.trails[p as int]);
    let marks = round_marks(t.confirmed);
    let quorum = reaching(marks, t.round_confirmed as int);
    assert(t.config == config && t.confirmed.len() == config.size() && reach(
        marks,
        t.round_confirmed as int,
    ) >= config.quorum()) by {
        reveal(leads_ok);
        reveal(log_ok);
    }
    reaching_counts(marks, t.round_confirmed as int);
    assert(h.is_quorum(quorum));
    assert forall|q: ReplicaID| #[trigger] quorum.contains(q) implies h.at[q as int] <= v by {
        assert(marks[q as int] == t.confirmed[q as int]);
        assert(f.was_at_most(q, v, t.confirmed[q as int] as nat)) by {
            reveal(leads_ok);
        }
    }
    assert forall|q: ReplicaID, u: ViewNumber|
        quorum.contains(q) && (#[trigger] h.ack(q, u)) > 0 implies u <= v by {
        assert(run[a].has_node(account, q));
        assert(h.acc(q, u) >= h.ack(q, u));
        assert(u <= h.at[q as int]) by {
            reveal(node_ok);
        }
    }
    covers(h, x, y, p, j, s, r, quorum, asked.op_number as nat);
}

/// What a replica has committed is covered by what the primary of a view
/// has, if a quorum has acknowledged nothing of a later view.
proof fn covers<SM: StateMachine>(
    h: History<SM::Input>,
    x: History<SM::Input>,
    y: History<SM::Input>,
    p: ReplicaID,
    j: ReplicaID,
    s: ReplicaModel<SM>,
    r: ReplicaModel<SM>,
    quorum: Set<ReplicaID>,
    covered: nat,
)
    requires
        h.wf(),
        p < h.config.size(),
        j < h.config.size(),
        branch_ok(h, x, p),
        branch_ok(h, y, j),
        replica_ok(x, p, s),
        replica_ok(y, j, r),
        p == j ==> x == y && s == r,
        s.leads(),
        s.commit_number <= covered,
        s.view_start_op <= covered,
        h.is_quorum(quorum),
        forall|q: ReplicaID, u: ViewNumber|
            quorum.contains(q) && (#[trigger] h.ack(q, u)) > 0 ==> u <= s.view_number,
    ensures
        r.commit_number <= covered,
{
    if p != j && r.commit_number > 0 {
        let v = s.view_number;
        let m = x.with_branch(y, j);
        branch_joins(h, x, y, p, j);
        replica_ok_stays(x, m, j, p, s);
        replica_ok_stays(y, m, p, j, r);
        let log = m.logs[p as int];
        let other = m.logs[j as int];
        assert(m.decl(v) <= s.commit_number && s.view_start_op <= log.len() && m.complete(
            log.take(s.view_start_op as int),
            v as int,
        )) by {
            reveal(leads_ok);
        }
        let w = if r.status == Status::Recovering {
            (m.recovering[j as int]->0).view_number + 1
        } else {
            bound(r)
        };
        assert(m.committed(other, r.commit_number as nat, w)) by {
            reveal(log_ok);
            reveal(History::committed);
        }
        assert forall|q: ReplicaID, u: ViewNumber|
            quorum.contains(q) && (#[trigger] m.ack(q, u)) > 0 implies u <= v by {
            assert(m.ack(q, u) == h.ack(q, u));
        }
        assert(m.is_quorum(quorum));
        committed_is_covered(
            m,
            v,
            log.take(s.view_start_op as int),
            other,
            r.commit_number as nat,
            w,
            quorum,
            covered,
        );
    }
}

} // verus!
