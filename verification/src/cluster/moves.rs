use vstd::prelude::*;
use super::history::{chosen_stays, complete_stays, prefix, prefix_refl, History, Recovery};
use crate::ids::{ReplicaID, ViewNumber};
use crate::log::LogEntry;

verus! {

impl<Op> History<Op> {
    /// Replica `i` is in view `v`.
    pub open spec fn move_to(self, i: ReplicaID, v: ViewNumber) -> Self {
        History { at: self.at.update(i as int, v), ..self }
    }

    /// Replica `i` holds `log` in no view.
    pub open spec fn hold(self, i: ReplicaID, log: Seq<LogEntry<Op>>) -> Self {
        History { logs: self.logs.update(i as int, log), ..self }
    }

    /// Replica `i` holds `log` in view `v`.
    pub open spec fn follow(self, i: ReplicaID, v: ViewNumber, log: Seq<LogEntry<Op>>) -> Self {
        History {
            accepted: self.accepted.insert((i, v), log.len()),
            at: self.at.update(i as int, v),
            logs: self.logs.update(i as int, log),
            ..self
        }
    }

    /// Replica `i` leads view `v` with `log`.
    pub open spec fn lead(self, i: ReplicaID, v: ViewNumber, log: Seq<LogEntry<Op>>) -> Self {
        History { views: self.views.insert(v, log), ..self.follow(i, v, log) }
    }

    /// Replica `i` has lost its log, but for `log`, and recovers.
    pub open spec fn lose(
        self,
        i: ReplicaID,
        v: ViewNumber,
        recovery: Recovery,
        log: Seq<LogEntry<Op>>,
    ) -> Self {
        History {
            at: self.at.update(i as int, v),
            logs: self.logs.update(i as int, log),
            recovering: self.recovering.update(i as int, Some(recovery)),
            used: self.used.insert((i, recovery.nonce)),
            ..self
        }
    }

    /// Replica `i` has recovered into view `v` with `log`.
    pub open spec fn regain(self, i: ReplicaID, v: ViewNumber, log: Seq<LogEntry<Op>>) -> Self {
        History {
            recovering: self.recovering.update(i as int, None),
            ..self.follow(i, v, log)
        }
    }

    /// Replica `i` has lost what follows `log` in the view it is in.
    pub open spec fn cut(self, i: ReplicaID, log: Seq<LogEntry<Op>>) -> Self {
        History {
            accepted: self.accepted.insert((i, self.at[i as int]), log.len()),
            logs: self.logs.update(i as int, log),
            ..self
        }
    }

    /// Replica `i` acknowledges what it held in views before `v`, and `n`
    /// entries of `v`.
    pub open spec fn acknowledge(self, i: ReplicaID, v: ViewNumber, n: nat) -> Self {
        History {
            acknowledged: Map::new(
                |key: (ReplicaID, ViewNumber)| true,
                |key: (ReplicaID, ViewNumber)|
                    if key.0 != i {
                        self.ack(key.0, key.1)
                    } else if key.1 < v {
                        self.acc(key.0, key.1)
                    } else if key.1 == v && n > self.ack(key.0, key.1) {
                        n
                    } else {
                        self.ack(key.0, key.1)
                    },
            ),
            ..self
        }
    }

    /// The primary of view `v` has committed `n` entries in it.
    pub open spec fn declare(self, v: ViewNumber, n: nat) -> Self {
        History { declared: self.declared.insert(v, n), ..self }
    }

    /// The primary of view `v` has started its round `n`.
    pub open spec fn start_round(self, v: ViewNumber, n: nat) -> Self {
        History { rounds: self.rounds.insert(v, n), ..self }
    }

    /// The rounds that replica `i` has started leave it.
    pub open spec fn ask(self, i: ReplicaID) -> Self {
        History {
            asked: Map::new(
                |v: ViewNumber| true,
                |v: ViewNumber|
                    if self.config.primary_of(v) == i {
                        self.rounds_of(v)
                    } else {
                        self.asked_of(v)
                    },
            ),
            ..self
        }
    }

    /// Replica `i` reports its log in its view.
    pub open spec fn report(self, i: ReplicaID) -> Self {
        History {
            reported: self.reported.insert((i, self.at[i as int]), self.logs[i as int]),
            ..self
        }
    }
}

/// A history grows into itself.
pub proof fn grows_refl<Op>(h: History<Op>, i: ReplicaID)
    ensures
        h.grows(h, i),
{
    assert forall|v: ViewNumber| prefix(#[trigger] h.log_of(v), h.log_of(v)) by {
        prefix_refl(h.log_of(v));
    }
}

pub proof fn grew_trans<Op>(h: History<Op>, g: History<Op>, f: History<Op>, i: ReplicaID)
    requires
        h.grew(g, i),
        g.grew(f, i),
    ensures
        h.grew(f, i),
{
    assert forall|v: ViewNumber| prefix(#[trigger] h.log_of(v), f.log_of(v)) by {
        assert(prefix(g.log_of(v), f.log_of(v)));
        super::history::prefix_trans(h.log_of(v), g.log_of(v), f.log_of(v));
    }
    assert forall|v: ViewNumber| #[trigger] h.started(v) implies f.started(v) by {
        assert(g.started(v));
    }
    assert forall|v: ViewNumber| h.config.primary_of(v) != i implies #[trigger] f.log_of(v)
        == h.log_of(v) && f.started(v) == h.started(v) by {
        assert(g.log_of(v) == h.log_of(v));
    }
    assert forall|q: ReplicaID, v: ViewNumber|
        #![trigger f.acc(q, v)]
        q != i || v < h.at[i as int] implies f.acc(q, v) == h.acc(q, v) by {
        assert(g.acc(q, v) == h.acc(q, v));
    }
    if let Some(recovery) = f.recovering[i as int] {
        if g.used.contains((i, recovery.nonce)) && h.used.contains((i, recovery.nonce)) {
            assert forall|v: ViewNumber| #[trigger] f.acc(i, v) == h.acc(i, v) by {
                assert(g.acc(i, v) == h.acc(i, v));
            }
        }
    }
    assert forall|q: int| 0 <= q < h.at.len() && q != i implies #[trigger] f.at[q] == h.at[q] by {
        assert(g.at[q] == h.at[q]);
    }
    assert forall|q: ReplicaID, v: ViewNumber|
        #![trigger f.ack(q, v)]
        f.ack(q, v) >= h.ack(q, v) && (q != i ==> f.ack(q, v) == h.ack(q, v)) by {
        assert(g.ack(q, v) >= h.ack(q, v));
    }
    assert forall|v: ViewNumber|
        #![trigger f.decl(v)]
        f.decl(v) >= h.decl(v) && (h.config.primary_of(v) != i ==> f.decl(v) == h.decl(v)) by {
        assert(g.decl(v) >= h.decl(v));
    }
    assert forall|v: ViewNumber|
        #![trigger f.rounds_of(v)]
        f.rounds_of(v) >= h.rounds_of(v) && (h.config.primary_of(v) != i ==> f.rounds_of(v)
            == h.rounds_of(v)) by {
        assert(g.rounds_of(v) >= h.rounds_of(v));
    }
    assert forall|v: ViewNumber|
        #![trigger f.asked_of(v)]
        f.asked_of(v) >= h.asked_of(v) && (h.config.primary_of(v) != i ==> f.asked_of(v)
            == h.asked_of(v)) by {
        assert(g.asked_of(v) >= h.asked_of(v));
    }
    assert forall|q: int| 0 <= q < h.logs.len() && q != i implies #[trigger] f.logs[q]
        == h.logs[q] by {
        assert(g.logs[q] == h.logs[q]);
    }
    assert forall|q: ReplicaID, v: ViewNumber| #[trigger]
        h.reported.contains_key((q, v)) implies f.reported.contains_key((q, v)) && f.reported[(
        q,
        v,
    )] == h.reported[(q, v)] by {
        assert(g.reported.contains_key((q, v)));
    }
    assert forall|q: ReplicaID, v: ViewNumber| #[trigger]
        f.reported.contains_key((q, v)) && q != i implies h.reported.contains_key((q, v)) by {
        assert(g.reported.contains_key((q, v)));
    }
}

pub proof fn grows_trans<Op>(h: History<Op>, g: History<Op>, f: History<Op>, i: ReplicaID)
    requires
        h.grows(g, i),
        g.grows(f, i),
    ensures
        h.grows(f, i),
{
    grew_trans(h, g, f, i);
    assert forall|q: ReplicaID, v: ViewNumber| (#[trigger] f.acc(q, v)) >= h.acc(q, v) by {
        assert(g.acc(q, v) >= h.acc(q, v));
    }
}

/// What was acknowledged stays held.
proof fn acks_stay_held<Op>(h: History<Op>, g: History<Op>, i: ReplicaID)
    requires
        h.wf(),
        h.grows(g, i),
        forall|q: ReplicaID, v: ViewNumber| #[trigger]
            g.ack(q, v) == h.ack(q, v) || g.ack(q, v) == g.acc(q, v),
    ensures
        forall|q: ReplicaID, v: ViewNumber| #[trigger] g.ack(q, v) <= g.acc(q, v),
{
    assert forall|q: ReplicaID, v: ViewNumber| #[trigger] g.ack(q, v) <= g.acc(q, v) by {
        assert(h.ack(q, v) <= h.acc(q, v));
        assert(g.acc(q, v) >= h.acc(q, v));
    }
}

/// What a history has grown into is one if what is new of it is sound.
proof fn grown_is_wf<Op>(h: History<Op>, g: History<Op>, i: ReplicaID)
    requires
        h.wf(),
        h.grows(g, i),
        forall|v: ViewNumber| #[trigger]
            g.started(v) && !(h.started(v) && g.log_of(v) == h.log_of(v)) ==> h.complete(
                g.log_of(v),
                v as int,
            ) && g.at[i as int] >= v,
        forall|q: ReplicaID, v: ViewNumber| #[trigger]
            g.acc(q, v) <= g.log_of(v).len(),
        forall|q: ReplicaID, v: ViewNumber| #[trigger] g.ack(q, v) <= g.acc(q, v),
        forall|v: ViewNumber| #[trigger]
            g.decl(v) == h.decl(v) || g.chosen(v, g.decl(v)),
        forall|v: ViewNumber| #[trigger]
            g.rounds_of(v) == h.rounds_of(v) || g.started(v),
        forall|v: ViewNumber| (#[trigger] g.asked_of(v)) <= g.rounds_of(v),
    ensures
        g.wf(),
{
    assert forall|v: ViewNumber| (#[trigger] g.decl(v)) >= 1 implies g.chosen(v, g.decl(v)) by {
        if g.decl(v) == h.decl(v) {
            chosen_stays(h, g, i, v, h.decl(v));
        }
    }
    assert forall|v: ViewNumber| (#[trigger] g.rounds_of(v)) >= 1 implies g.started(v) by {
        if g.rounds_of(v) == h.rounds_of(v) {
            assert(h.started(v));
        }
    }
    if let Some(moment) = g.moment {
        assert forall|q: int| 0 <= q < g.config.size() implies #[trigger] moment.at[q]
            <= g.at[q] by {
            assert(moment.at[q] <= h.at[q]);
            if q != i {
                assert(g.at[q] == h.at[q]);
            }
        }
    }
    assert forall|v: ViewNumber| #[trigger] g.started(v) implies g.complete(
        g.log_of(v),
        v as int,
    ) by {
        if h.started(v) && g.log_of(v) == h.log_of(v) {
            assert(h.complete(h.log_of(v), v as int));
        }
        complete_stays(h, g, i, g.log_of(v), v as int);
    }
    assert forall|v: ViewNumber| #[trigger] g.started(v) implies g.at[g.config.primary_of(
        v,
    ) as int] >= v by {
        let p = h.config.primary_of(v) as int;
        if h.started(v) {
            assert(h.at[p] >= v);
            if p != i {
                assert(g.at[p] == h.at[p]);
            }
        } else if p != i {
            assert(g.log_of(v) == h.log_of(v));
        }
    }
}

pub proof fn move_to_grows<Op>(h: History<Op>, i: ReplicaID, v: ViewNumber)
    requires
        h.wf(),
        i < h.config.size(),
        v >= h.at[i as int],
    ensures
        h.grows(h.move_to(i, v), i),
        h.move_to(i, v).wf(),
{
    let g = h.move_to(i, v);
    assert forall|u: ViewNumber| prefix(#[trigger] h.log_of(u), g.log_of(u)) by {
        prefix_refl(h.log_of(u));
    }
    assert forall|q: ReplicaID, u: ViewNumber| #[trigger] g.acc(q, u) == h.acc(q, u) by {}
    assert forall|u: ViewNumber| #[trigger] g.log_of(u) == h.log_of(u) by {}
    assert forall|q: ReplicaID, u: ViewNumber| #[trigger] g.ack(q, u) == h.ack(q, u) by {}
    assert forall|u: ViewNumber| #[trigger] g.decl(u) == h.decl(u) by {}
    assert forall|u: ViewNumber| #[trigger] g.rounds_of(u) == h.rounds_of(u) by {}
    assert forall|u: ViewNumber| #[trigger] g.asked_of(u) == h.asked_of(u) by {}
    assert(h.grows(g, i));
    acks_stay_held(h, g, i);
    grown_is_wf(h, g, i);
}

pub proof fn hold_grows<Op>(h: History<Op>, i: ReplicaID, log: Seq<LogEntry<Op>>)
    requires
        h.wf(),
        i < h.config.size(),
    ensures
        h.grows(h.hold(i, log), i),
        h.hold(i, log).wf(),
{
    let g = h.hold(i, log);
    assert forall|u: ViewNumber| prefix(#[trigger] h.log_of(u), g.log_of(u)) by {
        prefix_refl(h.log_of(u));
    }
    assert forall|q: ReplicaID, u: ViewNumber| #[trigger] g.acc(q, u) == h.acc(q, u) by {}
    assert forall|u: ViewNumber| #[trigger] g.log_of(u) == h.log_of(u) by {}
    assert forall|q: ReplicaID, u: ViewNumber| #[trigger] g.ack(q, u) == h.ack(q, u) by {}
    assert forall|u: ViewNumber| #[trigger] g.decl(u) == h.decl(u) by {}
    assert forall|u: ViewNumber| #[trigger] g.rounds_of(u) == h.rounds_of(u) by {}
    assert forall|u: ViewNumber| #[trigger] g.asked_of(u) == h.asked_of(u) by {}
    assert(h.grows(g, i));
    acks_stay_held(h, g, i);
    grown_is_wf(h, g, i);
}

pub proof fn follow_grows<Op>(h: History<Op>, i: ReplicaID, v: ViewNumber, log: Seq<LogEntry<Op>>)
    requires
        h.wf(),
        i < h.config.size(),
        v >= h.at[i as int],
        h.acc(i, v) <= log.len(),
        prefix(log, h.log_of(v)),
        h.recovering[i as int] is None,
    ensures
        h.grows(h.follow(i, v, log), i),
        h.follow(i, v, log).wf(),
        forall|u: ViewNumber| #[trigger] h.follow(i, v, log).log_of(u) == h.log_of(u),
        h.follow(i, v, log).acc(i, v) == log.len(),
        forall|u: ViewNumber| u != v ==> #[trigger] h.follow(i, v, log).acc(i, u) == h.acc(i, u),
{
    let g = h.follow(i, v, log);
    assert forall|u: ViewNumber| prefix(#[trigger] h.log_of(u), g.log_of(u)) by {
        prefix_refl(h.log_of(u));
    }
    assert forall|q: ReplicaID, u: ViewNumber| !(q == i && u == v) implies #[trigger] g.acc(q, u)
        == h.acc(q, u) by {}
    assert forall|u: ViewNumber| #[trigger] g.log_of(u) == h.log_of(u) by {}
    assert forall|q: ReplicaID, u: ViewNumber| #[trigger] g.ack(q, u) == h.ack(q, u) by {}
    assert forall|u: ViewNumber| #[trigger] g.decl(u) == h.decl(u) by {}
    assert forall|u: ViewNumber| #[trigger] g.rounds_of(u) == h.rounds_of(u) by {}
    assert forall|u: ViewNumber| #[trigger] g.asked_of(u) == h.asked_of(u) by {}
    assert(h.grows(g, i));
    assert forall|q: ReplicaID, u: ViewNumber| #[trigger] g.acc(q, u) <= g.log_of(u).len() by {
        assert(h.acc(q, u) <= h.log_of(u).len());
    }
    acks_stay_held(h, g, i);
    grown_is_wf(h, g, i);
}

pub proof fn lead_grows<Op>(h: History<Op>, i: ReplicaID, v: ViewNumber, log: Seq<LogEntry<Op>>)
    requires
        h.wf(),
        i < h.config.size(),
        v >= h.at[i as int],
        i == h.config.primary_of(v),
        prefix(h.log_of(v), log),
        h.complete(log, v as int),
        h.recovering[i as int] is None,
    ensures
        h.grows(h.lead(i, v, log), i),
        h.lead(i, v, log).wf(),
        h.lead(i, v, log).log_of(v) == log,
        h.lead(i, v, log).started(v),
        h.lead(i, v, log).acc(i, v) == log.len(),
        forall|u: ViewNumber| u != v ==> #[trigger] h.lead(i, v, log).acc(i, u) == h.acc(i, u),
{
    let g = h.lead(i, v, log);
    assert forall|u: ViewNumber| prefix(#[trigger] h.log_of(u), g.log_of(u)) by {
        prefix_refl(h.log_of(u));
    }
    assert(h.acc(i, v) <= h.log_of(v).len());
    assert forall|q: ReplicaID, u: ViewNumber| !(q == i && u == v) implies #[trigger] g.acc(q, u)
        == h.acc(q, u) by {}
    assert forall|u: ViewNumber| u != v implies #[trigger] g.log_of(u) == h.log_of(u) by {}
    assert forall|q: ReplicaID, u: ViewNumber| #[trigger] g.ack(q, u) == h.ack(q, u) by {}
    assert forall|u: ViewNumber| #[trigger] g.decl(u) == h.decl(u) by {}
    assert forall|u: ViewNumber| #[trigger] g.rounds_of(u) == h.rounds_of(u) by {}
    assert forall|u: ViewNumber| #[trigger] g.asked_of(u) == h.asked_of(u) by {}
    assert(h.grows(g, i));
    assert forall|q: ReplicaID, u: ViewNumber| #[trigger] g.acc(q, u) <= g.log_of(u).len() by {
        assert(h.acc(q, u) <= h.log_of(u).len());
    }
    acks_stay_held(h, g, i);
    grown_is_wf(h, g, i);
}

pub proof fn lose_grows<Op>(
    h: History<Op>,
    i: ReplicaID,
    v: ViewNumber,
    recovery: Recovery,
    log: Seq<LogEntry<Op>>,
)
    requires
        h.wf(),
        i < h.config.size(),
        v >= h.at[i as int],
        !h.used.contains((i, recovery.nonce)),
    ensures
        h.grows(h.lose(i, v, recovery, log), i),
        h.lose(i, v, recovery, log).wf(),
        forall|u: ViewNumber| #[trigger]
            h.lose(i, v, recovery, log).acc(i, u) == h.acc(i, u),
{
    let g = h.lose(i, v, recovery, log);
    assert forall|u: ViewNumber| prefix(#[trigger] h.log_of(u), g.log_of(u)) by {
        prefix_refl(h.log_of(u));
    }
    assert forall|q: ReplicaID, u: ViewNumber| #[trigger] g.acc(q, u) == h.acc(q, u) by {}
    assert forall|u: ViewNumber| #[trigger] g.log_of(u) == h.log_of(u) by {}
    assert forall|q: ReplicaID, u: ViewNumber| #[trigger] g.ack(q, u) == h.ack(q, u) by {}
    assert forall|u: ViewNumber| #[trigger] g.decl(u) == h.decl(u) by {}
    assert forall|u: ViewNumber| #[trigger] g.rounds_of(u) == h.rounds_of(u) by {}
    assert forall|u: ViewNumber| #[trigger] g.asked_of(u) == h.asked_of(u) by {}
    assert(h.grows(g, i));
    acks_stay_held(h, g, i);
    grown_is_wf(h, g, i);
}

pub proof fn regain_grows<Op>(h: History<Op>, i: ReplicaID, v: ViewNumber, log: Seq<LogEntry<Op>>)
    requires
        h.wf(),
        i < h.config.size(),
        v >= h.at[i as int],
        h.config.primary_of(v) != i,
        h.acc(i, v) <= log.len(),
        prefix(log, h.log_of(v)),
    ensures
        h.grows(h.regain(i, v, log), i),
        h.regain(i, v, log).wf(),
        forall|u: ViewNumber| #[trigger] h.regain(i, v, log).log_of(u) == h.log_of(u),
        h.regain(i, v, log).acc(i, v) == log.len(),
        forall|u: ViewNumber| u != v ==> #[trigger] h.regain(i, v, log).acc(i, u) == h.acc(i, u),
{
    let g = h.regain(i, v, log);
    assert forall|u: ViewNumber| prefix(#[trigger] h.log_of(u), g.log_of(u)) by {
        prefix_refl(h.log_of(u));
    }
    assert forall|q: ReplicaID, u: ViewNumber| !(q == i && u == v) implies #[trigger] g.acc(q, u)
        == h.acc(q, u) by {}
    assert forall|u: ViewNumber| #[trigger] g.log_of(u) == h.log_of(u) by {}
    assert forall|q: ReplicaID, u: ViewNumber| #[trigger] g.ack(q, u) == h.ack(q, u) by {}
    assert forall|u: ViewNumber| #[trigger] g.decl(u) == h.decl(u) by {}
    assert forall|u: ViewNumber| #[trigger] g.rounds_of(u) == h.rounds_of(u) by {}
    assert forall|u: ViewNumber| #[trigger] g.asked_of(u) == h.asked_of(u) by {}
    assert(h.grows(g, i));
    assert forall|q: ReplicaID, u: ViewNumber| #[trigger] g.acc(q, u) <= g.log_of(u).len() by {
        assert(h.acc(q, u) <= h.log_of(u).len());
    }
    acks_stay_held(h, g, i);
    grown_is_wf(h, g, i);
}

pub proof fn report_grows<Op>(h: History<Op>, i: ReplicaID)
    requires
        h.wf(),
        i < h.config.size(),
        h.reported.contains_key((i, h.at[i as int])) ==> h.reported[(i, h.at[i as int])]
            == h.logs[i as int],
    ensures
        h.grows(h.report(i), i),
        h.report(i).wf(),
{
    let g = h.report(i);
    assert forall|u: ViewNumber| prefix(#[trigger] h.log_of(u), g.log_of(u)) by {
        prefix_refl(h.log_of(u));
    }
    assert forall|q: ReplicaID, u: ViewNumber| #[trigger] g.acc(q, u) == h.acc(q, u) by {}
    assert forall|u: ViewNumber| #[trigger] g.log_of(u) == h.log_of(u) by {}
    assert forall|q: ReplicaID, u: ViewNumber| #[trigger] g.ack(q, u) == h.ack(q, u) by {}
    assert forall|u: ViewNumber| #[trigger] g.decl(u) == h.decl(u) by {}
    assert forall|u: ViewNumber| #[trigger] g.rounds_of(u) == h.rounds_of(u) by {}
    assert forall|u: ViewNumber| #[trigger] g.asked_of(u) == h.asked_of(u) by {}
    assert(h.grows(g, i));
    acks_stay_held(h, g, i);
    grown_is_wf(h, g, i);
}

pub proof fn declare_grows<Op>(h: History<Op>, i: ReplicaID, v: ViewNumber, n: nat)
    requires
        h.wf(),
        i < h.config.size(),
        i == h.config.primary_of(v),
        h.chosen(v, n),
        n >= h.decl(v),
    ensures
        h.grows(h.declare(v, n), i),
        h.declare(v, n).wf(),
        h.declare(v, n).decl(v) == n,
{
    let g = h.declare(v, n);
    assert forall|u: ViewNumber| prefix(#[trigger] h.log_of(u), g.log_of(u)) by {
        prefix_refl(h.log_of(u));
    }
    assert forall|q: ReplicaID, u: ViewNumber| #[trigger] g.acc(q, u) == h.acc(q, u) by {}
    assert forall|u: ViewNumber| #[trigger] g.log_of(u) == h.log_of(u) by {}
    assert forall|q: ReplicaID, u: ViewNumber| #[trigger] g.ack(q, u) == h.ack(q, u) by {}
    assert forall|u: ViewNumber| u != v implies #[trigger] g.decl(u) == h.decl(u) by {}
    assert forall|u: ViewNumber| #[trigger] g.rounds_of(u) == h.rounds_of(u) by {}
    assert forall|u: ViewNumber| #[trigger] g.asked_of(u) == h.asked_of(u) by {}
    assert(h.grows(g, i));
    chosen_stays(h, g, i, v, n);
    acks_stay_held(h, g, i);
    grown_is_wf(h, g, i);
}

pub proof fn start_round_grows<Op>(h: History<Op>, i: ReplicaID, v: ViewNumber, n: nat)
    requires
        h.wf(),
        i < h.config.size(),
        i == h.config.primary_of(v),
        h.started(v),
        n >= h.rounds_of(v),
    ensures
        h.grows(h.start_round(v, n), i),
        h.start_round(v, n).wf(),
        h.start_round(v, n).rounds_of(v) == n,
{
    let g = h.start_round(v, n);
    assert forall|u: ViewNumber| prefix(#[trigger] h.log_of(u), g.log_of(u)) by {
        prefix_refl(h.log_of(u));
    }
    assert forall|q: ReplicaID, u: ViewNumber| #[trigger] g.acc(q, u) == h.acc(q, u) by {}
    assert forall|u: ViewNumber| #[trigger] g.log_of(u) == h.log_of(u) by {}
    assert forall|u: ViewNumber| #[trigger] g.decl(u) == h.decl(u) by {}
    assert forall|u: ViewNumber| u != v implies #[trigger] g.rounds_of(u) == h.rounds_of(u) by {}
    assert forall|u: ViewNumber| #[trigger] g.asked_of(u) == h.asked_of(u) by {}
    assert(h.grows(g, i));
    assert forall|u: ViewNumber| (#[trigger] g.asked_of(u)) <= g.rounds_of(u) by {
        assert(h.asked_of(u) <= h.rounds_of(u));
    }
    acks_stay_held(h, g, i);
    grown_is_wf(h, g, i);
}

pub proof fn ask_grows<Op>(h: History<Op>, i: ReplicaID)
    requires
        h.wf(),
        i < h.config.size(),
    ensures
        h.grows(h.ask(i), i),
        h.ask(i).wf(),
        forall|v: ViewNumber| #[trigger]
            h.ask(i).asked_of(v) == if h.config.primary_of(v) == i {
                h.rounds_of(v)
            } else {
                h.asked_of(v)
            },
{
    let g = h.ask(i);
    assert forall|u: ViewNumber| prefix(#[trigger] h.log_of(u), g.log_of(u)) by {
        prefix_refl(h.log_of(u));
    }
    assert forall|q: ReplicaID, u: ViewNumber| #[trigger] g.acc(q, u) == h.acc(q, u) by {}
    assert forall|u: ViewNumber| #[trigger] g.log_of(u) == h.log_of(u) by {}
    assert forall|q: ReplicaID, u: ViewNumber| #[trigger] g.ack(q, u) == h.ack(q, u) by {}
    assert forall|u: ViewNumber| #[trigger] g.decl(u) == h.decl(u) by {}
    assert forall|u: ViewNumber| #[trigger] g.rounds_of(u) == h.rounds_of(u) by {}
    assert forall|u: ViewNumber| #[trigger] g.asked_of(u) >= h.asked_of(u) by {
        assert(h.asked_of(u) <= h.rounds_of(u));
    }
    assert(h.grows(g, i));
    acks_stay_held(h, g, i);
    grown_is_wf(h, g, i);
}

/// A history in which replica `i` has acknowledged more of what it holds.
pub proof fn acked_grows<Op>(h: History<Op>, g: History<Op>, i: ReplicaID)
    requires
        h.wf(),
        g == (History { acknowledged: g.acknowledged, ..h }),
        forall|q: ReplicaID, u: ViewNumber|
            #![trigger g.ack(q, u)]
            h.ack(q, u) <= g.ack(q, u) <= h.acc(q, u) && (q != i ==> g.ack(q, u) == h.ack(q, u)),
    ensures
        h.grows(g, i),
        g.wf(),
{
    assert forall|u: ViewNumber| prefix(#[trigger] h.log_of(u), g.log_of(u)) by {
        prefix_refl(h.log_of(u));
    }
    assert forall|q: ReplicaID, u: ViewNumber| #[trigger] g.acc(q, u) == h.acc(q, u) by {}
    assert forall|u: ViewNumber| #[trigger] g.log_of(u) == h.log_of(u) by {}
    assert forall|u: ViewNumber| #[trigger] g.decl(u) == h.decl(u) by {}
    assert forall|u: ViewNumber| #[trigger] g.rounds_of(u) == h.rounds_of(u) by {}
    assert forall|u: ViewNumber| #[trigger] g.asked_of(u) == h.asked_of(u) by {}
    assert forall|q: ReplicaID, u: ViewNumber| #[trigger] g.ack(q, u) <= g.acc(q, u) by {
        assert(g.acc(q, u) == h.acc(q, u));
    }
    assert(h.grows(g, i));
    grown_is_wf(h, g, i);
}

pub proof fn acknowledge_grows<Op>(h: History<Op>, i: ReplicaID, v: ViewNumber, n: nat)
    requires
        h.wf(),
        n <= h.acc(i, v),
    ensures
        h.grows(h.acknowledge(i, v, n), i),
        h.acknowledge(i, v, n).wf(),
        forall|q: ReplicaID, u: ViewNumber|
            #![trigger h.acknowledge(i, v, n).ack(q, u)]
            h.ack(q, u) <= h.acknowledge(i, v, n).ack(q, u) <= h.acc(q, u) && (q != i
                ==> h.acknowledge(i, v, n).ack(q, u) == h.ack(q, u)),
        forall|u: ViewNumber|
            #![trigger h.acknowledge(i, v, n).ack(i, u)]
            {
                let acked = h.acknowledge(i, v, n).ack(i, u);
                &&& u < v ==> acked == h.acc(i, u)
                &&& u > v ==> acked == h.ack(i, u)
                &&& u == v ==> acked == if n > h.ack(i, v) {
                    n
                } else {
                    h.ack(i, v)
                }
            },
{
    let g = h.acknowledge(i, v, n);
    assert forall|q: ReplicaID, u: ViewNumber|
        #![trigger g.ack(q, u)]
        h.ack(q, u) <= g.ack(q, u) <= h.acc(q, u) && (q != i ==> g.ack(q, u) == h.ack(q, u)) by {
        assert(h.ack(q, u) <= h.acc(q, u));
    }
    acked_grows(h, g, i);
}

pub proof fn cut_grew<Op>(h: History<Op>, i: ReplicaID, log: Seq<LogEntry<Op>>)
    requires
        h.wf(),
        i < h.config.size(),
        h.ack(i, h.at[i as int]) <= log.len() <= h.acc(i, h.at[i as int]),
        h.recovering[i as int] is None,
    ensures
        h.grew(h.cut(i, log), i),
        h.cut(i, log).wf(),
        h.cut(i, log).acc(i, h.at[i as int]) == log.len(),
        forall|u: ViewNumber|
            u != h.at[i as int] ==> #[trigger] h.cut(i, log).acc(i, u) == h.acc(i, u),
        forall|u: ViewNumber| #[trigger] h.cut(i, log).log_of(u) == h.log_of(u),
{
    let g = h.cut(i, log);
    let w = h.at[i as int];
    assert forall|u: ViewNumber| prefix(#[trigger] h.log_of(u), g.log_of(u)) by {
        prefix_refl(h.log_of(u));
    }
    assert forall|q: ReplicaID, u: ViewNumber| !(q == i && u == w) implies #[trigger] g.acc(q, u)
        == h.acc(q, u) by {}
    assert forall|q: ReplicaID, u: ViewNumber| #[trigger] g.ack(q, u) == h.ack(q, u) by {}
    assert forall|u: ViewNumber| #[trigger] g.log_of(u) == h.log_of(u) by {}
    assert forall|u: ViewNumber| #[trigger] g.decl(u) == h.decl(u) by {}
    assert forall|u: ViewNumber| #[trigger] g.rounds_of(u) == h.rounds_of(u) by {}
    assert forall|u: ViewNumber| #[trigger] g.asked_of(u) == h.asked_of(u) by {}
    assert(h.grew(g, i));
    assert forall|u: ViewNumber| #[trigger] g.started(u) implies g.complete(g.log_of(u), u as int) by {
        assert(h.started(u));
        complete_stays(h, g, i, h.log_of(u), u as int);
    }
    assert forall|u: ViewNumber| #[trigger] g.started(u) implies g.at[g.config.primary_of(
        u,
    ) as int] >= u by {
        assert(h.started(u));
    }
    assert forall|q: ReplicaID, u: ViewNumber| #[trigger] g.acc(q, u) <= g.log_of(u).len() by {
        assert(h.acc(q, u) <= h.log_of(u).len());
    }
    assert forall|q: ReplicaID, u: ViewNumber| #[trigger] g.ack(q, u) <= g.acc(q, u) by {
        assert(h.ack(q, u) <= h.acc(q, u));
    }
    assert forall|u: ViewNumber| (#[trigger] g.decl(u)) >= 1 implies g.chosen(u, g.decl(u)) by {
        assert(h.decl(u) >= 1);
        chosen_stays(h, g, i, u, h.decl(u));
    }
    assert forall|u: ViewNumber| (#[trigger] g.rounds_of(u)) >= 1 implies g.started(u) by {
        assert(h.rounds_of(u) >= 1);
    }
    assert forall|u: ViewNumber| (#[trigger] g.asked_of(u)) <= g.rounds_of(u) by {
        assert(h.asked_of(u) <= h.rounds_of(u));
    }
}

} // verus!
