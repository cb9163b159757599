use vstd::prelude::*;
use super::history::{
    chosen_stays, complete_stays, declared_is_chosen, prefix, prefix_refl, prefix_take, History,
};
use crate::ids::{ReplicaID, ViewNumber};
use crate::log::LogEntry;

verus! {

/// Whether `x` is what history `h` comes to by steps of replica `j` that
/// nobody else knows of.
pub open spec fn branch_ok<Op>(h: History<Op>, x: History<Op>, j: ReplicaID) -> bool {
    &&& h.grows(x, j)
    &&& x.wf()
    &&& x.used == h.used
    &&& x.acknowledged == h.acknowledged
    &&& x.recovering[j as int] matches Some(recovery) ==> x.used.contains((j, recovery.nonce))
}

impl<Op> History<Op> {
    /// This history, with what `x` says of replica `j` and of the views that
    /// it leads.
    pub open spec fn with_branch(self, x: Self, j: ReplicaID) -> Self {
        History {
            views: Map::new(
                |v: ViewNumber|
                    if self.config.primary_of(v) == j {
                        x.started(v)
                    } else {
                        self.started(v)
                    },
                |v: ViewNumber|
                    if self.config.primary_of(v) == j {
                        x.views[v]
                    } else {
                        self.views[v]
                    },
            ),
            accepted: Map::new(
                |key: (ReplicaID, ViewNumber)| true,
                |key: (ReplicaID, ViewNumber)|
                    if key.0 == j {
                        x.acc(key.0, key.1)
                    } else {
                        self.acc(key.0, key.1)
                    },
            ),
            at: self.at.update(j as int, x.at[j as int]),
            logs: self.logs.update(j as int, x.logs[j as int]),
            reported: Map::new(
                |key: (ReplicaID, ViewNumber)|
                    if key.0 == j {
                        x.reported.contains_key(key)
                    } else {
                        self.reported.contains_key(key)
                    },
                |key: (ReplicaID, ViewNumber)|
                    if key.0 == j {
                        x.reported[key]
                    } else {
                        self.reported[key]
                    },
            ),
            recovering: self.recovering.update(j as int, x.recovering[j as int]),
            declared: Map::new(
                |v: ViewNumber| true,
                |v: ViewNumber|
                    if self.config.primary_of(v) == j {
                        x.decl(v)
                    } else {
                        self.decl(v)
                    },
            ),
            rounds: Map::new(
                |v: ViewNumber| true,
                |v: ViewNumber|
                    if self.config.primary_of(v) == j {
                        x.rounds_of(v)
                    } else {
                        self.rounds_of(v)
                    },
            ),
            asked: Map::new(
                |v: ViewNumber| true,
                |v: ViewNumber|
                    if self.config.primary_of(v) == j {
                        x.asked_of(v)
                    } else {
                        self.asked_of(v)
                    },
            ),
            ..self
        }
    }
}

/// What a history with a branch says.
proof fn branch_reads<Op>(k: History<Op>, x: History<Op>, j: ReplicaID)
    ensures
        ({
            let m = k.with_branch(x, j);
            &&& forall|v: ViewNumber| #[trigger]
                m.started(v) == if k.config.primary_of(v) == j {
                    x.started(v)
                } else {
                    k.started(v)
                }
            &&& forall|v: ViewNumber| #[trigger]
                m.log_of(v) == if k.config.primary_of(v) == j {
                    x.log_of(v)
                } else {
                    k.log_of(v)
                }
            &&& forall|q: ReplicaID, v: ViewNumber| #[trigger]
                m.acc(q, v) == if q == j {
                    x.acc(q, v)
                } else {
                    k.acc(q, v)
                }
            &&& forall|q: ReplicaID, v: ViewNumber| #[trigger] m.ack(q, v) == k.ack(q, v)
            &&& forall|v: ViewNumber| #[trigger]
                m.decl(v) == if k.config.primary_of(v) == j {
                    x.decl(v)
                } else {
                    k.decl(v)
                }
            &&& forall|v: ViewNumber| #[trigger]
                m.rounds_of(v) == if k.config.primary_of(v) == j {
                    x.rounds_of(v)
                } else {
                    k.rounds_of(v)
                }
            &&& forall|v: ViewNumber| #[trigger]
                m.asked_of(v) == if k.config.primary_of(v) == j {
                    x.asked_of(v)
                } else {
                    k.asked_of(v)
                }
        }),
{
}

/// What replica `i` has done goes together with what replica `j` has, each
/// unknown to the other: the branch goes on from where replica `i` has come
/// to.
pub proof fn branch_joins<Op>(
    h: History<Op>,
    k: History<Op>,
    x: History<Op>,
    i: ReplicaID,
    j: ReplicaID,
)
    requires
        h.wf(),
        k.wf(),
        i != j,
        i < h.config.size(),
        j < h.config.size(),
        h.grew(k, i),
        branch_ok(h, x, j),
    ensures
        x.grew(k.with_branch(x, j), i),
        branch_ok(k, k.with_branch(x, j), j),
{
    let m = k.with_branch(x, j);
    branch_reads(k, x, j);
    joined_grew(h, k, x, i, j);
    joined_grows(h, k, x, i, j);
    assert forall|v: ViewNumber| #[trigger] m.started(v) implies m.complete(
        m.log_of(v),
        v as int,
    ) by {
        if k.config.primary_of(v) == j {
            assert(x.started(v));
            complete_stays(x, m, i, x.log_of(v), v as int);
        } else {
            assert(k.started(v));
            complete_stays(k, m, j, k.log_of(v), v as int);
        }
    }
    assert forall|v: ViewNumber| (#[trigger] m.decl(v)) >= 1 implies m.chosen(v, m.decl(v)) by {
        if k.config.primary_of(v) == j {
            assert(x.decl(v) >= 1);
            chosen_stays(x, m, i, v, x.decl(v));
        } else {
            assert(k.decl(v) >= 1);
            chosen_stays(k, m, j, v, k.decl(v));
        }
    }
    assert forall|v: ViewNumber| #[trigger] m.started(v) implies m.at[m.config.primary_of(
        v,
    ) as int] >= v by {
        if k.config.primary_of(v) == j {
            assert(x.started(v));
        } else {
            assert(k.started(v));
        }
    }
    assert forall|q: ReplicaID, v: ViewNumber| #[trigger] m.acc(q, v) <= m.log_of(v).len() by {
        assert(x.acc(q, v) <= x.log_of(v).len());
        assert(k.acc(q, v) <= k.log_of(v).len());
        assert(prefix(x.log_of(v), m.log_of(v)));
        assert(prefix(k.log_of(v), m.log_of(v)));
    }
    assert forall|q: ReplicaID, v: ViewNumber| #[trigger] m.ack(q, v) <= m.acc(q, v) by {
        assert(x.ack(q, v) <= x.acc(q, v));
        assert(k.ack(q, v) <= k.acc(q, v));
        assert(x.ack(q, v) == h.ack(q, v));
    }
    assert forall|v: ViewNumber| (#[trigger] m.rounds_of(v)) >= 1 implies m.started(v) by {
        assert(x.rounds_of(v) >= 1 ==> x.started(v));
        assert(k.rounds_of(v) >= 1 ==> k.started(v));
    }
    assert forall|v: ViewNumber| (#[trigger] m.asked_of(v)) <= m.rounds_of(v) by {
        assert(x.asked_of(v) <= x.rounds_of(v));
        assert(k.asked_of(v) <= k.rounds_of(v));
    }
    if let Some(moment) = m.moment {
        assert forall|q: int| 0 <= q < m.config.size() implies #[trigger] moment.at[q]
            <= m.at[q] by {
            assert(moment.at[q] <= k.at[q]);
        }
    }
}

proof fn joined_grew<Op>(
    h: History<Op>,
    k: History<Op>,
    x: History<Op>,
    i: ReplicaID,
    j: ReplicaID,
)
    requires
        h.wf(),
        k.wf(),
        i != j,
        i < h.config.size(),
        j < h.config.size(),
        h.grew(k, i),
        branch_ok(h, x, j),
    ensures
        x.grew(k.with_branch(x, j), i),
{
    let m = k.with_branch(x, j);
    branch_reads(k, x, j);
    assert forall|v: ViewNumber| #[trigger] x.started(v) implies m.started(v) by {
        if k.config.primary_of(v) != j {
            assert(x.log_of(v) == h.log_of(v));
            assert(h.started(v));
        }
    }
    assert forall|v: ViewNumber| prefix(#[trigger] x.log_of(v), m.log_of(v)) by {
        if k.config.primary_of(v) != j {
            assert(x.log_of(v) == h.log_of(v));
            assert(prefix(h.log_of(v), k.log_of(v)));
        } else {
            prefix_refl(x.log_of(v));
        }
    }
    assert forall|v: ViewNumber| x.config.primary_of(v) != i implies #[trigger] m.log_of(v)
        == x.log_of(v) && m.started(v) == x.started(v) by {
        if k.config.primary_of(v) != j {
            assert(x.log_of(v) == h.log_of(v));
            assert(k.log_of(v) == h.log_of(v));
        }
    }
    assert forall|q: ReplicaID, v: ViewNumber|
        #![trigger m.acc(q, v)]
        q != i || v < x.at[i as int] implies m.acc(q, v) == x.acc(q, v) by {
        if q != j {
            assert(k.acc(q, v) == h.acc(q, v));
            assert(x.acc(q, v) == h.acc(q, v));
        }
    }
    assert forall|q: ReplicaID, v: ViewNumber|
        #![trigger m.ack(q, v)]
        m.ack(q, v) >= x.ack(q, v) && (q != i ==> m.ack(q, v) == x.ack(q, v)) by {
        assert(x.ack(q, v) == h.ack(q, v));
        assert(k.ack(q, v) >= h.ack(q, v));
    }
    assert forall|q: ReplicaID, v: ViewNumber| #[trigger]
        x.reported.contains_key((q, v)) implies m.reported.contains_key((q, v))
        && m.reported[(q, v)] == x.reported[(q, v)] by {
        if q != j {
            assert(h.reported.contains_key((q, v)));
        }
    }
    assert forall|q: ReplicaID, v: ViewNumber| #[trigger]
        m.reported.contains_key((q, v)) && q != i implies x.reported.contains_key((q, v)) by {
        if q != j {
            assert(k.reported.contains_key((q, v)));
            assert(h.reported.contains_key((q, v)));
        }
    }
    if let Some(recovery) = m.recovering[i as int] {
        if h.used.contains((i, recovery.nonce)) {
            assert forall|v: ViewNumber| #[trigger] m.acc(i, v) == x.acc(i, v) by {
                assert(k.acc(i, v) == h.acc(i, v));
                assert(x.acc(i, v) == h.acc(i, v));
            }
        }
    }
    assert forall|v: ViewNumber|
        #![trigger m.decl(v)]
        m.decl(v) >= x.decl(v) && (x.config.primary_of(v) != i ==> m.decl(v) == x.decl(v)) by {
        if k.config.primary_of(v) != j {
            assert(x.decl(v) == h.decl(v));
            assert(k.decl(v) >= h.decl(v));
        }
    }
    assert forall|v: ViewNumber|
        #![trigger m.rounds_of(v)]
        m.rounds_of(v) >= x.rounds_of(v) && (x.config.primary_of(v) != i ==> m.rounds_of(v)
            == x.rounds_of(v)) by {
        if k.config.primary_of(v) != j {
            assert(x.rounds_of(v) == h.rounds_of(v));
            assert(k.rounds_of(v) >= h.rounds_of(v));
        }
    }
    assert forall|v: ViewNumber|
        #![trigger m.asked_of(v)]
        m.asked_of(v) >= x.asked_of(v) && (x.config.primary_of(v) != i ==> m.asked_of(v)
            == x.asked_of(v)) by {
        if k.config.primary_of(v) != j {
            assert(x.asked_of(v) == h.asked_of(v));
            assert(k.asked_of(v) >= h.asked_of(v));
        }
    }
}

proof fn joined_grows<Op>(
    h: History<Op>,
    k: History<Op>,
    x: History<Op>,
    i: ReplicaID,
    j: ReplicaID,
)
    requires
        h.wf(),
        k.wf(),
        i != j,
        i < h.config.size(),
        j < h.config.size(),
        h.grew(k, i),
        branch_ok(h, x, j),
    ensures
        k.grows(k.with_branch(x, j), j),
{
    let m = k.with_branch(x, j);
    branch_reads(k, x, j);
    assert forall|v: ViewNumber| #[trigger] k.started(v) implies m.started(v) by {
        if k.config.primary_of(v) == j {
            assert(k.log_of(v) == h.log_of(v));
            assert(h.started(v));
        }
    }
    assert forall|v: ViewNumber| prefix(#[trigger] k.log_of(v), m.log_of(v)) by {
        if k.config.primary_of(v) == j {
            assert(k.log_of(v) == h.log_of(v));
            assert(prefix(h.log_of(v), x.log_of(v)));
        } else {
            prefix_refl(k.log_of(v));
        }
    }
    assert forall|q: ReplicaID, v: ViewNumber|
        #![trigger m.acc(q, v)]
        m.acc(q, v) >= k.acc(q, v) && (q != j || v < k.at[j as int] ==> m.acc(q, v) == k.acc(
            q,
            v,
        )) by {
        if q == j {
            assert(k.acc(j, v) == h.acc(j, v));
            assert(x.acc(j, v) >= h.acc(j, v));
        }
    }
    assert forall|q: ReplicaID, v: ViewNumber| #[trigger]
        k.reported.contains_key((q, v)) implies m.reported.contains_key((q, v))
        && m.reported[(q, v)] == k.reported[(q, v)] by {
        if q == j {
            assert(h.reported.contains_key((q, v)));
            assert(x.reported.contains_key((q, v)));
        }
    }
    if let Some(recovery) = m.recovering[j as int] {
        assert(h.recovering[j as int] == Some(recovery));
        assert forall|v: ViewNumber| #[trigger] m.acc(j, v) == k.acc(j, v) by {
            assert(x.acc(j, v) == h.acc(j, v));
            assert(k.acc(j, v) == h.acc(j, v));
        }
    }
    assert forall|v: ViewNumber|
        #![trigger m.decl(v)]
        m.decl(v) >= k.decl(v) && (k.config.primary_of(v) != j ==> m.decl(v) == k.decl(v)) by {
        if k.config.primary_of(v) == j {
            assert(k.decl(v) == h.decl(v));
            assert(x.decl(v) >= h.decl(v));
        }
    }
    assert forall|v: ViewNumber|
        #![trigger m.rounds_of(v)]
        m.rounds_of(v) >= k.rounds_of(v) && (k.config.primary_of(v) != j ==> m.rounds_of(v)
            == k.rounds_of(v)) by {
        if k.config.primary_of(v) == j {
            assert(k.rounds_of(v) == h.rounds_of(v));
            assert(x.rounds_of(v) >= h.rounds_of(v));
        }
    }
    assert forall|v: ViewNumber|
        #![trigger m.asked_of(v)]
        m.asked_of(v) >= k.asked_of(v) && (k.config.primary_of(v) != j ==> m.asked_of(v)
            == k.asked_of(v)) by {
        if k.config.primary_of(v) == j {
            assert(k.asked_of(v) == h.asked_of(v));
            assert(x.asked_of(v) >= h.asked_of(v));
        }
    }
}

/// Of two branches of a replica, one further than the other, one stays
/// further.
pub proof fn branches_join<Op>(
    k: History<Op>,
    x: History<Op>,
    y: History<Op>,
    j: ReplicaID,
)
    requires
        k.config == x.config,
        j < k.config.size(),
        k.at.len() == k.config.size(),
        k.logs.len() == k.config.size(),
        k.recovering.len() == k.config.size(),
        branch_ok(x, y, j),
        k.with_branch(y, j).wf(),
        x.used.subset_of(k.used),
    ensures
        branch_ok(k.with_branch(x, j), k.with_branch(y, j), j),
{
    let m = k.with_branch(x, j);
    let n = k.with_branch(y, j);
    branch_reads(k, x, j);
    branch_reads(k, y, j);
    assert forall|v: ViewNumber| #[trigger] m.started(v) implies n.started(v) by {
        if k.config.primary_of(v) == j {
            assert(x.started(v));
        }
    }
    assert forall|v: ViewNumber| prefix(#[trigger] m.log_of(v), n.log_of(v)) by {
        if k.config.primary_of(v) == j {
            assert(prefix(x.log_of(v), y.log_of(v)));
        } else {
            prefix_refl(k.log_of(v));
        }
    }
    assert forall|q: ReplicaID, v: ViewNumber|
        #![trigger n.acc(q, v)]
        n.acc(q, v) >= m.acc(q, v) && (q != j || v < m.at[j as int] ==> n.acc(q, v) == m.acc(
            q,
            v,
        )) by {
        assert(y.acc(q, v) >= x.acc(q, v));
    }
    assert forall|q: ReplicaID, v: ViewNumber| #[trigger]
        m.reported.contains_key((q, v)) implies n.reported.contains_key((q, v))
        && n.reported[(q, v)] == m.reported[(q, v)] by {
        if q == j {
            assert(x.reported.contains_key((q, v)));
        }
    }
    if let Some(recovery) = n.recovering[j as int] {
        assert(x.recovering[j as int] == Some(recovery));
        assert forall|v: ViewNumber| #[trigger] n.acc(j, v) == m.acc(j, v) by {
            assert(y.acc(j, v) == x.acc(j, v));
        }
    }
    assert forall|v: ViewNumber|
        #![trigger n.decl(v)]
        n.decl(v) >= m.decl(v) && (m.config.primary_of(v) != j ==> n.decl(v) == m.decl(v)) by {
        assert(y.decl(v) >= x.decl(v));
    }
    assert forall|v: ViewNumber|
        #![trigger n.rounds_of(v)]
        n.rounds_of(v) >= m.rounds_of(v) && (m.config.primary_of(v) != j ==> n.rounds_of(v)
            == m.rounds_of(v)) by {
        assert(y.rounds_of(v) >= x.rounds_of(v));
    }
    assert forall|v: ViewNumber|
        #![trigger n.asked_of(v)]
        n.asked_of(v) >= m.asked_of(v) && (m.config.primary_of(v) != j ==> n.asked_of(v)
            == m.asked_of(v)) by {
        assert(y.asked_of(v) >= x.asked_of(v));
    }
}

/// What a replica has committed was chosen in a view, whether or not the
/// others know what the replica has come to.
pub proof fn committed_is_chosen<Op>(
    h: History<Op>,
    x: History<Op>,
    i: ReplicaID,
    log: Seq<LogEntry<Op>>,
    n: nat,
    w: int,
) -> (u: ViewNumber)
    requires
        h.wf(),
        branch_ok(h, x, i),
        x.committed(log, n, w),
        n >= 1,
    ensures
        h.chosen(u, n),
        h.has(log, u, n),
        x.declares(u, n),
        x.chosen(u, n),
{
    reveal(History::committed);
    let u = choose|u: ViewNumber| u < w && #[trigger] x.declares(u, n) && x.has(log, u, n);
    declared_is_chosen(x, u, n);
    let q = choose|q: Set<ReplicaID>| x.is_quorum(q) && #[trigger] x.all_acked(q, u, n);
    assert(h.is_quorum(q));
    assert(h.all_acked(q, u, n)) by {
        assert forall|id: ReplicaID| #[trigger] q.contains(id) implies h.ack(id, u) >= n by {
            assert(x.ack(id, u) >= n);
        }
    }
    // Some other replica has acknowledged it.
    let other = q.remove(i);
    assert(other.len() >= 1);
    let id = other.choose();
    assert(other.contains(id)) by {
        vstd::set_lib::lemma_set_empty_equivalency_len(other);
    }
    assert(q.contains(id));
    assert(h.ack(id, u) <= h.acc(id, u));
    assert(h.acc(id, u) <= h.log_of(u).len());
    assert(prefix(h.log_of(u), x.log_of(u)));
    prefix_take(h.log_of(u), x.log_of(u), n as int);
    assert(h.chosen(u, n));
    u
}

} // verus!
