use vstd::prelude::*;
use crate::config::{quorums_intersect, ConfigView};
use crate::ids::{ReplicaID, ViewNumber};
use crate::log::{LogEntry, SegmentView};
use crate::replica::sessions::{lawful, lawful_takes};

verus! {

/// What has happened in a cluster, as nobody in it sees it.
#[verifier::ext_equal]
pub struct History<Op> {
    pub config: ConfigView,
    /// The whole log of each view that has started: the one it started
    /// with, and what its primary has appended since.
    pub views: Map<ViewNumber, Seq<LogEntry<Op>>>,
    /// How many entries of a view's log a replica has held in it.
    pub accepted: Map<(ReplicaID, ViewNumber), nat>,
    /// How many entries of a view's log a replica has acknowledged, as the
    /// others may know.
    pub acknowledged: Map<(ReplicaID, ViewNumber), nat>,
    /// The view each replica is in.
    pub at: Seq<ViewNumber>,
    /// The whole log of each replica, with what it has compacted.
    pub logs: Seq<Seq<LogEntry<Op>>>,
    /// The whole log that each replica reported for a view.
    pub reported: Map<(ReplicaID, ViewNumber), Seq<LogEntry<Op>>>,
    /// The recovery of each replica that is recovering.
    pub recovering: Seq<Option<Recovery>>,
    /// The nonces of every recovery so far, each with its replica.
    pub used: Set<(ReplicaID, u64)>,
    /// How far the primary of a view has committed in it.
    pub declared: Map<ViewNumber, nat>,
    /// How many rounds of confirmations the primary of a view has started.
    pub rounds: Map<ViewNumber, nat>,
    /// How many of them have left it.
    pub asked: Map<ViewNumber, nat>,
    /// A moment looked back on.
    pub moment: Option<Moment>,
    /// Whether the primaries append requests in the order of their numbers.
    pub orderly: bool,
}

/// A recovery: its nonce, and what the replica's state machine keeps of a
/// checkpoint: how many ops, the view that they were committed in, and the
/// quorum that had acknowledged them.
#[verifier::ext_equal]
pub struct Recovery {
    pub nonce: u64,
    pub kept: nat,
    pub view_number: ViewNumber,
    pub quorum: Set<ReplicaID>,
}

/// A moment: the view that each replica was in, a view, and the first round
/// of it that had not left its primary.
#[verifier::ext_equal]
pub struct Moment {
    pub view_number: ViewNumber,
    pub round: nat,
    pub at: Seq<ViewNumber>,
}

/// Whether `a` is a prefix of `b`.
pub open spec fn prefix<T>(a: Seq<T>, b: Seq<T>) -> bool {
    a.len() <= b.len() && b.take(a.len() as int) == a
}

/// Whether `segment` is what `log` has after the segment's start.
pub open spec fn segment_of<Op>(log: Seq<LogEntry<Op>>, segment: SegmentView<Op>) -> bool {
    segment.start() <= log.len() && log.skip(segment.start()) == segment.entries
}

impl<Op> History<Op> {
    pub open spec fn started(self, v: ViewNumber) -> bool {
        self.views.contains_key(v)
    }

    /// The whole log of view `v`, empty if it has not started.
    pub open spec fn log_of(self, v: ViewNumber) -> Seq<LogEntry<Op>> {
        if self.views.contains_key(v) {
            self.views[v]
        } else {
            Seq::empty()
        }
    }

    /// How many entries of view `v` replica `q` has held in it.
    pub open spec fn acc(self, q: ReplicaID, v: ViewNumber) -> nat {
        if self.accepted.contains_key((q, v)) {
            self.accepted[(q, v)]
        } else {
            0
        }
    }

    /// How many entries of view `v` replica `q` has acknowledged.
    pub open spec fn ack(self, q: ReplicaID, v: ViewNumber) -> nat {
        if self.acknowledged.contains_key((q, v)) {
            self.acknowledged[(q, v)]
        } else {
            0
        }
    }

    /// How far view `v` has been committed in it.
    pub open spec fn decl(self, v: ViewNumber) -> nat {
        if self.declared.contains_key(v) {
            self.declared[v]
        } else {
            0
        }
    }

    /// How many rounds of view `v` were started.
    pub open spec fn rounds_of(self, v: ViewNumber) -> nat {
        if self.rounds.contains_key(v) {
            self.rounds[v]
        } else {
            0
        }
    }

    /// How many rounds of view `v` have left its primary.
    pub open spec fn asked_of(self, v: ViewNumber) -> nat {
        if self.asked.contains_key(v) {
            self.asked[v]
        } else {
            0
        }
    }

    /// Whether replica `q` was in no later view than `v` at the moment looked
    /// back on, if round `r` of `v` had not left then.
    pub open spec fn was_at_most(self, q: ReplicaID, v: ViewNumber, r: nat) -> bool {
        self.moment matches Some(moment) ==> (moment.view_number == v && r >= moment.round
            ==> moment.at[q as int] <= v)
    }

    /// Whether `q` is a quorum of the cluster.
    pub open spec fn is_quorum(self, q: Set<ReplicaID>) -> bool {
        &&& q.finite()
        &&& q.len() >= self.config.quorum()
        &&& forall|id: ReplicaID| q.contains(id) ==> id < self.config.size()
    }

    /// Whether every replica of `q` has left view `v` without having held
    /// `n` entries of it.
    pub open spec fn left_without(self, q: Set<ReplicaID>, v: ViewNumber, n: nat) -> bool {
        forall|id: ReplicaID| #[trigger]
            q.contains(id) ==> self.at[id as int] > v && self.acc(id, v) < n
    }

    /// Whether no quorum can ever come to hold `n` entries of view `v`.
    pub open spec fn blocked(self, v: ViewNumber, n: nat) -> bool {
        exists|q: Set<ReplicaID>| self.is_quorum(q) && #[trigger] self.left_without(q, v, n)
    }

    /// Whether every replica of `q` has acknowledged `n` entries of view `v`.
    pub open spec fn all_acked(self, q: Set<ReplicaID>, v: ViewNumber, n: nat) -> bool {
        forall|id: ReplicaID| #[trigger] q.contains(id) ==> self.ack(id, v) >= n
    }

    /// Whether a quorum has acknowledged `n` entries of view `v`: they are
    /// there for good.
    pub open spec fn chosen(self, v: ViewNumber, n: nat) -> bool {
        &&& n <= self.log_of(v).len()
        &&& exists|q: Set<ReplicaID>| self.is_quorum(q) && #[trigger] self.all_acked(q, v, n)
    }

    /// Whether `log` has the first `n` entries of view `v`.
    pub open spec fn has(self, log: Seq<LogEntry<Op>>, v: ViewNumber, n: nat) -> bool {
        &&& n <= log.len()
        &&& n <= self.log_of(v).len()
        &&& log.take(n as int) == self.log_of(v).take(n as int)
    }

    /// Whether `log` has the first `n` entries of view `v`, or they can never
    /// be chosen.
    pub open spec fn settles(self, log: Seq<LogEntry<Op>>, v: ViewNumber, n: nat) -> bool {
        self.has(log, v, n) || self.blocked(v, n)
    }

    /// Whether the requests of `log` are in an order that primaries may have
    /// appended them in, as far as the history says that they do.
    pub open spec fn ordered(self, log: Seq<LogEntry<Op>>) -> bool {
        self.orderly ==> lawful(self.config.clients_max as nat, log)
    }

    /// Whether `log` has everything that was or can be chosen in the views
    /// below `w`, in an order that primaries may have appended it in.
    #[verifier::opaque]
    pub open spec fn complete(self, log: Seq<LogEntry<Op>>, w: int) -> bool {
        &&& self.ordered(log)
        &&& forall|v: ViewNumber, n: nat|
            v < w && n >= 1 ==> #[trigger] self.settles(log, v, n)
    }

    /// Whether the primary of view `u` has committed `n` entries in it.
    pub open spec fn declares(self, u: ViewNumber, n: nat) -> bool {
        n <= self.decl(u)
    }

    /// Whether the first `n` entries of `log` were committed in a view below
    /// `w`.
    #[verifier::opaque]
    pub open spec fn committed(self, log: Seq<LogEntry<Op>>, n: nat, w: int) -> bool {
        n == 0 || exists|u: ViewNumber|
            u < w && #[trigger] self.declares(u, n) && self.has(log, u, n)
    }

    /// Whether what a recovery keeps was committed as it says.
    pub open spec fn kept_chosen(self, recovery: Recovery) -> bool {
        recovery.kept >= 1 ==> {
            &&& self.is_quorum(recovery.quorum)
            &&& self.all_acked(recovery.quorum, recovery.view_number, recovery.kept)
            &&& self.declares(recovery.view_number, recovery.kept)
        }
    }

    /// Whether `log` is what the recovery of a replica keeps of a checkpoint.
    pub open spec fn kept_ok(self, recovery: Recovery, log: Seq<LogEntry<Op>>) -> bool {
        &&& self.kept_chosen(recovery)
        &&& recovery.kept == log.len()
        &&& recovery.kept >= 1 ==> self.has(log, recovery.view_number, recovery.kept)
    }

    /// Whether replica `to` recovers with `nonce`.
    pub open spec fn recovers(self, to: ReplicaID, nonce: u64) -> bool {
        self.recovering[to as int] matches Some(recovery) && recovery.nonce == nonce
    }

    /// Whether a replica `q` that is in view `v` is late enough to know what
    /// a recovery keeps, if it had acknowledged it.
    pub open spec fn knows_kept(self, recovery: Recovery, q: ReplicaID, v: ViewNumber) -> bool {
        recovery.kept >= 1 && recovery.quorum.contains(q) ==> recovery.view_number <= v
    }

    /// Whether `log`, of view `v`, has what a recovery keeps, unless that is
    /// of a later view.
    pub open spec fn has_kept(
        self,
        recovery: Recovery,
        v: ViewNumber,
        log: Seq<LogEntry<Op>>,
    ) -> bool {
        recovery.kept >= 1 && recovery.view_number <= v ==> self.committed(
            log,
            recovery.kept,
            v + 1,
        )
    }

    /// Whether `log` has all that a replica that held `a` entries of view
    /// `v`, and was in no later view before, may be needed for.
    pub open spec fn keeps(self, log: Seq<LogEntry<Op>>, v: ViewNumber, a: nat) -> bool {
        &&& self.complete(log, v as int)
        &&& prefix(log, self.log_of(v)) && log.len() >= a || self.complete(log, v + 1)
    }

    /// What holds of every history.
    pub open spec fn wf(self) -> bool {
        &&& self.config.is_cluster()
        &&& self.at.len() == self.config.size()
        &&& self.logs.len() == self.config.size()
        &&& self.recovering.len() == self.config.size()
        &&& forall|v: ViewNumber| #[trigger] self.started(v) ==> self.complete(self.log_of(v), v as int)
        &&& forall|v: ViewNumber| #[trigger]
            self.started(v) ==> self.at[self.config.primary_of(v) as int] >= v
        &&& forall|q: ReplicaID, v: ViewNumber| #[trigger]
            self.acc(q, v) <= self.log_of(v).len()
        // Only what is held is acknowledged.
        &&& forall|q: ReplicaID, v: ViewNumber| #[trigger] self.ack(q, v) <= self.acc(q, v)
        // Only what is chosen is committed.
        &&& forall|v: ViewNumber| (#[trigger] self.decl(v)) >= 1 ==> self.chosen(v, self.decl(v))
        &&& forall|v: ViewNumber| (#[trigger] self.rounds_of(v)) >= 1 ==> self.started(v)
        &&& forall|v: ViewNumber| (#[trigger] self.asked_of(v)) <= self.rounds_of(v)
        &&& self.moment matches Some(moment) ==> {
            &&& moment.round >= 1
            &&& moment.at.len() == self.config.size()
            &&& forall|q: int|
                0 <= q < self.config.size() ==> #[trigger] moment.at[q] <= self.at[q]
        }
    }

    /// Whether `h` is what this history comes to by a step of replica `i`.
    pub open spec fn grows(self, h: Self, i: ReplicaID) -> bool {
        &&& self.grew(h, i)
        &&& h.moment == self.moment
        &&& forall|q: ReplicaID, v: ViewNumber| (#[trigger] h.acc(q, v)) >= self.acc(q, v)
    }

    /// Whether `h` is what this history comes to by a step of replica `i`,
    /// which may have lost what it had not acknowledged in its view, and
    /// whatever moment is looked back on.
    pub open spec fn grew(self, h: Self, i: ReplicaID) -> bool {
        &&& h.config == self.config
        &&& h.orderly == self.orderly
        &&& h.at.len() == self.at.len()
        &&& h.logs.len() == self.logs.len()
        &&& forall|v: ViewNumber| #[trigger] self.started(v) ==> h.started(v)
        &&& forall|v: ViewNumber|
            prefix(#[trigger] self.log_of(v), h.log_of(v))
        &&& forall|v: ViewNumber|
            self.config.primary_of(v) != i ==> #[trigger] h.log_of(v) == self.log_of(v) && h.started(v) == self.started(v)
        &&& forall|q: ReplicaID, v: ViewNumber|
            #![trigger h.acc(q, v)]
            q != i || v < self.at[i as int] ==> h.acc(q, v) == self.acc(q, v)
        &&& forall|q: ReplicaID, v: ViewNumber|
            #![trigger h.ack(q, v)]
            h.ack(q, v) >= self.ack(q, v) && (q != i ==> h.ack(q, v) == self.ack(q, v))
        &&& h.at[i as int] >= self.at[i as int]
        &&& forall|q: int| 0 <= q < self.at.len() && q != i ==> #[trigger] h.at[q] == self.at[q]
        &&& forall|q: int| 0 <= q < self.logs.len() && q != i ==> #[trigger] h.logs[q] == self.logs[q]
        &&& forall|q: ReplicaID, v: ViewNumber| #[trigger]
            self.reported.contains_key((q, v)) ==> h.reported.contains_key((q, v))
                && h.reported[(q, v)] == self.reported[(q, v)]
        &&& forall|q: ReplicaID, v: ViewNumber| #[trigger]
            h.reported.contains_key((q, v)) && q != i ==> self.reported.contains_key((q, v))
        &&& h.recovering.len() == self.recovering.len()
        &&& forall|q: int|
            0 <= q < self.recovering.len() && q != i ==> #[trigger] h.recovering[q]
                == self.recovering[q]
        // A recovery starts with a nonce of its own, and until it ends the
        // replica accepts nothing.
        &&& h.recovering[i as int] matches Some(recovery) ==> {
            ||| !self.used.contains((i, recovery.nonce))
            ||| {
                &&& self.recovering[i as int] == Some(recovery)
                &&& forall|v: ViewNumber| #[trigger] h.acc(i, v) == self.acc(i, v)
            }
        }
        // It ends in a view that another replica leads.
        &&& self.recovering[i as int] is Some && h.recovering[i as int] is None ==> {
            ||| h.at[i as int] > self.at[i as int]
            ||| self.config.primary_of(h.at[i as int]) != i
        }
        &&& self.used.subset_of(h.used)
        &&& forall|v: ViewNumber|
            #![trigger h.decl(v)]
            h.decl(v) >= self.decl(v) && (self.config.primary_of(v) != i ==> h.decl(v)
                == self.decl(v))
        &&& forall|v: ViewNumber|
            #![trigger h.rounds_of(v)]
            h.rounds_of(v) >= self.rounds_of(v) && (self.config.primary_of(v) != i
                ==> h.rounds_of(v) == self.rounds_of(v))
        &&& forall|v: ViewNumber|
            #![trigger h.asked_of(v)]
            h.asked_of(v) >= self.asked_of(v) && (self.config.primary_of(v) != i ==> h.asked_of(v)
                == self.asked_of(v))
    }
}

pub proof fn prefix_take<T>(a: Seq<T>, b: Seq<T>, n: int)
    requires
        prefix(a, b),
        0 <= n <= a.len(),
    ensures
        a.take(n) == b.take(n),
{
    assert(a.take(n) =~= b.take(n)) by {
        assert forall|i: int| 0 <= i < n implies a[i] == b[i] by {
            assert(b.take(a.len() as int)[i] == a[i]);
        }
    }
}

pub proof fn prefix_trans<T>(a: Seq<T>, b: Seq<T>, c: Seq<T>)
    requires
        prefix(a, b),
        prefix(b, c),
    ensures
        prefix(a, c),
{
    prefix_take(b, c, a.len() as int);
}

pub proof fn prefix_refl<T>(a: Seq<T>)
    ensures
        prefix(a, a),
{
    assert(a.take(a.len() as int) =~= a);
}

pub proof fn prefix_push<T>(a: Seq<T>, x: T)
    ensures
        prefix(a, a.push(x)),
{
    assert(a.push(x).take(a.len() as int) =~= a);
}

/// What is blocked stays so.
pub proof fn blocked_stays<Op>(h: History<Op>, g: History<Op>, i: ReplicaID, v: ViewNumber, n: nat)
    requires
        h.wf(),
        h.grew(g, i),
        h.blocked(v, n),
    ensures
        g.blocked(v, n),
{
    let q = choose|q: Set<ReplicaID>| h.is_quorum(q) && #[trigger] h.left_without(q, v, n);
    assert(g.is_quorum(q));
    assert(g.left_without(q, v, n)) by {
        assert forall|id: ReplicaID| #[trigger] q.contains(id) implies g.at[id as int] > v && g.acc(id, v) < n by {
            assert(h.at[id as int] > v && h.acc(id, v) < n);
            if id != i {
                assert(g.at[id as int] == h.at[id as int]);
            }
            assert(g.acc(id, v) == h.acc(id, v));
        }
    }
}

/// What is chosen stays so.
pub proof fn chosen_stays<Op>(h: History<Op>, g: History<Op>, i: ReplicaID, v: ViewNumber, n: nat)
    requires
        h.wf(),
        h.grew(g, i),
        h.chosen(v, n),
    ensures
        g.chosen(v, n),
{
    let q = choose|q: Set<ReplicaID>| h.is_quorum(q) && #[trigger] h.all_acked(q, v, n);
    assert(g.is_quorum(q));
    assert(prefix(h.log_of(v), g.log_of(v)));
    assert(g.all_acked(q, v, n)) by {
        assert forall|id: ReplicaID| #[trigger] q.contains(id) implies g.ack(id, v) >= n by {
            assert(h.ack(id, v) >= n);
            assert(g.ack(id, v) >= h.ack(id, v));
        }
    }
}

/// What a log has of a view, it has for good.
pub proof fn has_stays<Op>(
    h: History<Op>,
    g: History<Op>,
    i: ReplicaID,
    log: Seq<LogEntry<Op>>,
    v: ViewNumber,
    n: nat,
)
    requires
        h.grew(g, i),
        h.has(log, v, n),
    ensures
        g.has(log, v, n),
{
    assert(prefix(h.log_of(v), g.log_of(v)));
    prefix_take(h.log_of(v), g.log_of(v), n as int);
}

pub proof fn complete_stays<Op>(
    h: History<Op>,
    g: History<Op>,
    i: ReplicaID,
    log: Seq<LogEntry<Op>>,
    w: int,
)
    requires
        h.wf(),
        h.grew(g, i),
        h.complete(log, w),
    ensures
        g.complete(log, w),
{
    reveal(History::complete);
    assert forall|v: ViewNumber, n: nat| v < w && n >= 1 implies #[trigger] g.settles(log, v, n) by {
        assert(h.settles(log, v, n));
        if h.has(log, v, n) {
            has_stays(h, g, i, log, v, n);
        } else {
            blocked_stays(h, g, i, v, n);
        }
    }
}

pub proof fn committed_stays<Op>(
    h: History<Op>,
    g: History<Op>,
    i: ReplicaID,
    log: Seq<LogEntry<Op>>,
    n: nat,
    w: int,
)
    requires
        h.wf(),
        h.grew(g, i),
        h.committed(log, n, w),
    ensures
        g.committed(log, n, w),
{
    reveal(History::committed);
    if n > 0 {
        let u = choose|u: ViewNumber| u < w && #[trigger] h.declares(u, n) && h.has(log, u, n);
        assert(g.decl(u) >= h.decl(u));
        assert(g.declares(u, n));
        has_stays(h, g, i, log, u, n);
    }
}

/// A longer log has what a shorter one has.
pub proof fn complete_extends<Op>(
    h: History<Op>,
    log: Seq<LogEntry<Op>>,
    longer: Seq<LogEntry<Op>>,
    w: int,
)
    requires
        h.complete(log, w),
        prefix(log, longer),
        h.ordered(longer),
    ensures
        h.complete(longer, w),
{
    reveal(History::complete);
    assert forall|v: ViewNumber, n: nat| v < w && n >= 1 implies #[trigger] h.settles(longer, v, n) by {
        assert(h.settles(log, v, n));
        if h.has(log, v, n) {
            prefix_take(log, longer, n as int);
        }
    }
}

/// What is complete is in order, and so is every part of it.
pub proof fn complete_is_ordered<Op>(
    h: History<Op>,
    log: Seq<LogEntry<Op>>,
    part: Seq<LogEntry<Op>>,
    w: int,
)
    requires
        h.complete(log, w),
        prefix(part, log),
    ensures
        h.ordered(log),
        h.ordered(part),
{
    reveal(History::complete);
    if h.orderly {
        lawful_takes(h.config.clients_max as nat, log, part.len() as int);
    }
}

pub proof fn complete_below<Op>(h: History<Op>, log: Seq<LogEntry<Op>>, w: int, x: int)
    requires
        h.complete(log, w),
        x <= w,
    ensures
        h.complete(log, x),
{
    reveal(History::complete);
}

pub proof fn committed_extends<Op>(
    h: History<Op>,
    log: Seq<LogEntry<Op>>,
    longer: Seq<LogEntry<Op>>,
    n: nat,
    w: int,
    x: int,
)
    requires
        h.committed(log, n, w),
        n > 0 ==> n <= longer.len() && log.take(n as int) == longer.take(n as int),
        w <= x,
    ensures
        h.committed(longer, n, x),
{
    reveal(History::committed);
    if n > 0 {
        let u = choose|u: ViewNumber| u < w && #[trigger] h.declares(u, n) && h.has(log, u, n);
        assert(h.has(longer, u, n));
    }
}

pub proof fn committed_length<Op>(h: History<Op>, log: Seq<LogEntry<Op>>, n: nat, w: int)
    requires
        h.committed(log, n, w),
    ensures
        n <= log.len(),
{
    reveal(History::committed);
}

/// Less of what is committed is committed too.
pub proof fn committed_less<Op>(h: History<Op>, log: Seq<LogEntry<Op>>, n: nat, m: nat, w: int)
    requires
        h.committed(log, n, w),
        m <= n,
    ensures
        h.committed(log, m, w),
{
    reveal(History::committed);
    if m > 0 {
        let u = choose|u: ViewNumber| u < w && #[trigger] h.declares(u, n) && h.has(log, u, n);
        assert(h.declares(u, m));
        let whole = h.log_of(u);
        assert(log.take(m as int) =~= log.take(n as int).take(m as int));
        assert(whole.take(m as int) =~= whole.take(n as int).take(m as int));
        assert(h.has(log, u, m));
    }
}

/// What is committed in a view is chosen in it.
pub proof fn declared_is_chosen<Op>(h: History<Op>, u: ViewNumber, n: nat)
    requires
        h.wf(),
        h.declares(u, n),
        n >= 1,
    ensures
        h.chosen(u, n),
{
    let m = h.decl(u);
    assert(h.chosen(u, m));
    let q = choose|q: Set<ReplicaID>| h.is_quorum(q) && #[trigger] h.all_acked(q, u, m);
    assert(h.all_acked(q, u, n));
}

/// Nothing is chosen that is blocked.
pub proof fn chosen_is_not_blocked<Op>(h: History<Op>, v: ViewNumber, n: nat)
    requires
        h.wf(),
        h.chosen(v, n),
    ensures
        !h.blocked(v, n),
{
    if h.blocked(v, n) {
        let q = choose|q: Set<ReplicaID>| h.is_quorum(q) && #[trigger] h.all_acked(q, v, n);
        let r = choose|r: Set<ReplicaID>| h.is_quorum(r) && #[trigger] h.left_without(r, v, n);
        quorums_intersect(h.config, q, r);
        let id = choose|id: ReplicaID| q.contains(id) && r.contains(id);
        assert(h.ack(id, v) <= h.acc(id, v));
    }
}

/// A log that is complete below `w` has what was committed below `w`.
pub proof fn complete_has_committed<Op>(
    h: History<Op>,
    log: Seq<LogEntry<Op>>,
    other: Seq<LogEntry<Op>>,
    n: nat,
    w: int,
)
    requires
        h.wf(),
        h.complete(log, w),
        h.committed(other, n, w),
    ensures
        h.committed(log, n, w),
        n <= log.len(),
        n <= other.len(),
        log.take(n as int) == other.take(n as int),
{
    reveal(History::complete);
    reveal(History::committed);
    if n > 0 {
        let u = choose|u: ViewNumber| u < w && #[trigger] h.declares(u, n) && h.has(other, u, n);
        declared_is_chosen(h, u, n);
        chosen_is_not_blocked(h, u, n);
        assert(h.settles(log, u, n));
    } else {
        assert(log.take(0) =~= other.take(0));
    }
}

/// A log of view `v` has what was committed in `v` or before, as far as it
/// goes.
pub proof fn regular_has_committed<Op>(
    h: History<Op>,
    log: Seq<LogEntry<Op>>,
    other: Seq<LogEntry<Op>>,
    n: nat,
    v: ViewNumber,
)
    requires
        h.wf(),
        h.complete(log, v as int),
        prefix(log, h.log_of(v)),
        n <= log.len(),
        h.committed(other, n, v + 1),
    ensures
        h.committed(log, n, v + 1),
        n <= other.len(),
        log.take(n as int) == other.take(n as int),
{
    reveal(History::complete);
    reveal(History::committed);
    if n > 0 {
        let u = choose|u: ViewNumber|
            u < v + 1 && #[trigger] h.declares(u, n) && h.has(other, u, n);
        declared_is_chosen(h, u, n);
        if u < v {
            chosen_is_not_blocked(h, u, n);
            assert(h.settles(log, u, n));
        } else {
            prefix_take(log, h.log_of(v), n as int);
        }
        assert(h.has(log, u, n));
    } else {
        assert(log.take(0) =~= other.take(0));
    }
}

} // verus!
