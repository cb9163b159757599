use vstd::prelude::*;
use super::history::{
    blocked_stays, committed_length, committed_stays, complete_stays, has_stays, prefix,
    prefix_take, prefix_trans, History,
};
use super::normal::bound;
use super::safety::{change_ok, log_ok, replica_ok};
use super::stays::{keeps_stays, kept_stays, regular_stays, unmoved};
use crate::ids::{CommitID, OpNumber, ReplicaID, ViewNumber};
use crate::log::{LogEntry, PersistentView};
use crate::replica::model::{max, ReplicaModel};
use crate::replica::parts::Status;
use crate::state_machine::StateMachine;

verus! {

/// Whether `state` is of the whole log `log`.
pub open spec fn holds_log<Op>(state: PersistentView<Op>, log: Seq<LogEntry<Op>>) -> bool {
    &&& state.end() == log.len()
    &&& log.skip(state.log_start as int) == state.log
    &&& state.commit_number <= log.len()
}

/// Whether a replica that the others may know as `shown`, and that has
/// committed `commit_number` ops, can come back from `state` and a state
/// machine that has executed `applied` ops: the state is of the view that
/// they may know the replica in, as far as it was in it, and they may know
/// that what the state machine has executed is committed, unless the replica
/// is to recover.
pub open spec fn can_come_back<Op>(
    shown: PersistentView<Op>,
    state: PersistentView<Op>,
    commit_number: CommitID,
    applied: OpNumber,
) -> bool {
    &&& state.view_number == shown.view_number
    &&& state.last_normal_view == shown.last_normal_view
    &&& state.recovering == shown.recovering
    &&& !shown.recovering && shown.last_normal_view < shown.view_number ==> state.log_start
        == shown.log_start && state.log == shown.log
    &&& state.log_start <= applied
    &&& applied <= shown.commit_number || state.recovering && applied <= commit_number
}

/// A replica back from `state` and a state machine that has executed
/// `applied` ops, as the others may know it.
pub open spec fn back_as<Op>(state: PersistentView<Op>, applied: OpNumber) -> PersistentView<Op> {
    PersistentView {
        commit_number: max(applied as int, state.commit_number as int) as CommitID,
        ..if applied > state.end() {
            state.compacted(applied)
        } else {
            state
        }
    }
}

/// Whether a replica goes from `a` to `b`.
pub open spec fn later<Op>(a: PersistentView<Op>, b: PersistentView<Op>) -> bool {
    &&& a.view_number <= b.view_number
    &&& a.last_normal_view <= b.last_normal_view
    &&& a.commit_number <= b.commit_number
    &&& b.recovering ==> a.recovering
}

/// What holds of replica `i` as the others may know it.
pub open spec fn rests<Op>(h: History<Op>, i: ReplicaID, shown: PersistentView<Op>) -> bool {
    let log = h.logs[i as int];
    let v = shown.view_number;
    &&& i < h.config.size()
    &&& h.at[i as int] == v
    &&& holds_log(shown, log)
    &&& log.len() < usize::MAX
    &&& forall|u: ViewNumber| #[trigger] h.reported.contains_key((i, u)) ==> u <= v
    &&& match h.recovering[i as int] {
        Some(recovery) => {
            &&& shown.recovering
            &&& h.used.contains((i, recovery.nonce))
            &&& h.kept_ok(recovery, log)
        },
        None => !shown.recovering,
    }
    &&& forall|u: ViewNumber| #[trigger]
        h.acc(i, u) > 0 ==> u <= if shown.recovering {
            v
        } else {
            shown.last_normal_view
        }
    &&& if shown.recovering {
        shown.commit_number == log.len() && shown.log_start == log.len() && shown.last_normal_view
            == 0
    } else if shown.last_normal_view < v {
        &&& h.committed(log, shown.commit_number as nat, v as int)
        &&& h.keeps(log, shown.last_normal_view, h.acc(i, shown.last_normal_view))
        &&& h.config.primary_of(v) == i ==> !h.started(v)
        &&& h.config.primary_of(v) != i && h.reported.contains_key((i, v)) ==> h.reported[(i, v)]
            == log
    } else {
        &&& shown.last_normal_view == v
        &&& h.committed(log, shown.commit_number as nat, v + 1)
        &&& h.regular(log, v)
        &&& h.acc(i, v) == log.len()
    }
}

/// The others may know a replica as it is.
pub proof fn rests_now<SM: StateMachine>(h: History<SM::Input>, i: ReplicaID, s: ReplicaModel<SM>)
    requires
        replica_ok(h, i, s),
        s.inv(),
    ensures
        rests(h, i, s.persistent_state()),
        s.config == h.config,
        s.self_id == i,
{
    reveal(log_ok);
    reveal(change_ok);
    if s.status != Status::Recovering {
        committed_length(h, h.logs[i as int], s.commit_number as nat, bound(s));
    }
}

/// What the others may know of a replica holds as long as nothing of it
/// changes.
pub proof fn rests_unmoved<Op>(
    h: History<Op>,
    g: History<Op>,
    i: ReplicaID,
    j: ReplicaID,
    shown: PersistentView<Op>,
)
    requires
        h.wf(),
        h.grew(g, i),
        unmoved(h, g, j),
        rests(h, j, shown),
    ensures
        rests(g, j, shown),
{
    let log = h.logs[j as int];
    let v = shown.view_number;
    assert forall|u: ViewNumber| #[trigger] g.acc(j, u) > 0 implies u <= if shown.recovering {
        v
    } else {
        shown.last_normal_view
    } by {
        assert(g.acc(j, u) == h.acc(j, u));
    }
    if shown.recovering {
        kept_stays(h, g, i, h.recovering[j as int]->0, log);
    } else if shown.last_normal_view < v {
        committed_stays(h, g, i, log, shown.commit_number as nat, v as int);
        keeps_stays(h, g, i, log, shown.last_normal_view, h.acc(j, shown.last_normal_view));
        if h.config.primary_of(v) == j {
            assert(g.log_of(v) == h.log_of(v));
        }
        if g.reported.contains_key((j, v)) {
            assert(h.reported.contains_key((j, v)));
        }
    } else {
        committed_stays(h, g, i, log, shown.commit_number as nat, v + 1);
        regular_stays(h, g, i, log, v);
    }
}

/// Nothing of a replica changes as another steps.
pub proof fn unmoved_by_another<Op>(
    h: History<Op>,
    g: History<Op>,
    i: ReplicaID,
    j: ReplicaID,
)
    requires
        h.wf(),
        h.grew(g, i),
        i != j,
        j < h.config.size(),
    ensures
        unmoved(h, g, j),
{
    assert(g.logs[j as int] == h.logs[j as int]);
    assert(g.at[j as int] == h.at[j as int]);
    assert(g.recovering[j as int] == h.recovering[j as int]);
    assert forall|u: ViewNumber| #[trigger] g.reported.contains_key(
        (j, u),
    ) implies h.reported.contains_key((j, u)) by {}
}

/// The log of a replica only grows while it stays in its view.
pub proof fn log_grows<Op>(
    h: History<Op>,
    g: History<Op>,
    i: ReplicaID,
    a: PersistentView<Op>,
    b: PersistentView<Op>,
)
    requires
        h.grows(g, i),
        rests(h, i, a),
        rests(g, i, b),
        !a.recovering,
        !b.recovering,
        a.last_normal_view == a.view_number,
        b.last_normal_view == a.view_number,
        b.view_number == a.view_number,
    ensures
        prefix(h.logs[i as int], g.logs[i as int]),
{
    let v = a.view_number;
    let (mine, other) = (h.logs[i as int], g.logs[i as int]);
    let whole = g.log_of(v);
    assert(prefix(h.log_of(v), whole));
    prefix_trans(mine, h.log_of(v), whole);
    assert(g.acc(i, v) >= h.acc(i, v));
    prefix_take(other, whole, mine.len() as int);
}

/// What holds of a write of replica `i`: it has all that the replica has
/// acknowledged, as far as that can be committed.
pub open spec fn held_ok<Op>(
    h: History<Op>,
    i: ReplicaID,
    state: PersistentView<Op>,
    log: Seq<LogEntry<Op>>,
) -> bool {
    let v = state.last_normal_view;
    !state.recovering ==> {
        &&& v <= state.view_number
        &&& h.complete(log, v as int)
        &&& v == state.view_number ==> prefix(log, h.log_of(v)) && log.len() <= h.acc(i, v)
        &&& v < state.view_number ==> h.keeps(log, v, h.acc(i, v))
        &&& forall|u: ViewNumber| (#[trigger] h.ack(i, u)) > 0 ==> u <= v
        &&& forall|u: ViewNumber, n: nat|
            1 <= n <= h.ack(i, u) ==> #[trigger] h.settles(log, u, n)
    }
}

/// A replica has all that it has acknowledged.
pub proof fn held_now<Op>(h: History<Op>, i: ReplicaID, shown: PersistentView<Op>)
    requires
        h.wf(),
        rests(h, i, shown),
    ensures
        forall|commit_number: CommitID|
            held_ok(
                h,
                i,
                #[trigger] committing(shown, commit_number),
                h.logs[i as int],
            ),
{
    let log = h.logs[i as int];
    let v = shown.last_normal_view;
    if !shown.recovering {
        assert forall|u: ViewNumber| (#[trigger] h.ack(i, u)) > 0 implies u <= v by {
            assert(h.ack(i, u) <= h.acc(i, u));
        }
        assert forall|u: ViewNumber, n: nat| 1 <= n <= h.ack(i, u) implies #[trigger] h.settles(
            log,
            u,
            n,
        ) by {
            assert(h.ack(i, u) <= h.acc(i, u));
            holds_acked(h, log, v, h.acc(i, v), u, n);
        }
    }
}

/// `state` with another commit number.
pub open spec fn committing<Op>(
    state: PersistentView<Op>,
    commit_number: CommitID,
) -> PersistentView<Op> {
    PersistentView { commit_number, ..state }
}

/// A log that keeps what a replica held in view `v` settles what it held
/// there or before.
pub proof fn holds_acked<Op>(
    h: History<Op>,
    log: Seq<LogEntry<Op>>,
    v: ViewNumber,
    a: nat,
    u: ViewNumber,
    n: nat,
)
    requires
        h.complete(log, v as int),
        prefix(log, h.log_of(v)) && log.len() >= a || h.complete(log, v + 1),
        u <= v,
        n >= 1,
        u == v ==> n <= a,
    ensures
        h.settles(log, u, n),
{
    reveal(History::complete);
    if u == v && !h.complete(log, v + 1) {
        prefix_take(log, h.log_of(v), n as int);
    }
}

/// What was written holds as long as the replica acknowledges no more.
pub proof fn held_stays<Op>(
    h: History<Op>,
    g: History<Op>,
    i: ReplicaID,
    j: ReplicaID,
    state: PersistentView<Op>,
    log: Seq<LogEntry<Op>>,
)
    requires
        h.wf(),
        h.grew(g, i),
        forall|u: ViewNumber| #[trigger] g.ack(j, u) == h.ack(j, u),
        state.last_normal_view == state.view_number ==> g.acc(j, state.view_number) >= h.acc(
            j,
            state.view_number,
        ) || g.acc(j, state.view_number) >= log.len(),
        state.last_normal_view < state.view_number ==> g.acc(j, state.last_normal_view) == h.acc(
            j,
            state.last_normal_view,
        ),
        held_ok(h, j, state, log),
    ensures
        held_ok(g, j, state, log),
{
    let v = state.last_normal_view;
    if !state.recovering {
        complete_stays(h, g, i, log, v as int);
        if v == state.view_number {
            assert(prefix(h.log_of(v), g.log_of(v)));
            prefix_trans(log, h.log_of(v), g.log_of(v));
        } else {
            keeps_stays(h, g, i, log, v, h.acc(j, v));
        }
        assert forall|u: ViewNumber, n: nat| 1 <= n <= g.ack(j, u) implies #[trigger] g.settles(
            log,
            u,
            n,
        ) by {
            assert(h.settles(log, u, n));
            if h.has(log, u, n) {
                has_stays(h, g, i, log, u, n);
            } else {
                blocked_stays(h, g, i, u, n);
            }
        }
    }
}

/// Whether `state`, of the whole log `log`, is one that replica `i`, which
/// the others may know as `shown`, has written or is about to.
pub open spec fn write_ok<Op>(
    h: History<Op>,
    i: ReplicaID,
    shown: PersistentView<Op>,
    state: PersistentView<Op>,
    log: Seq<LogEntry<Op>>,
) -> bool {
    &&& holds_log(state, log)
    &&& state.view_number <= shown.view_number
    &&& state.commit_number <= shown.commit_number
    &&& state.last_normal_view <= shown.last_normal_view
    &&& state.recovering ==> state.log_start == log.len() && state.last_normal_view == 0
    &&& shown.recovering ==> state.recovering
    &&& held_ok(h, i, state, log)
    // What it holds of the view that the replica is in, the replica holds.
    &&& of_view(shown, state) ==> {
        &&& prefix(log, h.logs[i as int])
        &&& h.complete(log, shown.view_number as int)
        &&& h.ack(i, shown.view_number) <= log.len()
    }
}

/// Whether a write is of the view that the others may know the replica in.
pub open spec fn of_view<Op>(shown: PersistentView<Op>, state: PersistentView<Op>) -> bool {
    !shown.recovering && !state.recovering && state.last_normal_view == shown.view_number
}

/// What was written stays so as the others come to know more of the replica.
pub proof fn write_stays<Op>(
    h: History<Op>,
    g: History<Op>,
    i: ReplicaID,
    a: PersistentView<Op>,
    b: PersistentView<Op>,
    state: PersistentView<Op>,
    log: Seq<LogEntry<Op>>,
)
    requires
        h.wf(),
        h.grows(g, i),
        g.acknowledged == h.acknowledged,
        rests(h, i, a),
        rests(g, i, b),
        later(a, b),
        write_ok(h, i, a, state, log),
    ensures
        write_ok(g, i, b, state, log),
{
    let v = b.view_number;
    assert forall|u: ViewNumber| #[trigger] g.ack(i, u) == h.ack(i, u) by {}
    assert(g.acc(i, state.view_number) >= h.acc(i, state.view_number));
    assert(state.last_normal_view < state.view_number ==> g.acc(i, state.last_normal_view) == h.acc(
        i,
        state.last_normal_view,
    ));
    held_stays(h, g, i, i, state, log);
    if of_view(b, state) {
        log_grows(h, g, i, a, b);
        prefix_trans(log, h.logs[i as int], g.logs[i as int]);
        complete_stays(h, g, i, log, v as int);
    }
}

/// What was written stays so as long as nothing of the replica changes.
pub proof fn write_unmoved<Op>(
    h: History<Op>,
    g: History<Op>,
    i: ReplicaID,
    j: ReplicaID,
    shown: PersistentView<Op>,
    state: PersistentView<Op>,
    log: Seq<LogEntry<Op>>,
)
    requires
        h.wf(),
        h.grew(g, i),
        unmoved(h, g, j),
        forall|u: ViewNumber| #[trigger] g.ack(j, u) == h.ack(j, u),
        write_ok(h, j, shown, state, log),
    ensures
        write_ok(g, j, shown, state, log),
{
    assert(g.acc(j, state.view_number) == h.acc(j, state.view_number));
    assert(g.acc(j, state.last_normal_view) == h.acc(j, state.last_normal_view));
    held_stays(h, g, i, j, state, log);
    if of_view(shown, state) {
        complete_stays(h, g, i, log, shown.view_number as int);
    }
}

} // verus!
