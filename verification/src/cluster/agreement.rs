use vstd::prelude::*;
use super::branches::committed_is_chosen;
use super::history::{chosen_is_not_blocked, chosen_stays, committed_length, has_stays, History};
use super::induction::{node_is, run_bears_out, step_bears_out, Account};
use super::normal::bound;
use super::run::{is_run, Action, Cluster};
use super::safety::log_ok;
use crate::config::ConfigView;
use crate::ids::{OpNumber, ReplicaID, ViewNumber};
use crate::log::LogEntry;
use crate::replica::parts::Status;
use crate::state_machine::StateMachine;

verus! {

/// The configuration of a cluster never changes.
pub proof fn config_stays<SM: StateMachine>(
    config: ConfigView,
    machines: Seq<SM::State>,
    run: Seq<Cluster<SM>>,
    actions: Seq<Action<SM>>,
    k: int,
)
    requires
        is_run(config, machines, run, actions),
        0 <= k < run.len(),
    ensures
        run[k].config == config,
    decreases k,
{
    if k > 0 {
        config_stays(config, machines, run, actions, k - 1);
        assert(run[k - 1].can(actions[k - 1]));
    }
}

impl<Op> History<Op> {
    /// Whether the first `n` entries of `log` are those that a quorum has
    /// acknowledged in a view: they are there for good.
    pub open spec fn settled(self, log: Seq<LogEntry<Op>>, n: nat) -> bool {
        exists|u: ViewNumber| #[trigger] self.chosen(u, n) && self.has(log, u, n)
    }
}

/// What is settled in one state of a run stays so in a later one.
pub proof fn run_keeps_settled<SM: StateMachine>(
    config: ConfigView,
    machines: Seq<SM::State>,
    run: Seq<Cluster<SM>>,
    actions: Seq<Action<SM>>,
    from: int,
    to: int,
    account: Account<SM::Input>,
    log: Seq<LogEntry<SM::Input>>,
    n: nat,
) -> (later: Account<SM::Input>)
    requires
        is_run(config, machines, run, actions),
        0 <= from <= to < run.len(),
        run[from].bears_out(account),
        !account.history.orderly,
    ensures
        run[to].bears_out(later),
        !later.history.orderly,
        account.history.settled(log, n) ==> later.history.settled(log, n),
        later.history.moment == account.history.moment,
    decreases to - from,
{
    if from == to {
        account
    } else {
        let before = run_keeps_settled(
            config,
            machines,
            run,
            actions,
            from,
            to - 1,
            account,
            log,
            n,
        );
        let action = actions[to - 1];
        assert(run[to - 1].can(action));
        let later = step_bears_out(run[to - 1], before, action);
        let (h, g) = (before.history, later.history);
        if h.settled(log, n) {
            let i = action.replica_id(run[to - 1]);
            let u = choose|u: ViewNumber| #[trigger] h.chosen(u, n) && h.has(log, u, n);
            chosen_stays(h, g, i, u, n);
            has_stays(h, g, i, log, u, n);
        }
        later
    }
}

/// Two logs agree on what is settled of both.
pub proof fn settled_agree<Op>(
    h: History<Op>,
    a: Seq<LogEntry<Op>>,
    m: nat,
    b: Seq<LogEntry<Op>>,
    n: nat,
    k: int,
)
    requires
        h.wf(),
        h.settled(a, m),
        h.settled(b, n),
        0 <= k < m,
        k < n,
    ensures
        a[k] == b[k],
{
    let t = choose|u: ViewNumber| #[trigger] h.chosen(u, m) && h.has(a, u, m);
    let u = choose|u: ViewNumber| #[trigger] h.chosen(u, n) && h.has(b, u, n);
    assert(a.take(m as int)[k] == h.log_of(t).take(m as int)[k]);
    assert(b.take(n as int)[k] == h.log_of(u).take(n as int)[k]);
    assert(a[k] == h.log_of(t)[k]);
    assert(b[k] == h.log_of(u)[k]);
    if t < u {
        later_has(h, t, m, u, n);
        assert(h.log_of(u).take(m as int)[k] == h.log_of(t).take(m as int)[k]);
    } else if u < t {
        later_has(h, u, n, t, m);
        assert(h.log_of(t).take(n as int)[k] == h.log_of(u).take(n as int)[k]);
    }
}

/// The log of a view that something was chosen in has what was chosen in
/// earlier ones.
proof fn later_has<Op>(h: History<Op>, t: ViewNumber, m: nat, u: ViewNumber, n: nat)
    requires
        h.wf(),
        h.chosen(t, m),
        h.chosen(u, n),
        t < u,
        m >= 1,
        n >= 1,
    ensures
        h.has(h.log_of(u), t, m),
{
    reveal(History::complete);
    assert(h.started(u));
    chosen_is_not_blocked(h, t, m);
    assert(h.settles(h.log_of(u), t, m));
}

/// What holds of what a replica has committed.
pub proof fn commits_are_settled<SM: StateMachine>(
    c: Cluster<SM>,
    account: Account<SM::Input>,
    i: ReplicaID,
    op_number: OpNumber,
) -> (log: Seq<LogEntry<SM::Input>>)
    requires
        c.bears_out(account),
        i < c.config.size(),
        c.replicas[i as int].log_start < op_number <= c.replicas[i as int].commit_number,
    ensures
        account.history.settled(log, c.replicas[i as int].commit_number as nat),
        op_number <= c.replicas[i as int].op_number(),
        c.replicas[i as int].entry(op_number as int) == log[op_number - 1],
{
    let s = c.replicas[i as int];
    let h = account.history;
    let g = account.trails[i as int].ahead;
    assert(c.has_node(account, i));
    node_is(h, i, s, c.disks[i as int], account.trails[i as int]);
    let log = g.logs[i as int];
    let n = s.commit_number as nat;
    assert(s.status != Status::Recovering && g.committed(log, n, bound(s)) && log.len()
        == s.op_number() && log.skip(
        s.log_start as int,
    ) == s.log) by {
        reveal(log_ok);
    }
    committed_length(g, log, n, bound(s));
    let u = committed_is_chosen(h, g, i, log, n, bound(s));
    assert(h.chosen(u, n));
    assert(log.skip(s.log_start as int)[op_number - s.log_start - 1] == log[op_number - 1]);
    log
}

/// What a replica has committed is what another commits later.
proof fn later_commits_agree<SM: StateMachine>(
    config: ConfigView,
    machines: Seq<SM::State>,
    run: Seq<Cluster<SM>>,
    actions: Seq<Action<SM>>,
    a: int,
    i: ReplicaID,
    b: int,
    j: ReplicaID,
    op_number: OpNumber,
)
    requires
        is_run(config, machines, run, actions),
        0 <= a,
        a <= b < run.len(),
        i < config.size(),
        j < config.size(),
        run[a].replicas[i as int].log_start < op_number <= run[a].replicas[i as int].commit_number,
        run[b].replicas[j as int].log_start < op_number <= run[b].replicas[j as int].commit_number,
    ensures
        op_number <= run[a].replicas[i as int].op_number(),
        op_number <= run[b].replicas[j as int].op_number(),
        run[a].replicas[i as int].entry(op_number as int) == run[b].replicas[j as int].entry(
            op_number as int,
        ),
{
    let m = run[a].replicas[i as int].commit_number as nat;
    let n = run[b].replicas[j as int].commit_number as nat;
    config_stays(config, machines, run, actions, a);
    config_stays(config, machines, run, actions, b);
    let account = run_bears_out(config, machines, run, actions, a);
    let mine = commits_are_settled(run[a], account, i, op_number);
    let later = run_keeps_settled(config, machines, run, actions, a, b, account, mine, m);
    let other = commits_are_settled(run[b], later, j, op_number);
    settled_agree(later.history, mine, m, other, n, op_number - 1);
}

/// All replicas agree on the committed prefix of the log, at all times:
/// whatever two replicas have committed as the same op, now or earlier, is
/// the same entry. The network may lose, delay, reorder and duplicate
/// messages, view changes may come at any time, writes take their time, and
/// replicas may lose power and restart from their disks, or lose their
/// disks and recover, as [`Cluster::can`] says.
pub proof fn committed_prefixes_agree<SM: StateMachine>(
    config: ConfigView,
    machines: Seq<SM::State>,
    run: Seq<Cluster<SM>>,
    actions: Seq<Action<SM>>,
    a: int,
    i: ReplicaID,
    b: int,
    j: ReplicaID,
    op_number: OpNumber,
)
    requires
        is_run(config, machines, run, actions),
        0 <= a < run.len(),
        0 <= b < run.len(),
        i < config.size(),
        j < config.size(),
        run[a].replicas[i as int].log_start < op_number <= run[a].replicas[i as int].commit_number,
        run[b].replicas[j as int].log_start < op_number <= run[b].replicas[j as int].commit_number,
    ensures
        op_number <= run[a].replicas[i as int].op_number(),
        op_number <= run[b].replicas[j as int].op_number(),
        run[a].replicas[i as int].entry(op_number as int) == run[b].replicas[j as int].entry(
            op_number as int,
        ),
{
    if a > b {
        later_commits_agree(config, machines, run, actions, b, j, a, i, op_number);
    } else {
        later_commits_agree(config, machines, run, actions, a, i, b, j, op_number);
    }
}

} // verus!
