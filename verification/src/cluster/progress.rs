use vstd::prelude::*;
use super::agreement::config_stays;
use super::history::committed_length;
use super::induction::{can_step, has_room, node_is, run_bears_out};
use super::normal::bound;
use super::run::{is_run, Action, Cluster};
use super::safety::log_ok;
use crate::config::ConfigView;
use crate::ids::ReplicaID;
use crate::replica::keeps::goes_forward;
use crate::replica::life::{goes_forward_trans, step_keeps, Step};
use crate::replica::model::ReplicaModel;
use crate::replica::parts::Status;
use crate::state_machine::StateMachine;

verus! {

/// The numbers of a replica are in order at all times: its log starts with
/// what it has executed, that is committed, and what is committed is in the
/// log.
pub proof fn numbers_stay_in_order<SM: StateMachine>(
    config: ConfigView,
    machines: Seq<SM::State>,
    run: Seq<Cluster<SM>>,
    actions: Seq<Action<SM>>,
    k: int,
    i: ReplicaID,
)
    requires
        is_run(config, machines, run, actions),
        0 <= k < run.len(),
        i < config.size(),
    ensures
        ({
            let s = run[k].replicas[i as int];
            &&& s.log_start <= s.applied <= s.commit_number <= s.op_number()
            &&& s.op_number() == s.log_start + s.log.len()
            &&& s.last_normal_view <= s.view_number
        }),
{
    config_stays(config, machines, run, actions, k);
    let account = run_bears_out(config, machines, run, actions, k);
    let s = run[k].replicas[i as int];
    let g = account.trails[i as int].ahead;
    assert(run[k].has_node(account, i));
    node_is(account.history, i, s, run[k].disks[i as int], account.trails[i as int]);
    reveal(log_ok);
    if s.status != Status::Recovering {
        committed_length(g, g.logs[i as int], s.commit_number as nat, bound(s));
    }
}

/// Whether `action` is a crash of replica `i`.
pub open spec fn crashes<SM: StateMachine>(action: Action<SM>, i: ReplicaID) -> bool {
    match action {
        Action::Restart { id, .. } => id == i,
        Action::Recover { id, .. } => id == i,
        _ => false,
    }
}

/// The step that `action` is for its replica.
pub open spec fn step_of<SM: StateMachine>(c: Cluster<SM>, action: Action<SM>) -> Step<SM> {
    match action {
        Action::Client { message, .. } => Step::Message { message, chunk: arbitrary() },
        Action::Deliver { index, chunk } => Step::Message { message: c.sent[index].1, chunk },
        Action::Idle { .. } => Step::Idle,
        Action::Compact { op_number, .. } => Step::Compact { op_number },
        Action::TakeWrite { .. } => Step::TakeWrite,
        Action::Persisted { .. } => Step::Persisted,
        Action::SendEarly { .. } => Step::DrainEarly,
        Action::Send { .. } => Step::Drain,
        _ => Step::DrainReplies,
    }
}

#[verifier::rlimit(60)]
pub proof fn action_is_step<SM: StateMachine>(c: Cluster<SM>, action: Action<SM>)
    requires
        c.can(action),
        c.stepped(action).fits,
        !(action is Restart),
        !(action is Recover),
    ensures
        ({
            let s = c.replicas[action.replica_id(c) as int];
            &&& action.replica_id(c) < c.config.size()
            &&& s.can_step(step_of(c, action))
            &&& c.stepped(action) == s.stepped(step_of(c, action))
        }),
{
    reveal(Cluster::can);
    reveal(Cluster::stepped);
    reveal(ReplicaModel::can_step);
    reveal(ReplicaModel::stepped);
}

/// Nothing goes back at a replica from one crash to the next: its view, the
/// last view it was normal in, its commit number, what it has executed and
/// where its log starts never decrease, and a committed entry that its log
/// holds never changes, unless it is compacted.
pub proof fn replicas_only_go_forward<SM: StateMachine>(
    config: ConfigView,
    machines: Seq<SM::State>,
    run: Seq<Cluster<SM>>,
    actions: Seq<Action<SM>>,
    a: int,
    b: int,
    i: ReplicaID,
)
    requires
        is_run(config, machines, run, actions),
        0 <= a <= b < run.len(),
        i < config.size(),
        forall|k: int| a <= k < b ==> !crashes(#[trigger] actions[k], i),
    ensures
        goes_forward(run[a].replicas[i as int], run[b].replicas[i as int]),
    decreases b - a,
{
    if a < b {
        let k = b - 1;
        replicas_only_go_forward(config, machines, run, actions, a, k, i);
        config_stays(config, machines, run, actions, k);
        let c = run[k];
        let action = actions[k];
        let s = c.replicas[i as int];
        assert(c.can(action));
        assert(!crashes(action, i));
        assert(run[k + 1] == run[k].next(actions[k]));
        can_step(c, action);
        let account = run_bears_out(config, machines, run, actions, k);
        assert(c.has_node(account, i));
        node_is(account.history, i, s, c.disks[i as int], account.trails[i as int]);
        if action.replica_id(c) == i {
            has_room(c, account, action);
            action_is_step(c, action);
            step_keeps(s, step_of(c, action));
        } else {
            keeps_forward(s);
        }
        assert(goes_forward(s, run[b].replicas[i as int]));
        goes_forward_trans(run[a].replicas[i as int], s, run[b].replicas[i as int]);
    }
}

proof fn keeps_forward<SM: StateMachine>(s: ReplicaModel<SM>)
    ensures
        goes_forward(s, s),
{
}

} // verus!
