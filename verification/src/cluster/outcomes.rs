use vstd::prelude::*;
use super::agreement::{committed_prefixes_agree, config_stays};
use super::induction::{can_step, has_room, node_is, run_bears_out};
use super::progress::{action_is_step, crashes, step_of};
use super::run::{is_run, Action, Cluster};
use crate::config::ConfigView;
use crate::ids::{OpNumber, ReplicaID};
use crate::replica::model::ReplicaModel;
use crate::replica::outcomes::{
    executed, moves_checkpoint, runs_hold, runs_make, runs_on, runs_on_refl, step_runs_on,
};
use crate::replica::runs::{made_from, Made};
use crate::state_machine::StateMachine;

verus! {

/// What replica `i` is in each state of a run.
pub open spec fn states_of<SM: StateMachine>(run: Seq<Cluster<SM>>, i: ReplicaID) -> Seq<
    ReplicaModel<SM>,
> {
    Seq::new(run.len(), |k: int| run[k].replicas[i as int])
}

/// Whether replica `i` has come to `run[k]` by its log alone: it has not
/// crashed, and moved no checkpoint.
pub open spec fn by_its_log<SM: StateMachine>(
    run: Seq<Cluster<SM>>,
    actions: Seq<Action<SM>>,
    i: ReplicaID,
    k: int,
) -> bool {
    &&& forall|n: int|
        0 <= n < k ==> !crashes(#[trigger] actions[n], i) && (actions[n].replica_id(run[n]) == i
            ==> !moves_checkpoint(run[n].replicas[i as int], step_of(run[n], actions[n])))
    &&& forall|n: int| 0 <= n <= k ==> (#[trigger] run[n]).replicas[i as int].serving is None
}

proof fn replica_runs_on<SM: StateMachine>(
    config: ConfigView,
    machines: Seq<SM::State>,
    run: Seq<Cluster<SM>>,
    actions: Seq<Action<SM>>,
    i: ReplicaID,
    k: int,
)
    requires
        is_run(config, machines, run, actions),
        0 <= k < run.len(),
        i < config.size(),
        by_its_log(run, actions, i, k),
    ensures
        states_of(run, i)[0] == ReplicaModel::<SM>::init(i, config, machines[i as int]),
        states_of(run, i)[0].can_run(),
        forall|n: int|
            0 <= n < k ==> runs_on(#[trigger] states_of(run, i)[n], states_of(run, i)[n + 1]),
        forall|n: int| 0 <= n <= k ==> (#[trigger] states_of(run, i)[n]).serving is None,
{
    let states = states_of(run, i);
    assert forall|n: int| 0 <= n < k implies runs_on(#[trigger] states[n], states[n + 1]) by {
        let c = run[n];
        let action = actions[n];
        let s = c.replicas[i as int];
        config_stays(config, machines, run, actions, n);
        assert(c.can(action));
        assert(!crashes(action, i));
        assert(run[n + 1] == run[n].next(actions[n]));
        assert(run[n].replicas[i as int].serving is None);
        can_step(c, action);
        let account = run_bears_out(config, machines, run, actions, n);
        assert(c.has_node(account, i));
        node_is(account.history, i, s, c.disks[i as int], account.trails[i as int]);
        if action.replica_id(c) == i {
            has_room(c, account, action);
            action_is_step(c, action);
            step_runs_on(s, step_of(c, action));
        } else {
            runs_on_refl(s);
        }
    }
    assert forall|n: int| 0 <= n <= k implies (#[trigger] states[n]).serving is None by {
        assert(run[n].replicas[i as int].serving is None);
    }
}

/// Two replicas of a cluster that have come by their logs alone to the same
/// op number have executed the same entries. If their state machines started
/// alike, they hold the same state machine and the same client table: what
/// those entries make of them.
pub proof fn replicas_that_executed_the_same_ops_are_alike<SM: StateMachine>(
    config: ConfigView,
    machines: Seq<SM::State>,
    run: Seq<Cluster<SM>>,
    actions: Seq<Action<SM>>,
    a: int,
    i: ReplicaID,
    b: int,
    j: ReplicaID,
)
    requires
        is_run(config, machines, run, actions),
        0 <= a < run.len(),
        0 <= b < run.len(),
        i < config.size(),
        j < config.size(),
        by_its_log(run, actions, i, a),
        by_its_log(run, actions, j, b),
        machines[i as int] == machines[j as int],
        run[a].replicas[i as int].applied == run[b].replicas[j as int].applied,
    ensures
        executed(states_of(run, i), a as nat) == executed(states_of(run, j), b as nat),
        executed(states_of(run, i), a as nat).len() == run[a].replicas[i as int].applied,
        run[a].replicas[i as int].made() == made_from(
            config,
            Made::<SM> { machine: machines[i as int], records: Map::empty() },
            0,
            executed(states_of(run, i), a as nat),
        ),
        run[a].replicas[i as int].machine == run[b].replicas[j as int].machine,
        run[a].replicas[i as int].records == run[b].replicas[j as int].records,
{
    let (s, t) = (states_of(run, i), states_of(run, j));
    replica_runs_on(config, machines, run, actions, i, a);
    replica_runs_on(config, machines, run, actions, j, b);
    runs_make(s, a as nat);
    runs_make(t, b as nat);
    let (x, y) = (executed(s, a as nat), executed(t, b as nat));
    assert forall|n: int| 0 <= n < x.len() implies x[n] == y[n] by {
        let p = runs_hold(s, a as nat, n);
        let q = runs_hold(t, b as nat, n);
        assert(s[p] == run[p].replicas[i as int]);
        assert(t[q] == run[q].replicas[j as int]);
        committed_prefixes_agree(
            config,
            machines,
            run,
            actions,
            p,
            i,
            q,
            j,
            (n + 1) as OpNumber,
        );
    }
    assert(x =~= y);
    assert(s[a] == run[a].replicas[i as int] && t[b] == run[b].replicas[j as int]);
    assert(s[0].made() == t[0].made());
    assert(s[a].made() == t[b].made());
    assert(s[a].made().machine == t[b].made().machine);
    assert(s[a].made().records == t[b].made().records);
}

} // verus!
