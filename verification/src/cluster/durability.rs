use vstd::prelude::*;
use super::agreement::{commits_are_settled, config_stays};
use super::disks::node_ok;
use super::history::chosen_is_not_blocked;
use super::induction::run_bears_out;
use super::run::{is_run, Action, Cluster};
use crate::config::ConfigView;
use crate::ids::{OpNumber, ReplicaID, ViewNumber};
use crate::log::{LogEntry, PersistentView};
use crate::state_machine::StateMachine;

verus! {

/// Whether `state` holds `entry` as op `op_number`, or has compacted the op,
/// or is that of a replica that lost its disk and has not recovered.
pub open spec fn accounts_for<Op>(
    state: PersistentView<Op>,
    op_number: OpNumber,
    entry: LogEntry<Op>,
) -> bool {
    ||| state.recovering
    ||| state.log_start >= op_number
    ||| state.has_entry(op_number as int, entry)
}

/// What is committed is on enough disks: whatever a replica has committed is
/// on the disks of a quorum, but for those that were lost since.
pub proof fn committed_ops_are_on_the_disks_of_a_quorum<SM: StateMachine>(
    config: ConfigView,
    machines: Seq<SM::State>,
    run: Seq<Cluster<SM>>,
    actions: Seq<Action<SM>>,
    k: int,
    i: ReplicaID,
    op_number: OpNumber,
)
    requires
        is_run(config, machines, run, actions),
        0 <= k < run.len(),
        i < config.size(),
        run[k].replicas[i as int].log_start < op_number <= run[k].replicas[i as int].commit_number,
    ensures
        exists|quorum: Set<ReplicaID>|
            #![trigger quorum.len()]
            {
                &&& quorum.finite()
                &&& quorum.len() >= config.quorum()
                &&& forall|q: ReplicaID| #[trigger]
                    quorum.contains(q) ==> q < config.size() && accounts_for(
                        run[k].disks[q as int].kept.state,
                        op_number,
                        run[k].replicas[i as int].entry(op_number as int),
                    )
            },
{
    config_stays(config, machines, run, actions, k);
    let c = run[k];
    let account = run_bears_out(config, machines, run, actions, k);
    let h = account.history;
    let n = c.replicas[i as int].commit_number as nat;
    let log = commits_are_settled(c, account, i, op_number);
    let u = choose|u: ViewNumber| #[trigger] h.chosen(u, n) && h.has(log, u, n);
    let quorum = choose|q: Set<ReplicaID>| h.is_quorum(q) && #[trigger] h.all_acked(q, u, n);
    chosen_is_not_blocked(h, u, n);
    assert forall|q: ReplicaID| #[trigger] quorum.contains(q) implies q < config.size()
        && accounts_for(
        c.disks[q as int].kept.state,
        op_number,
        c.replicas[i as int].entry(op_number as int),
    ) by {
        let state = c.disks[q as int].kept.state;
        let held = account.trails[q as int].log;
        assert(c.has_node(account, q));
        reveal(node_ok);
        if !state.recovering && state.log_start < op_number {
            assert(h.ack(q, u) >= n);
            assert(h.settles(held, u, n));
            assert(held.take(n as int)[op_number - 1] == log.take(n as int)[op_number - 1]);
            assert(held.skip(state.log_start as int)[op_number - state.log_start - 1]
                == held[op_number - 1]);
        }
    }
    assert(quorum.len() >= config.quorum());
}

} // verus!
