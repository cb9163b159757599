use std::collections::BTreeMap;
use vstd::prelude::*;
use vstd::std_specs::iter::IteratorSpec;
use super::context::{
    marks_after, resize, resized, start_over, started_over, swept, SimContext,
};
use super::state_machine::{clients_view, in_op_order, keyed, Op};
use super::violation::Violation;
use crate::ids::{ClientID, OpNumber};
use crate::state_machine::{lists, table_view, ClientRecord, RecordView, StateMachine};

verus! {

/// A replica's state machine has applied the requests the committed log
/// executes, in order, up to the replica's applied op number, and its value
/// is their fold. That is every committed op unless the replica has a write
/// out: an op executes only once a landed write holds it. The state
/// machine's client table is the replica's, and, once it has applied every
/// committed op, the model's.
#[derive(Debug)]
pub struct StateMatchesCommittedLog {
    /// Per replica: (number of executed ops already verified, expected value).
    pub(crate) verified: Vec<(usize, i64)>,
}

impl View for StateMatchesCommittedLog {
    type V = Seq<(usize, i64)>;

    open(crate) spec fn view(&self) -> Seq<(usize, i64)> {
        self.verified@
    }
}

/// How many of the ops executed, which are in op number order, are up to
/// `op_number`.
pub open spec fn executed_by(executed: Seq<(OpNumber, Op)>, op_number: OpNumber) -> nat
    decreases executed.len(),
{
    if executed.len() == 0 {
        0
    } else if executed.last().0 <= op_number {
        executed.len()
    } else {
        executed_by(executed.drop_last(), op_number)
    }
}

/// The value that the ops executed come to from `value`, from position
/// `from` up to `to`, and the first position at which something else was
/// applied, which ends it.
pub open spec fn replayed(
    applied: Seq<(OpNumber, Op)>,
    executed: Seq<(OpNumber, Op)>,
    from: int,
    to: int,
    value: i64,
) -> (i64, Option<int>)
    decreases to - from,
{
    if from >= to {
        (value, None)
    } else if applied[from] != executed[from] {
        (value, Some(from))
    } else {
        replayed(applied, executed, from + 1, to, executed[from].1.kind.result(value))
    }
}

impl<'a> SimContext<'a> {
    /// What the check of the state of replica `id` comes to, given its mark.
    pub open spec fn state_outcome(self, id: int, mark: (usize, i64)) -> (
        (usize, i64),
        Option<Violation>,
    ) {
        let replica = self.replica(id);
        let state = replica.machine;
        let (tick, replica_id, applied) = (self.tick, id as usize, replica.applied);
        let expected = executed_by(self.model@.executed, applied);
        let (value, other) = replayed(
            state.applied,
            self.model@.executed,
            mark.0 as int,
            expected as int,
            mark.1,
        );
        let verified = (expected as usize, value);
        if applied != replica.commit_number && self.disk(id).outstanding is None {
            (mark, Some(Violation::AppliedBehindCommit { tick, replica_id, applied }))
        } else if state.applied.len() != expected {
            (
                mark,
                Some(
                    Violation::ExecutedCount {
                        tick,
                        replica_id,
                        executed: state.applied.len() as usize,
                        expected: expected as usize,
                    },
                ),
            )
        } else if other is Some {
            (
                (mark.0, value),
                Some(Violation::ExecutedOther { tick, replica_id, position: other->0 as usize }),
            )
        } else if state.value != value {
            (
                verified,
                Some(Violation::Value { tick, replica_id, value: state.value, expected: value }),
            )
        } else if replica.records != state.clients {
            (verified, Some(Violation::ReplicaTable { tick, replica_id }))
        } else if applied >= self.model@.fed && state.clients != self.model@.table {
            (verified, Some(Violation::LogTable { tick, replica_id }))
        } else {
            (verified, None)
        }
    }

    /// What the check of the states comes to for each replica.
    pub open spec fn states(self, marks: Seq<(usize, i64)>) -> Seq<
        ((usize, i64), Option<Violation>),
    > {
        Seq::new(self.size(), |id: int| self.state_outcome(id, marks[id]))
    }
}

impl Default for StateMatchesCommittedLog {
    fn default() -> (property: Self)
        ensures
            property@ == Seq::<(usize, i64)>::empty(),
    {
        StateMatchesCommittedLog { verified: Vec::new() }
    }
}

impl StateMatchesCommittedLog {
    pub fn name(&self) -> (name: &'static str)
        ensures
            name@ == "state-matches-committed-log"@,
    {
        "state-matches-committed-log"
    }

    /// Called when a replica is rebuilt as something other than what it was
    /// in memory. What is tracked about that replica starts over.
    pub fn on_restart(&mut self, replica_id: usize)
        ensures
            final(self)@ == started_over(old(self)@, replica_id, (0, 0)),
    {
        start_over(&mut self.verified, replica_id, (0, 0));
    }

    /// Called after every tick. What was verified of a replica is within
    /// what it has applied: a replica that lost some of it starts over.
    pub fn check(&mut self, ctx: &SimContext) -> (result: Result<(), Violation>)
        requires
            ctx.wf(),
            forall|id: int|
                0 <= id < ctx.size() ==> (#[trigger] resized(old(self)@, ctx.size(), (0, 0))[id]).0
                    <= executed_by(ctx.model@.executed, ctx.replica(id).applied),
        ensures
            ({
                let marks = resized(old(self)@, ctx.size(), (0, 0));
                swept(marks, ctx.states(marks), final(self)@, result)
            }),
    {
        resize(&mut self.verified, ctx.replicas.len(), (0, 0));
        let ghost marks = self@;
        let ghost outcomes = ctx.states(marks);
        let mut id: usize = 0;
        assert(self@ =~= marks_after(marks, outcomes, 0));
        while id < ctx.replicas.len()
            invariant
                ctx.wf(),
                id <= ctx.size(),
                marks == resized(old(self)@, ctx.size(), (0, 0)),
                forall|j: int|
                    0 <= j < ctx.size() ==> (#[trigger] marks[j]).0 <= executed_by(
                        ctx.model@.executed,
                        ctx.replica(j).applied,
                    ),
                outcomes == ctx.states(marks),
                self@ == marks_after(marks, outcomes, id as int),
                forall|j: int| 0 <= j < id ==> (#[trigger] outcomes[j]).1 is None,
            decreases ctx.size() - id,
        {
            assert(marks[id as int] == self.verified@[id as int]);
            let (mark, violation) = check_state(ctx, id, self.verified[id]);
            self.verified[id] = mark;
            assert(outcomes[id as int] == (mark, violation));
            assert(self@ =~= marks_after(marks, outcomes, id + 1));
            if let Some(violation) = violation {
                return Err(violation);
            }
            id += 1;
        }
        Ok(())
    }
}

/// Checks the state of replica `id`, of which `mark` was verified.
fn check_state(ctx: &SimContext, id: usize, mark: (usize, i64)) -> (outcome: (
    (usize, i64),
    Option<Violation>,
))
    requires
        ctx.wf(),
        id < ctx.size(),
        mark.0 <= executed_by(ctx.model@.executed, ctx.replica(id as int).applied),
    ensures
        outcome == ctx.state_outcome(id as int, mark),
{
    let tick = ctx.tick;
    let replica_id = id;
    let replica = &ctx.replicas[id];
    assert(replica@ == ctx.replica(id as int));
    assert(ctx.disks@[id as int]@ == ctx.disk(id as int));
    let commit = replica.commit_number();
    let applied = replica.applied();
    if applied > commit {
        return (mark, Some(Violation::AppliedBeyondCommit { tick, replica_id, applied }));
    }
    if applied != commit && ctx.disks[id].outstanding.is_none() {
        return (mark, Some(Violation::AppliedBehindCommit { tick, replica_id, applied }));
    }
    let state = replica.state_machine();
    let executed = &ctx.model.executed;
    let expected = partition_point(executed, applied);
    if state.applied.len() != expected {
        return (
            mark,
            Some(
                Violation::ExecutedCount {
                    tick,
                    replica_id,
                    executed: state.applied.len(),
                    expected,
                },
            ),
        );
    }
    let mut value = mark.1;
    let mut position = mark.0;
    while position < expected
        invariant
            state.applied@.len() == expected <= executed@.len(),
            state.applied@ == ctx.replica(id as int).machine.applied,
            executed@ == ctx.model@.executed,
            position <= expected,
            replayed(state.applied@, executed@, position as int, expected as int, value)
                == replayed(state.applied@, executed@, mark.0 as int, expected as int, mark.1),
            tick == ctx.tick,
            replica_id == id,
            applied == ctx.replica(id as int).applied,
            expected == executed_by(executed@, applied),
            applied == ctx.replica(id as int).commit_number || ctx.disk(
                id as int,
            ).outstanding is Some,
        decreases expected - position,
    {
        let (applied_op, executed_op) = (&state.applied[position], &executed[position]);
        if applied_op.0 != executed_op.0 || applied_op.1 != executed_op.1 {
            return (
                (mark.0, value),
                Some(Violation::ExecutedOther { tick, replica_id, position }),
            );
        }
        assert(*applied_op == *executed_op);
        value = executed_op.1.kind.apply(value);
        position += 1;
    }
    let verified = (expected, value);
    if state.value != value {
        return (
            verified,
            Some(Violation::Value { tick, replica_id, value: state.value, expected: value }),
        );
    }
    if !table_is(&replica.client_table(), &state.clients, Ghost(replica@.records)) {
        return (verified, Some(Violation::ReplicaTable { tick, replica_id }));
    }
    if applied >= ctx.model.fed && !table_is(
        &state.client_table(),
        &ctx.model.table,
        Ghost(state@.clients),
    ) {
        return (verified, Some(Violation::LogTable { tick, replica_id }));
    }
    (verified, None)
}

/// How many of the ops executed are up to `op_number`.
fn partition_point(executed: &Vec<(OpNumber, Op)>, op_number: OpNumber) -> (count: usize)
    requires
        in_op_order(executed@),
    ensures
        count == executed_by(executed@, op_number),
        count <= executed@.len(),
{
    let mut low: usize = 0;
    let mut high: usize = executed.len();
    while low < high
        invariant
            in_op_order(executed@),
            low <= high <= executed@.len(),
            low > 0 ==> executed@[low - 1].0 <= op_number,
            high < executed@.len() ==> executed@[high as int].0 > op_number,
        decreases high - low,
    {
        let middle: usize = low + (high - low) / 2;
        if executed[middle].0 <= op_number {
            low = middle + 1;
        } else {
            high = middle;
        }
    }
    proof {
        lemma_partition(executed@, op_number, low as int);
    }
    low
}

proof fn lemma_partition(executed: Seq<(OpNumber, Op)>, op_number: OpNumber, count: int)
    requires
        in_op_order(executed),
        0 <= count <= executed.len(),
        count > 0 ==> executed[count - 1].0 <= op_number,
        count < executed.len() ==> executed[count].0 > op_number,
    ensures
        executed_by(executed, op_number) == count,
    decreases executed.len(),
{
    if count < executed.len() {
        assert(executed.last().0 > op_number);
        let before = executed.drop_last();
        assert(in_op_order(before)) by {
            assert(forall|i: int| 0 <= i < before.len() ==> before[i] == executed[i]);
        }
        lemma_partition(before, op_number, count);
    }
}

/// Whether two records say the same.
fn same_record(a: &ClientRecord<i64>, b: &ClientRecord<i64>) -> (same: bool)
    ensures
        same == (a@ == b@),
{
    if a.client_id != b.client_id || a.session != b.session || a.request_number
        != b.request_number || a.op_number != b.op_number || a.replies.len() != b.replies.len() {
        return false;
    }
    let mut i: usize = 0;
    while i < a.replies.len()
        invariant
            a.replies@.len() == b.replies@.len(),
            i <= a.replies@.len(),
            forall|j: int| 0 <= j < i ==> #[trigger] a.replies@[j] == b.replies@[j],
        decreases a.replies@.len() - i,
    {
        if a.replies[i] != b.replies[i] {
            assert(a.replies@[i as int] != b.replies@[i as int]);
            return false;
        }
        i += 1;
    }
    assert(a.replies@ =~= b.replies@);
    true
}

/// Whether the table listed is `table`.
fn table_is(
    listed: &Vec<ClientRecord<i64>>,
    table: &BTreeMap<ClientID, ClientRecord<i64>>,
    Ghost(records): Ghost<Map<ClientID, RecordView<i64>>>,
) -> (same: bool)
    requires
        lists(table_view(listed@), records),
        keyed(records),
    ensures
        same == (records == clients_view(table@)),
{
    broadcast use vstd::std_specs::btree::group_btree_axioms;

    let ghost views = table_view(listed@);
    let ghost other = clients_view(table@);
    let ghost ids = Seq::new(views.len(), |i: int| views[i].client_id);
    proof {
        assert(ids.no_duplicates()) by {
            assert forall|i: int, j: int| 0 <= i < j < ids.len() implies ids[i] != ids[j] by {
                assert(views[i].client_id != views[j].client_id);
            }
        }
        ids.unique_seq_to_set();
        assert(ids.to_set() =~= records.dom()) by {
            assert forall|id: ClientID| records.contains_key(id) implies ids.to_set().contains(id) by {
                assert(views.contains(records[id]));
                let i = choose|i: int| 0 <= i < views.len() && views[i] == records[id];
                assert(ids[i] == id);
            }
            assert forall|id: ClientID| ids.to_set().contains(id) implies records.contains_key(id) by {
                let i = choose|i: int| 0 <= i < ids.len() && ids[i] == id;
                assert(records.contains_key(views[i].client_id));
            }
        }
        assert(other.dom() =~= table@.dom());
    }
    if listed.len() != table.len() {
        return false;
    }
    let mut i: usize = 0;
    while i < listed.len()
        invariant
            lists(views, records),
            views == table_view(listed@),
            other == clients_view(table@),
            other.dom() == table@.dom(),
            i <= listed@.len(),
            forall|j: int|
                0 <= j < i ==> other.contains_key((#[trigger] views[j]).client_id)
                    && other[views[j].client_id] == views[j],
        decreases listed@.len() - i,
    {
        let record = &listed[i];
        assert(views[i as int] == record@);
        assert(records.contains_key(views[i as int].client_id));
        match table.get(&record.client_id) {
            None => {
                assert(!other.contains_key(record.client_id));
                return false;
            },
            Some(kept) => {
                assert(other[record.client_id] == kept@);
                if !same_record(record, kept) {
                    return false;
                }
            },
        }
        i += 1;
    }
    proof {
        assert forall|id: ClientID| records.contains_key(id) implies other.contains_key(id)
            && other[id] == records[id] by {
            assert(views.contains(records[id]));
            let j = choose|j: int| 0 <= j < views.len() && views[j] == records[id];
            assert(other.contains_key(views[j].client_id));
        }
        assert(records.dom().subset_of(other.dom()));
        vstd::set_lib::lemma_subset_equality(records.dom(), other.dom());
        assert(records =~= other);
    }
    true
}

} // verus!
