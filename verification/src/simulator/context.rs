use vstd::prelude::*;
use super::disk::{Disk, DiskView};
use super::model::Model;
use super::state_machine::{Accumulator, Op};
use super::violation::Violation;
use crate::config::Config;
use crate::ids::{ClientID, OpNumber, QueryNumber};
use crate::log::LogEntry;
use crate::message::Reply;
use crate::replica::model::ReplicaModel;
use crate::replica::Replica;

verus! {

/// Read-only view of the simulated system handed to properties.
#[derive(Clone, Copy)]
pub struct SimContext<'a> {
    pub tick: u64,
    pub config: &'a Config,
    /// What the committed log does, fed up to `committed`.
    pub model: &'a Model,
    pub replicas: &'a [Replica<Accumulator>],
    /// Each replica's disk.
    pub disks: &'a [Disk],
    /// Every op committed so far, in op number order: the simulator
    /// records each one from the log of the replica that committed it, at
    /// the tick it did, before any replica can compact it. Op `n` is at
    /// index `n - 1`.
    pub committed: &'a [LogEntry<Op>],
    /// Replies the clients have received, in order.
    pub replies: &'a [Reply<i64>],
    /// The queries the clients completed, in order.
    pub answers: &'a [Answer],
    /// The replicas that must converge: all of them during the safety
    /// phase, the liveness core afterwards.
    pub core: &'a [usize],
}

/// A query a client completed.
#[derive(Clone, Copy, Debug)]
pub struct Answer {
    pub tick: u64,
    pub client_id: ClientID,
    pub query_number: QueryNumber,
    /// The most requests executed in what any client had completed when
    /// the query was submitted: its requests, and the states its queries
    /// read.
    pub floor: i64,
    /// The most requests executed among those its client had completed
    /// when the query completed: those the client submitted before it.
    pub own: i64,
    /// The number of requests executed in the state the query read.
    pub result: i64,
}

/// How many of `disks` are not recovering.
pub open spec fn participating(disks: Seq<Disk>) -> nat
    decreases disks.len(),
{
    if disks.len() == 0 {
        0
    } else {
        participating(disks.drop_last()) + if disks.last()@.state.recovering {
            0nat
        } else {
            1nat
        }
    }
}

/// How many of `disks` that are not recovering hold the committed op
/// `op_number`, which is `entry`.
pub open spec fn copies(disks: Seq<Disk>, op_number: OpNumber, entry: LogEntry<Op>) -> nat
    decreases disks.len(),
{
    if disks.len() == 0 {
        0
    } else {
        copies(disks.drop_last(), op_number, entry) + if !disks.last()@.state.recovering
            && disks.last()@.holds(op_number, entry) {
            1nat
        } else {
            0nat
        }
    }
}

impl<'a> SimContext<'a> {
    /// The number of replicas.
    pub open spec fn size(self) -> nat {
        self.replicas@.len()
    }

    /// The state of replica `id`.
    pub open spec fn replica(self, id: int) -> ReplicaModel<Accumulator> {
        self.replicas@[id]@
    }

    /// What the disk of replica `id` holds.
    pub open spec fn disk(self, id: int) -> DiskView {
        self.disks@[id]@
    }

    /// The entry committed as op `op_number`.
    pub open spec fn entry(self, op_number: OpNumber) -> LogEntry<Op> {
        self.committed@[op_number - 1]
    }

    /// What holds of every context: each replica has a disk, and all of
    /// them fit in memory.
    pub open spec fn wf(self) -> bool {
        &&& self.disks@.len() == self.replicas@.len() < usize::MAX
        &&& self.committed@.len() < usize::MAX
        &&& forall|id: int| 0 <= id < self.size() ==> (#[trigger] self.replicas@[id]).wf()
        &&& forall|id: int|
            0 <= id < self.size() ==> (#[trigger] self.disks@[id])@.state.end() <= usize::MAX
        &&& self.model@.inv()
    }

    /// Whether every op that a replica has committed is recorded.
    pub open spec fn records_commits(self) -> bool {
        forall|id: int|
            0 <= id < self.size() ==> (#[trigger] self.replica(id)).commit_number
                <= self.committed@.len()
    }

    /// Whether every replica holds what it has committed and not compacted.
    pub open spec fn commits_are_held(self) -> bool {
        forall|id: int|
            0 <= id < self.size() ==> (#[trigger] self.replica(id)).commit_number <= self.replica(
                id,
            ).op_number()
    }

    /// The number of copies that every quorum that the disks not recovering
    /// could form must meet.
    pub open spec fn needed(self) -> int {
        let needed = participating(self.disks@) + 1 - (self.size() / 2 + 1);
        if needed < 0 {
            0
        } else {
            needed
        }
    }

    /// How many of the disks are not recovering.
    pub(crate) fn participants(&self) -> (count: usize)
        requires
            self.wf(),
        ensures
            count == participating(self.disks@),
            count <= self.size(),
    {
        let mut count: usize = 0;
        let mut i: usize = 0;
        while i < self.disks.len()
            invariant
                self.wf(),
                i <= self.disks@.len(),
                count <= i,
                count == participating(self.disks@.take(i as int)),
            decreases self.disks@.len() - i,
        {
            assert(self.disks@.take(i + 1).drop_last() =~= self.disks@.take(i as int));
            if !self.disks[i].state.recovering {
                count += 1;
            }
            i += 1;
        }
        assert(self.disks@.take(i as int) =~= self.disks@);
        count
    }

    /// How many of the disks that are not recovering hold the op.
    pub(crate) fn copies(&self, op_number: OpNumber, entry: &LogEntry<Op>) -> (count: usize)
        requires
            self.wf(),
        ensures
            count == copies(self.disks@, op_number, *entry),
    {
        let mut count: usize = 0;
        let mut i: usize = 0;
        while i < self.disks.len()
            invariant
                self.wf(),
                i <= self.disks@.len(),
                count <= i,
                count == copies(self.disks@.take(i as int), op_number, *entry),
            decreases self.disks@.len() - i,
        {
            assert(self.disks@.take(i + 1).drop_last() =~= self.disks@.take(i as int));
            let disk = &self.disks[i];
            if !disk.state.recovering && disk.holds(op_number, entry) {
                count += 1;
            }
            i += 1;
        }
        assert(self.disks@.take(i as int) =~= self.disks@);
        count
    }
}

/// The first number after `from` and up to `to` that is not `good`.
pub open spec fn first_bad(good: spec_fn(OpNumber) -> bool, from: int, to: int) -> Option<OpNumber>
    decreases to - from,
{
    if from >= to {
        None
    } else if !good((from + 1) as OpNumber) {
        Some((from + 1) as OpNumber)
    } else {
        first_bad(good, from + 1, to)
    }
}

/// The first number that is not good is the least of them, and there is
/// none only if all are good.
pub proof fn lemma_first_bad(good: spec_fn(OpNumber) -> bool, from: int, to: int)
    requires
        0 <= from,
        to <= usize::MAX,
    ensures
        match first_bad(good, from, to) {
            None => forall|op: OpNumber| from < op <= to ==> #[trigger] good(op),
            Some(bad) => from < bad <= to && !good(bad) && forall|op: OpNumber|
                from < op < bad ==> #[trigger] good(op),
        },
    decreases to - from,
{
    if from < to && good((from + 1) as OpNumber) {
        lemma_first_bad(good, from + 1, to);
    }
}

/// The marks kept, one for each of `len` replicas: those of before, and
/// `fresh` for the replicas that had none.
pub open spec fn resized<T>(marks: Seq<T>, len: nat, fresh: T) -> Seq<T> {
    Seq::new(
        len,
        |i: int|
            if i < marks.len() {
                marks[i]
            } else {
                fresh
            },
    )
}

/// The marks kept once replica `id` starts over.
pub open spec fn started_over<T>(marks: Seq<T>, id: usize, fresh: T) -> Seq<T> {
    if id < marks.len() {
        marks.update(id as int, fresh)
    } else {
        marks
    }
}

/// Whether a check that goes through the replicas in order, and comes to
/// `outcomes` of them, ends in `result` with the marks `after`: it stops at
/// the first violation, and the marks of the replicas after it stay.
pub open spec fn swept<T>(
    marks: Seq<T>,
    outcomes: Seq<(T, Option<Violation>)>,
    after: Seq<T>,
    result: Result<(), Violation>,
) -> bool {
    match result {
        Ok(()) => {
            &&& forall|id: int| 0 <= id < outcomes.len() ==> (#[trigger] outcomes[id]).1 is None
            &&& after == marks_after(marks, outcomes, outcomes.len() as int)
        },
        Err(violation) => exists|id: int|
            {
                &&& 0 <= id < outcomes.len()
                &&& (#[trigger] outcomes[id]).1 == Some(violation)
                &&& forall|j: int| 0 <= j < id ==> (#[trigger] outcomes[j]).1 is None
                &&& after == marks_after(marks, outcomes, id + 1)
            },
    }
}

/// The marks kept once `count` replicas are gone through.
pub open spec fn marks_after<T>(
    marks: Seq<T>,
    outcomes: Seq<(T, Option<Violation>)>,
    count: int,
) -> Seq<T> {
    Seq::new(
        outcomes.len(),
        |i: int|
            if i < count {
                outcomes[i].0
            } else {
                marks[i]
            },
    )
}

/// Makes room for the marks of `len` replicas.
pub(crate) fn resize<T: Copy>(marks: &mut Vec<T>, len: usize, fresh: T)
    ensures
        final(marks)@ == resized(old(marks)@, len as nat, fresh),
{
    marks.truncate(len);
    while marks.len() < len
        invariant
            marks@.len() <= len,
            old(marks)@.len() <= marks@.len() || marks@.len() == len,
            forall|i: int|
                0 <= i < marks@.len() ==> #[trigger] marks@[i] == (if i < old(marks)@.len() {
                    old(marks)@[i]
                } else {
                    fresh
                }),
        decreases len - marks@.len(),
    {
        marks.push(fresh);
    }
    assert(marks@ =~= resized(old(marks)@, len as nat, fresh));
}

/// Starts the mark of replica `id` over.
pub(crate) fn start_over<T: Copy>(marks: &mut Vec<T>, id: usize, fresh: T)
    ensures
        final(marks)@ == started_over(old(marks)@, id, fresh),
{
    if id < marks.len() {
        marks[id] = fresh;
    }
}

} // verus!
