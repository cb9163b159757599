//! Properties are invariants checked after every tick and at the end of the
//! run.

use vstd::prelude::*;
use super::context::{
    copies, first_bad, marks_after, participating, resize, resized, start_over, started_over, swept,
    SimContext,
};
use super::violation::Violation;
use crate::ids::OpNumber;
use crate::replica::model::max;

verus! {

/// Every committed op is on enough disks to survive any view change: every
/// quorum that the replicas whose disks are not recovering could form must
/// include a disk that holds it. With nobody recovering that is a majority.
/// A recovering replica holds nothing and takes part in no quorum, so it
/// counts on neither side. A primary commits only on a quorum of
/// `PrepareOk` messages, and a replica sends one only once its disk holds
/// the op, so this must hold as soon as the commit happens, on whichever
/// replica committed it: it is checked before every round of steps, which
/// can lose power and the commit number with it, and after every tick.
/// Committed prefixes are never truncated, so each committed op needs
/// checking once per replica.
#[derive(Debug)]
pub struct Durability {
    /// Per replica: number of committed ops already verified.
    pub(crate) verified: Vec<usize>,
}

impl View for Durability {
    type V = Seq<usize>;

    open(crate) spec fn view(&self) -> Seq<usize> {
        self.verified@
    }
}

impl<'a> SimContext<'a> {
    /// Which committed ops enough disks hold.
    pub open spec fn durable(self) -> spec_fn(OpNumber) -> bool {
        |op: OpNumber| copies(self.disks@, op, self.entry(op)) >= self.needed()
    }

    /// What the check of the committed ops' durability comes to for each
    /// replica.
    pub open spec fn durability(self, marks: Seq<usize>) -> Seq<(usize, Option<Violation>)> {
        Seq::new(
            self.size(),
            |id: int|
                {
                    let commit = self.replica(id).commit_number;
                    match first_bad(self.durable(), marks[id] as int, commit as int) {
                        None => (commit, None),
                        Some(op_number) => (
                            marks[id],
                            Some(
                                Violation::NotDurable {
                                    tick: self.tick,
                                    replica_id: id as usize,
                                    op_number,
                                    copies: copies(
                                        self.disks@,
                                        op_number,
                                        self.entry(op_number),
                                    ) as usize,
                                    participants: participating(self.disks@) as usize,
                                    needed: self.needed() as usize,
                                },
                            ),
                        ),
                    }
                },
        )
    }
}

impl Default for Durability {
    fn default() -> (property: Self)
        ensures
            property@ == Seq::<usize>::empty(),
    {
        Durability { verified: Vec::new() }
    }
}

impl Durability {
    pub fn name(&self) -> (name: &'static str)
        ensures
            name@ == "durability"@,
    {
        "durability"
    }

    /// Called when a replica is rebuilt as something other than what it was
    /// in memory. What is tracked about that replica starts over.
    pub fn on_restart(&mut self, replica_id: usize)
        ensures
            final(self)@ == started_over(old(self)@, replica_id, 0),
    {
        start_over(&mut self.verified, replica_id, 0);
    }

    /// Called before each round of the replicas' steps: a step can lose
    /// power and take its replica's commit number with it.
    pub fn before_steps(&mut self, ctx: &SimContext) -> (result: Result<(), Violation>)
        requires
            ctx.wf(),
            ctx.records_commits(),
        ensures
            ({
                let marks = resized(old(self)@, ctx.size(), 0);
                swept(marks, ctx.durability(marks), final(self)@, result)
            }),
    {
        self.check(ctx)
    }

    /// Called after every tick.
    pub fn check(&mut self, ctx: &SimContext) -> (result: Result<(), Violation>)
        requires
            ctx.wf(),
            ctx.records_commits(),
        ensures
            ({
                let marks = resized(old(self)@, ctx.size(), 0);
                swept(marks, ctx.durability(marks), final(self)@, result)
            }),
    {
        resize(&mut self.verified, ctx.replicas.len(), 0);
        let ghost marks = self@;
        let ghost outcomes = ctx.durability(marks);
        let participants = ctx.participants();
        let quorum: usize = ctx.replicas.len() / 2 + 1;
        let needed: usize = if participants + 1 > quorum {
            participants + 1 - quorum
        } else {
            0
        };
        assert(needed == ctx.needed());
        let mut id: usize = 0;
        assert(self@ =~= marks_after(marks, outcomes, 0));
        while id < ctx.replicas.len()
            invariant
                ctx.wf(),
                ctx.records_commits(),
                id <= ctx.size(),
                marks == resized(old(self)@, ctx.size(), 0),
                outcomes == ctx.durability(marks),
                participants == participating(ctx.disks@),
                needed == ctx.needed(),
                self@ == marks_after(marks, outcomes, id as int),
                forall|j: int| 0 <= j < id ==> (#[trigger] outcomes[j]).1 is None,
            decreases ctx.size() - id,
        {
            let commit = ctx.replicas[id].commit_number();
            assert(ctx.replica(id as int).commit_number == commit);
            let mut op_number = self.verified[id];
            let ghost good = ctx.durable();
            while op_number < commit
                invariant
                    ctx.wf(),
                    id < ctx.size(),
                    marks == resized(old(self)@, ctx.size(), 0),
                    outcomes == ctx.durability(marks),
                    commit == ctx.replica(id as int).commit_number,
                    commit <= ctx.committed@.len(),
                    participants == participating(ctx.disks@),
                    needed == ctx.needed(),
                    good == ctx.durable(),
                    first_bad(good, op_number as int, commit as int) == first_bad(
                        good,
                        marks[id as int] as int,
                        commit as int,
                    ),
                    self@ == marks_after(marks, outcomes, id as int),
                    forall|j: int| 0 <= j < id ==> (#[trigger] outcomes[j]).1 is None,
                decreases commit - op_number,
            {
                let entry = &ctx.committed[op_number];
                op_number += 1;
                let copies = ctx.copies(op_number, entry);
                assert(good(op_number) == (copies >= needed));
                if copies < needed {
                    let violation = Violation::NotDurable {
                        tick: ctx.tick,
                        replica_id: id,
                        op_number,
                        copies,
                        participants,
                        needed,
                    };
                    assert(outcomes[id as int].1 == Some(violation));
                    assert(self@ =~= marks_after(marks, outcomes, id + 1));
                    return Err(violation);
                }
            }
            self.verified[id] = commit;
            assert(outcomes[id as int] == (commit, None::<Violation>));
            assert(self@ =~= marks_after(marks, outcomes, id + 1));
            id += 1;
        }
        Ok(())
    }
}

/// Every op a replica has executed is on its disk: in the state machine's
/// flush, or in the log as memory holds it. Otherwise a state machine that
/// persists what it executes could hold an op that a restart cannot find
/// in the log. Once verified, an op stays so: the disk drops a log entry
/// only after the state machine has flushed it. It holds after each step,
/// not before: a replica that restored a checkpoint in a delivery has its
/// owner make it durable as its step begins.
#[derive(Debug)]
pub struct ExecutedOpsDurable {
    /// Per replica: the ops already verified.
    pub(crate) verified: Vec<usize>,
}

impl View for ExecutedOpsDurable {
    type V = Seq<usize>;

    open(crate) spec fn view(&self) -> Seq<usize> {
        self.verified@
    }
}

impl<'a> SimContext<'a> {
    /// Which of a replica's ops are in its log, and on its disk as the log has
    /// them.
    pub open spec fn on_disk(self, id: int) -> spec_fn(OpNumber) -> bool {
        |op: OpNumber| {
            let replica = self.replica(id);
            replica.log_start < op <= replica.op_number() && self.disk(id).holds(
                op,
                replica.log[op - replica.log_start - 1],
            )
        }
    }

    /// What the check of the executed ops comes to for each replica.
    pub open spec fn executed_on_disk(self, marks: Seq<usize>) -> Seq<(usize, Option<Violation>)> {
        Seq::new(
            self.size(),
            |id: int|
                {
                    let from = max(marks[id] as int, self.disk(id).applied as int);
                    let to = self.replica(id).applied;
                    match first_bad(self.on_disk(id), from, to as int) {
                        None => (to, None),
                        Some(op_number) => (
                            marks[id],
                            Some(
                                Violation::ExecutedNotDurable {
                                    tick: self.tick,
                                    replica_id: id as usize,
                                    op_number,
                                },
                            ),
                        ),
                    }
                },
        )
    }
}

impl Default for ExecutedOpsDurable {
    fn default() -> (property: Self)
        ensures
            property@ == Seq::<usize>::empty(),
    {
        ExecutedOpsDurable { verified: Vec::new() }
    }
}

impl ExecutedOpsDurable {
    pub fn name(&self) -> (name: &'static str)
        ensures
            name@ == "executed-ops-durable"@,
    {
        "executed-ops-durable"
    }

    /// Called when a replica is rebuilt as something other than what it was
    /// in memory. What is tracked about that replica starts over.
    pub fn on_restart(&mut self, replica_id: usize)
        ensures
            final(self)@ == started_over(old(self)@, replica_id, 0),
    {
        start_over(&mut self.verified, replica_id, 0);
    }

    /// Called after every tick.
    pub fn check(&mut self, ctx: &SimContext) -> (result: Result<(), Violation>)
        requires
            ctx.wf(),
        ensures
            ({
                let marks = resized(old(self)@, ctx.size(), 0);
                swept(marks, ctx.executed_on_disk(marks), final(self)@, result)
            }),
    {
        resize(&mut self.verified, ctx.replicas.len(), 0);
        let ghost marks = self@;
        let ghost outcomes = ctx.executed_on_disk(marks);
        let mut id: usize = 0;
        assert(self@ =~= marks_after(marks, outcomes, 0));
        while id < ctx.replicas.len()
            invariant
                ctx.wf(),
                id <= ctx.size(),
                marks == resized(old(self)@, ctx.size(), 0),
                outcomes == ctx.executed_on_disk(marks),
                self@ == marks_after(marks, outcomes, id as int),
                forall|j: int| 0 <= j < id ==> (#[trigger] outcomes[j]).1 is None,
            decreases ctx.size() - id,
        {
            let replica = &ctx.replicas[id];
            assert(replica@ == ctx.replica(id as int));
            let log_start = replica.log_start();
            let log = replica.log();
            let disk = &ctx.disks[id];
            assert(disk@ == ctx.disk(id as int));
            let flushed = disk.applied;
            let to = replica.applied();
            let verified = self.verified[id];
            let mut op_number = if verified > flushed {
                verified
            } else {
                flushed
            };
            let ghost good = ctx.on_disk(id as int);
            let ghost from = op_number as int;
            while op_number < to
                invariant
                    ctx.wf(),
                    id < ctx.size(),
                    log_start == ctx.replica(id as int).log_start,
                    log@ == ctx.replica(id as int).log,
                    log_start + log@.len() < usize::MAX,
                    *disk == ctx.disks@[id as int],
                    outcomes == ctx.executed_on_disk(marks),
                    marks == resized(old(self)@, ctx.size(), 0),
                    self@ == marks_after(marks, outcomes, id as int),
                    forall|j: int| 0 <= j < id ==> (#[trigger] outcomes[j]).1 is None,
                    to == ctx.replica(id as int).applied,
                    from == max(marks[id as int] as int, ctx.disk(id as int).applied as int),
                    from <= op_number,
                    good == ctx.on_disk(id as int),
                    first_bad(good, op_number as int, to as int) == first_bad(
                        good,
                        from,
                        to as int,
                    ),
                decreases to - op_number,
            {
                op_number += 1;
                let holds = op_number > log_start && op_number - log_start <= log.len() && disk.holds(
                    op_number,
                    &log[op_number - log_start - 1],
                );
                assert(good(op_number) == holds);
                if !holds {
                    let violation = Violation::ExecutedNotDurable {
                        tick: ctx.tick,
                        replica_id: id,
                        op_number,
                    };
                    assert(outcomes[id as int].1 == Some(violation));
                    assert(self@ =~= marks_after(marks, outcomes, id + 1));
                    return Err(violation);
                }
            }
            self.verified[id] = to;
            assert(outcomes[id as int] == (to, None::<Violation>));
            assert(self@ =~= marks_after(marks, outcomes, id + 1));
            id += 1;
        }
        Ok(())
    }
}

/// All replicas agree on the committed prefix of the log: every committed
/// entry a replica holds in its log is the one recorded as committed at
/// that op number.
#[derive(Debug)]
pub struct CommittedPrefixAgreement {
    /// Per replica: the ops already verified.
    pub(crate) verified: Vec<usize>,
}

impl View for CommittedPrefixAgreement {
    type V = Seq<usize>;

    open(crate) spec fn view(&self) -> Seq<usize> {
        self.verified@
    }
}

impl<'a> SimContext<'a> {
    /// Which of a replica's ops are in its log as they are recorded.
    pub open spec fn agreed(self, id: int) -> spec_fn(OpNumber) -> bool {
        |op: OpNumber| {
            let replica = self.replica(id);
            replica.log[op - replica.log_start - 1] == self.entry(op)
        }
    }

    /// What the check of the committed prefix comes to for each replica.
    pub open spec fn agreement(self, marks: Seq<usize>) -> Seq<(usize, Option<Violation>)> {
        Seq::new(
            self.size(),
            |id: int|
                {
                    let from = max(marks[id] as int, self.replica(id).log_start as int);
                    let to = self.replica(id).commit_number;
                    match first_bad(self.agreed(id), from, to as int) {
                        None => (to, None),
                        Some(op_number) => (
                            marks[id],
                            Some(
                                Violation::CommittedOther {
                                    tick: self.tick,
                                    replica_id: id as usize,
                                    op_number,
                                },
                            ),
                        ),
                    }
                },
        )
    }
}

impl Default for CommittedPrefixAgreement {
    fn default() -> (property: Self)
        ensures
            property@ == Seq::<usize>::empty(),
    {
        CommittedPrefixAgreement { verified: Vec::new() }
    }
}

impl CommittedPrefixAgreement {
    pub fn name(&self) -> (name: &'static str)
        ensures
            name@ == "committed-prefix-agreement"@,
    {
        "committed-prefix-agreement"
    }

    /// Called when a replica is rebuilt as something other than what it was
    /// in memory. What is tracked about that replica starts over.
    pub fn on_restart(&mut self, replica_id: usize)
        ensures
            final(self)@ == started_over(old(self)@, replica_id, 0),
    {
        start_over(&mut self.verified, replica_id, 0);
    }

    /// Called after every tick.
    pub fn check(&mut self, ctx: &SimContext) -> (result: Result<(), Violation>)
        requires
            ctx.wf(),
            ctx.records_commits(),
            ctx.commits_are_held(),
        ensures
            ({
                let marks = resized(old(self)@, ctx.size(), 0);
                swept(marks, ctx.agreement(marks), final(self)@, result)
            }),
    {
        resize(&mut self.verified, ctx.replicas.len(), 0);
        let ghost marks = self@;
        let ghost outcomes = ctx.agreement(marks);
        let mut id: usize = 0;
        assert(self@ =~= marks_after(marks, outcomes, 0));
        while id < ctx.replicas.len()
            invariant
                ctx.wf(),
                ctx.records_commits(),
                ctx.commits_are_held(),
                id <= ctx.size(),
                marks == resized(old(self)@, ctx.size(), 0),
                outcomes == ctx.agreement(marks),
                self@ == marks_after(marks, outcomes, id as int),
                forall|j: int| 0 <= j < id ==> (#[trigger] outcomes[j]).1 is None,
            decreases ctx.size() - id,
        {
            let replica = &ctx.replicas[id];
            assert(replica@ == ctx.replica(id as int));
            let log_start = replica.log_start();
            let log = replica.log();
            let to = replica.commit_number();
            let verified = self.verified[id];
            let mut op_number = if verified > log_start {
                verified
            } else {
                log_start
            };
            let ghost good = ctx.agreed(id as int);
            let ghost from = op_number as int;
            while op_number < to
                invariant
                    ctx.wf(),
                    id < ctx.size(),
                    log_start == ctx.replica(id as int).log_start,
                    log@ == ctx.replica(id as int).log,
                    log_start + log@.len() < usize::MAX,
                    outcomes == ctx.agreement(marks),
                    marks == resized(old(self)@, ctx.size(), 0),
                    self@ == marks_after(marks, outcomes, id as int),
                    forall|j: int| 0 <= j < id ==> (#[trigger] outcomes[j]).1 is None,
                    to == ctx.replica(id as int).commit_number,
                    to <= ctx.committed@.len(),
                    to <= log_start + log@.len(),
                    from == max(marks[id as int] as int, log_start as int),
                    from <= op_number,
                    good == ctx.agreed(id as int),
                    first_bad(good, op_number as int, to as int) == first_bad(
                        good,
                        from,
                        to as int,
                    ),
                decreases to - op_number,
            {
                op_number += 1;
                let holds = log[op_number - log_start - 1] == ctx.committed[op_number - 1];
                assert(good(op_number) == holds);
                if !holds {
                    let violation = Violation::CommittedOther {
                        tick: ctx.tick,
                        replica_id: id,
                        op_number,
                    };
                    assert(outcomes[id as int].1 == Some(violation));
                    assert(self@ =~= marks_after(marks, outcomes, id + 1));
                    return Err(violation);
                }
            }
            self.verified[id] = to;
            assert(outcomes[id as int] == (to, None::<Violation>));
            assert(self@ =~= marks_after(marks, outcomes, id + 1));
            id += 1;
        }
        Ok(())
    }
}

/// A replica's commit number never decreases and never exceeds its op number,
/// its op number is the log start plus the log length, and the log start,
/// where the log has been compacted, never exceeds the commit number.
#[derive(Debug)]
pub struct CommitNumberMonotonic {
    pub(crate) last_commit: Vec<usize>,
}

impl View for CommitNumberMonotonic {
    type V = Seq<usize>;

    open(crate) spec fn view(&self) -> Seq<usize> {
        self.last_commit@
    }
}

impl<'a> SimContext<'a> {
    /// What the check of the commit number comes to for each replica. A
    /// replica's log always starts where its commit number is or before,
    /// and always ends at its op number.
    pub open spec fn commit_order(self, marks: Seq<usize>) -> Seq<(usize, Option<Violation>)> {
        Seq::new(
            self.size(),
            |id: int|
                {
                    let commit_number = self.replica(id).commit_number;
                    if commit_number > self.replica(id).op_number() {
                        (
                            marks[id],
                            Some(
                                Violation::CommitBeyondLog {
                                    tick: self.tick,
                                    replica_id: id as usize,
                                    commit_number,
                                },
                            ),
                        )
                    } else if commit_number < marks[id] {
                        (
                            marks[id],
                            Some(
                                Violation::CommitWentBack {
                                    tick: self.tick,
                                    replica_id: id as usize,
                                    before: marks[id],
                                    commit_number,
                                },
                            ),
                        )
                    } else {
                        (commit_number, None)
                    }
                },
        )
    }
}

impl Default for CommitNumberMonotonic {
    fn default() -> (property: Self)
        ensures
            property@ == Seq::<usize>::empty(),
    {
        CommitNumberMonotonic { last_commit: Vec::new() }
    }
}

impl CommitNumberMonotonic {
    pub fn name(&self) -> (name: &'static str)
        ensures
            name@ == "commit-number-monotonic"@,
    {
        "commit-number-monotonic"
    }

    /// Called when a replica is rebuilt as something other than what it was
    /// in memory. What is tracked about that replica starts over.
    pub fn on_restart(&mut self, replica_id: usize)
        ensures
            final(self)@ == started_over(old(self)@, replica_id, 0),
    {
        start_over(&mut self.last_commit, replica_id, 0);
    }

    /// Called after every tick.
    pub fn check(&mut self, ctx: &SimContext) -> (result: Result<(), Violation>)
        requires
            ctx.wf(),
        ensures
            ({
                let marks = resized(old(self)@, ctx.size(), 0);
                swept(marks, ctx.commit_order(marks), final(self)@, result)
            }),
    {
        resize(&mut self.last_commit, ctx.replicas.len(), 0);
        let ghost marks = self@;
        let ghost outcomes = ctx.commit_order(marks);
        let mut id: usize = 0;
        assert(self@ =~= marks_after(marks, outcomes, 0));
        while id < ctx.replicas.len()
            invariant
                ctx.wf(),
                id <= ctx.size(),
                marks == resized(old(self)@, ctx.size(), 0),
                outcomes == ctx.commit_order(marks),
                self@ == marks_after(marks, outcomes, id as int),
                forall|j: int| 0 <= j < id ==> (#[trigger] outcomes[j]).1 is None,
            decreases ctx.size() - id,
        {
            let replica = &ctx.replicas[id];
            assert(replica@ == ctx.replica(id as int));
            let commit_number = replica.commit_number();
            let op_number = replica.op_number();
            let log_start = replica.log_start();
            let before = self.last_commit[id];
            let violation = if op_number != log_start + replica.log().len() {
                Some(Violation::OpNumber { tick: ctx.tick, replica_id: id, op_number })
            } else if commit_number > op_number {
                Some(Violation::CommitBeyondLog { tick: ctx.tick, replica_id: id, commit_number })
            } else if log_start > commit_number {
                Some(Violation::CompactedBeyondCommit { tick: ctx.tick, replica_id: id, log_start })
            } else if commit_number < before {
                Some(
                    Violation::CommitWentBack {
                        tick: ctx.tick,
                        replica_id: id,
                        before,
                        commit_number,
                    },
                )
            } else {
                None
            };
            assert(outcomes[id as int].1 == violation);
            if let Some(violation) = violation {
                assert(self@ =~= marks_after(marks, outcomes, id + 1));
                return Err(violation);
            }
            self.last_commit[id] = commit_number;
            assert(self@ =~= marks_after(marks, outcomes, id + 1));
            id += 1;
        }
        Ok(())
    }
}

} // verus!
