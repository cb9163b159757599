use std::collections::BTreeSet;
use vstd::prelude::*;
use super::context::{Answer, SimContext};
use super::model::{has_pair, result_of, ModelView};
use super::state_machine::Op;
use super::violation::Violation;
use crate::ids::{ClientID, OpNumber, RequestNumber};
use crate::log::LogEntry;
use crate::message::Reply;

verus! {

/// No operation commits twice. Entries beyond the commit number can be
/// replaced by a view change, so only the committed log, which is
/// append-only, is checked.
#[derive(Debug)]
pub struct NoDuplicateOps {
    /// Committed ops already verified, and the op IDs seen.
    pub(crate) verified: usize,
    pub(crate) seen: BTreeSet<u64>,
}

/// How many committed ops are verified, and the op IDs seen.
#[verifier::ext_equal]
pub struct SeenView {
    pub verified: usize,
    pub seen: Set<u64>,
}

impl View for NoDuplicateOps {
    type V = SeenView;

    open(crate) spec fn view(&self) -> SeenView {
        SeenView { verified: self.verified, seen: self.seen@ }
    }
}

/// The IDs seen once the entries from index `from` on are, up to the first
/// that holds one seen before, and that entry's index.
pub open spec fn seen_from(committed: Seq<LogEntry<Op>>, from: int, seen: Set<u64>) -> (
    Set<u64>,
    Option<int>,
)
    decreases committed.len() - from,
{
    if from >= committed.len() {
        (seen, None)
    } else {
        match committed[from] {
            LogEntry::Request { op, .. } => if seen.contains(op.id) {
                (seen, Some(from))
            } else {
                seen_from(committed, from + 1, seen.insert(op.id))
            },
            LogEntry::Register { .. } => seen_from(committed, from + 1, seen),
        }
    }
}

impl Default for NoDuplicateOps {
    fn default() -> (property: Self)
        ensures
            property@ == (SeenView { verified: 0, seen: Set::empty() }),
    {
        NoDuplicateOps { verified: 0, seen: BTreeSet::new() }
    }
}

impl NoDuplicateOps {
    pub fn name(&self) -> (name: &'static str)
        ensures
            name@ == "no-duplicate-ops"@,
    {
        "no-duplicate-ops"
    }

    /// Called after every tick.
    pub fn check(&mut self, ctx: &SimContext) -> (result: Result<(), Violation>)
        requires
            ctx.committed@.len() < usize::MAX,
        ensures
            ({
                let (seen, again) = seen_from(
                    ctx.committed@,
                    old(self)@.verified as int,
                    old(self)@.seen,
                );
                match again {
                    None => result is Ok && final(self)@ == (SeenView {
                        verified: ctx.committed@.len() as usize,
                        seen,
                    }),
                    Some(index) => result == Err::<(), Violation>(
                        Violation::CommittedTwice {
                            tick: ctx.tick,
                            op_number: (index + 1) as OpNumber,
                            id: ctx.committed@[index]->op.id,
                        },
                    ) && final(self)@ == (SeenView { seen, ..old(self)@ }),
                }
            }),
    {
        broadcast use vstd::std_specs::btree::group_btree_axioms;

        let mut i = self.verified;
        while i < ctx.committed.len()
            invariant
                ctx.committed@.len() < usize::MAX,
                self.verified == old(self).verified,
                seen_from(ctx.committed@, i as int, self.seen@) == seen_from(
                    ctx.committed@,
                    old(self)@.verified as int,
                    old(self)@.seen,
                ),
            decreases ctx.committed@.len() - i,
        {
            if let LogEntry::Request { op, .. } = &ctx.committed[i] {
                if self.seen.contains(&op.id) {
                    return Err(
                        Violation::CommittedTwice { tick: ctx.tick, op_number: i + 1, id: op.id },
                    );
                }
                let _ = self.seen.insert(op.id);
            }
            i += 1;
        }
        self.verified = ctx.committed.len();
        Ok(())
    }
}

/// A request, by client, session, and request number.
pub type RequestKey = (ClientID, OpNumber, RequestNumber);

/// Every reply answers what committed: a registration with a session the
/// log gave the client, a request with the accumulator value right after
/// it executed, an eviction for a session the log evicted. Replies may be
/// duplicated, since the primary answers a re-sent request from its client
/// table, and by the end every request that executed has a reply, unless
/// its session was evicted.
#[derive(Debug)]
pub struct RepliesMatchCommits {
    /// Requests that have received a reply.
    pub(crate) replied: Vec<RequestKey>,
    /// Replies already checked.
    pub(crate) verified: usize,
}

/// The requests that have received a reply, and how many replies are
/// checked.
#[verifier::ext_equal]
pub struct RepliedView {
    pub replied: Seq<RequestKey>,
    pub verified: usize,
}

impl View for RepliesMatchCommits {
    type V = RepliedView;

    open(crate) spec fn view(&self) -> RepliedView {
        RepliedView { replied: self.replied@, verified: self.verified }
    }
}

/// What is wrong with `reply`, if anything is.
pub open spec fn wrong_reply(model: ModelView, tick: u64, reply: Reply<i64>) -> Option<Violation> {
    match reply {
        Reply::Registered { client_id, session, .. } => if model.sessions.contains(
            (client_id, session),
        ) {
            None
        } else {
            Some(Violation::UnknownSession { tick, client_id, session })
        },
        Reply::Executed { client_id, session, request_number, result, .. } => match result_of(
            model.results,
            (client_id, session, request_number),
        ) {
            None => Some(Violation::NotExecuted { tick, client_id, session, request_number }),
            Some(expected) => if result == expected {
                None
            } else {
                Some(
                    Violation::WrongResult {
                        tick,
                        client_id,
                        session,
                        request_number,
                        result,
                        expected,
                    },
                )
            },
        },
        Reply::Evicted { client_id, session, .. } => if model.evicted.contains(
            (client_id, session),
        ) {
            None
        } else {
            Some(Violation::NotEvicted { tick, client_id, session })
        },
        Reply::Queried { .. } => None,
    }
}

impl RepliedView {
    /// What is tracked once the replies from index `from` on are checked,
    /// up to the first that something is wrong with, and what that is.
    pub open spec fn check_from(
        self,
        model: ModelView,
        tick: u64,
        replies: Seq<Reply<i64>>,
        from: int,
    ) -> (Self, Result<(), Violation>)
        decreases replies.len() - from,
    {
        if from >= replies.len() {
            (RepliedView { verified: replies.len() as usize, ..self }, Ok(()))
        } else {
            match wrong_reply(model, tick, replies[from]) {
                Some(violation) => (self, Err(violation)),
                None => match replies[from] {
                    Reply::Executed { client_id, session, request_number, .. } => RepliedView {
                        replied: self.replied.push((client_id, session, request_number)),
                        ..self
                    }.check_from(model, tick, replies, from + 1),
                    _ => self.check_from(model, tick, replies, from + 1),
                },
            }
        }
    }

    /// Whether the request executed, got no reply, and its session was not
    /// evicted.
    pub open spec fn unanswered(self, model: ModelView, key: RequestKey) -> bool {
        &&& result_of(model.results, key) is Some
        &&& !self.replied.contains(key)
        &&& !model.evicted.contains((key.0, key.1))
    }
}

/// The order of requests: by client, session, and request number.
pub open spec fn key_le(a: RequestKey, b: RequestKey) -> bool {
    a.0 < b.0 || (a.0 == b.0 && (a.1 < b.1 || (a.1 == b.1 && a.2 <= b.2)))
}

/// The requests with a result are those of `results`.
proof fn lemma_result_of(results: Seq<(RequestKey, i64)>, key: RequestKey)
    ensures
        result_of(results, key) is Some <==> exists|i: int|
            0 <= i < results.len() && (#[trigger] results[i]).0 == key,
    decreases results.len(),
{
    if results.len() > 0 {
        let before = results.drop_last();
        lemma_result_of(before, key);
        if result_of(before, key) is Some {
            let i = choose|i: int| 0 <= i < before.len() && (#[trigger] before[i]).0 == key;
            assert(results[i].0 == key);
        }
        if exists|i: int| 0 <= i < results.len() && (#[trigger] results[i]).0 == key {
            let i = choose|i: int| 0 <= i < results.len() && (#[trigger] results[i]).0 == key;
            if i < before.len() {
                assert(before[i].0 == key);
            }
        }
        assert(results[results.len() - 1] == results.last());
    }
}

impl Default for RepliesMatchCommits {
    fn default() -> (property: Self)
        ensures
            property@ == (RepliedView { replied: Seq::empty(), verified: 0 }),
    {
        RepliesMatchCommits { replied: Vec::new(), verified: 0 }
    }
}

impl RepliesMatchCommits {
    pub fn name(&self) -> (name: &'static str)
        ensures
            name@ == "replies-match-commits"@,
    {
        "replies-match-commits"
    }

    /// Called after every tick.
    pub fn check(&mut self, ctx: &SimContext) -> (result: Result<(), Violation>)
        requires
            old(self)@.verified <= ctx.replies@.len(),
        ensures
            (final(self)@, result) == old(self)@.check_from(
                ctx.model@,
                ctx.tick,
                ctx.replies@,
                old(self)@.verified as int,
            ),
    {
        let tick = ctx.tick;
        let model = ctx.model;
        let mut i = self.verified;
        while i < ctx.replies.len()
            invariant
                tick == ctx.tick,
                model == ctx.model,
                self.verified == old(self).verified <= i <= ctx.replies@.len(),
                self@.check_from(ctx.model@, ctx.tick, ctx.replies@, i as int) == old(
                    self,
                )@.check_from(ctx.model@, ctx.tick, ctx.replies@, old(self)@.verified as int),
            decreases ctx.replies@.len() - i,
        {
            let ghost before = self@;
            match &ctx.replies[i] {
                Reply::Registered { client_id, session, .. } => {
                    let (client_id, session) = (*client_id, *session);
                    if !has_pair(&model.sessions, (client_id, session)) {
                        return Err(Violation::UnknownSession { tick, client_id, session });
                    }
                },
                Reply::Executed { client_id, session, request_number, result, .. } => {
                    let (client_id, session, request_number) = (
                        *client_id,
                        *session,
                        *request_number,
                    );
                    let result = *result;
                    let key = (client_id, session, request_number);
                    match model.result(key) {
                        None => {
                            return Err(
                                Violation::NotExecuted { tick, client_id, session, request_number },
                            );
                        },
                        Some(expected) => {
                            if result != expected {
                                return Err(
                                    Violation::WrongResult {
                                        tick,
                                        client_id,
                                        session,
                                        request_number,
                                        result,
                                        expected,
                                    },
                                );
                            }
                        },
                    }
                    self.replied.push(key);
                    assert(self@ =~= (RepliedView {
                        replied: before.replied.push(key),
                        ..before
                    }));
                },
                Reply::Evicted { client_id, session, .. } => {
                    let (client_id, session) = (*client_id, *session);
                    if !has_pair(&model.evicted, (client_id, session)) {
                        return Err(Violation::NotEvicted { tick, client_id, session });
                    }
                },
                Reply::Queried { .. } => {},
            }
            i += 1;
        }
        self.verified = ctx.replies.len();
        Ok(())
    }

    /// Called once at the end of the run. The request named as unanswered is
    /// the first in order.
    pub fn finalize(&mut self, ctx: &SimContext) -> (result: Result<(), Violation>)
        ensures
            final(self)@ == old(self)@,
            match result {
                Ok(()) => forall|key: RequestKey| !#[trigger] old(self)@.unanswered(ctx.model@, key),
                Err(violation) => exists|key: RequestKey|
                    {
                        &&& #[trigger] old(self)@.unanswered(ctx.model@, key)
                        &&& violation == Violation::NoReply {
                            client_id: key.0,
                            session: key.1,
                            request_number: key.2,
                        }
                        &&& forall|other: RequestKey| #[trigger]
                            old(self)@.unanswered(ctx.model@, other) ==> key_le(key, other)
                    },
            },
    {
        let mut first: Option<RequestKey> = None;
        let mut i: usize = 0;
        while i < ctx.model.results.len()
            invariant
                *self == *old(self),
                i <= ctx.model.results@.len(),
                first matches Some(key) ==> self@.unanswered(ctx.model@, key),
                forall|j: int|
                    0 <= j < i && self@.unanswered(
                        ctx.model@,
                        (#[trigger] ctx.model.results@[j]).0,
                    ) ==> first is Some && key_le(first->0, ctx.model.results@[j].0),
            decreases ctx.model.results@.len() - i,
        {
            let (client_id, session, request_number) = ctx.model.results[i].0;
            let key = (client_id, session, request_number);
            proof {
                assert(ctx.model@.results[i as int].0 == key);
                lemma_result_of(ctx.model@.results, key);
            }
            if !self.has_reply(key) && !has_pair(&ctx.model.evicted, (client_id, session)) {
                assert(self@.unanswered(ctx.model@, key));
                first = match first {
                    Some(least) => if key.0 < least.0 || (key.0 == least.0 && (key.1 < least.1 || (
                    key.1 == least.1 && key.2 < least.2))) {
                        Some(key)
                    } else {
                        Some(least)
                    },
                    None => Some(key),
                };
            }
            i += 1;
        }
        proof {
            assert forall|key: RequestKey| #[trigger]
                self@.unanswered(ctx.model@, key) implies first is Some && key_le(first->0, key) by {
                lemma_result_of(ctx.model@.results, key);
                let j = choose|j: int|
                    0 <= j < ctx.model@.results.len() && (#[trigger] ctx.model@.results[j]).0
                        == key;
                assert(ctx.model.results@[j].0 == key);
            }
        }
        match first {
            Some((client_id, session, request_number)) => {
                assert(old(self)@.unanswered(ctx.model@, (client_id, session, request_number)));
                Err(Violation::NoReply { client_id, session, request_number })
            },
            None => Ok(()),
        }
    }

    /// Whether a request has received a reply.
    fn has_reply(&self, key: RequestKey) -> (has: bool)
        ensures
            has == self@.replied.contains(key),
    {
        let mut i: usize = 0;
        while i < self.replied.len()
            invariant
                i <= self.replied@.len(),
                forall|j: int| 0 <= j < i ==> #[trigger] self.replied@[j] != key,
            decreases self.replied@.len() - i,
        {
            let other = self.replied[i];
            if other.0 == key.0 && other.1 == key.1 && other.2 == key.2 {
                assert(self@.replied[i as int] == key);
                return true;
            }
            i += 1;
        }
        false
    }
}

/// Every query read a state in the committed history no earlier than what
/// was completed before the query was submitted, every request and the
/// state every query read, nor than every earlier request of its own
/// client, and no later than what has executed.
#[derive(Debug)]
pub struct LinearizableQueries {
    /// Answers already checked.
    pub(crate) verified: usize,
}

impl View for LinearizableQueries {
    type V = usize;

    open(crate) spec fn view(&self) -> usize {
        self.verified
    }
}

/// Whether the state that a query read is one it can have read, once
/// `executed` requests have executed.
pub open spec fn linearizable(answer: Answer, executed: i64) -> bool {
    answer.floor <= answer.result && answer.own <= answer.result && answer.result <= executed
}

/// The index of the first answer, from index `from` on, that is not.
pub open spec fn first_stale(answers: Seq<Answer>, executed: i64, from: int) -> Option<int>
    decreases answers.len() - from,
{
    if from >= answers.len() {
        None
    } else if !linearizable(answers[from], executed) {
        Some(from)
    } else {
        first_stale(answers, executed, from + 1)
    }
}

impl Default for LinearizableQueries {
    fn default() -> (property: Self)
        ensures
            property@ == 0,
    {
        LinearizableQueries { verified: 0 }
    }
}

impl LinearizableQueries {
    pub fn name(&self) -> (name: &'static str)
        ensures
            name@ == "linearizable-queries"@,
    {
        "linearizable-queries"
    }

    /// Called after every tick.
    pub fn check(&mut self, ctx: &SimContext) -> (result: Result<(), Violation>)
        requires
            old(self)@ <= ctx.answers@.len(),
        ensures
            ({
                let executed = ctx.model@.executed.len() as usize as i64;
                match first_stale(ctx.answers@, executed, old(self)@ as int) {
                    None => result is Ok && final(self)@ == ctx.answers@.len(),
                    Some(index) => {
                        let answer = ctx.answers@[index];
                        &&& final(self)@ == old(self)@
                        &&& result == Err::<(), Violation>(
                            Violation::StaleQuery {
                                tick: answer.tick,
                                client_id: answer.client_id,
                                query_number: answer.query_number,
                                result: answer.result,
                                executed,
                            },
                        )
                    },
                }
            }),
    {
        let executed = ctx.model.executed.len() as i64;
        let mut i = self.verified;
        while i < ctx.answers.len()
            invariant
                *self == *old(self),
                i <= ctx.answers@.len(),
                executed == ctx.model@.executed.len() as usize as i64,
                first_stale(ctx.answers@, executed, i as int) == first_stale(
                    ctx.answers@,
                    executed,
                    old(self)@ as int,
                ),
            decreases ctx.answers@.len() - i,
        {
            let answer = ctx.answers[i];
            if answer.result < answer.floor || answer.result < answer.own || answer.result
                > executed {
                return Err(
                    Violation::StaleQuery {
                        tick: answer.tick,
                        client_id: answer.client_id,
                        query_number: answer.query_number,
                        result: answer.result,
                        executed,
                    },
                );
            }
            i += 1;
        }
        self.verified = ctx.answers.len();
        Ok(())
    }
}

/// Once the network is drained, every core replica has committed the same
/// number of ops, all of its log, holds the committed entries, and holds
/// the same state machine value.
#[derive(Debug)]
pub struct Convergence;

/// The index of the first entry of `log`, from index `from` on, that is not
/// what committed.
pub open spec fn first_other(
    log: Seq<LogEntry<Op>>,
    log_start: int,
    committed: Seq<LogEntry<Op>>,
    from: int,
) -> Option<int>
    decreases log.len() - from,
{
    if from >= log.len() {
        None
    } else if log_start + from >= committed.len() || committed[log_start + from] != log[from] {
        Some(from)
    } else {
        first_other(log, log_start, committed, from + 1)
    }
}

impl<'a> SimContext<'a> {
    /// What keeps replica `id` from having converged with the first of the
    /// core, if anything does.
    pub open spec fn diverged(self, id: int) -> Option<Violation> {
        let replica = self.replica(id);
        let reference = self.replica(self.core@[0] as int);
        let replica_id = id as usize;
        let other = first_other(
            replica.log,
            replica.log_start as int,
            self.committed@,
            0,
        );
        if replica.op_number() != reference.op_number() {
            Some(
                Violation::DifferentOpNumber {
                    replica_id,
                    op_number: replica.op_number() as usize,
                    reference: reference.op_number() as usize,
                },
            )
        } else if replica.commit_number != replica.op_number() {
            Some(
                Violation::Uncommitted {
                    replica_id,
                    commit_number: replica.commit_number,
                    op_number: replica.op_number() as usize,
                },
            )
        } else if other is Some {
            Some(
                Violation::DifferentEntry {
                    replica_id,
                    op_number: (replica.log_start + other->0 + 1) as usize,
                },
            )
        } else if replica.machine.value != reference.machine.value {
            Some(
                Violation::DifferentValue {
                    replica_id,
                    value: replica.machine.value,
                    reference: reference.machine.value,
                },
            )
        } else {
            None
        }
    }
}

impl Convergence {
    pub fn name(&self) -> (name: &'static str)
        ensures
            name@ == "convergence"@,
    {
        "convergence"
    }

    /// Called once at the end of the run, after the network has been drained
    /// with faults disabled.
    pub fn finalize(&mut self, ctx: &SimContext) -> (result: Result<(), Violation>)
        requires
            ctx.wf(),
            ctx.core@.len() > 0,
            forall|i: int| 0 <= i < ctx.core@.len() ==> #[trigger] ctx.core@[i] < ctx.size(),
        ensures
            match result {
                Ok(()) => forall|i: int|
                    0 <= i < ctx.core@.len() ==> ctx.diverged(
                        (#[trigger] ctx.core@[i]) as int,
                    ) is None,
                Err(violation) => exists|i: int|
                    {
                        &&& 0 <= i < ctx.core@.len()
                        &&& ctx.diverged((#[trigger] ctx.core@[i]) as int) == Some(violation)
                        &&& forall|j: int|
                            0 <= j < i ==> ctx.diverged((#[trigger] ctx.core@[j]) as int) is None
                    },
            },
    {
        let mut i: usize = 0;
        while i < ctx.core.len()
            invariant
                ctx.wf(),
                ctx.core@.len() > 0,
                forall|j: int| 0 <= j < ctx.core@.len() ==> #[trigger] ctx.core@[j] < ctx.size(),
                i <= ctx.core@.len(),
                forall|j: int|
                    0 <= j < i ==> ctx.diverged((#[trigger] ctx.core@[j]) as int) is None,
            decreases ctx.core@.len() - i,
        {
            if let Some(violation) = divergence(ctx, ctx.core[i]) {
                assert(ctx.diverged(ctx.core@[i as int] as int) == Some(violation));
                return Err(violation);
            }
            i += 1;
        }
        Ok(())
    }
}

/// What keeps replica `id` from having converged with the first of the core,
/// if anything does.
fn divergence(ctx: &SimContext, id: usize) -> (violation: Option<Violation>)
    requires
        ctx.wf(),
        id < ctx.size(),
        ctx.core@.len() > 0,
        ctx.core@[0] < ctx.size(),
    ensures
        violation == ctx.diverged(id as int),
{
    let replica_id = id;
    let first = &ctx.replicas[ctx.core[0]];
    let replica = &ctx.replicas[id];
    assert(replica@ == ctx.replica(id as int));
    assert(first@ == ctx.replica(ctx.core@[0] as int));
    let reference = first.op_number();
    let op_number = replica.op_number();
    if op_number != reference {
        return Some(Violation::DifferentOpNumber { replica_id, op_number, reference });
    }
    let commit_number = replica.commit_number();
    if commit_number != op_number {
        return Some(Violation::Uncommitted { replica_id, commit_number, op_number });
    }
    let log_start = replica.log_start();
    let log = replica.log();
    let mut i: usize = 0;
    while i < log.len()
        invariant
            log@ == replica@.log,
            log_start == replica@.log_start,
            i <= log@.len(),
            log_start + log@.len() < usize::MAX,
            first_other(log@, log_start as int, ctx.committed@, i as int) == first_other(
                log@,
                log_start as int,
                ctx.committed@,
                0,
            ),
            replica@ == ctx.replica(id as int),
            replica_id == id,
            replica@.op_number() == ctx.replica(ctx.core@[0] as int).op_number(),
            replica@.commit_number == replica@.op_number(),
        decreases log@.len() - i,
    {
        if log_start + i >= ctx.committed.len() || ctx.committed[log_start + i] != log[i] {
            return Some(Violation::DifferentEntry { replica_id, op_number: log_start + i + 1 });
        }
        i += 1;
    }
    let value = replica.state_machine().value;
    let reference = first.state_machine().value;
    if value != reference {
        return Some(Violation::DifferentValue { replica_id, value, reference });
    }
    None
}

} // verus!
