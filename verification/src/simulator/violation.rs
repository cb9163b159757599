use vstd::prelude::*;
use crate::ids::{ClientID, OpNumber, QueryNumber, ReplicaID, RequestNumber, ViewNumber};

verus! {

/// The kind of a message.
#[derive(Clone, Copy, Debug, PartialEq, Eq, Structural)]
pub enum MessageKind {
    Register,
    Request,
    Query,
    ConfirmView,
    ConfirmViewOk,
    Prepare,
    PrepareOk,
    Commit,
    GetState,
    NewState,
    GetChunk,
    NewChunk,
    StartViewChange,
    DoViewChange,
    StartView,
    Recovery,
    RecoveryResponse,
}

/// What a property found wrong.
#[allow(inconsistent_fields)]
#[derive(Clone, Copy, Debug, PartialEq, Eq, Structural)]
pub enum Violation {
    /// A replica committed an op that too few disks hold to meet every
    /// quorum.
    NotDurable {
        tick: u64,
        replica_id: ReplicaID,
        op_number: OpNumber,
        copies: usize,
        participants: usize,
        needed: usize,
    },
    /// A replica executed an op that its disk does not hold.
    ExecutedNotDurable { tick: u64, replica_id: ReplicaID, op_number: OpNumber },
    /// A replica sent a message for a view that its disk does not back.
    Unbacked {
        replica_id: ReplicaID,
        kind: MessageKind,
        view_number: ViewNumber,
        disk_view: ViewNumber,
        last_normal_view: ViewNumber,
        op_number: OpNumber,
        recovering: bool,
    },
    /// A replica's op number is not its log start plus its log's length.
    OpNumber { tick: u64, replica_id: ReplicaID, op_number: OpNumber },
    /// A replica's commit number is beyond its op number.
    CommitBeyondLog { tick: u64, replica_id: ReplicaID, commit_number: OpNumber },
    /// A replica compacted its log beyond its commit number.
    CompactedBeyondCommit { tick: u64, replica_id: ReplicaID, log_start: OpNumber },
    /// A replica's commit number went backwards.
    CommitWentBack {
        tick: u64,
        replica_id: ReplicaID,
        before: OpNumber,
        commit_number: OpNumber,
    },
    /// A committed request is not its session's next one.
    RequestOutOfOrder {
        tick: u64,
        op_number: OpNumber,
        client_id: ClientID,
        session: OpNumber,
        request_number: RequestNumber,
        after: RequestNumber,
    },
    /// A replica applied more than it committed.
    AppliedBeyondCommit { tick: u64, replica_id: ReplicaID, applied: OpNumber },
    /// A replica with no write out has not applied what it committed.
    AppliedBehindCommit { tick: u64, replica_id: ReplicaID, applied: OpNumber },
    /// A replica executed another number of requests than the log does.
    ExecutedCount { tick: u64, replica_id: ReplicaID, executed: usize, expected: usize },
    /// A replica executed another request than the log does.
    ExecutedOther { tick: u64, replica_id: ReplicaID, position: usize },
    /// A replica's value is not what the log comes to.
    Value { tick: u64, replica_id: ReplicaID, value: i64, expected: i64 },
    /// A replica's client table is not its state machine's.
    ReplicaTable { tick: u64, replica_id: ReplicaID },
    /// A state machine's client table is not what the log comes to.
    LogTable { tick: u64, replica_id: ReplicaID },
    /// A replica committed another entry than the one recorded.
    CommittedOther { tick: u64, replica_id: ReplicaID, op_number: OpNumber },
    /// An operation committed again.
    CommittedTwice { tick: u64, op_number: OpNumber, id: u64 },
    /// A reply names a session that the log did not give the client.
    UnknownSession { tick: u64, client_id: ClientID, session: OpNumber },
    /// A reply answers a request that has not executed.
    NotExecuted {
        tick: u64,
        client_id: ClientID,
        session: OpNumber,
        request_number: RequestNumber,
    },
    /// A reply has another result than the request.
    WrongResult {
        tick: u64,
        client_id: ClientID,
        session: OpNumber,
        request_number: RequestNumber,
        result: i64,
        expected: i64,
    },
    /// A reply says that a session was evicted that was not.
    NotEvicted { tick: u64, client_id: ClientID, session: OpNumber },
    /// A request that executed got no reply.
    NoReply { client_id: ClientID, session: OpNumber, request_number: RequestNumber },
    /// A query read a state that is too old, or one that nothing executed
    /// comes to.
    StaleQuery {
        tick: u64,
        client_id: ClientID,
        query_number: QueryNumber,
        result: i64,
        executed: i64,
    },
    /// A replica's op number is not that of the others.
    DifferentOpNumber { replica_id: ReplicaID, op_number: OpNumber, reference: OpNumber },
    /// A replica has not committed all of its log.
    Uncommitted { replica_id: ReplicaID, commit_number: OpNumber, op_number: OpNumber },
    /// A replica holds another entry than the one that committed.
    DifferentEntry { replica_id: ReplicaID, op_number: OpNumber },
    /// A replica's value is not that of the others.
    DifferentValue { replica_id: ReplicaID, value: i64, reference: i64 },
}

} // verus!
