use vstd::prelude::*;
use crate::duplicate::exact_clone;
use crate::ids::{ClientID, CommitID, OpNumber, QueryNumber, ReplicaID, RequestNumber, ViewNumber};
use crate::log::{LogEntry, LogSegment, SegmentView};
use crate::state_machine::StateMachine;

verus! {

/// The primary's reply to a client.
#[derive(Debug, PartialEq, Eq)]
pub enum Reply<Output> {
    /// The client's registration executed, and its session is `session`:
    /// that of the registration, or the one the client had already.
    Registered { view_number: ViewNumber, client_id: ClientID, session: OpNumber },
    /// The request executed, with `result`.
    Executed {
        view_number: ViewNumber,
        client_id: ClientID,
        session: OpNumber,
        request_number: RequestNumber,
        result: Output,
    },
    /// The session is no longer in the client table. Each of the client's
    /// requests without a reply, this one included, may or may not have
    /// executed.
    Evicted { view_number: ViewNumber, client_id: ClientID, session: OpNumber },
    /// The query executed, with `result`.
    Queried {
        view_number: ViewNumber,
        client_id: ClientID,
        query_number: QueryNumber,
        result: Output,
    },
}

impl<Output> Reply<Output> {
    /// The client the reply is for.
    pub open spec fn client(self) -> ClientID {
        match self {
            Reply::Registered { client_id, .. } => client_id,
            Reply::Executed { client_id, .. } => client_id,
            Reply::Evicted { client_id, .. } => client_id,
            Reply::Queried { client_id, .. } => client_id,
        }
    }

    /// The view the primary was in.
    pub open spec fn view_of(self) -> ViewNumber {
        match self {
            Reply::Registered { view_number, .. } => view_number,
            Reply::Executed { view_number, .. } => view_number,
            Reply::Evicted { view_number, .. } => view_number,
            Reply::Queried { view_number, .. } => view_number,
        }
    }

    pub fn client_id(&self) -> (client_id: ClientID)
        ensures
            client_id == self.client(),
    {
        match self {
            Reply::Registered { client_id, .. } => *client_id,
            Reply::Executed { client_id, .. } => *client_id,
            Reply::Evicted { client_id, .. } => *client_id,
            Reply::Queried { client_id, .. } => *client_id,
        }
    }

    pub fn view_number(&self) -> (view_number: ViewNumber)
        ensures
            view_number == self.view_of(),
    {
        match self {
            Reply::Registered { view_number, .. } => *view_number,
            Reply::Executed { view_number, .. } => *view_number,
            Reply::Evicted { view_number, .. } => *view_number,
            Reply::Queried { view_number, .. } => *view_number,
        }
    }
}

impl<Output: Clone> Clone for Reply<Output> {
    fn clone(&self) -> (copy: Reply<Output>)
        ensures
            exact_clone::<Output>() ==> copy == *self,
    {
        match self {
            Reply::Registered { view_number, client_id, session } => Reply::Registered {
                view_number: *view_number,
                client_id: *client_id,
                session: *session,
            },
            Reply::Executed { view_number, client_id, session, request_number, result } => {
                let result_copy = result.clone();
                assert(cloned(*result, result_copy));
                Reply::Executed {
                    view_number: *view_number,
                    client_id: *client_id,
                    session: *session,
                    request_number: *request_number,
                    result: result_copy,
                }
            },
            Reply::Evicted { view_number, client_id, session } => Reply::Evicted {
                view_number: *view_number,
                client_id: *client_id,
                session: *session,
            },
            Reply::Queried { view_number, client_id, query_number, result } => {
                let result_copy = result.clone();
                assert(cloned(*result, result_copy));
                Reply::Queried {
                    view_number: *view_number,
                    client_id: *client_id,
                    query_number: *query_number,
                    result: result_copy,
                }
            },
        }
    }
}

/// The primary's state in a `RecoveryResponse`: its whole log, with a
/// checkpoint standing in for what it has compacted.
#[derive(Debug, PartialEq, Eq)]
pub struct RecoveryState<Op> {
    pub segment: LogSegment<Op>,
    pub commit_number: CommitID,
}

/// What a primary's state in a `RecoveryResponse` holds.
#[verifier::ext_equal]
pub struct RecoveryView<Op> {
    pub segment: SegmentView<Op>,
    pub commit_number: CommitID,
}

impl<Op> View for RecoveryState<Op> {
    type V = RecoveryView<Op>;

    open spec fn view(&self) -> RecoveryView<Op> {
        RecoveryView { segment: self.segment@, commit_number: self.commit_number }
    }
}

impl<Op: Clone> Clone for RecoveryState<Op> {
    fn clone(&self) -> (copy: RecoveryState<Op>)
        ensures
            exact_clone::<Op>() ==> copy@ == self@,
    {
        RecoveryState { segment: self.segment.clone(), commit_number: self.commit_number }
    }
}

/// What an optional state holds.
pub open spec fn state_view<Op>(state: Option<RecoveryState<Op>>) -> Option<RecoveryView<Op>> {
    match state {
        Some(state) => Some(state@),
        None => None,
    }
}

/// A protocol message between replicas, or from a client to a replica.
///
/// Replies from the primary to a client are a [`Reply`], not a message.
/// Every message from one replica to another carries the sender's view
/// number, and a replica only acts on normal-case messages whose view
/// matches its own: a sender that is behind is ignored, one that is ahead
/// makes the replica catch up first. The variants follow the parts of the
/// protocol: normal operation, state transfer, view changes, recovery.
///
/// The type is generic over the state machine's input, query, and
/// checkpoint chunk; [`MessageFor`] names it from the state machine.
#[derive(Debug, PartialEq, Eq)]
pub enum Message<Op, Query, Chunk> {
    /// A client asks the primary for a session. Backups ignore it. A client
    /// that has one is answered with it.
    Register {
        client_id: ClientID,
    },
    /// A client asks the primary to execute `op` in its session. Backups
    /// ignore it. The primary appends only the session's next request
    /// number, and answers a re-send of an executed request after
    /// `answered` from the client table.
    Request {
        client_id: ClientID,
        session: OpNumber,
        request_number: RequestNumber,
        /// See [`LogEntry::Request`].
        answered: RequestNumber,
        op: Op,
    },
    /// A client asks the primary to answer `query`. Backups ignore it. The
    /// primary answers it once a quorum has confirmed its view since the
    /// query arrived, from a state that holds every op that may have
    /// completed by then.
    Query {
        client_id: ClientID,
        query_number: QueryNumber,
        query: Query,
    },
    /// The primary asks the backups whether they are still in its view, to
    /// answer the queries that arrived before `round` started.
    ConfirmView {
        view_number: ViewNumber,
        round: u64,
    },
    /// A backup tells the primary that it was in the primary's view when
    /// `round` reached it: it had not moved on to a later view.
    ConfirmViewOk {
        view_number: ViewNumber,
        round: u64,
        replica_id: ReplicaID,
    },
    /// The primary replicates the entry it appended as `op_number` to the
    /// backups, and tells them how far it has committed so they can commit
    /// too. Backups accept it only in order: a gap means state transfer
    /// first. A `Prepare` for an op a backup already has is a re-send, and
    /// is acknowledged again.
    Prepare {
        view_number: ViewNumber,
        op_number: OpNumber,
        entry: LogEntry<Op>,
        /// The primary's commit number.
        commit_number: CommitID,
    },
    /// A backup tells the primary that it holds every op up to `op_number`.
    /// With a quorum of these for an op, counting itself and each backup
    /// once, the primary commits that op and everything before it.
    PrepareOk {
        view_number: ViewNumber,
        op_number: OpNumber,
        /// The backup sending the acknowledgement.
        replica_id: ReplicaID,
    },
    /// The primary's heartbeat while there are no requests: it carries the
    /// commit number so backups can commit, and its absence is how backups
    /// notice the primary is gone.
    Commit {
        view_number: ViewNumber,
        commit_number: CommitID,
    },
    /// A replica that is missing log entries asks for the entries after
    /// `op_number`. Within a view a backup asks the primary for everything
    /// after its own log; a replica catching up with a newer view asks its
    /// primary from its commit number, since its uncommitted suffix may not
    /// have survived the view change; and the primary of a view being
    /// started asks the replica whose log it chose for what that replica
    /// has compacted.
    GetState {
        replica_id: ReplicaID,
        view_number: ViewNumber,
        op_number: OpNumber,
    },
    /// The answer to `GetState`: the log after the requested op number, or
    /// a checkpoint and the log after it when the requested entries have
    /// been compacted. Both the first and the last op number follow from the
    /// segment, so the receiver can tell a late reply to an earlier request
    /// from the one it is waiting for.
    NewState {
        /// The sender, which keeps the checkpoint the segment follows, if
        /// any.
        replica_id: ReplicaID,
        view_number: ViewNumber,
        segment: LogSegment<Op>,
        /// The sender's commit number.
        commit_number: CommitID,
    },
    /// Replica `replica_id` asks the replica that announced a checkpoint
    /// at `op_number` for its chunk `index`.
    GetChunk {
        replica_id: ReplicaID,
        op_number: OpNumber,
        index: usize,
    },
    /// Replica `replica_id`, which keeps the checkpoint at `op_number`,
    /// answers `GetChunk` with chunk `index`, and whether it is the last.
    NewChunk {
        replica_id: ReplicaID,
        op_number: OpNumber,
        index: usize,
        chunk: Chunk,
        last: bool,
    },
    /// A replica that suspects the primary has failed asks the others to
    /// move to `view_number`. A replica that receives one for a view ahead
    /// of its own adopts that view and sends its own.
    StartViewChange {
        view_number: ViewNumber,
        replica_id: ReplicaID,
    },
    /// A replica that has `StartViewChange` for `view_number` from f other
    /// replicas sends its state to the new view's primary. With a quorum of
    /// these the primary starts the view from the log with the latest
    /// `last_normal_view`, the longest if several.
    DoViewChange {
        view_number: ViewNumber,
        replica_id: ReplicaID,
        /// The latest view in which the sender's status was normal.
        last_normal_view: ViewNumber,
        /// The sender's log, after what it has compacted.
        segment: LogSegment<Op>,
        commit_number: CommitID,
    },
    /// The new primary starts `view_number` with the log it chose. Backups
    /// replace their log with it, commit up to `commit_number`, and
    /// acknowledge the rest. A backup that has committed less than the
    /// segment starts after fetches the primary's checkpoint first.
    StartView {
        view_number: ViewNumber,
        /// The primary's log, after what it has compacted.
        segment: LogSegment<Op>,
        commit_number: CommitID,
    },
    /// A replica back from a crash with no memory asks the others for the
    /// current state. The nonce tells this recovery's responses apart from
    /// an earlier one's.
    Recovery {
        replica_id: ReplicaID,
        nonce: u64,
        /// The view the replica persisted before the crash. A replica
        /// behind it takes this as the request for that view change, which
        /// the crashed replica may have started and forgotten.
        view_number: ViewNumber,
    },
    /// A replica in normal status answers `Recovery` with its view; the
    /// primary of that view also sends its state. The recovering replica
    /// needs a quorum of these, including one from the primary of the
    /// latest view among them, and that view must be at least the one it
    /// persisted.
    RecoveryResponse {
        view_number: ViewNumber,
        /// The nonce from the `Recovery` this answers.
        nonce: u64,
        replica_id: ReplicaID,
        /// The sender's state, if it is the primary.
        state: Option<RecoveryState<Op>>,
    },
}

/// [`Message`] for a given state machine.
pub type MessageFor<SM> = Message<
    <SM as StateMachine>::Input,
    <SM as StateMachine>::Query,
    <SM as StateMachine>::Chunk,
>;

/// What a message says.
#[verifier::ext_equal]
pub enum MessageView<Op, Query, Chunk> {
    Register {
        client_id: ClientID,
    },
    Request {
        client_id: ClientID,
        session: OpNumber,
        request_number: RequestNumber,
        answered: RequestNumber,
        op: Op,
    },
    Query {
        client_id: ClientID,
        query_number: QueryNumber,
        query: Query,
    },
    ConfirmView {
        view_number: ViewNumber,
        round: u64,
    },
    ConfirmViewOk {
        view_number: ViewNumber,
        round: u64,
        replica_id: ReplicaID,
    },
    Prepare {
        view_number: ViewNumber,
        op_number: OpNumber,
        entry: LogEntry<Op>,
        commit_number: CommitID,
    },
    PrepareOk {
        view_number: ViewNumber,
        op_number: OpNumber,
        replica_id: ReplicaID,
    },
    Commit {
        view_number: ViewNumber,
        commit_number: CommitID,
    },
    GetState {
        replica_id: ReplicaID,
        view_number: ViewNumber,
        op_number: OpNumber,
    },
    NewState {
        replica_id: ReplicaID,
        view_number: ViewNumber,
        segment: SegmentView<Op>,
        commit_number: CommitID,
    },
    GetChunk {
        replica_id: ReplicaID,
        op_number: OpNumber,
        index: usize,
    },
    NewChunk {
        replica_id: ReplicaID,
        op_number: OpNumber,
        index: usize,
        chunk: Chunk,
        last: bool,
    },
    StartViewChange {
        view_number: ViewNumber,
        replica_id: ReplicaID,
    },
    DoViewChange {
        view_number: ViewNumber,
        replica_id: ReplicaID,
        last_normal_view: ViewNumber,
        segment: SegmentView<Op>,
        commit_number: CommitID,
    },
    StartView {
        view_number: ViewNumber,
        segment: SegmentView<Op>,
        commit_number: CommitID,
    },
    Recovery {
        replica_id: ReplicaID,
        nonce: u64,
        view_number: ViewNumber,
    },
    RecoveryResponse {
        view_number: ViewNumber,
        nonce: u64,
        replica_id: ReplicaID,
        state: Option<RecoveryView<Op>>,
    },
}

/// [`MessageView`] for a given state machine.
pub type MessageViewFor<SM> = MessageView<
    <SM as StateMachine>::Input,
    <SM as StateMachine>::Query,
    <SM as StateMachine>::Chunk,
>;

impl<Op, Query, Chunk> View for Message<Op, Query, Chunk> {
    type V = MessageView<Op, Query, Chunk>;

    open spec fn view(&self) -> MessageView<Op, Query, Chunk> {
        match *self {
            Message::Register { client_id } => MessageView::Register {
                client_id,
            },
            Message::Request { client_id, session, request_number, answered, op } => MessageView::Request {
                client_id,
                session,
                request_number,
                answered,
                op,
            },
            Message::Query { client_id, query_number, query } => MessageView::Query {
                client_id,
                query_number,
                query,
            },
            Message::ConfirmView { view_number, round } => MessageView::ConfirmView {
                view_number,
                round,
            },
            Message::ConfirmViewOk { view_number, round, replica_id } => MessageView::ConfirmViewOk {
                view_number,
                round,
                replica_id,
            },
            Message::Prepare { view_number, op_number, entry, commit_number } => MessageView::Prepare {
                view_number,
                op_number,
                entry,
                commit_number,
            },
            Message::PrepareOk { view_number, op_number, replica_id } => MessageView::PrepareOk {
                view_number,
                op_number,
                replica_id,
            },
            Message::Commit { view_number, commit_number } => MessageView::Commit {
                view_number,
                commit_number,
            },
            Message::GetState { replica_id, view_number, op_number } => MessageView::GetState {
                replica_id,
                view_number,
                op_number,
            },
            Message::NewState { replica_id, view_number, segment, commit_number } => MessageView::NewState {
                replica_id,
                view_number,
                segment: segment@,
                commit_number,
            },
            Message::GetChunk { replica_id, op_number, index } => MessageView::GetChunk {
                replica_id,
                op_number,
                index,
            },
            Message::NewChunk { replica_id, op_number, index, chunk, last } => MessageView::NewChunk {
                replica_id,
                op_number,
                index,
                chunk,
                last,
            },
            Message::StartViewChange { view_number, replica_id } => MessageView::StartViewChange {
                view_number,
                replica_id,
            },
            Message::DoViewChange { view_number, replica_id, last_normal_view, segment, commit_number } => MessageView::DoViewChange {
                view_number,
                replica_id,
                last_normal_view,
                segment: segment@,
                commit_number,
            },
            Message::StartView { view_number, segment, commit_number } => MessageView::StartView {
                view_number,
                segment: segment@,
                commit_number,
            },
            Message::Recovery { replica_id, nonce, view_number } => MessageView::Recovery {
                replica_id,
                nonce,
                view_number,
            },
            Message::RecoveryResponse { view_number, nonce, replica_id, state } => MessageView::RecoveryResponse {
                view_number,
                nonce,
                replica_id,
                state: state_view(state),
            },
        }
    }
}

impl<Op, Query, Chunk> MessageView<Op, Query, Chunk> {
    /// The message with what `f` makes of its chunk, if it carries one.
    pub open spec fn map_chunk<C>(self, f: spec_fn(Chunk) -> C) -> MessageView<Op, Query, C> {
        match self {
            MessageView::Register { client_id } => MessageView::Register {
                client_id,
            },
            MessageView::Request { client_id, session, request_number, answered, op } => MessageView::Request {
                client_id,
                session,
                request_number,
                answered,
                op,
            },
            MessageView::Query { client_id, query_number, query } => MessageView::Query {
                client_id,
                query_number,
                query,
            },
            MessageView::ConfirmView { view_number, round } => MessageView::ConfirmView {
                view_number,
                round,
            },
            MessageView::ConfirmViewOk { view_number, round, replica_id } => MessageView::ConfirmViewOk {
                view_number,
                round,
                replica_id,
            },
            MessageView::Prepare { view_number, op_number, entry, commit_number } => MessageView::Prepare {
                view_number,
                op_number,
                entry,
                commit_number,
            },
            MessageView::PrepareOk { view_number, op_number, replica_id } => MessageView::PrepareOk {
                view_number,
                op_number,
                replica_id,
            },
            MessageView::Commit { view_number, commit_number } => MessageView::Commit {
                view_number,
                commit_number,
            },
            MessageView::GetState { replica_id, view_number, op_number } => MessageView::GetState {
                replica_id,
                view_number,
                op_number,
            },
            MessageView::NewState { replica_id, view_number, segment, commit_number } => MessageView::NewState {
                replica_id,
                view_number,
                segment,
                commit_number,
            },
            MessageView::GetChunk { replica_id, op_number, index } => MessageView::GetChunk {
                replica_id,
                op_number,
                index,
            },
            MessageView::NewChunk { replica_id, op_number, index, chunk, last } =>
                MessageView::NewChunk { replica_id, op_number, index, chunk: f(chunk), last },
            MessageView::StartViewChange { view_number, replica_id } => MessageView::StartViewChange {
                view_number,
                replica_id,
            },
            MessageView::DoViewChange { view_number, replica_id, last_normal_view, segment, commit_number } => MessageView::DoViewChange {
                view_number,
                replica_id,
                last_normal_view,
                segment,
                commit_number,
            },
            MessageView::StartView { view_number, segment, commit_number } => MessageView::StartView {
                view_number,
                segment,
                commit_number,
            },
            MessageView::Recovery { replica_id, nonce, view_number } => MessageView::Recovery {
                replica_id,
                nonce,
                view_number,
            },
            MessageView::RecoveryResponse { view_number, nonce, replica_id, state } => MessageView::RecoveryResponse {
                view_number,
                nonce,
                replica_id,
                state,
            },
        }
    }

    /// Whether the message promises nothing about its sender's durable
    /// state, so that it may leave before the sender's write: it asks, it
    /// hands entries over, or it names what is committed anyway.
    pub open spec fn early(self) -> bool {
        ||| self is Prepare
        ||| self is Commit
        ||| self is ConfirmView
        ||| self is ConfirmViewOk
        ||| self is GetState
        ||| self is NewState
        ||| self is GetChunk
        ||| self is NewChunk
    }
}

impl<Op, Query, Chunk> Message<Op, Query, Chunk> {
    /// Whether the message may leave before its sender's write. A `Prepare`
    /// or `NewState` asks the receiver to hold entries, and it is the
    /// receiver's acknowledgement that must wait; a `Commit` names ops that
    /// are committed wherever the sender goes, and a `NewChunk` a checkpoint
    /// of ops as committed; a `GetState`, `GetChunk` or `ConfirmView` asks; a
    /// `ConfirmViewOk` says its sender has announced no later view, which it
    /// does only once a write holds it. The rest carry the sender's view, log
    /// or acknowledgement, and wait.
    pub(crate) fn early(&self) -> (early: bool)
        ensures
            early == self@.early(),
    {
        match self {
            Message::Prepare { .. } => true,
            Message::Commit { .. } => true,
            Message::ConfirmView { .. } => true,
            Message::ConfirmViewOk { .. } => true,
            Message::GetState { .. } => true,
            Message::NewState { .. } => true,
            Message::GetChunk { .. } => true,
            Message::NewChunk { .. } => true,
            _ => false,
        }
    }
}

impl<Op: Clone, Query: Clone, Chunk: Clone> Clone for Message<Op, Query, Chunk> {
    fn clone(&self) -> (copy: Message<Op, Query, Chunk>)
        ensures
            exact_clone::<Op>() && (self is Query ==> exact_clone::<Query>()) && !(self is NewChunk)
                ==> copy@ == self@,
            self is NewChunk ==> {
                &&& cloned(self->NewChunk_chunk, copy->NewChunk_chunk)
                &&& copy@ == (MessageView::<Op, Query, Chunk>::NewChunk {
                    replica_id: self->NewChunk_replica_id,
                    op_number: self->NewChunk_op_number,
                    index: self->NewChunk_index,
                    chunk: copy->NewChunk_chunk,
                    last: self->NewChunk_last,
                })
            },
    {
        match self {
            Message::Register { client_id } => Message::Register {
                client_id: *client_id,
            },
            Message::Request { client_id, session, request_number, answered, op } => {
                let op_copy = op.clone();
                assert(cloned(*op, op_copy));
                Message::Request {
                    client_id: *client_id,
                    session: *session,
                    request_number: *request_number,
                    answered: *answered,
                    op: op_copy,
                }
            },
            Message::Query { client_id, query_number, query } => {
                let query_copy = query.clone();
                assert(cloned(*query, query_copy));
                Message::Query {
                    client_id: *client_id,
                    query_number: *query_number,
                    query: query_copy,
                }
            },
            Message::ConfirmView { view_number, round } => Message::ConfirmView {
                view_number: *view_number,
                round: *round,
            },
            Message::ConfirmViewOk { view_number, round, replica_id } => Message::ConfirmViewOk {
                view_number: *view_number,
                round: *round,
                replica_id: *replica_id,
            },
            Message::Prepare { view_number, op_number, entry, commit_number } => Message::Prepare {
                view_number: *view_number,
                op_number: *op_number,
                entry: entry.clone(),
                commit_number: *commit_number,
            },
            Message::PrepareOk { view_number, op_number, replica_id } => Message::PrepareOk {
                view_number: *view_number,
                op_number: *op_number,
                replica_id: *replica_id,
            },
            Message::Commit { view_number, commit_number } => Message::Commit {
                view_number: *view_number,
                commit_number: *commit_number,
            },
            Message::GetState { replica_id, view_number, op_number } => Message::GetState {
                replica_id: *replica_id,
                view_number: *view_number,
                op_number: *op_number,
            },
            Message::NewState { replica_id, view_number, segment, commit_number } => Message::NewState {
                replica_id: *replica_id,
                view_number: *view_number,
                segment: segment.clone(),
                commit_number: *commit_number,
            },
            Message::GetChunk { replica_id, op_number, index } => Message::GetChunk {
                replica_id: *replica_id,
                op_number: *op_number,
                index: *index,
            },
            Message::NewChunk { replica_id, op_number, index, chunk, last } => {
                let chunk_copy = chunk.clone();
                assert(cloned(*chunk, chunk_copy));
                Message::NewChunk {
                    replica_id: *replica_id,
                    op_number: *op_number,
                    index: *index,
                    chunk: chunk_copy,
                    last: *last,
                }
            },
            Message::StartViewChange { view_number, replica_id } => Message::StartViewChange {
                view_number: *view_number,
                replica_id: *replica_id,
            },
            Message::DoViewChange { view_number, replica_id, last_normal_view, segment, commit_number } => Message::DoViewChange {
                view_number: *view_number,
                replica_id: *replica_id,
                last_normal_view: *last_normal_view,
                segment: segment.clone(),
                commit_number: *commit_number,
            },
            Message::StartView { view_number, segment, commit_number } => Message::StartView {
                view_number: *view_number,
                segment: segment.clone(),
                commit_number: *commit_number,
            },
            Message::Recovery { replica_id, nonce, view_number } => Message::Recovery {
                replica_id: *replica_id,
                nonce: *nonce,
                view_number: *view_number,
            },
            Message::RecoveryResponse { view_number, nonce, replica_id, state } => {
                let state_copy = match state {
                    Some(state) => Some(state.clone()),
                    None => None,
                };
                Message::RecoveryResponse {
                    view_number: *view_number,
                    nonce: *nonce,
                    replica_id: *replica_id,
                    state: state_copy,
                }
            },
        }
    }
}

} // verus!
