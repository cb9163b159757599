use std::collections::VecDeque;
use std::fmt::Debug;
use vstd::prelude::*;
use crate::duplicate::exact_clone;
use crate::ids::{ClientID, OpNumber, RequestNumber};

verus! {

/// What the client table keeps of a session: its latest executed request,
/// the results of the last requests, so that a re-sent one is answered
/// without running it again, and when it last executed an entry, which
/// orders evictions.
#[derive(Debug, PartialEq, Eq)]
pub struct ClientRecord<Output> {
    pub client_id: ClientID,
    /// The op number of the registration that opened the session.
    pub session: OpNumber,
    pub request_number: RequestNumber,
    /// The results of the requests after the latest one's `answered`,
    /// oldest first, the last that of `request_number`: at least one, at
    /// most `Config::in_flight_max`.
    pub replies: VecDeque<Output>,
    /// The op number of the session's latest executed entry.
    pub op_number: OpNumber,
}

/// What a record holds.
#[verifier::ext_equal]
pub struct RecordView<Output> {
    pub client_id: ClientID,
    pub session: OpNumber,
    pub request_number: RequestNumber,
    pub replies: Seq<Output>,
    pub op_number: OpNumber,
}

impl<Output> View for ClientRecord<Output> {
    type V = RecordView<Output>;

    open spec fn view(&self) -> RecordView<Output> {
        RecordView {
            client_id: self.client_id,
            session: self.session,
            request_number: self.request_number,
            replies: self.replies@,
            op_number: self.op_number,
        }
    }
}

/// What an optional record holds.
pub open spec fn record_view<Output>(record: Option<&ClientRecord<Output>>) -> Option<
    RecordView<Output>,
> {
    match record {
        Some(record) => Some(record@),
        None => None,
    }
}

/// What the records of a table hold.
pub open spec fn table_view<Output>(table: Seq<ClientRecord<Output>>) -> Seq<RecordView<Output>> {
    Seq::new(table.len(), |i: int| table[i]@)
}

/// Whether `table` lists `records`, each once.
pub open spec fn lists<Output>(
    table: Seq<RecordView<Output>>,
    records: Map<ClientID, RecordView<Output>>,
) -> bool {
    &&& forall|i: int, j: int|
        0 <= i < j < table.len() ==> (#[trigger] table[i]).client_id != (
        #[trigger] table[j]).client_id
    &&& forall|i: int|
        0 <= i < table.len() ==> records.contains_key((#[trigger] table[i]).client_id)
            && records[table[i].client_id] == table[i]
    &&& forall|client_id: ClientID| #[trigger]
        records.contains_key(client_id) ==> table.contains(records[client_id])
}

/// Whether `records` are a client table as of `op_number`: each is that of
/// its client, and nothing executed later.
pub open spec fn table_as_of<Output>(
    records: Map<ClientID, RecordView<Output>>,
    op_number: OpNumber,
) -> bool {
    forall|client_id: ClientID| #[trigger]
        records.contains_key(client_id) ==> records[client_id].client_id == client_id
            && records[client_id].op_number <= op_number
}

impl<Output: Clone> Clone for ClientRecord<Output> {
    fn clone(&self) -> (copy: ClientRecord<Output>)
        ensures
            exact_clone::<Output>() ==> copy@ == self@,
    {
        let replies = self.replies.clone();
        proof {
            if exact_clone::<Output>() {
                assert forall|i: int| 0 <= i < replies@.len() implies replies@[i] == self.replies@[i] by {
                    assert(cloned(self.replies@[i], replies@[i]));
                }
                assert(replies@ =~= self.replies@);
            }
        }
        ClientRecord {
            client_id: self.client_id,
            session: self.session,
            request_number: self.request_number,
            replies,
            op_number: self.op_number,
        }
    }
}

/// A call on a state machine.
#[verifier::ext_equal]
pub enum StateCall<Input, Output, Chunk> {
    /// [`StateMachine::apply`].
    Apply { op_number: OpNumber, input: Input },
    /// [`StateMachine::record_client`].
    RecordClient { op_number: OpNumber, client_id: ClientID, record: Option<RecordView<Output>> },
    /// [`StateMachine::checkpoint`].
    Checkpoint,
    /// [`StateMachine::checkpoint_chunk`], which changes nothing.
    ReadChunk { index: usize },
    /// [`StateMachine::release_checkpoint`].
    Release,
    /// [`StateMachine::stage_chunk`].
    Stage { op_number: OpNumber, index: usize, chunk: Chunk },
    /// [`StateMachine::restore`].
    Restore { op_number: OpNumber },
}

/// [`StateCall`] for a given state machine.
pub type StateCallFor<SM> = StateCall<
    <SM as StateMachine>::Input,
    <SM as StateMachine>::Output,
    <SM as StateMachine>::Chunk,
>;

/// State machine.
///
/// The replica executes committed operations through it, in op number
/// order, once a write its owner handed back holds them: in the step that
/// commits them, or in [`crate::Replica::persisted`]. It keeps the client
/// table too: the replica hands it every record that changes, with the op
/// number that changed it. A state machine that persists its state writes
/// the op numbers it got alongside, and the client table. After a crash
/// its owner makes whatever state it came back with durable, and hands
/// [`crate::Replica::restart`] that state with its op number; the replica
/// executes the committed operations after it once more.
///
/// A state machine is deterministic: what a call makes of it and what it
/// answers depend on its state and the call alone. The contracts speak of
/// it through `State`, which the implementation chooses.
pub trait StateMachine: Sized {
    type Input: Clone + Debug;

    /// A read of the state, which changes nothing and goes in no log.
    type Query: Clone + Debug;

    /// The result of applying an input or answering a query. The client
    /// table keeps the latest results of each session to answer re-sent
    /// requests without running them again.
    type Output: Clone + Debug;

    /// A part of a checkpoint: a copy of the whole state, client table
    /// included, for a replica that fell behind a log this one has
    /// compacted.
    type Chunk: Clone + Debug;

    /// What the contracts take as the state.
    type State;

    /// The state.
    open spec fn state(&self) -> Self::State {
        arbitrary()
    }

    /// What every call keeps.
    open spec fn inv(&self) -> bool {
        true
    }

    /// Whether a state machine in `state` takes `call`.
    open spec fn takes(state: Self::State, call: StateCallFor<Self>) -> bool {
        true
    }

    /// What `call` makes of `state`.
    open spec fn step(state: Self::State, call: StateCallFor<Self>) -> Self::State {
        arbitrary()
    }

    /// The result of executing `input` as `op_number` in `state`.
    open spec fn output(
        state: Self::State,
        op_number: OpNumber,
        input: Self::Input,
    ) -> Self::Output {
        arbitrary()
    }

    /// The answer to `query` in `state`.
    open spec fn answer(state: Self::State, query: Self::Query) -> Self::Output {
        arbitrary()
    }

    /// The client table in `state`, by client.
    open spec fn table(state: Self::State) -> Map<ClientID, RecordView<Self::Output>> {
        arbitrary()
    }

    /// The op number of the checkpoint kept when asked for one in `state`.
    open spec fn checkpoint_op(state: Self::State) -> OpNumber {
        arbitrary()
    }

    /// Whether `chunk` is chunk `index` of the checkpoint kept in `state`,
    /// and the last one if and only if `last`.
    open spec fn is_chunk(
        state: Self::State,
        index: usize,
        chunk: Self::Chunk,
        last: bool,
    ) -> bool {
        arbitrary()
    }

    /// Executes `input`, committed as `op_number`, and returns its result.
    fn apply(&mut self, op_number: OpNumber, input: &Self::Input) -> (output: Self::Output)
        requires
            old(self).inv(),
            Self::takes(old(self).state(), StateCall::Apply { op_number, input: *input }),
        ensures
            final(self).inv(),
            final(self).state() == Self::step(
                old(self).state(),
                StateCall::Apply { op_number, input: *input },
            ),
            output == Self::output(old(self).state(), op_number, *input),
    ;

    /// Answers `query` from the state after every operation applied so
    /// far.
    fn query(&self, query: &Self::Query) -> (output: Self::Output)
        requires
            self.inv(),
        ensures
            output == Self::answer(self.state(), *query),
    ;

    /// Keeps `record` as the client table's record of `client_id`, or
    /// removes it if `None`, as of `op_number`. The replica calls it for
    /// every entry it executes, with the record of the entry's client after
    /// it, so every op number reaches the state machine, and first for a
    /// client an entry's registration evicts.
    fn record_client(
        &mut self,
        op_number: OpNumber,
        client_id: ClientID,
        record: Option<&ClientRecord<Self::Output>>,
    )
        requires
            old(self).inv(),
            Self::takes(
                old(self).state(),
                StateCall::RecordClient { op_number, client_id, record: record_view(record) },
            ),
        ensures
            final(self).inv(),
            final(self).state() == Self::step(
                old(self).state(),
                StateCall::RecordClient { op_number, client_id, record: record_view(record) },
            ),
    ;

    /// The client table, as the records handed to `record_client` or a
    /// restored checkpoint left it.
    fn client_table(&self) -> (table: Vec<ClientRecord<Self::Output>>)
        requires
            self.inv(),
        ensures
            lists(table_view(table@), Self::table(self.state())),
    ;

    /// Keeps a copy of the state as of an op it has applied, one no earlier
    /// than the replica's log start, and returns that op number. It is
    /// kept until [`StateMachine::release_checkpoint`] for replicas that
    /// fell behind, which fetch it in chunks.
    fn checkpoint(&mut self) -> (op_number: OpNumber)
        requires
            old(self).inv(),
            Self::takes(old(self).state(), StateCall::Checkpoint),
        ensures
            final(self).inv(),
            final(self).state() == Self::step(old(self).state(), StateCall::Checkpoint),
            op_number == Self::checkpoint_op(old(self).state()),
    ;

    /// Chunk `index` of the checkpoint kept, and whether it is the last.
    /// Replicas ask for the chunks in order from 0. The chunks depend only
    /// on the state, so a checkpoint kept again at the same op splits the
    /// same way.
    fn checkpoint_chunk(&self, index: usize) -> (chunk: (Self::Chunk, bool))
        requires
            self.inv(),
            Self::takes(self.state(), StateCall::ReadChunk { index }),
        ensures
            Self::is_chunk(self.state(), index, chunk.0, chunk.1),
    ;

    /// Drops the checkpoint kept.
    fn release_checkpoint(&mut self)
        requires
            old(self).inv(),
            Self::takes(old(self).state(), StateCall::Release),
        ensures
            final(self).inv(),
            final(self).state() == Self::step(old(self).state(), StateCall::Release),
    ;

    /// Stages chunk `index` of another replica's checkpoint at `op_number`,
    /// the chunks coming in order: chunk 0 drops what was staged before.
    fn stage_chunk(&mut self, op_number: OpNumber, index: usize, chunk: Self::Chunk)
        requires
            old(self).inv(),
            Self::takes(old(self).state(), StateCall::Stage { op_number, index, chunk }),
        ensures
            final(self).inv(),
            final(self).state() == Self::step(
                old(self).state(),
                StateCall::Stage { op_number, index, chunk },
            ),
    ;

    /// Replaces the state and the client table with the checkpoint staged
    /// at `op_number`, all of whose chunks are staged. A state machine that
    /// persists its state makes the checkpoint durable before it returns,
    /// together with its op number: the replica's log now starts at the
    /// checkpoint, so [`crate::Replica::restart`] has nothing to apply
    /// before it.
    fn restore(&mut self, op_number: OpNumber)
        requires
            old(self).inv(),
            Self::takes(old(self).state(), StateCall::Restore { op_number }),
        ensures
            final(self).inv(),
            final(self).state() == Self::step(
                old(self).state(),
                StateCall::Restore { op_number },
            ),
    ;
}

/// Whether the clones of the operations and results of a state machine are
/// exact.
pub open spec fn exact_clones<SM: StateMachine>() -> bool {
    exact_clone::<SM::Input>() && exact_clone::<SM::Output>()
}

} // verus!
