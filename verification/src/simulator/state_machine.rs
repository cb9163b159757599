//! The state machine replicated by the simulator.
//!
//! The simulator uses a simple accumulator that also records every operation
//! it has applied and every client record it was handed. Properties use the
//! recorded history to check that the state machine state matches the
//! committed log.

use std::collections::BTreeMap;
use vstd::prelude::*;
use vstd::std_specs::iter::IteratorSpec;
use crate::ids::{ClientID, OpNumber};
use crate::message::{MessageFor, MessageView};
use crate::duplicate::exact_clone;
use crate::state_machine::{
    exact_clones, record_view, table_view, ClientRecord, RecordView, StateCall, StateMachine,
};

verus! {

/// The kind of an operation.
#[derive(Clone, Copy, Debug, PartialEq, Eq, Structural)]
pub enum OpKind {
    Add(i64),
    Sub(i64),
}

impl OpKind {
    /// What this operation makes of `value`: the sum or the difference,
    /// wrapped round at the ends of the type.
    pub open spec fn result(self, value: i64) -> i64 {
        match self {
            OpKind::Add(v) => value.wrapping_add(v),
            OpKind::Sub(v) => value.wrapping_sub(v),
        }
    }

    /// Applies this operation to `value`.
    pub fn apply(self, value: i64) -> (result: i64)
        ensures
            result == self.result(value),
    {
        match self {
            OpKind::Add(v) => value.wrapping_add(v),
            OpKind::Sub(v) => value.wrapping_sub(v),
        }
    }
}

/// An operation submitted by a client.
///
/// Every operation carries a unique `id` so that properties can detect
/// duplicate or missing operations in replica logs.
#[derive(Debug, PartialEq, Eq, Structural)]
pub struct Op {
    pub id: u64,
    pub kind: OpKind,
}

impl Clone for Op {
    fn clone(&self) -> (copy: Op)
        ensures
            copy == *self,
    {
        Op { id: self.id, kind: self.kind }
    }
}

/// The query: how many operations the state reflects.
#[derive(Clone, Copy, Debug, PartialEq, Eq)]
pub struct Read;

/// A record handed over: the op number, the client, and the record, or
/// `None` for an eviction.
pub type Recorded = (OpNumber, ClientID, Option<ClientRecord<i64>>);

/// What a record handed over says.
pub type RecordedView = (OpNumber, ClientID, Option<RecordView<i64>>);

/// An accumulator state machine that records its history.
#[derive(Debug, PartialEq, Eq)]
pub struct Accumulator {
    /// The current value of the accumulator.
    pub value: i64,
    /// Every operation applied so far, in order, with its op number.
    pub applied: Vec<(OpNumber, Op)>,
    /// The client table, as the records handed over left it.
    pub clients: BTreeMap<ClientID, ClientRecord<i64>>,
    /// Every client record handed over so far, in order, with its op
    /// number: `None` for an eviction.
    pub recorded: Vec<Recorded>,
    /// The last op applied, recorded, or restored.
    pub(crate) op_number: OpNumber,
    /// The checkpoint kept for replicas that fell behind, which lives in
    /// memory only.
    pub(crate) kept: Option<Kept>,
    /// The chunks staged of another replica's checkpoint, with its op
    /// number.
    pub(crate) staged: Vec<(OpNumber, Chunk)>,
}

/// A checkpoint: the history up to its op, which only grows while the
/// checkpoint is kept, and what the history came to.
#[derive(Debug, PartialEq, Eq)]
pub struct Kept {
    pub(crate) op_number: OpNumber,
    pub(crate) applied: usize,
    pub(crate) recorded: usize,
    pub(crate) value: i64,
    pub(crate) clients: BTreeMap<ClientID, ClientRecord<i64>>,
}

/// A part of a checkpoint's history, and in the last part, what the
/// history came to.
#[derive(Debug, PartialEq, Eq)]
pub struct Chunk {
    pub(crate) applied: Vec<(OpNumber, Op)>,
    pub(crate) recorded: Vec<Recorded>,
    pub(crate) last: Option<(i64, BTreeMap<ClientID, ClientRecord<i64>>)>,
}

/// A protocol message in the simulator.
pub type Msg = MessageFor<Accumulator>;

/// What a protocol message in the simulator says.
pub type MsgView = MessageView<Op, Read, ChunkView>;

/// What `message` says.
pub open spec fn msg_view(message: Msg) -> MsgView {
    message@.map_chunk(|chunk: Chunk| chunk@)
}

/// What the state of an accumulator is.
#[verifier::ext_equal]
pub struct AccumulatorView {
    pub value: i64,
    pub applied: Seq<(OpNumber, Op)>,
    pub clients: Map<ClientID, RecordView<i64>>,
    pub recorded: Seq<RecordedView>,
    pub op_number: OpNumber,
    pub kept: Option<KeptView>,
    pub staged: Seq<(OpNumber, ChunkView)>,
}

/// What a checkpoint kept holds.
#[verifier::ext_equal]
pub struct KeptView {
    pub op_number: OpNumber,
    pub applied: usize,
    pub recorded: usize,
    pub value: i64,
    pub clients: Map<ClientID, RecordView<i64>>,
}

/// What a chunk holds.
#[verifier::ext_equal]
pub struct ChunkView {
    pub applied: Seq<(OpNumber, Op)>,
    pub recorded: Seq<RecordedView>,
    pub last: Option<(i64, Map<ClientID, RecordView<i64>>)>,
}

/// What a client table holds.
pub open spec fn clients_view(clients: Map<ClientID, ClientRecord<i64>>) -> Map<
    ClientID,
    RecordView<i64>,
> {
    clients.map_values(|record: ClientRecord<i64>| record@)
}

/// Whether every record is that of its client.
pub open spec fn keyed(clients: Map<ClientID, RecordView<i64>>) -> bool {
    forall|client_id: ClientID| #[trigger]
        clients.contains_key(client_id) ==> clients[client_id].client_id == client_id
}

/// What a record handed over says.
pub open spec fn recorded_view(recorded: Recorded) -> RecordedView {
    (
        recorded.0,
        recorded.1,
        match recorded.2 {
            Some(record) => Some(record@),
            None => None,
        },
    )
}

/// What the records handed over say.
pub open spec fn history_view(recorded: Seq<Recorded>) -> Seq<RecordedView> {
    Seq::new(recorded.len(), |i: int| recorded_view(recorded[i]))
}

/// What the chunks staged hold.
pub open spec fn staged_view(staged: Seq<(OpNumber, Chunk)>) -> Seq<(OpNumber, ChunkView)> {
    Seq::new(staged.len(), |i: int| (staged[i].0, staged[i].1@))
}

impl View for Kept {
    type V = KeptView;

    open(crate) spec fn view(&self) -> KeptView {
        KeptView {
            op_number: self.op_number,
            applied: self.applied,
            recorded: self.recorded,
            value: self.value,
            clients: clients_view(self.clients@),
        }
    }
}

impl View for Chunk {
    type V = ChunkView;

    open(crate) spec fn view(&self) -> ChunkView {
        ChunkView {
            applied: self.applied@,
            recorded: history_view(self.recorded@),
            last: match self.last {
                Some((value, clients)) => Some((value, clients_view(clients@))),
                None => None,
            },
        }
    }
}

impl View for Accumulator {
    type V = AccumulatorView;

    open(crate) spec fn view(&self) -> AccumulatorView {
        AccumulatorView {
            value: self.value,
            applied: self.applied@,
            clients: clients_view(self.clients@),
            recorded: history_view(self.recorded@),
            op_number: self.op_number,
            kept: match self.kept {
                Some(kept) => Some(kept@),
                None => None,
            },
            staged: staged_view(self.staged@),
        }
    }
}

/// What the parts of a history come to, one after the other.
pub open spec fn joined_applied(staged: Seq<(OpNumber, ChunkView)>) -> Seq<(OpNumber, Op)>
    decreases staged.len(),
{
    if staged.len() == 0 {
        Seq::empty()
    } else {
        joined_applied(staged.drop_last()) + staged.last().1.applied
    }
}

/// What the parts of a history come to, one after the other.
pub open spec fn joined_recorded(staged: Seq<(OpNumber, ChunkView)>) -> Seq<RecordedView>
    decreases staged.len(),
{
    if staged.len() == 0 {
        Seq::empty()
    } else {
        joined_recorded(staged.drop_last()) + staged.last().1.recorded
    }
}

/// What the last part staged that says so came to, or `before` if none does.
pub open spec fn outcome(
    staged: Seq<(OpNumber, ChunkView)>,
    before: (i64, Map<ClientID, RecordView<i64>>),
) -> (i64, Map<ClientID, RecordView<i64>>)
    decreases staged.len(),
{
    if staged.len() == 0 {
        before
    } else {
        match staged.last().1.last {
            Some(last) => last,
            None => outcome(staged.drop_last(), before),
        }
    }
}

/// Part `index` of the first `len` of `items`, split into `count` parts of
/// the same size, the last one smaller.
pub open spec fn part<T>(items: Seq<T>, len: int, count: int, index: int) -> Seq<T> {
    let size = (len + count - 1) / count;
    let from = if index * size <= len {
        index * size
    } else {
        len
    };
    let to = if (index + 1) * size <= len {
        (index + 1) * size
    } else {
        len
    };
    items.subrange(from, to)
}

impl AccumulatorView {
    /// An accumulator that has done nothing yet.
    pub open spec fn empty() -> Self {
        AccumulatorView {
            value: 0,
            applied: Seq::empty(),
            clients: Map::empty(),
            recorded: Seq::empty(),
            op_number: 0,
            kept: None,
            staged: Seq::empty(),
        }
    }

    /// The op number of the last operation applied comes before `op_number`.
    pub open spec fn applied_before(self, op_number: OpNumber) -> bool {
        self.applied.len() == 0 || self.applied.last().0 < op_number
    }

    /// The state after `op` executed as `op_number`.
    pub open spec fn apply(self, op_number: OpNumber, op: Op) -> Self {
        AccumulatorView {
            value: op.kind.result(self.value),
            applied: self.applied.push((op_number, op)),
            op_number,
            ..self
        }
    }

    /// The state after a record was handed over.
    pub open spec fn record_client(
        self,
        op_number: OpNumber,
        client_id: ClientID,
        record: Option<RecordView<i64>>,
    ) -> Self {
        AccumulatorView {
            clients: match record {
                Some(record) => self.clients.insert(client_id, record),
                None => self.clients.remove(client_id),
            },
            recorded: self.recorded.push((op_number, client_id, record)),
            op_number,
            ..self
        }
    }

    /// The state after the checkpoint staged took its place.
    pub open spec fn restore(self, op_number: OpNumber) -> Self {
        let (value, clients) = outcome(self.staged, (self.value, self.clients));
        AccumulatorView {
            value,
            applied: joined_applied(self.staged),
            clients,
            recorded: joined_recorded(self.staged),
            op_number,
            kept: self.kept,
            staged: Seq::empty(),
        }
    }

    /// A checkpoint of the state.
    pub open spec fn checkpoint(self) -> KeptView {
        KeptView {
            op_number: self.op_number,
            applied: self.applied.len() as usize,
            recorded: self.recorded.len() as usize,
            value: self.value,
            clients: self.clients,
        }
    }

    /// How many chunks the checkpoint kept comes in: one to four, as its op
    /// number says.
    pub open spec fn chunks(self) -> int {
        1 + (self.kept->0).op_number as int % 4
    }

    /// Chunk `index` of the checkpoint kept.
    pub open spec fn chunk(self, index: usize) -> ChunkView {
        let kept = self.kept->0;
        ChunkView {
            applied: part(self.applied, kept.applied as int, self.chunks(), index as int),
            recorded: part(self.recorded, kept.recorded as int, self.chunks(), index as int),
            last: if index + 1 == self.chunks() {
                Some((kept.value, kept.clients))
            } else {
                None
            },
        }
    }

    /// Whether chunk `index` of the checkpoint kept can be read.
    pub open spec fn can_read(self, index: usize) -> bool {
        &&& self.kept is Some
        &&& (self.kept->0).applied <= self.applied.len()
        &&& (self.kept->0).recorded <= self.recorded.len()
        &&& (index + 1) * (((self.kept->0).applied + self.chunks() - 1) / self.chunks())
            <= usize::MAX
        &&& (index + 1) * (((self.kept->0).recorded + self.chunks() - 1) / self.chunks())
            <= usize::MAX
        &&& index < usize::MAX
    }

    /// Whether the checkpoint staged is one at `op_number`.
    pub open spec fn can_restore(self, op_number: OpNumber) -> bool {
        let applied = joined_applied(self.staged);
        &&& forall|i: int| 0 <= i < self.staged.len() ==> (#[trigger] self.staged[i]).0 == op_number
        &&& applied.len() == 0 || applied.last().0 <= op_number
        &&& keyed(outcome(self.staged, (self.value, self.clients)).1)
    }
}

/// Copies of `items` from `from` up to `to`.
pub(crate) fn copy_applied(items: &Vec<(OpNumber, Op)>, from: usize, to: usize) -> (copy: Vec<
    (OpNumber, Op),
>)
    requires
        from <= to <= items@.len(),
    ensures
        copy@ == items@.subrange(from as int, to as int),
{
    let mut copy: Vec<(OpNumber, Op)> = Vec::new();
    let mut i: usize = from;
    while i < to
        invariant
            from <= i <= to <= items@.len(),
            copy@ == items@.subrange(from as int, i as int),
        decreases to - i,
    {
        copy.push((items[i].0, items[i].1.clone()));
        i += 1;
    }
    copy
}

/// A copy of an optional record.
pub(crate) fn copy_record(record: &Option<ClientRecord<i64>>) -> (copy: Option<ClientRecord<i64>>)
    ensures
        copy is Some <==> record is Some,
        copy matches Some(copy) ==> copy@ == record->0@,
{
    match record {
        Some(record) => Some(record.clone()),
        None => None,
    }
}

/// Copies of `items` from `from` up to `to`.
pub(crate) fn copy_recorded(items: &Vec<Recorded>, from: usize, to: usize) -> (copy: Vec<Recorded>)
    requires
        from <= to <= items@.len(),
    ensures
        history_view(copy@) == history_view(items@).subrange(from as int, to as int),
{
    let mut copy: Vec<Recorded> = Vec::new();
    let mut i: usize = from;
    while i < to
        invariant
            from <= i <= to <= items@.len(),
            history_view(copy@) == history_view(items@).subrange(from as int, i as int),
        decreases to - i,
    {
        let ghost before = copy@;
        copy.push((items[i].0, items[i].1, copy_record(&items[i].2)));
        assert(history_view(copy@) =~= history_view(before).push(history_view(items@)[i as int]));
        i += 1;
    }
    copy
}

/// Where part `index` of `len` items split into `count` parts starts and
/// ends.
fn part_bounds(len: usize, count: usize, index: usize) -> (bounds: (usize, usize))
    requires
        1 <= count <= 4,
        index < usize::MAX,
        (index + 1) * ((len + count - 1) / (count as int)) <= usize::MAX,
    ensures
        bounds.0 <= bounds.1 <= len,
        forall|items: Seq<(OpNumber, Op)>|
            part(items, len as int, count as int, index as int) == items.subrange(
                bounds.0 as int,
                bounds.1 as int,
            ),
        forall|items: Seq<RecordedView>|
            part(items, len as int, count as int, index as int) == items.subrange(
                bounds.0 as int,
                bounds.1 as int,
            ),
{
    let whole = len / count;
    assert(len % count != 0 ==> whole < len) by (nonlinear_arith)
        requires
            1 <= count <= 4,
            whole == len / count,
    ;
    let size: usize = if len % count == 0 {
        whole
    } else {
        whole + 1
    };
    proof {
        assert(size == (len + count - 1) / (count as int)) by (nonlinear_arith)
            requires
                1 <= count <= 4,
                size == (if len % count == 0 {
                    (len / count) as int
                } else {
                    len / count + 1
                }),
        ;
        assert(index * size <= (index + 1) * size) by (nonlinear_arith)
            requires
                size >= 0,
        ;
    }
    let end = (index + 1) * size;
    let start = index * size;
    let from = if start <= len {
        start
    } else {
        len
    };
    let to = if end <= len {
        end
    } else {
        len
    };
    (from, to)
}

impl Default for Accumulator {
    fn default() -> (accumulator: Accumulator)
        ensures
            accumulator@ == AccumulatorView::empty(),
    {
        let accumulator = Accumulator {
            value: 0,
            applied: Vec::new(),
            clients: BTreeMap::new(),
            recorded: Vec::new(),
            op_number: 0,
            kept: None,
            staged: Vec::new(),
        };
        assert(accumulator@ =~= AccumulatorView::empty());
        accumulator
    }
}

impl Clone for Kept {
    fn clone(&self) -> (copy: Kept)
        ensures
            copy@ == self@,
    {
        Kept {
            op_number: self.op_number,
            applied: self.applied,
            recorded: self.recorded,
            value: self.value,
            clients: self.clients.clone(),
        }
    }
}

impl Clone for Chunk {
    fn clone(&self) -> (copy: Chunk)
        ensures
            copy@ == self@,
    {
        let applied = copy_applied(&self.applied, 0, self.applied.len());
        let recorded = copy_recorded(&self.recorded, 0, self.recorded.len());
        let last = match &self.last {
            Some((value, clients)) => Some((*value, clients.clone())),
            None => None,
        };
        let copy = Chunk { applied, recorded, last };
        assert(copy@ =~= self@);
        copy
    }
}

/// A copy of the chunks staged.
fn copy_staged(staged: &Vec<(OpNumber, Chunk)>) -> (copy: Vec<(OpNumber, Chunk)>)
    ensures
        staged_view(copy@) == staged_view(staged@),
{
    let mut copy: Vec<(OpNumber, Chunk)> = Vec::new();
    let mut i: usize = 0;
    while i < staged.len()
        invariant
            i <= staged@.len(),
            staged_view(copy@) == staged_view(staged@).take(i as int),
        decreases staged@.len() - i,
    {
        let ghost before = copy@;
        copy.push((staged[i].0, staged[i].1.clone()));
        assert(staged_view(copy@) =~= staged_view(before).push(staged_view(staged@)[i as int]));
        i += 1;
    }
    assert(staged_view(staged@).take(i as int) =~= staged_view(staged@));
    copy
}

impl Clone for Accumulator {
    fn clone(&self) -> (copy: Accumulator)
        ensures
            copy@ == self@,
    {
        let kept = match &self.kept {
            Some(kept) => Some(kept.clone()),
            None => None,
        };
        let copy = Accumulator {
            value: self.value,
            applied: copy_applied(&self.applied, 0, self.applied.len()),
            clients: self.clients.clone(),
            recorded: copy_recorded(&self.recorded, 0, self.recorded.len()),
            op_number: self.op_number,
            kept,
            staged: copy_staged(&self.staged),
        };
        assert(copy@ =~= self@);
        copy
    }
}

/// The operations of `history` after op `from` up to op `to`, applied to
/// `state` in order.
pub open spec fn replay_applied(
    state: AccumulatorView,
    history: Seq<(OpNumber, Op)>,
    from: OpNumber,
    to: OpNumber,
) -> AccumulatorView
    decreases history.len(),
{
    if history.len() == 0 {
        state
    } else {
        let before = replay_applied(state, history.drop_last(), from, to);
        let (op_number, op) = history.last();
        if from < op_number && op_number <= to {
            before.apply(op_number, op)
        } else {
            before
        }
    }
}

/// The records of `history` after op `from` up to op `to`, handed over to
/// `state` in order.
pub open spec fn replay_recorded(
    state: AccumulatorView,
    history: Seq<RecordedView>,
    from: OpNumber,
    to: OpNumber,
) -> AccumulatorView
    decreases history.len(),
{
    if history.len() == 0 {
        state
    } else {
        let before = replay_recorded(state, history.drop_last(), from, to);
        let (op_number, client_id, record) = history.last();
        if from < op_number && op_number <= to {
            before.record_client(op_number, client_id, record)
        } else {
            before
        }
    }
}

/// Whether the operations of `history` are in op number order.
pub open spec fn in_op_order(history: Seq<(OpNumber, Op)>) -> bool {
    forall|i: int, j: int|
        0 <= i < j < history.len() ==> (#[trigger] history[i]).0 < (#[trigger] history[j]).0
}

/// Whether the records of `history` are each that of its client.
pub open spec fn records_keyed(history: Seq<RecordedView>) -> bool {
    forall|i: int|
        0 <= i < history.len() && (#[trigger] history[i]).2 is Some ==> (history[i].2->0).client_id
            == history[i].1
}

impl Accumulator {
    /// A copy of the state as a flush writes it, which leaves out the
    /// checkpoint kept.
    pub fn flushed(&self) -> (copy: Accumulator)
        ensures
            copy@ == (AccumulatorView { kept: None, ..self@ }),
    {
        let mut copy = self.clone();
        copy.kept = None;
        copy
    }

    /// Applies what `later` applied and recorded after op `from`, up to op
    /// `to`: `later` is this state machine further on.
    pub fn catch_up(&mut self, later: &Accumulator, from: OpNumber, to: OpNumber)
        requires
            old(self).inv(),
            in_op_order(later@.applied),
            records_keyed(later@.recorded),
            old(self)@.applied.len() > 0 ==> old(self)@.applied.last().0 <= from,
        ensures
            final(self).inv(),
            final(self)@ == replay_recorded(
                replay_applied(old(self)@, later@.applied, from, to),
                later@.recorded,
                from,
                to,
            ),
    {
        let ghost history = later.applied@;
        let mut i: usize = 0;
        while i < later.applied.len()
            invariant
                i <= later.applied@.len(),
                history == later.applied@,
                in_op_order(history),
                self.inv(),
                self@ == replay_applied(old(self)@, history.take(i as int), from, to),
                self.applied@.len() > 0 ==> self.applied@.last().0 <= from || (i > 0
                    && self.applied@.last().0 <= history[i - 1].0),
            decreases later.applied@.len() - i,
        {
            proof {
                assert(history.take(i + 1).drop_last() =~= history.take(i as int));
                assert(history.take(i + 1).last() == history[i as int]);
            }
            let op_number = later.applied[i].0;
            if from < op_number && op_number <= to {
                self.apply(op_number, &later.applied[i].1);
            }
            i += 1;
        }
        assert(history.take(i as int) =~= history);
        let ghost applied = self@;
        let ghost records = history_view(later.recorded@);
        let mut j: usize = 0;
        while j < later.recorded.len()
            invariant
                j <= later.recorded@.len(),
                records == history_view(later.recorded@),
                records_keyed(records),
                self.inv(),
                self@ == replay_recorded(applied, records.take(j as int), from, to),
            decreases later.recorded@.len() - j,
        {
            proof {
                assert(records.take(j + 1).drop_last() =~= records.take(j as int));
                assert(records.take(j + 1).last() == records[j as int]);
            }
            let op_number = later.recorded[j].0;
            if from < op_number && op_number <= to {
                let client_id = later.recorded[j].1;
                match &later.recorded[j].2 {
                    Some(record) => self.record_client(op_number, client_id, Some(record)),
                    None => self.record_client(op_number, client_id, None),
                }
            }
            j += 1;
        }
        assert(records.take(j as int) =~= records);
    }
}

/// The result of an operation or a query is the number of operations the
/// state reflects, which places it in the committed history.
impl StateMachine for Accumulator {
    type Input = Op;

    type Query = Read;

    type Output = i64;

    /// The history comes along, so that a replica that restores a
    /// checkpoint can still be checked against the committed log.
    type Chunk = Chunk;

    type State = AccumulatorView;

    open spec fn state(&self) -> AccumulatorView {
        self@
    }

    open spec fn inv(&self) -> bool {
        keyed(self@.clients)
    }

    open spec fn takes(state: AccumulatorView, call: StateCall<Op, i64, Chunk>) -> bool {
        match call {
            StateCall::Apply { op_number, .. } => state.applied_before(op_number),
            StateCall::RecordClient { client_id, record, .. } => record is Some ==> (
            record->0).client_id == client_id,
            StateCall::Checkpoint => true,
            StateCall::ReadChunk { index } => state.can_read(index),
            StateCall::Release => state.kept is Some,
            StateCall::Stage { index, .. } => index == 0 || index == state.staged.len(),
            StateCall::Restore { op_number } => state.can_restore(op_number),
        }
    }

    open spec fn step(state: AccumulatorView, call: StateCall<Op, i64, Chunk>) -> AccumulatorView {
        match call {
            StateCall::Apply { op_number, input } => state.apply(op_number, input),
            StateCall::RecordClient { op_number, client_id, record } => state.record_client(
                op_number,
                client_id,
                record,
            ),
            StateCall::Checkpoint => AccumulatorView { kept: Some(state.checkpoint()), ..state },
            StateCall::ReadChunk { .. } => state,
            StateCall::Release => AccumulatorView { kept: None, ..state },
            StateCall::Stage { op_number, index, chunk } => AccumulatorView {
                staged: if index == 0 {
                    seq![(op_number, chunk@)]
                } else {
                    state.staged.push((op_number, chunk@))
                },
                ..state
            },
            StateCall::Restore { op_number } => state.restore(op_number),
        }
    }

    open spec fn output(state: AccumulatorView, op_number: OpNumber, input: Op) -> i64 {
        ((state.applied.len() + 1) as usize) as i64
    }

    open spec fn answer(state: AccumulatorView, query: Read) -> i64 {
        (state.applied.len() as usize) as i64
    }

    open spec fn table(state: AccumulatorView) -> Map<ClientID, RecordView<i64>> {
        state.clients
    }

    open spec fn checkpoint_op(state: AccumulatorView) -> OpNumber {
        state.op_number
    }

    open spec fn is_chunk(state: AccumulatorView, index: usize, chunk: Chunk, last: bool) -> bool {
        chunk@ == state.chunk(index) && last == (index + 1 == state.chunks())
    }

    fn apply(&mut self, op_number: OpNumber, op: &Op) -> i64 {
        self.value = op.kind.apply(self.value);
        self.applied.push((op_number, op.clone()));
        self.op_number = op_number;
        assert(self@ =~= old(self)@.apply(op_number, *op));
        self.applied.len() as i64
    }

    fn query(&self, _query: &Read) -> i64 {
        self.applied.len() as i64
    }

    fn record_client(
        &mut self,
        op_number: OpNumber,
        client_id: ClientID,
        record: Option<&ClientRecord<i64>>,
    ) {
        broadcast use vstd::std_specs::btree::group_btree_axioms;

        let copy = match record {
            Some(record) => {
                let copy = record.clone();
                let kept = record.clone();
                let _ = self.clients.insert(client_id, kept);
                Some(copy)
            },
            None => {
                let _ = self.clients.remove(&client_id);
                None
            },
        };
        self.recorded.push((op_number, client_id, copy));
        self.op_number = op_number;
        assert(self@ =~= old(self)@.record_client(op_number, client_id, record_view(record)));
    }

    fn client_table(&self) -> Vec<ClientRecord<i64>> {
        broadcast use vstd::std_specs::btree::group_btree_axioms;

        let ghost records = clients_view(self.clients@);
        let mut table: Vec<ClientRecord<i64>> = Vec::new();
        let entries = self.clients.iter();
        let ghost all = entries.remaining();
        proof {
            assert forall|i: int, j: int| 0 <= i < j < all.len() implies *(#[trigger] all[i]).0
                != *(#[trigger] all[j]).0 by {
                assert(self.clients@[*all[i].0] == *all[i].1);
                assert(self.clients@[*all[j].0] == *all[j].1);
                assert(all[i] != all[j]);
            }
        }
        for entry in iter: entries
            invariant
                iter.seq() == all,
                table@.len() == iter.index(),
                forall|i: int| 0 <= i < iter.index() ==> (#[trigger] table@[i])@ == all[i].1@,
        {
            let (_, record) = entry;
            table.push(record.clone());
        }
        proof {
            let views = table_view(table@);
            assert forall|i: int| 0 <= i < views.len() implies records.contains_key(
                (#[trigger] views[i]).client_id,
            ) && records[views[i].client_id] == views[i] && views[i].client_id == *all[i].0 by {
                assert(self.clients@.contains_key(*all[i].0));
                assert(self.clients@[*all[i].0] == *all[i].1);
                assert(records.contains_key(*all[i].0));
                assert(records[*all[i].0] == views[i]);
            }
            assert forall|i: int, j: int| 0 <= i < j < views.len() implies (
            #[trigger] views[i]).client_id != (#[trigger] views[j]).client_id by {
                assert(*all[i].0 != *all[j].0);
            }
            assert forall|client_id: ClientID| #[trigger]
                records.contains_key(client_id) implies views.contains(records[client_id]) by {
                assert(self.clients@.contains_key(client_id));
                assert(all.contains((&client_id, &self.clients@[client_id])));
                let i = choose|i: int|
                    0 <= i < all.len() && all[i] == (&client_id, &self.clients@[client_id]);
                assert(views[i] == records[client_id]);
            }
        }
        table
    }

    fn checkpoint(&mut self) -> OpNumber {
        self.kept = Some(
            Kept {
                op_number: self.op_number,
                applied: self.applied.len(),
                recorded: self.recorded.len(),
                value: self.value,
                clients: self.clients.clone(),
            },
        );
        self.op_number
    }

    /// A checkpoint comes in one to four chunks, as its op number says, so
    /// that transfers take a few round trips however long the history.
    fn checkpoint_chunk(&self, index: usize) -> (Chunk, bool) {
        let (op_number, applied, recorded, value, clients) = match &self.kept {
            Some(kept) => (
                kept.op_number,
                kept.applied,
                kept.recorded,
                kept.value,
                kept.clients.clone(),
            ),
            None => (0, 0, 0, 0, BTreeMap::new()),
        };
        let count: usize = 1 + op_number % 4;
        let last = index + 1 == count;
        let (from, to) = part_bounds(applied, count, index);
        let applied = copy_applied(&self.applied, from, to);
        let (from, to) = part_bounds(recorded, count, index);
        let recorded = copy_recorded(&self.recorded, from, to);
        let chunk = Chunk {
            applied,
            recorded,
            last: if last {
                Some((value, clients))
            } else {
                None
            },
        };
        assert(chunk@ =~= self@.chunk(index));
        (chunk, last)
    }

    fn release_checkpoint(&mut self) {
        self.kept = None;
    }

    fn stage_chunk(&mut self, op_number: OpNumber, index: usize, chunk: Chunk) {
        if index == 0 {
            self.staged.clear();
        }
        let ghost before = self.staged@;
        self.staged.push((op_number, chunk));
        assert(staged_view(self.staged@) =~= staged_view(before).push((op_number, chunk@)));
        assert(self@ =~= Self::step(
            old(self)@,
            StateCall::Stage { op_number, index, chunk },
        ));
    }

    fn restore(&mut self, op_number: OpNumber) {
        let mut staged: Vec<(OpNumber, Chunk)> = Vec::new();
        std::mem::swap(&mut staged, &mut self.staged);
        self.applied.clear();
        self.recorded.clear();
        let ghost all = staged@;
        let ghost parts = staged_view(all);
        let ghost before = (old(self)@.value, old(self)@.clients);
        for chunk in iter: staged
            invariant
                iter.seq() == all,
                parts == staged_view(all),
                before == (old(self)@.value, old(self)@.clients),
                self.applied@ == joined_applied(parts.take(iter.index())),
                history_view(self.recorded@) == joined_recorded(parts.take(iter.index())),
                (self.value, clients_view(self.clients@)) == outcome(
                    parts.take(iter.index()),
                    before,
                ),
                self.staged@ == Seq::<(OpNumber, Chunk)>::empty(),
                self.kept == old(self).kept,
        {
            proof {
                let i = iter.index();
                assert(parts.take(i + 1).drop_last() =~= parts.take(i));
                assert(parts.take(i + 1).last() == parts[i]);
            }
            let (_, Chunk { mut applied, mut recorded, last }) = chunk;
            let ghost history = self.recorded@;
            let ghost more = recorded@;
            self.applied.append(&mut applied);
            self.recorded.append(&mut recorded);
            assert(history_view(history + more) =~= history_view(history) + history_view(more));
            if let Some((value, clients)) = last {
                self.value = value;
                self.clients = clients;
            }
        }
        assert(parts.take(all.len() as int) =~= parts);
        self.op_number = op_number;
        assert(self@ =~= old(self)@.restore(op_number));
    }
}

/// The clones of the operations, queries and results of an accumulator are
/// exact, so that replicas can run it, and those of its chunks hold the same.
pub proof fn accumulator_clones_exactly()
    ensures
        exact_clones::<Accumulator>(),
        exact_clone::<Read>(),
        forall|a: Chunk, b: Chunk| #[trigger] cloned(a, b) ==> a@ == b@,
{
}

} // verus!
