use vstd::prelude::*;
use crate::duplicate::exact_clone;
use crate::ids::{ClientID, OpNumber};
use crate::state_machine::{exact_clones, ClientRecord, RecordView, StateCall, StateMachine};

verus! {

/// Adds up the ops. It keeps no client table: the benchmark never restarts
/// a replica or transfers state, and a copy of each record would count
/// against the library.
#[derive(Debug)]
pub struct Sum(pub u64);

/// A read of the sum.
#[derive(Clone, Copy, Debug, PartialEq, Eq, Structural)]
pub struct Total;

/// A chunk of a checkpoint, of which there are none.
#[derive(Clone, Copy, Debug, PartialEq, Eq, Structural)]
pub struct NoChunk;

impl StateMachine for Sum {
    type Input = u64;

    type Query = Total;

    type Output = u64;

    type Chunk = NoChunk;

    type State = u64;

    open spec fn state(&self) -> u64 {
        self.0
    }

    open spec fn takes(state: u64, call: StateCall<u64, u64, NoChunk>) -> bool {
        call is Apply || call is RecordClient
    }

    open spec fn step(state: u64, call: StateCall<u64, u64, NoChunk>) -> u64 {
        match call {
            StateCall::Apply { input, .. } => state.wrapping_add(input),
            _ => state,
        }
    }

    open spec fn output(state: u64, op_number: OpNumber, input: u64) -> u64 {
        state.wrapping_add(input)
    }

    open spec fn answer(state: u64, query: Total) -> u64 {
        state
    }

    open spec fn table(state: u64) -> Map<ClientID, RecordView<u64>> {
        Map::empty()
    }

    fn apply(&mut self, _op_number: OpNumber, op: &u64) -> u64 {
        self.0 = self.0.wrapping_add(*op);
        self.0
    }

    fn query(&self, _query: &Total) -> u64 {
        self.0
    }

    fn record_client(
        &mut self,
        _op_number: OpNumber,
        _client_id: ClientID,
        _record: Option<&ClientRecord<u64>>,
    ) {
    }

    fn client_table(&self) -> Vec<ClientRecord<u64>> {
        Vec::new()
    }

    fn checkpoint(&mut self) -> OpNumber {
        0
    }

    fn checkpoint_chunk(&self, _index: usize) -> (NoChunk, bool) {
        (NoChunk, true)
    }

    fn release_checkpoint(&mut self) {
    }

    fn stage_chunk(&mut self, _op_number: OpNumber, _index: usize, _chunk: NoChunk) {
    }

    fn restore(&mut self, _op_number: OpNumber) {
    }
}

/// The clones of what the sum takes and gives are exact, so that replicas
/// can run it.
pub proof fn sum_clones_exactly()
    ensures
        exact_clones::<Sum>(),
        exact_clone::<Total>(),
        exact_clone::<NoChunk>(),
{
}

} // verus!
