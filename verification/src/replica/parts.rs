use vstd::prelude::*;
use crate::ids::{ClientID, CommitID, OpNumber, QueryNumber, ReplicaID, ViewNumber};
use crate::log::{LogSegment, SegmentView};
use crate::message::{state_view, RecoveryState, RecoveryView};

verus! {

/// What a replica is doing. See [`crate::Replica::status`].
#[derive(Clone, Copy, Debug, PartialEq, Eq, Structural)]
pub enum Status {
    /// Taking part in normal operation.
    Normal,
    /// Waiting for `NewState` to fill a gap in the log, within the current
    /// view.
    StateTransfer,
    /// Back from a crash with no memory, and waiting for `RecoveryResponse`
    /// from a quorum before taking part in anything.
    Recovering,
    /// Taking part in a view change, or, once the new view is known to have
    /// started, waiting for `NewState` to catch up with it.
    ViewChange,
}

/// The most rounds of view confirmations the primary has out at a time,
/// which bounds their messages to that many per round trip, however many
/// queries arrive.
pub const ROUNDS_OUT: u64 = 32;

/// What the replica recorded of the write it has out.
#[derive(Clone, Copy, Debug)]
pub struct Outstanding {
    pub sequence: u64,
    /// The op number of the last entry the write holds.
    pub op_number: OpNumber,
    /// The view the replica was last normal in, as of the write.
    pub last_normal_view: ViewNumber,
}

/// What a write records besides the log, to tell what changed since.
#[derive(Clone, Copy, Debug, PartialEq, Eq, Structural)]
pub struct Written {
    pub view_number: ViewNumber,
    pub last_normal_view: ViewNumber,
    pub recovering: bool,
    pub log_start: OpNumber,
}

/// A query waiting on the primary for its round and its op.
#[derive(Debug)]
pub struct WaitingQuery<Query> {
    pub client_id: ClientID,
    pub query_number: QueryNumber,
    pub query: Query,
    /// The last op that may have completed when the query arrived.
    pub op_number: OpNumber,
    /// The round of view confirmations it waits for, the first started
    /// after it arrived.
    pub round: u64,
}

/// A checkpoint a replica fetches, one chunk at a time.
#[derive(Debug)]
pub struct Fetch<Op> {
    /// The replica that keeps it.
    pub(crate) from: ReplicaID,
    /// The chunk to ask for next.
    pub(crate) index: usize,
    /// Idle periods since the fetch started or the last chunk arrived.
    pub(crate) idle_periods: usize,
    /// Whether it waited too long for a chunk: the replica asks for state
    /// again, and goes on with this fetch if the answer names the same
    /// checkpoint.
    pub(crate) stalled: bool,
    /// The message that named the checkpoint, handled again once it is
    /// restored.
    pub(crate) resume: Resume<Op>,
}

/// A message that named a checkpoint to fetch.
#[derive(Debug)]
pub enum Resume<Op> {
    NewState { view_number: ViewNumber, segment: LogSegment<Op>, commit_number: CommitID },
    RecoveryResponse { view_number: ViewNumber, state: RecoveryState<Op> },
}

/// What a message that named a checkpoint says.
#[verifier::ext_equal]
pub enum ResumeView<Op> {
    NewState { view_number: ViewNumber, segment: SegmentView<Op>, commit_number: CommitID },
    RecoveryResponse { view_number: ViewNumber, state: RecoveryView<Op> },
}

impl<Op> View for Resume<Op> {
    type V = ResumeView<Op>;

    open spec fn view(&self) -> ResumeView<Op> {
        match *self {
            Resume::NewState { view_number, segment, commit_number } => ResumeView::NewState {
                view_number,
                segment: segment@,
                commit_number,
            },
            Resume::RecoveryResponse { view_number, state } => ResumeView::RecoveryResponse {
                view_number,
                state: state@,
            },
        }
    }
}

impl<Op> ResumeView<Op> {
    /// The op number of the checkpoint the message named.
    pub open spec fn checkpoint(self) -> OpNumber {
        match self {
            ResumeView::NewState { segment, .. } => segment.base.op(),
            ResumeView::RecoveryResponse { state, .. } => state.segment.base.op(),
        }
    }
}

impl<Op> Resume<Op> {
    /// The op number of the checkpoint the message named.
    pub(crate) fn checkpoint(&self) -> (op_number: OpNumber)
        ensures
            op_number == self@.checkpoint(),
    {
        match self {
            Resume::NewState { segment, .. } => segment.start(),
            Resume::RecoveryResponse { state, .. } => state.segment.start(),
        }
    }
}

/// How far a fetch is.
#[verifier::ext_equal]
pub struct FetchView<Op> {
    pub from: ReplicaID,
    pub index: usize,
    pub idle_periods: usize,
    pub stalled: bool,
    pub resume: ResumeView<Op>,
}

impl<Op> View for Fetch<Op> {
    type V = FetchView<Op>;

    open(crate) spec fn view(&self) -> FetchView<Op> {
        FetchView {
            from: self.from,
            index: self.index,
            idle_periods: self.idle_periods,
            stalled: self.stalled,
            resume: self.resume@,
        }
    }
}

/// How far an optional fetch is.
pub open spec fn fetch_view<Op>(fetch: Option<Fetch<Op>>) -> Option<FetchView<Op>> {
    match fetch {
        Some(fetch) => Some(fetch@),
        None => None,
    }
}

/// What installing a segment came to.
pub enum Installed<Op> {
    /// The segment extends or replaces the log.
    Log,
    /// The segment is of no use.
    Nothing,
    /// The segment follows a checkpoint that must be fetched first.
    Checkpoint(LogSegment<Op>),
}

/// What installing a segment came to.
pub enum InstalledView {
    /// The segment extends or replaces the log.
    Log,
    /// The segment is of no use.
    Nothing,
    /// The segment follows a checkpoint that must be fetched first.
    Checkpoint,
}

/// What a replica reported in a `DoViewChange` message: the view it was
/// last normal in, its log, and its commit number.
#[derive(Debug)]
pub struct DoViewChange<Op> {
    pub(crate) last_normal_view: ViewNumber,
    pub(crate) segment: LogSegment<Op>,
    pub(crate) commit_number: CommitID,
}

/// What a replica reported in a `DoViewChange` message.
#[verifier::ext_equal]
pub struct DoViewChangeView<Op> {
    pub last_normal_view: ViewNumber,
    pub segment: SegmentView<Op>,
    pub commit_number: CommitID,
}

impl<Op> View for DoViewChange<Op> {
    type V = DoViewChangeView<Op>;

    open(crate) spec fn view(&self) -> DoViewChangeView<Op> {
        DoViewChangeView {
            last_normal_view: self.last_normal_view,
            segment: self.segment@,
            commit_number: self.commit_number,
        }
    }
}

/// What a recovering replica keeps of a `RecoveryResponse`: the sender's
/// view, and its state if it was the primary of that view.
#[derive(Debug)]
pub struct RecoveryResponse<Op> {
    pub(crate) view_number: ViewNumber,
    pub(crate) state: Option<RecoveryState<Op>>,
}

/// What a recovering replica keeps of a `RecoveryResponse`.
#[verifier::ext_equal]
pub struct ResponseView<Op> {
    pub view_number: ViewNumber,
    pub state: Option<RecoveryView<Op>>,
}

impl<Op> View for RecoveryResponse<Op> {
    type V = ResponseView<Op>;

    open(crate) spec fn view(&self) -> ResponseView<Op> {
        ResponseView { view_number: self.view_number, state: state_view(self.state) }
    }
}

} // verus!
