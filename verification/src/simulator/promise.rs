use vstd::prelude::*;
use super::state_machine::{Accumulator, Msg, Op};
use super::violation::{MessageKind, Violation};
use crate::ids::{OpNumber, ReplicaID, ViewNumber};
use crate::log::{LogSegment, PersistentState, PersistentView, SegmentView};
use crate::message::{Message, MessageView, MessageViewFor};
use crate::replica::model::ReplicaModel;
use crate::replica::Replica;

verus! {

/// A replica sends these only for state on its disk, which each message is
/// checked against as it leaves:
///
/// - `PrepareOk` for op `n` in view `v`: the disk was last normal in `v`
///   and holds the replica's uncommitted entries up to op `n`, or was last
///   normal in a later view. A write can be out while the replica goes on
///   into a later view, whose log replaces the one the acknowledgement
///   covers; once the replica was last normal after `v`, the disk's log of
///   view `v` is the reference instead of the replica's.
/// - `StartViewChange`, `DoViewChange`, and `StartView` for view `v`: the
///   disk's view is at least `v`.
/// - `DoViewChange` and `StartView`: the disk holds the log they carry.
/// - `Recovery` for view `v`: the disk is recovering, in `v` or later.
/// - `RecoveryResponse` for view `v`: the disk is recovering no more, its
///   view is at least `v`, and it holds the log a primary's response
///   carries.
///
/// A later delivery in the same step can supersede a message the step
/// produced earlier and change what it described: a `DoViewChange` for `v`
/// once view `v` starts, a `StartView` or a primary's `RecoveryResponse`
/// for `v` once a later view does, a `Recovery` once the recovery
/// completes. The disk then holds the later state, which the check takes
/// instead. `Prepare`, `Commit`, `GetState`, and `NewState` ask for or
/// report state the receiver acts on, and may leave before the write.
#[derive(Clone, Copy, Debug)]
pub struct DurablePromise;

/// Whether the disk holds the entries the replica has in memory after its
/// commit number, up to op `op_number`, where both hold them.
pub open spec fn holds_uncommitted(
    disk: PersistentView<Op>,
    replica: ReplicaModel<Accumulator>,
    op_number: OpNumber,
) -> bool {
    forall|op: int|
        replica.commit_number < op && replica.log_start < op && disk.log_start < op && op
            <= op_number && op <= replica.op_number() ==> disk.has_entry(
            op,
            #[trigger] replica.entry(op),
        )
}

/// Whether the disk holds every entry of `segment`, or has compacted it,
/// which only committed entries are.
pub open spec fn holds_segment(disk: PersistentView<Op>, segment: SegmentView<Op>) -> bool {
    forall|i: int|
        0 <= i < segment.entries.len() && disk.log_start <= segment.start() + i ==> disk.has_entry(
            segment.start() + i + 1,
            #[trigger] segment.entries[i],
        )
}

/// Whether the disk backs what `message` promises of it.
pub open spec fn backed(
    disk: PersistentView<Op>,
    replica: ReplicaModel<Accumulator>,
    message: MessageViewFor<Accumulator>,
) -> bool {
    match message {
        MessageView::PrepareOk { view_number, op_number, .. } => {
            &&& !disk.recovering
            &&& disk.last_normal_view > view_number || (disk.last_normal_view == view_number
                && disk.end() >= op_number && (replica.last_normal_view > view_number
                || holds_uncommitted(disk, replica, op_number)))
        },
        MessageView::StartViewChange { view_number, .. } => disk.view_number >= view_number,
        MessageView::DoViewChange { view_number, last_normal_view, segment, .. } => {
            &&& disk.view_number >= view_number
            &&& disk.last_normal_view >= view_number || (disk.last_normal_view >= last_normal_view
                && holds_segment(disk, segment))
        },
        MessageView::StartView { view_number, segment, .. } => {
            &&& disk.view_number >= view_number
            &&& disk.last_normal_view > view_number || (disk.last_normal_view == view_number
                && holds_segment(disk, segment))
        },
        MessageView::Recovery { view_number, .. } => {
            &&& disk.view_number >= view_number
            &&& disk.recovering || disk.last_normal_view >= view_number
        },
        MessageView::RecoveryResponse { view_number, state, .. } => {
            &&& !disk.recovering
            &&& disk.view_number >= view_number
            &&& disk.last_normal_view > view_number || (state matches Some(state)
                ==> holds_segment(disk, state.segment))
        },
        _ => true,
    }
}

/// The view a message names, or 0 if it names none.
pub open spec fn view_of(message: MessageViewFor<Accumulator>) -> ViewNumber {
    match message {
        MessageView::Register { .. } => 0,
        MessageView::Request { .. } => 0,
        MessageView::Query { .. } => 0,
        MessageView::GetChunk { .. } => 0,
        MessageView::NewChunk { .. } => 0,
        MessageView::ConfirmView { view_number, .. } => view_number,
        MessageView::ConfirmViewOk { view_number, .. } => view_number,
        MessageView::Prepare { view_number, .. } => view_number,
        MessageView::PrepareOk { view_number, .. } => view_number,
        MessageView::Commit { view_number, .. } => view_number,
        MessageView::GetState { view_number, .. } => view_number,
        MessageView::NewState { view_number, .. } => view_number,
        MessageView::StartViewChange { view_number, .. } => view_number,
        MessageView::DoViewChange { view_number, .. } => view_number,
        MessageView::StartView { view_number, .. } => view_number,
        MessageView::Recovery { view_number, .. } => view_number,
        MessageView::RecoveryResponse { view_number, .. } => view_number,
    }
}

/// The kind of a message.
pub open spec fn sort_of(message: MessageViewFor<Accumulator>) -> MessageKind {
    match message {
        MessageView::Register { .. } => MessageKind::Register,
        MessageView::Request { .. } => MessageKind::Request,
        MessageView::Query { .. } => MessageKind::Query,
        MessageView::ConfirmView { .. } => MessageKind::ConfirmView,
        MessageView::ConfirmViewOk { .. } => MessageKind::ConfirmViewOk,
        MessageView::Prepare { .. } => MessageKind::Prepare,
        MessageView::PrepareOk { .. } => MessageKind::PrepareOk,
        MessageView::Commit { .. } => MessageKind::Commit,
        MessageView::GetState { .. } => MessageKind::GetState,
        MessageView::NewState { .. } => MessageKind::NewState,
        MessageView::GetChunk { .. } => MessageKind::GetChunk,
        MessageView::NewChunk { .. } => MessageKind::NewChunk,
        MessageView::StartViewChange { .. } => MessageKind::StartViewChange,
        MessageView::DoViewChange { .. } => MessageKind::DoViewChange,
        MessageView::StartView { .. } => MessageKind::StartView,
        MessageView::Recovery { .. } => MessageKind::Recovery,
        MessageView::RecoveryResponse { .. } => MessageKind::RecoveryResponse,
    }
}

/// What is wrong with a message that the disk does not back.
pub open spec fn unbacked(
    replica_id: ReplicaID,
    disk: PersistentView<Op>,
    message: MessageViewFor<Accumulator>,
) -> Violation {
    Violation::Unbacked {
        replica_id,
        kind: sort_of(message),
        view_number: view_of(message),
        disk_view: disk.view_number,
        last_normal_view: disk.last_normal_view,
        op_number: disk.end() as OpNumber,
        recovering: disk.recovering,
    }
}

impl DurablePromise {
    pub fn name(&self) -> (name: &'static str)
        ensures
            name@ == "durable-promise"@,
    {
        "durable-promise"
    }

    /// Checks `message` as replica `id` sends it, with the replica and its
    /// disk as of then.
    pub fn on_send(
        &mut self,
        id: ReplicaID,
        replica: &Replica<Accumulator>,
        disk: &PersistentState<Op>,
        message: &Msg,
    ) -> (result: Result<(), Violation>)
        requires
            replica.wf(),
            disk@.end() <= usize::MAX,
        ensures
            result == (if backed(disk@, replica@, message@) {
                Ok::<(), Violation>(())
            } else {
                Err(unbacked(id, disk@, message@))
            }),
    {
        let backed = match message {
            Message::PrepareOk { view_number, op_number, .. } => {
                !disk.recovering && (disk.last_normal_view > *view_number || (
                disk.last_normal_view == *view_number && disk.log_start + disk.log.len()
                    >= *op_number && (replica.last_normal_view() > *view_number
                    || disk_holds_uncommitted(disk, replica, *op_number))))
            },
            Message::StartViewChange { view_number, .. } => disk.view_number >= *view_number,
            Message::DoViewChange { view_number, last_normal_view, segment, .. } => {
                disk.view_number >= *view_number && (disk.last_normal_view >= *view_number || (
                disk.last_normal_view >= *last_normal_view && disk_holds_segment(disk, segment)))
            },
            Message::StartView { view_number, segment, .. } => {
                disk.view_number >= *view_number && (disk.last_normal_view > *view_number || (
                disk.last_normal_view == *view_number && disk_holds_segment(disk, segment)))
            },
            Message::Recovery { view_number, .. } => {
                disk.view_number >= *view_number && (disk.recovering || disk.last_normal_view
                    >= *view_number)
            },
            Message::RecoveryResponse { view_number, state, .. } => {
                !disk.recovering && disk.view_number >= *view_number && (disk.last_normal_view
                    > *view_number || match state {
                    Some(state) => disk_holds_segment(disk, &state.segment),
                    None => true,
                })
            },
            _ => true,
        };
        if backed {
            Ok(())
        } else {
            Err(
                Violation::Unbacked {
                    replica_id: id,
                    kind: message_sort(message),
                    view_number: message_view(message),
                    disk_view: disk.view_number,
                    last_normal_view: disk.last_normal_view,
                    op_number: disk.log_start + disk.log.len(),
                    recovering: disk.recovering,
                },
            )
        }
    }
}

/// Whether the disk holds the entries the replica has in memory after its
/// commit number, up to op `op_number`, where both hold them. The
/// committed ones are what `Durability` and `CommittedPrefixAgreement`
/// look after.
fn disk_holds_uncommitted(
    disk: &PersistentState<Op>,
    replica: &Replica<Accumulator>,
    op_number: OpNumber,
) -> (holds: bool)
    requires
        replica.wf(),
        disk@.end() <= usize::MAX,
    ensures
        holds == holds_uncommitted(disk@, replica@, op_number),
{
    let mut from = replica.commit_number();
    if replica.log_start() > from {
        from = replica.log_start();
    }
    if disk.log_start > from {
        from = disk.log_start;
    }
    let held = replica.op_number();
    let last = if op_number <= held {
        op_number
    } else {
        held
    };
    let mut op = from;
    while op < last
        invariant
            replica.wf(),
            disk@.end() <= usize::MAX,
            from >= replica@.commit_number,
            from >= replica@.log_start,
            from >= disk@.log_start,
            from <= op,
            last <= replica@.op_number(),
            last <= op_number,
            forall|n: int|
                from < n && n <= op && n <= last ==> disk@.has_entry(
                    n,
                    #[trigger] replica@.entry(n),
                ),
        decreases last - op,
    {
        let next: OpNumber = op + 1;
        let index: usize = next - disk.log_start - 1;
        assert(replica@.entry(next as int) == replica@.log[next - replica@.log_start - 1]);
        if index >= disk.log.len() || disk.log[index] != replica.log()[next - replica.log_start()
            - 1] {
            return false;
        }
        op = next;
    }
    true
}

/// Whether the disk holds every entry of `segment`, or has compacted it,
/// which only committed entries are.
fn disk_holds_segment(disk: &PersistentState<Op>, segment: &LogSegment<Op>) -> (holds: bool)
    requires
        disk@.end() <= usize::MAX,
    ensures
        holds == holds_segment(disk@, segment@),
{
    let start = segment.start();
    let skip: usize = if disk.log_start > start {
        disk.log_start - start
    } else {
        0
    };
    let ghost entries = segment@.entries;
    let mut i: usize = skip;
    while i < segment.entries.len()
        invariant
            disk@.end() <= usize::MAX,
            entries == segment@.entries,
            start == segment@.start(),
            disk@.log_start <= start + skip,
            skip <= i,
            i <= entries.len() || i == skip,
            forall|j: int|
                skip <= j && j < i ==> disk@.has_entry(start + j + 1, #[trigger] entries[j]),
        decreases entries.len() - i,
    {
        let index: usize = match start.checked_add(i) {
            Some(op_number) => op_number - disk.log_start,
            None => disk.log.len(),
        };
        if index >= disk.log.len() || disk.log[index] != segment.entries[i] {
            assert(entries[i as int] == segment.entries@[i as int]);
            return false;
        }
        i += 1;
    }
    true
}

/// The view a message names, for error messages.
pub fn message_view(message: &Msg) -> (view_number: ViewNumber)
    ensures
        view_number == view_of(message@),
{
    match message {
        Message::Register { .. } => 0,
        Message::Request { .. } => 0,
        Message::Query { .. } => 0,
        Message::GetChunk { .. } => 0,
        Message::NewChunk { .. } => 0,
        Message::ConfirmView { view_number, .. } => *view_number,
        Message::ConfirmViewOk { view_number, .. } => *view_number,
        Message::Prepare { view_number, .. } => *view_number,
        Message::PrepareOk { view_number, .. } => *view_number,
        Message::Commit { view_number, .. } => *view_number,
        Message::GetState { view_number, .. } => *view_number,
        Message::NewState { view_number, .. } => *view_number,
        Message::StartViewChange { view_number, .. } => *view_number,
        Message::DoViewChange { view_number, .. } => *view_number,
        Message::StartView { view_number, .. } => *view_number,
        Message::Recovery { view_number, .. } => *view_number,
        Message::RecoveryResponse { view_number, .. } => *view_number,
    }
}

/// The kind of a message.
pub fn message_sort(message: &Msg) -> (kind: MessageKind)
    ensures
        kind == sort_of(message@),
{
    match message {
        Message::Register { .. } => MessageKind::Register,
        Message::Request { .. } => MessageKind::Request,
        Message::Query { .. } => MessageKind::Query,
        Message::ConfirmView { .. } => MessageKind::ConfirmView,
        Message::ConfirmViewOk { .. } => MessageKind::ConfirmViewOk,
        Message::Prepare { .. } => MessageKind::Prepare,
        Message::PrepareOk { .. } => MessageKind::PrepareOk,
        Message::Commit { .. } => MessageKind::Commit,
        Message::GetState { .. } => MessageKind::GetState,
        Message::NewState { .. } => MessageKind::NewState,
        Message::GetChunk { .. } => MessageKind::GetChunk,
        Message::NewChunk { .. } => MessageKind::NewChunk,
        Message::StartViewChange { .. } => MessageKind::StartViewChange,
        Message::DoViewChange { .. } => MessageKind::DoViewChange,
        Message::StartView { .. } => MessageKind::StartView,
        Message::Recovery { .. } => MessageKind::Recovery,
        Message::RecoveryResponse { .. } => MessageKind::RecoveryResponse,
    }
}

} // verus!
