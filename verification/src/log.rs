use vstd::prelude::*;
use crate::duplicate::exact_clone;
use crate::ids::{ClientID, CommitID, OpNumber, RequestNumber, ViewNumber};

verus! {

/// A log entry: a client's registration, or a request.
#[derive(Debug, PartialEq, Eq, Structural)]
pub enum LogEntry<Op> {
    /// Opens a session for the client, numbered with this entry's op
    /// number, unless the client has one.
    Register { client_id: ClientID },
    /// A request of the client's session `session`, executed only if the
    /// session is still in the client table.
    Request {
        client_id: ClientID,
        session: OpNumber,
        request_number: RequestNumber,
        /// The client has the replies to its session's requests up to this
        /// one, and re-sends none of them: the client table drops their
        /// results.
        answered: RequestNumber,
        op: Op,
    },
}

impl<Op> LogEntry<Op> {
    /// The client whose registration or request the entry is.
    pub open spec fn client(self) -> ClientID {
        match self {
            LogEntry::Register { client_id } => client_id,
            LogEntry::Request { client_id, .. } => client_id,
        }
    }

    /// The session and request number of the entry as op `op_number`: a
    /// registration opens the session numbered with it, and is its
    /// request 0.
    pub open spec fn key(self, op_number: OpNumber) -> (OpNumber, RequestNumber) {
        match self {
            LogEntry::Register { .. } => (op_number, 0),
            LogEntry::Request { session, request_number, .. } => (session, request_number),
        }
    }

    pub fn client_id(&self) -> (client_id: ClientID)
        ensures
            client_id == self.client(),
    {
        match self {
            LogEntry::Register { client_id } => *client_id,
            LogEntry::Request { client_id, .. } => *client_id,
        }
    }
}

impl<Op: Clone> Clone for LogEntry<Op> {
    fn clone(&self) -> (copy: LogEntry<Op>)
        ensures
            exact_clone::<Op>() ==> copy == *self,
    {
        match self {
            LogEntry::Register { client_id } => LogEntry::Register { client_id: *client_id },
            LogEntry::Request { client_id, session, request_number, answered, op } => {
                let op_copy = op.clone();
                assert(cloned(*op, op_copy));
                LogEntry::Request {
                    client_id: *client_id,
                    session: *session,
                    request_number: *request_number,
                    answered: *answered,
                    op: op_copy,
                }
            },
        }
    }
}

/// Appends copies of the entries of `from` after its first `skip` to `to`.
pub(crate) fn append_copies<Op: Clone>(
    to: &mut Vec<LogEntry<Op>>,
    from: &Vec<LogEntry<Op>>,
    skip: usize,
)
    requires
        exact_clone::<Op>(),
        skip <= from@.len(),
    ensures
        final(to)@ == old(to)@ + from@.skip(skip as int),
{
    let mut i: usize = skip;
    while i < from.len()
        invariant
            exact_clone::<Op>(),
            skip <= i <= from@.len(),
            to@ == old(to)@ + from@.subrange(skip as int, i as int),
        decreases from@.len() - i,
    {
        let entry = from[i].clone();
        to.push(entry);
        i += 1;
    }
    assert(from@.subrange(skip as int, i as int) == from@.skip(skip as int));
}

/// A copy of the entries of `from` after its first `skip`.
pub(crate) fn copy_from<Op: Clone>(from: &Vec<LogEntry<Op>>, skip: usize) -> (copy: Vec<LogEntry<Op>>)
    requires
        exact_clone::<Op>(),
        skip <= from@.len(),
    ensures
        copy@ == from@.skip(skip as int),
{
    let mut copy: Vec<LogEntry<Op>> = Vec::new();
    append_copies(&mut copy, from, skip);
    copy
}

/// Drops the first `count` items of `items`.
pub(crate) fn drop_front<T>(items: &mut Vec<T>, count: usize)
    requires
        count <= old(items)@.len(),
    ensures
        final(items)@ == old(items)@.skip(count as int),
{
    let mut rest = items.split_off(count);
    std::mem::swap(items, &mut rest);
}

/// What a stretch of log starts from.
#[derive(Clone, Copy, Debug, PartialEq, Eq)]
pub enum LogBase {
    /// The op number the entries start after. The receiver holds the
    /// entries up to it.
    Op(OpNumber),
    /// The op number of a checkpoint the sender keeps, which the entries
    /// follow. Sent when the sender has compacted entries the receiver
    /// needs, which fetches the checkpoint in chunks.
    Checkpoint(OpNumber),
}

impl LogBase {
    /// The op number the entries start after.
    pub open spec fn op(self) -> OpNumber {
        match self {
            LogBase::Op(op_number) => op_number,
            LogBase::Checkpoint(op_number) => op_number,
        }
    }

    /// The op number the entries start after.
    pub fn start(&self) -> (op_number: OpNumber)
        ensures
            op_number == self.op(),
    {
        match self {
            LogBase::Op(op_number) => *op_number,
            LogBase::Checkpoint(op_number) => *op_number,
        }
    }
}

/// A stretch of a replica's log: the entries after `base`.
#[derive(Debug, PartialEq, Eq)]
pub struct LogSegment<Op> {
    pub base: LogBase,
    pub entries: Vec<LogEntry<Op>>,
}

/// What a stretch of log holds.
#[verifier::ext_equal]
pub struct SegmentView<Op> {
    pub base: LogBase,
    pub entries: Seq<LogEntry<Op>>,
}

impl<Op> SegmentView<Op> {
    /// The op number the entries start after.
    pub open spec fn start(self) -> int {
        self.base.op() as int
    }

    /// The op number of the last entry.
    pub open spec fn end(self) -> int {
        self.start() + self.entries.len()
    }
}

impl<Op> View for LogSegment<Op> {
    type V = SegmentView<Op>;

    open spec fn view(&self) -> SegmentView<Op> {
        SegmentView { base: self.base, entries: self.entries@ }
    }
}

impl<Op> LogSegment<Op> {
    /// The op number the entries start after.
    pub fn start(&self) -> (op_number: OpNumber)
        ensures
            op_number == self@.start(),
    {
        self.base.start()
    }

    /// The op number of the last entry.
    pub fn end(&self) -> (op_number: OpNumber)
        requires
            self@.end() <= usize::MAX,
        ensures
            op_number == self@.end(),
    {
        self.start() + self.entries.len()
    }
}

impl<Op: Clone> Clone for LogSegment<Op> {
    fn clone(&self) -> (copy: LogSegment<Op>)
        ensures
            exact_clone::<Op>() ==> copy@ == self@,
    {
        let entries = self.entries.clone();
        proof {
            if exact_clone::<Op>() {
                assert forall|i: int| 0 <= i < entries@.len() implies entries@[i] == self.entries@[i] by {
                    assert(cloned(self.entries@[i], entries@[i]));
                }
                assert(entries@ =~= self.entries@);
            }
        }
        LogSegment { base: self.base, entries }
    }
}

/// What the owner has persisted of a replica, which it hands back to
/// [`crate::Replica::restart`]: the view state and the log. The client table
/// and the number of applied operations belong to the state machine, which
/// keeps them with its own durable state.
#[derive(Debug, PartialEq, Eq)]
pub struct PersistentState<Op> {
    pub view_number: ViewNumber,
    /// The latest view in which the replica's status was normal, which
    /// ranks its log in a view change.
    pub last_normal_view: ViewNumber,
    pub commit_number: CommitID,
    /// The op number of the last entry compacted away; `log` holds the
    /// entries after it.
    pub log_start: OpNumber,
    pub log: Vec<LogEntry<Op>>,
    /// Whether the replica was still recovering from a disk loss. Such a
    /// replica holds nothing it may act on, and must recover again.
    pub recovering: bool,
}

/// What a persisted state holds.
#[verifier::ext_equal]
pub struct PersistentView<Op> {
    pub view_number: ViewNumber,
    pub last_normal_view: ViewNumber,
    pub commit_number: CommitID,
    pub log_start: OpNumber,
    pub log: Seq<LogEntry<Op>>,
    pub recovering: bool,
}

impl<Op> View for PersistentState<Op> {
    type V = PersistentView<Op>;

    open spec fn view(&self) -> PersistentView<Op> {
        PersistentView {
            view_number: self.view_number,
            last_normal_view: self.last_normal_view,
            commit_number: self.commit_number,
            log_start: self.log_start,
            log: self.log@,
            recovering: self.recovering,
        }
    }
}

impl<Op> PersistentView<Op> {
    /// The state of a replica that has done nothing yet.
    pub open spec fn empty() -> Self {
        PersistentView {
            view_number: 0,
            last_normal_view: 0,
            commit_number: 0,
            log_start: 0,
            log: Seq::empty(),
            recovering: false,
        }
    }

    /// The op number of the last entry.
    pub open spec fn end(self) -> int {
        self.log_start + self.log.len()
    }

    /// Whether the log holds `entry` as op `op_number`.
    pub open spec fn has_entry(self, op_number: int, entry: LogEntry<Op>) -> bool {
        &&& self.log_start < op_number <= self.end()
        &&& self.log[op_number - self.log_start - 1] == entry
    }

    /// The state without the entries up to `op_number`.
    pub open spec fn compacted(self, op_number: OpNumber) -> Self {
        if op_number <= self.log_start {
            self
        } else if op_number - self.log_start >= self.log.len() {
            PersistentView { log_start: op_number, log: Seq::empty(), ..self }
        } else {
            PersistentView {
                log_start: op_number,
                log: self.log.skip(op_number - self.log_start),
                ..self
            }
        }
    }

    /// Whether `write` can be applied: its entries follow what the state
    /// holds once compacted as the write says.
    pub open spec fn takes(self, write: WriteView<Op>) -> bool {
        let kept = self.compacted(write.log_start);
        &&& kept.end() < usize::MAX
        &&& kept.log_start + 1 <= write.entries_from <= kept.end() + 1
    }

    /// The state after `write`: what it compacted is gone, and its entries
    /// stand in place of those from `entries_from` on.
    pub open spec fn apply(self, write: WriteView<Op>) -> Self {
        let kept = self.compacted(write.log_start);
        PersistentView {
            view_number: write.view_number,
            last_normal_view: write.last_normal_view,
            commit_number: write.commit_number,
            log_start: kept.log_start,
            log: kept.log.take(write.entries_from - kept.log_start - 1) + write.entries,
            recovering: write.recovering,
        }
    }

    /// The state after `write`, unless it is skipped.
    pub open spec fn taking(self, write: WriteView<Op>, skipped: bool) -> Self {
        if skipped {
            self
        } else {
            self.apply(write)
        }
    }
}

impl<Op: Clone> PersistentState<Op> {
    /// The state of a replica that has done nothing yet.
    pub fn empty() -> (state: PersistentState<Op>)
        ensures
            state@ == PersistentView::<Op>::empty(),
    {
        PersistentState {
            view_number: 0,
            last_normal_view: 0,
            commit_number: 0,
            log_start: 0,
            log: Vec::new(),
            recovering: false,
        }
    }

    /// Brings this copy of the persisted state up to date with `write`,
    /// for an owner that keeps the state in memory: the compacted prefix
    /// goes first, then the entries from [`LogWrite::entries_from`] on,
    /// then the counters.
    pub fn apply(&mut self, write: &LogWrite<Op>)
        requires
            exact_clone::<Op>(),
            old(self)@.takes(write@),
        ensures
            final(self)@ == old(self)@.apply(write@),
    {
        if write.log_start > self.log_start {
            let behind: usize = write.log_start - self.log_start;
            if behind >= self.log.len() {
                self.log.clear();
            } else {
                drop_front(&mut self.log, behind);
            }
            self.log_start = write.log_start;
        }
        let keep: usize = write.entries_from - self.log_start - 1;
        self.log.truncate(keep);
        append_copies(&mut self.log, &write.entries, 0);
        self.view_number = write.view_number;
        self.last_normal_view = write.last_normal_view;
        self.commit_number = write.commit_number;
        self.recovering = write.recovering;
    }
}

impl<Op: Clone> Clone for PersistentState<Op> {
    fn clone(&self) -> (copy: PersistentState<Op>)
        ensures
            exact_clone::<Op>() ==> copy@ == self@,
    {
        let log = self.log.clone();
        proof {
            if exact_clone::<Op>() {
                assert forall|i: int| 0 <= i < log@.len() implies log@[i] == self.log@[i] by {
                    assert(cloned(self.log@[i], log@[i]));
                }
                assert(log@ =~= self.log@);
            }
        }
        PersistentState {
            view_number: self.view_number,
            last_normal_view: self.last_normal_view,
            commit_number: self.commit_number,
            log_start: self.log_start,
            log,
            recovering: self.recovering,
        }
    }
}

/// What the steps since the last write changed, for the owner to persist
/// before it hands the write back with [`crate::Replica::persisted`]: the
/// whole view state, and the log entries that changed.
#[must_use]
#[derive(Debug, PartialEq, Eq)]
pub struct LogWrite<Op> {
    pub view_number: ViewNumber,
    pub last_normal_view: ViewNumber,
    pub recovering: bool,
    pub commit_number: CommitID,
    /// The op number of the last entry compacted away: the owner drops
    /// what it holds up to it.
    pub log_start: OpNumber,
    /// The op number of the first of `entries`: the owner drops what it
    /// holds from here on and appends `entries`. It is past the last entry
    /// when no entry changed.
    pub entries_from: OpNumber,
    pub entries: Vec<LogEntry<Op>>,
    /// Whether the write must be durable before
    /// [`crate::Replica::persisted`]. It need not be when nothing but the
    /// commit number changed: the owner may then skip the disk, or write
    /// without waiting, and hands the write back either way.
    pub sync: bool,
    /// The op number of the last log entry, as of the write.
    pub(crate) op_number: OpNumber,
    /// The write's position among the replica's writes.
    pub(crate) sequence: u64,
}

/// What a write holds.
#[verifier::ext_equal]
pub struct WriteView<Op> {
    pub view_number: ViewNumber,
    pub last_normal_view: ViewNumber,
    pub recovering: bool,
    pub commit_number: CommitID,
    pub log_start: OpNumber,
    pub entries_from: OpNumber,
    pub entries: Seq<LogEntry<Op>>,
    pub sync: bool,
    pub op_number: OpNumber,
    pub sequence: u64,
}

impl<Op> View for LogWrite<Op> {
    type V = WriteView<Op>;

    open(crate) spec fn view(&self) -> WriteView<Op> {
        WriteView {
            view_number: self.view_number,
            last_normal_view: self.last_normal_view,
            recovering: self.recovering,
            commit_number: self.commit_number,
            log_start: self.log_start,
            entries_from: self.entries_from,
            entries: self.entries@,
            sync: self.sync,
            op_number: self.op_number,
            sequence: self.sequence,
        }
    }
}

impl<Op> LogWrite<Op> {
    /// The op number of the last log entry, as of the write.
    pub fn op_number(&self) -> (op_number: OpNumber)
        ensures
            op_number == self@.op_number,
    {
        self.op_number
    }
}

impl<Op: Clone> Clone for LogWrite<Op> {
    fn clone(&self) -> (copy: LogWrite<Op>)
        ensures
            exact_clone::<Op>() ==> copy@ == self@,
    {
        let entries = self.entries.clone();
        proof {
            if exact_clone::<Op>() {
                assert forall|i: int| 0 <= i < entries@.len() implies entries@[i] == self.entries@[i] by {
                    assert(cloned(self.entries@[i], entries@[i]));
                }
                assert(entries@ =~= self.entries@);
            }
        }
        LogWrite {
            view_number: self.view_number,
            last_normal_view: self.last_normal_view,
            recovering: self.recovering,
            commit_number: self.commit_number,
            log_start: self.log_start,
            entries_from: self.entries_from,
            entries,
            sync: self.sync,
            op_number: self.op_number,
            sequence: self.sequence,
        }
    }
}

} // verus!
