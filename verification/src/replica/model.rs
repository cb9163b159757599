use vstd::arithmetic::power2::pow2;
use vstd::prelude::*;
use super::parts::{
    DoViewChangeView, FetchView, InstalledView, Outstanding, ResponseView, ResumeView, Status,
    WaitingQuery, Written, ROUNDS_OUT,
};
use crate::client_table::oldest_session;
use crate::config::ConfigView;
use crate::ids::{ClientID, CommitID, OpNumber, QueryNumber, ReplicaID, RequestNumber, ViewNumber};
use crate::log::{LogBase, LogEntry, PersistentView, SegmentView, WriteView};
use crate::message::{MessageView, MessageViewFor, RecoveryView, Reply};
use crate::state_machine::{table_as_of, RecordView, StateCall, StateCallFor, StateMachine};

verus! {

/// The state of a replica.
#[verifier::ext_equal]
pub struct ReplicaModel<SM: StateMachine> {
    /// Whether every step so far was one the replica can take: no counter
    /// ran past its type, no message broke what the protocol promises of
    /// it, and the state machine took every call.
    pub ok: bool,
    /// The same, but for the order that the requests of a session executed
    /// in.
    pub fits: bool,
    /// The same, but for what the protocol promises: no counter ran past its
    /// type, and the state machine took every call.
    pub room: bool,
    pub config: ConfigView,
    pub self_id: ReplicaID,
    /// The state of the state machine.
    pub machine: SM::State,
    pub status: Status,
    pub view_number: ViewNumber,
    pub last_normal_view: ViewNumber,
    pub commit_number: CommitID,
    pub applied: OpNumber,
    pub reply_ranges: Seq<(OpNumber, OpNumber)>,
    pub log_start: OpNumber,
    pub log: Seq<LogEntry<SM::Input>>,
    pub log_changed_from: Option<OpNumber>,
    pub written: Option<Written>,
    pub writes: u64,
    pub outstanding: Option<Outstanding>,
    pub durable: OpNumber,
    pub acked: Seq<OpNumber>,
    pub resend_up_to: OpNumber,
    pub view_start_op: OpNumber,
    pub queries: Seq<WaitingQuery<SM::Query>>,
    pub round: u64,
    pub round_confirmed: u64,
    pub confirmed: Seq<u64>,
    pub round_unsent: bool,
    /// The sessions in the client table, by client.
    pub records: Map<ClientID, RecordView<SM::Output>>,
    /// The latest entry of each client in the log after `applied`.
    pub pending: Map<ClientID, (OpNumber, RequestNumber)>,
    pub heard_from_primary: bool,
    pub idle_periods_waiting: usize,
    pub view_change_attempts: u32,
    pub idle_periods_stable: usize,
    pub start_view_change_from: Set<ReplicaID>,
    pub do_view_change_sent: bool,
    pub do_view_change_from: Map<ReplicaID, DoViewChangeView<SM::Input>>,
    pub catching_up: Option<ReplicaID>,
    pub serving: Option<(OpNumber, usize)>,
    pub fetch: Option<FetchView<SM::Input>>,
    pub recovery_nonce: u64,
    pub recovery_responses: Map<ReplicaID, ResponseView<SM::Input>>,
    pub outbox_early: Seq<(ReplicaID, MessageViewFor<SM>)>,
    pub outbox: Seq<(ReplicaID, MessageViewFor<SM>)>,
    pub outbox_waiting: Seq<(ReplicaID, MessageViewFor<SM>)>,
    pub outbox_ready: Seq<(ReplicaID, MessageViewFor<SM>)>,
    pub replies: Seq<Reply<SM::Output>>,
}

/// The smaller of two numbers.
pub open spec fn min(a: int, b: int) -> int {
    if a <= b {
        a
    } else {
        b
    }
}

/// The larger of two numbers.
pub open spec fn max(a: int, b: int) -> int {
    if a >= b {
        a
    } else {
        b
    }
}

/// The messages `letter` gives for each of the replicas below `size`, in
/// order.
pub open spec fn mail<M>(size: nat, letter: spec_fn(ReplicaID) -> Option<M>) -> Seq<(ReplicaID, M)>
    decreases size,
{
    if size == 0 {
        Seq::empty()
    } else {
        let replica_id = (size - 1) as ReplicaID;
        let before = mail((size - 1) as nat, letter);
        match letter(replica_id) {
            Some(message) => before.push((replica_id, message)),
            None => before,
        }
    }
}

/// `message` for every replica but `self_id`.
pub open spec fn all_but<M>(self_id: ReplicaID, message: M) -> spec_fn(ReplicaID) -> Option<M> {
    |replica_id: ReplicaID|
        if replica_id != self_id {
            Some(message)
        } else {
            None
        }
}

/// `message` for every replica but `self_id` that has not acknowledged op
/// `due`.
pub open spec fn to_unacked<M>(
    self_id: ReplicaID,
    acked: Seq<OpNumber>,
    due: OpNumber,
    message: M,
) -> spec_fn(ReplicaID) -> Option<M> {
    |replica_id: ReplicaID|
        if replica_id != self_id && acked[replica_id as int] < due {
            Some(message)
        } else {
            None
        }
}

/// `message` for every replica that has not confirmed `round`.
pub open spec fn to_unconfirmed<M>(
    confirmed: Seq<u64>,
    round: u64,
    message: M,
) -> spec_fn(ReplicaID) -> Option<M> {
    |replica_id: ReplicaID|
        if confirmed[replica_id as int] < round {
            Some(message)
        } else {
            None
        }
}

/// `message` for every replica but `self_id` and those in `answered`.
pub open spec fn to_unanswered<M>(
    self_id: ReplicaID,
    answered: Set<ReplicaID>,
    message: M,
) -> spec_fn(ReplicaID) -> Option<M> {
    |replica_id: ReplicaID|
        if replica_id != self_id && !answered.contains(replica_id) {
            Some(message)
        } else {
            None
        }
}

/// Op numbers as integers.
pub open spec fn op_marks(marks: Seq<OpNumber>) -> Seq<int> {
    marks.map_values(|op_number: OpNumber| op_number as int)
}

/// Rounds as integers.
pub open spec fn round_marks(marks: Seq<u64>) -> Seq<int> {
    marks.map_values(|round: u64| round as int)
}

/// How many of `marks` are at least `mark`.
pub open spec fn reach(marks: Seq<int>, mark: int) -> nat {
    marks.filter(|other: int| other >= mark).len()
}

/// Whether `mark` is one of `marks` and at least a quorum of them reach it.
pub open spec fn is_reached(marks: Seq<int>, quorum: int, mark: int) -> bool {
    marks.contains(mark) && reach(marks, mark) >= quorum
}

/// Whether `mark` is the highest of `marks` that a quorum of them reach.
pub open spec fn is_quorum_mark(marks: Seq<int>, quorum: int, mark: int) -> bool {
    &&& is_reached(marks, quorum, mark)
    &&& forall|other: int| is_reached(marks, quorum, other) ==> other <= mark
}

/// The highest of `marks` that a quorum of them reach, or 0.
pub open spec fn quorum_mark(marks: Seq<int>, quorum: int) -> int {
    if exists|mark: int| is_reached(marks, quorum, mark) {
        choose|mark: int| is_quorum_mark(marks, quorum, mark)
    } else {
        0
    }
}

/// The latest entry of each client among `entries`, the ops after `start`.
pub open spec fn pending_of<Op>(entries: Seq<LogEntry<Op>>, start: int) -> Map<
    ClientID,
    (OpNumber, RequestNumber),
>
    decreases entries.len(),
{
    if entries.len() == 0 {
        Map::empty()
    } else {
        let entry = entries.last();
        pending_of(entries.drop_last(), start).insert(
            entry.client(),
            entry.key((start + entries.len()) as OpNumber),
        )
    }
}

/// The last `count` of `items`.
pub open spec fn keep_last<T>(items: Seq<T>, count: int) -> Seq<T> {
    if items.len() > count {
        items.skip(items.len() - count)
    } else {
        items
    }
}

/// `ranges` with the ops from `from` to `to` added: the last range is
/// extended if they follow it.
pub open spec fn add_range(
    ranges: Seq<(OpNumber, OpNumber)>,
    from: OpNumber,
    to: OpNumber,
) -> Seq<(OpNumber, OpNumber)> {
    if ranges.len() > 0 && ranges.last().1 + 1 == from {
        ranges.drop_last().push((ranges.last().0, to))
    } else {
        ranges.push((from, to))
    }
}

/// Whether op `op_number` is in one of `ranges`.
pub open spec fn in_ranges(ranges: Seq<(OpNumber, OpNumber)>, op_number: OpNumber) -> bool {
    exists|i: int|
        0 <= i < ranges.len() && (#[trigger] ranges[i]).0 <= op_number && op_number <= ranges[i].1
}

/// The clients and numbers of `queries`.
pub open spec fn waiting_keys<Query>(queries: Seq<WaitingQuery<Query>>) -> Set<
    (ClientID, QueryNumber),
> {
    Set::new(
        |key: (ClientID, QueryNumber)|
            exists|i: int|
                0 <= i < queries.len() && (#[trigger] queries[i]).client_id == key.0
                    && queries[i].query_number == key.1,
    )
}

/// Whether the log replica `a` reported ranks at least as high as the one
/// replica `b` did: by the view it was last normal in, then by its length,
/// then by its sender.
pub open spec fn ranks_at_least<Op>(
    reports: Map<ReplicaID, DoViewChangeView<Op>>,
    a: ReplicaID,
    b: ReplicaID,
) -> bool {
    let x = reports[a];
    let y = reports[b];
    ||| x.last_normal_view > y.last_normal_view
    ||| x.last_normal_view == y.last_normal_view && x.segment.end() > y.segment.end()
    ||| x.last_normal_view == y.last_normal_view && x.segment.end() == y.segment.end() && a >= b
}

/// Whether `replica_id` reported the log that ranks highest.
pub open spec fn is_best<Op>(
    reports: Map<ReplicaID, DoViewChangeView<Op>>,
    replica_id: ReplicaID,
) -> bool {
    &&& reports.contains_key(replica_id)
    &&& forall|other: ReplicaID| #[trigger]
        reports.contains_key(other) ==> ranks_at_least(reports, replica_id, other)
}

/// The replica that reported the log that ranks highest.
pub open spec fn best<Op>(reports: Map<ReplicaID, DoViewChangeView<Op>>) -> ReplicaID {
    choose|replica_id: ReplicaID| is_best(reports, replica_id)
}

/// Whether `commit_number` is the highest commit number reported.
pub open spec fn is_highest_commit<Op>(
    reports: Map<ReplicaID, DoViewChangeView<Op>>,
    commit_number: CommitID,
) -> bool {
    &&& exists|replica_id: ReplicaID| #[trigger]
        reports.contains_key(replica_id) && reports[replica_id].commit_number == commit_number
    &&& forall|replica_id: ReplicaID| #[trigger]
        reports.contains_key(replica_id) ==> reports[replica_id].commit_number <= commit_number
}

/// The highest commit number reported.
pub open spec fn highest_commit<Op>(reports: Map<ReplicaID, DoViewChangeView<Op>>) -> CommitID {
    choose|commit_number: CommitID| is_highest_commit(reports, commit_number)
}

/// Whether `view_number` is the latest view among `responses`.
pub open spec fn is_latest_view<Op>(
    responses: Map<ReplicaID, ResponseView<Op>>,
    view_number: ViewNumber,
) -> bool {
    &&& exists|replica_id: ReplicaID| #[trigger]
        responses.contains_key(replica_id) && responses[replica_id].view_number == view_number
    &&& forall|replica_id: ReplicaID| #[trigger]
        responses.contains_key(replica_id) ==> responses[replica_id].view_number <= view_number
}

/// The latest view among `responses`.
pub open spec fn latest_view<Op>(responses: Map<ReplicaID, ResponseView<Op>>) -> ViewNumber {
    choose|view_number: ViewNumber| is_latest_view(responses, view_number)
}

/// Whether every segment reported ends at an op number.
pub open spec fn ends_fit<Op>(reports: Map<ReplicaID, DoViewChangeView<Op>>) -> bool {
    forall|replica_id: ReplicaID| #[trigger]
        reports.contains_key(replica_id) ==> reports[replica_id].segment.end() <= usize::MAX
}

impl<SM: StateMachine> ReplicaModel<SM> {
    // What a replica reads off its state.
    /// The op number of the last log entry.
    pub open spec fn op_number(self) -> int {
        self.log_start + self.log.len()
    }

    /// The primary of the current view.
    pub open spec fn primary_id(self) -> ReplicaID {
        self.config.primary_of(self.view_number)
    }

    pub open spec fn is_primary(self) -> bool {
        self.self_id == self.primary_id()
    }

    /// Whether this replica leads its view.
    pub open spec fn leads(self) -> bool {
        self.is_primary() && self.status == Status::Normal
    }

    /// The entry with op number `op_number`.
    pub open spec fn entry(self, op_number: int) -> LogEntry<SM::Input> {
        self.log[op_number - self.log_start - 1]
    }

    /// The log entries from `op_number` on, as far as they are held.
    pub open spec fn log_from(self, op_number: int) -> Seq<LogEntry<SM::Input>> {
        let skip = op_number - self.log_start - 1;
        if skip <= 0 {
            self.log
        } else if skip >= self.log.len() {
            Seq::empty()
        } else {
            self.log.skip(skip)
        }
    }

    /// The op number up to which the handed-back writes hold the log as
    /// memory does.
    pub open spec fn durable_op(self) -> int {
        match self.log_changed_from {
            Some(from) => min(self.durable as int, from - 1),
            None => self.durable as int,
        }
    }

    /// What the owner persists, as of now.
    pub open spec fn persistent_state(self) -> PersistentView<SM::Input> {
        PersistentView {
            view_number: self.view_number,
            last_normal_view: self.last_normal_view,
            commit_number: self.commit_number,
            log_start: self.log_start,
            log: self.log,
            recovering: self.status == Status::Recovering,
        }
    }

    /// The whole log, after what was compacted.
    pub open spec fn whole_log(self) -> SegmentView<SM::Input> {
        SegmentView { base: LogBase::Op(self.log_start), entries: self.log }
    }

    // Steps.
    /// The state, which is not one the replica can be in unless `condition`
    /// holds.
    pub open spec fn check(self, condition: bool) -> Self {
        ReplicaModel {
            ok: self.ok && condition,
            fits: self.fits && condition,
            room: self.room && condition,
            ..self
        }
    }

    /// The state, which is not one that the protocol leads to unless
    /// `condition` holds.
    pub open spec fn promise(self, condition: bool) -> Self {
        ReplicaModel { ok: self.ok && condition, fits: self.fits && condition, ..self }
    }

    /// Makes a call on the state machine.
    pub open spec fn call(self, call: StateCallFor<SM>) -> Self {
        ReplicaModel {
            ok: self.ok && SM::takes(self.machine, call),
            fits: self.fits && SM::takes(self.machine, call),
            room: self.room && SM::takes(self.machine, call),
            machine: SM::step(self.machine, call),
            ..self
        }
    }

    /// Queues a message: one that promises nothing about the durable state
    /// may leave before the next write.
    pub open spec fn send(self, replica_id: ReplicaID, message: MessageViewFor<SM>) -> Self {
        if message.early() {
            ReplicaModel { outbox_early: self.outbox_early.push((replica_id, message)), ..self }
        } else {
            ReplicaModel { outbox: self.outbox.push((replica_id, message)), ..self }
        }
    }

    /// Queues the messages `letter` gives, all of which may leave before the
    /// next write.
    pub open spec fn send_each_early(
        self,
        letter: spec_fn(ReplicaID) -> Option<MessageViewFor<SM>>,
    ) -> Self {
        ReplicaModel {
            outbox_early: self.outbox_early + mail(self.config.size(), letter),
            ..self
        }
    }

    /// Queues the messages `letter` gives, all of which wait for the next
    /// write.
    pub open spec fn send_each_late(
        self,
        letter: spec_fn(ReplicaID) -> Option<MessageViewFor<SM>>,
    ) -> Self {
        ReplicaModel { outbox: self.outbox + mail(self.config.size(), letter), ..self }
    }

    /// Queues a message for every other replica.
    pub open spec fn send_to_others(self, message: MessageViewFor<SM>) -> Self {
        if message.early() {
            self.send_each_early(all_but(self.self_id, message))
        } else {
            self.send_each_late(all_but(self.self_id, message))
        }
    }

    /// Records that the entries from `op_number` on have changed.
    pub open spec fn mark_log_changed(self, op_number: OpNumber) -> Self {
        ReplicaModel {
            log_changed_from: Some(
                match self.log_changed_from {
                    Some(from) => min(from as int, op_number as int) as OpNumber,
                    None => op_number,
                },
            ),
            ..self
        }
    }

    /// Appends `entry` to the log.
    pub open spec fn append_to_log(self, entry: LogEntry<SM::Input>) -> Self {
        let op_number = (self.op_number() + 1) as OpNumber;
        let marked = self.check(self.op_number() + 1 < usize::MAX).mark_log_changed(op_number);
        ReplicaModel {
            pending: self.pending.insert(entry.client(), entry.key(op_number)),
            log: self.log.push(entry),
            ..marked
        }
    }

    /// Appends `entry` to the log and sends it to the backups.
    pub open spec fn prepare(self, entry: LogEntry<SM::Input>) -> Self {
        let appended = self.append_to_log(entry);
        appended.send_to_others(
            MessageView::Prepare {
                view_number: self.view_number,
                op_number: appended.op_number() as OpNumber,
                entry,
                commit_number: self.commit_number,
            },
        )
    }

    /// Rebuilds the pending entries from the log after `applied`.
    pub open spec fn rebuild_pending(self) -> Self {
        ReplicaModel {
            pending: pending_of(self.log.skip(self.applied - self.log_start), self.applied as int),
            ..self
        }
    }

    /// Replaces the log after `start` with `entries`, but for the committed
    /// entries, which stay.
    pub open spec fn merge_log(self, start: OpNumber, entries: Seq<LogEntry<SM::Input>>) -> Self {
        let keep = max(start as int, self.commit_number as int);
        let rest = if keep - start >= entries.len() {
            Seq::empty()
        } else {
            entries.skip(keep - start)
        };
        let checked = self.promise(keep <= self.op_number()).check(
            keep + rest.len() < usize::MAX,
        );
        ReplicaModel {
            log: self.log.take(keep - self.log_start) + rest,
            ..checked.mark_log_changed((keep + 1) as OpNumber)
        }.rebuild_pending()
    }

    /// Takes the client table from the state machine.
    pub open spec fn load_client_table(self) -> Self {
        ReplicaModel {
            records: SM::table(self.machine),
            pending: Map::empty(),
            ..self
        }
    }

    // Execution.
    /// Notes that entry `key` of `client_id` executes.
    pub open spec fn settle(self, client_id: ClientID, key: (OpNumber, RequestNumber)) -> Self {
        if self.pending.contains_key(client_id) && self.pending[client_id] == key {
            ReplicaModel { pending: self.pending.remove(client_id), ..self }
        } else {
            self
        }
    }

    /// The record of `client_id`, if it has a session.
    pub open spec fn record_of(self, client_id: ClientID) -> Option<RecordView<SM::Output>> {
        if self.records.contains_key(client_id) {
            Some(self.records[client_id])
        } else {
            None
        }
    }

    /// Evicts the session whose latest entry executed earliest.
    pub open spec fn evict(self, op_number: OpNumber) -> Self {
        let evicted = oldest_session(self.records);
        ReplicaModel { records: self.records.remove(evicted), ..self }.call(
            StateCall::RecordClient { op_number, client_id: evicted, record: None },
        )
    }

    /// Executes the registration of `client_id`: opens a session numbered
    /// `op_number`, unless the client has one.
    pub open spec fn register(self, op_number: OpNumber, client_id: ClientID) -> (
        Self,
        Reply<SM::Output>,
    ) {
        let settled = self.settle(client_id, (op_number, 0));
        let view_number = self.view_number;
        if self.records.contains_key(client_id) {
            let record = self.records[client_id];
            (
                settled.call(
                    StateCall::RecordClient { op_number, client_id, record: Some(record) },
                ),
                Reply::Registered { view_number, client_id, session: record.session },
            )
        } else {
            let room = if self.records.dom().len() >= self.config.clients_max {
                settled.evict(op_number)
            } else {
                settled
            };
            let record = RecordView {
                client_id,
                session: op_number,
                request_number: 0,
                replies: Seq::empty(),
                op_number,
            };
            (
                ReplicaModel { records: room.records.insert(client_id, record), ..room }.call(
                    StateCall::RecordClient { op_number, client_id, record: Some(record) },
                ),
                Reply::Registered { view_number, client_id, session: op_number },
            )
        }
    }

    /// Executes a request: it runs in its session only, and only as the
    /// session's next.
    pub open spec fn execute_request(
        self,
        op_number: OpNumber,
        client_id: ClientID,
        session: OpNumber,
        request_number: RequestNumber,
        answered: RequestNumber,
        op: SM::Input,
    ) -> (Self, Reply<SM::Output>) {
        let settled = self.settle(client_id, (session, request_number));
        let view_number = self.view_number;
        if !self.records.contains_key(client_id) || self.records[client_id].session != session {
            (
                settled.call(
                    StateCall::RecordClient {
                        op_number,
                        client_id,
                        record: self.record_of(client_id),
                    },
                ),
                Reply::Evicted { view_number, client_id, session },
            )
        } else {
            let record = self.records[client_id];
            let result = SM::output(self.machine, op_number, op);
            let kept = min(
                max(request_number - answered, 1),
                self.config.in_flight_max as int,
            );
            let next = RecordView {
                request_number,
                replies: keep_last(record.replies.push(result), kept),
                op_number,
                ..record
            };
            let applied = ReplicaModel {
                ok: settled.ok && record.request_number + 1 == request_number,
                ..settled
            }.call(StateCall::Apply { op_number, input: op });
            (
                ReplicaModel { records: self.records.insert(client_id, next), ..applied }.call(
                    StateCall::RecordClient { op_number, client_id, record: Some(next) },
                ),
                Reply::Executed { view_number, client_id, session, request_number, result },
            )
        }
    }

    /// Executes the entry at `op_number`.
    pub open spec fn execute(self, op_number: OpNumber) -> (Self, Reply<SM::Output>) {
        match self.entry(op_number as int) {
            LogEntry::Register { client_id } => self.register(op_number, client_id),
            LogEntry::Request { client_id, session, request_number, answered, op } =>
                self.execute_request(op_number, client_id, session, request_number, answered, op),
        }
    }

    /// Executes the next entry, and replies to its client if this replica
    /// committed it as the primary.
    pub open spec fn execute_next(self) -> Self {
        let op_number = (self.applied + 1) as OpNumber;
        let (executed, reply) = self.execute(op_number);
        ReplicaModel {
            applied: op_number,
            replies: if in_ranges(self.reply_ranges, op_number) {
                self.replies.push(reply)
            } else {
                self.replies
            },
            ..executed
        }
    }

    /// Executes the next `count` entries.
    pub open spec fn execute_entries(self, count: nat) -> Self
        decreases count,
    {
        if count == 0 {
            self
        } else {
            self.execute_entries((count - 1) as nat).execute_next()
        }
    }

    /// How many committed entries up to `op_number` have not executed.
    pub open spec fn unexecuted(self, op_number: int) -> nat {
        let last = min(self.commit_number as int, op_number);
        if last > self.applied {
            (last - self.applied) as nat
        } else {
            0
        }
    }

    /// Executes the committed entries up to `op_number`, and answers the
    /// queries that waited for them.
    #[verifier::opaque]
    pub open spec fn apply_committed(self, op_number: int) -> Self {
        let executed = self.execute_entries(self.unexecuted(op_number));
        ReplicaModel {
            reply_ranges: executed.reply_ranges.filter(
                |range: (OpNumber, OpNumber)| range.1 > executed.applied,
            ),
            ..executed
        }.execute_queries()
    }

    /// Commits every op up to `commit_number`, and executes those a
    /// handed-back write holds. The commit number never moves backwards.
    pub open spec fn commit_up_to(self, commit_number: CommitID, reply: bool) -> Self {
        if commit_number <= self.commit_number {
            self
        } else {
            ReplicaModel {
                commit_number,
                reply_ranges: if reply {
                    add_range(
                        self.reply_ranges,
                        (self.commit_number + 1) as OpNumber,
                        commit_number,
                    )
                } else {
                    self.reply_ranges
                },
                ..self
            }.apply_committed(self.durable_op())
        }
    }

    /// Registers that `replica_id` holds every op up to `op_number`, and
    /// commits up to the highest op number a quorum holds.
    pub open spec fn register_ack(self, replica_id: ReplicaID, op_number: OpNumber) -> Self {
        let mark = min(op_number as int, self.op_number()) as OpNumber;
        if mark <= self.acked[replica_id as int] {
            self
        } else {
            let acked = self.acked.update(replica_id as int, mark);
            ReplicaModel { acked, ..self }.commit_up_to(
                quorum_mark(op_marks(acked), self.config.quorum()) as CommitID,
                true,
            )
        }
    }

    // Queries.
    /// Whether the first query waiting may be answered: a quorum has
    /// confirmed its round, and its op is applied.
    pub open spec fn query_ready(self) -> bool {
        &&& self.queries.len() > 0
        &&& self.queries[0].round <= self.round_confirmed
        &&& self.queries[0].op_number <= self.applied
    }

    /// Answers the first query waiting.
    pub open spec fn answer_query(self) -> Self {
        let query = self.queries[0];
        ReplicaModel {
            queries: self.queries.skip(1),
            replies: self.replies.push(
                Reply::Queried {
                    view_number: self.view_number,
                    client_id: query.client_id,
                    query_number: query.query_number,
                    result: SM::answer(self.machine, query.query),
                },
            ),
            ..self
        }
    }

    /// Answers the queries waiting, up to the first that may not go.
    pub open spec fn answer_queries(self) -> Self
        decreases self.queries.len(),
    {
        if self.query_ready() {
            self.answer_query().answer_queries()
        } else {
            self
        }
    }

    /// Answers the queries waiting that may go, if this replica leads.
    pub open spec fn execute_queries(self) -> Self {
        if self.leads() {
            self.answer_queries()
        } else {
            self
        }
    }

    /// Whether query `query_number` of `client_id` is waiting.
    pub open spec fn waits(self, client_id: ClientID, query_number: QueryNumber) -> bool {
        waiting_keys(self.queries).contains((client_id, query_number))
    }

    /// Starts the next round of view confirmations.
    pub open spec fn start_round(self) -> Self {
        let round = (self.round + 1) as u64;
        ReplicaModel {
            round,
            round_unsent: true,
            confirmed: self.confirmed.update(self.self_id as int, round),
            ..self.check(self.round < u64::MAX)
        }.send_to_others(MessageView::ConfirmView { view_number: self.view_number, round })
    }

    pub open spec fn on_query(
        self,
        client_id: ClientID,
        query_number: QueryNumber,
        query: SM::Query,
    ) -> Self {
        if !self.leads() || self.waits(client_id, query_number) {
            self
        } else {
            let starts = !self.round_unsent && self.round - self.round_confirmed < ROUNDS_OUT;
            let next = if starts {
                self.start_round()
            } else {
                self.check(self.round_unsent || self.round < u64::MAX)
            };
            let round = if self.round_unsent {
                self.round
            } else {
                (self.round + 1) as u64
            };
            ReplicaModel {
                queries: next.queries.push(
                    WaitingQuery {
                        client_id,
                        query_number,
                        query,
                        op_number: max(self.commit_number as int, self.view_start_op as int)
                            as OpNumber,
                        round,
                    },
                ),
                ..next
            }
        }
    }

    pub open spec fn on_confirm_view(self, view_number: ViewNumber, round: u64) -> Self {
        if view_number != self.view_number || self.is_primary() {
            self
        } else {
            self.send(
                self.primary_id(),
                MessageView::ConfirmViewOk { view_number, round, replica_id: self.self_id },
            )
        }
    }

    pub open spec fn on_confirm_view_ok(
        self,
        view_number: ViewNumber,
        round: u64,
        replica_id: ReplicaID,
    ) -> Self {
        if view_number != self.view_number || !self.leads() || replica_id >= self.confirmed.len()
            || round > self.round || round <= self.confirmed[replica_id as int] {
            self
        } else {
            let counted = ReplicaModel {
                confirmed: self.confirmed.update(replica_id as int, round),
                ..self
            };
            let round_confirmed = quorum_mark(
                round_marks(counted.confirmed),
                self.config.quorum(),
            ) as u64;
            if round_confirmed <= self.round_confirmed {
                counted
            } else {
                let confirmed = ReplicaModel { round_confirmed, ..counted };
                let next = if self.queries.len() > 0 && self.queries.last().round > self.round {
                    confirmed.start_round()
                } else {
                    confirmed
                };
                next.execute_queries()
            }
        }
    }

    // Requests.
    pub open spec fn on_register(self, client_id: ClientID) -> Self {
        if !self.leads() {
            self
        } else if self.records.contains_key(client_id) {
            ReplicaModel {
                replies: self.replies.push(
                    Reply::Registered {
                        view_number: self.view_number,
                        client_id,
                        session: self.records[client_id].session,
                    },
                ),
                ..self
            }
        } else if self.pending.contains_key(client_id) && self.pending[client_id].1 == 0 {
            self
        } else {
            self.prepare(LogEntry::Register { client_id })
        }
    }

    /// The latest request of `session` appended for `client_id`, whose
    /// record says which executed last.
    pub open spec fn latest_request(self, client_id: ClientID, session: OpNumber) -> RequestNumber {
        if self.pending.contains_key(client_id) && self.pending[client_id].0 == session {
            self.pending[client_id].1
        } else {
            self.records[client_id].request_number
        }
    }

    pub open spec fn on_request(
        self,
        client_id: ClientID,
        session: OpNumber,
        request_number: RequestNumber,
        answered: RequestNumber,
        op: SM::Input,
    ) -> Self {
        let view_number = self.view_number;
        let record = self.records[client_id];
        if !self.leads() {
            self
        } else if !self.records.contains_key(client_id) || record.session != session {
            if session <= self.applied {
                ReplicaModel {
                    replies: self.replies.push(Reply::Evicted { view_number, client_id, session }),
                    ..self
                }
            } else {
                self
            }
        } else if request_number <= record.request_number {
            let behind = record.request_number - request_number;
            let checked = self.check(behind < usize::MAX);
            if behind < record.replies.len() {
                ReplicaModel {
                    replies: self.replies.push(
                        Reply::Executed {
                            view_number,
                            client_id,
                            session,
                            request_number,
                            result: record.replies[record.replies.len() - behind - 1],
                        },
                    ),
                    ..checked
                }
            } else {
                checked
            }
        } else if self.pending.contains_key(client_id) && self.pending[client_id].0 > session {
            self
        } else {
            let latest = self.latest_request(client_id, session);
            let limit = record.request_number + self.config.in_flight_max;
            let checked = self.check(
                latest < usize::MAX && (request_number == latest + 1 ==> limit <= usize::MAX),
            );
            if request_number != latest + 1 || request_number > limit {
                checked
            } else {
                checked.prepare(
                    LogEntry::Request { client_id, session, request_number, answered, op },
                )
            }
        }
    }

    // Normal operation.
    /// Checks a message from the primary of `view_number` against the view
    /// and status, and says whether to process it as a normal-case message.
    pub open spec fn accept_from_primary(self, view_number: ViewNumber) -> (Self, bool) {
        if view_number < self.view_number {
            (self, false)
        } else if view_number > self.view_number {
            (self.catch_up_with_view(view_number), false)
        } else {
            let heard = ReplicaModel { heard_from_primary: true, ..self };
            match self.status {
                Status::Normal => (heard, !self.is_primary()),
                Status::StateTransfer => (heard, false),
                Status::Recovering => (heard, false),
                Status::ViewChange => (heard.catch_up_with_view(view_number), false),
            }
        }
    }

    /// Acknowledges every op to the primary, in place of any acknowledgement
    /// for this view still waiting to be sent.
    pub open spec fn send_prepare_ok(self) -> Self {
        let stale = |mail: (ReplicaID, MessageViewFor<SM>)|
            mail.0 == self.primary_id() && mail.1 is PrepareOk && mail.1->PrepareOk_view_number
                == self.view_number;
        ReplicaModel {
            outbox: self.outbox.filter(
                |mail: (ReplicaID, MessageViewFor<SM>)| !stale(mail),
            ),
            ..self
        }.send(
            self.primary_id(),
            MessageView::PrepareOk {
                view_number: self.view_number,
                op_number: self.op_number() as OpNumber,
                replica_id: self.self_id,
            },
        )
    }

    #[verifier::opaque]
    pub open spec fn on_prepare(
        self,
        view_number: ViewNumber,
        op_number: OpNumber,
        entry: LogEntry<SM::Input>,
        commit_number: CommitID,
    ) -> Self {
        let (accepted, process) = self.accept_from_primary(view_number);
        if !process {
            accepted
        } else if op_number > accepted.op_number() + 1 {
            accepted.state_transfer()
        } else {
            let appended = if op_number == accepted.op_number() + 1 {
                accepted.append_to_log(entry)
            } else {
                accepted
            };
            appended.commit_up_to(
                min(commit_number as int, appended.op_number()) as CommitID,
                false,
            ).send_prepare_ok()
        }
    }

    #[verifier::opaque]
    pub open spec fn on_prepare_ok(
        self,
        view_number: ViewNumber,
        op_number: OpNumber,
        replica_id: ReplicaID,
    ) -> Self {
        if view_number != self.view_number || !self.leads() || replica_id >= self.acked.len() {
            self
        } else {
            self.register_ack(replica_id, op_number)
        }
    }

    #[verifier::opaque]
    pub open spec fn on_commit(self, view_number: ViewNumber, commit_number: CommitID) -> Self {
        let (accepted, process) = self.accept_from_primary(view_number);
        if !process {
            accepted
        } else if commit_number > accepted.op_number() {
            accepted.state_transfer()
        } else {
            accepted.commit_up_to(commit_number, false)
        }
    }

    // State transfer.
    pub open spec fn send_get_state_to(self, replica_id: ReplicaID, op_number: OpNumber) -> Self {
        self.send(
            replica_id,
            MessageView::GetState {
                replica_id: self.self_id,
                view_number: self.view_number,
                op_number,
            },
        )
    }

    /// Asks the primary for the log after the op number.
    pub open spec fn state_transfer(self) -> Self {
        ReplicaModel { status: Status::StateTransfer, ..self }.send_get_state_to(
            self.primary_id(),
            self.op_number() as OpNumber,
        )
    }

    /// Keeps a checkpoint for replicas that fell behind, unless one is kept.
    pub open spec fn keep_checkpoint(self) -> Self {
        if self.serving is Some {
            self
        } else {
            let op_number = SM::checkpoint_op(self.machine);
            ReplicaModel {
                serving: Some((op_number, 0)),
                ..self.call(StateCall::Checkpoint).check(
                    self.log_start <= op_number <= self.applied,
                )
            }
        }
    }

    /// The log after `op_number`, or, if that has been compacted, the log
    /// after the checkpoint kept from now on.
    pub open spec fn segment_from(self, op_number: OpNumber) -> (Self, SegmentView<SM::Input>) {
        if op_number >= self.log_start {
            (
                self,
                SegmentView {
                    base: LogBase::Op(op_number),
                    entries: self.log_from(op_number + 1),
                },
            )
        } else {
            let kept = self.keep_checkpoint();
            let checkpoint = (kept.serving->0).0;
            (
                kept,
                SegmentView {
                    base: LogBase::Checkpoint(checkpoint),
                    entries: kept.log_from(checkpoint + 1),
                },
            )
        }
    }

    /// Whether the log is settled, so that it can be handed out.
    pub open spec fn settled(self) -> bool {
        match self.status {
            Status::Normal => true,
            Status::ViewChange => self.do_view_change_sent && self.catching_up is None,
            Status::StateTransfer => false,
            Status::Recovering => false,
        }
    }

    #[verifier::opaque]
    pub open spec fn on_get_state(
        self,
        replica_id: ReplicaID,
        view_number: ViewNumber,
        op_number: OpNumber,
    ) -> Self {
        if view_number != self.view_number || op_number > self.op_number() || !self.settled() {
            self
        } else {
            let (next, segment) = self.segment_from(op_number);
            next.send(
                replica_id,
                MessageView::NewState {
                    replica_id: self.self_id,
                    view_number,
                    segment,
                    commit_number: self.commit_number,
                },
            )
        }
    }

    /// Whether this replica keeps the checkpoint at `op_number`.
    pub open spec fn serves(self, op_number: OpNumber) -> bool {
        self.serving is Some && (self.serving->0).0 == op_number
    }

    /// Answers a replica fetching the checkpoint kept with `chunk`, which is
    /// the last if `last`.
    pub open spec fn on_get_chunk(
        self,
        replica_id: ReplicaID,
        op_number: OpNumber,
        index: usize,
        chunk: SM::Chunk,
        last: bool,
    ) -> Self {
        if !self.serves(op_number) {
            self
        } else {
            ReplicaModel {
                serving: Some((op_number, 0)),
                ..self.check(SM::takes(self.machine, StateCall::ReadChunk { index }))
            }.send(
                replica_id,
                MessageView::NewChunk {
                    replica_id: self.self_id,
                    op_number,
                    index,
                    chunk,
                    last,
                },
            )
        }
    }

    /// Installs a segment received within the view, which extends the log if
    /// it reaches beyond it.
    pub open spec fn install_segment_in_view(self, segment: SegmentView<SM::Input>) -> (
        Self,
        InstalledView,
    ) {
        let checked = self.check(segment.end() <= usize::MAX);
        if segment.end() <= self.op_number() {
            (checked, InstalledView::Nothing)
        } else if segment.start() > self.op_number() {
            if segment.base is Checkpoint {
                (checked, InstalledView::Checkpoint)
            } else {
                (checked, InstalledView::Nothing)
            }
        } else {
            (checked.merge_log(segment.base.op(), segment.entries), InstalledView::Log)
        }
    }

    /// Installs a segment that replaces everything after the commit number.
    pub open spec fn install_segment_from_commit(self, segment: SegmentView<SM::Input>) -> (
        Self,
        InstalledView,
    ) {
        if segment.start() > self.commit_number {
            if segment.base is Checkpoint {
                (self, InstalledView::Checkpoint)
            } else {
                (self, InstalledView::Nothing)
            }
        } else {
            (self.merge_log(segment.base.op(), segment.entries), InstalledView::Log)
        }
    }

    #[verifier::opaque]
    pub open spec fn on_new_state(
        self,
        replica_id: ReplicaID,
        view_number: ViewNumber,
        segment: SegmentView<SM::Input>,
        commit_number: CommitID,
    ) -> Self {
        if view_number != self.view_number {
            self
        } else {
            let heard = ReplicaModel { heard_from_primary: true, ..self };
            let resume = ResumeView::NewState { view_number, segment, commit_number };
            if self.status == Status::StateTransfer {
                let (next, installed) = heard.install_segment_in_view(segment);
                next.go_on(installed, commit_number, replica_id, resume)
            } else if self.status == Status::ViewChange && self.catching_up is Some {
                let (next, installed) = heard.install_segment_from_commit(segment);
                next.go_on(installed, commit_number, replica_id, resume)
            } else {
                heard
            }
        }
    }

    /// Goes on from a `NewState` with what installing its segment came to.
    pub open spec fn go_on(
        self,
        installed: InstalledView,
        commit_number: CommitID,
        from: ReplicaID,
        resume: ResumeView<SM::Input>,
    ) -> Self {
        match installed {
            InstalledView::Log => self.new_state_installed(commit_number),
            InstalledView::Nothing => self,
            InstalledView::Checkpoint => self.start_fetch(from, resume),
        }
    }

    /// Goes on from a `NewState` whose segment the log now holds.
    pub open spec fn new_state_installed(self, commit_number: CommitID) -> Self {
        let next = ReplicaModel { fetch: None, ..self };
        if self.status == Status::StateTransfer {
            ReplicaModel {
                status: Status::Normal,
                ..next.commit_up_to(commit_number, false)
            }.send_prepare_ok()
        } else {
            let caught_up = ReplicaModel { catching_up: None, ..next };
            if self.is_primary() && self.do_view_change_from.dom().len() >= self.config.quorum() {
                caught_up.try_start_view()
            } else {
                caught_up.commit_up_to(commit_number, false).enter_normal().send_prepare_ok()
            }
        }
    }

    /// Asks for the chunk the fetch under way waits for.
    pub open spec fn send_get_chunk(self) -> Self {
        match self.fetch {
            Some(fetch) => self.send(
                fetch.from,
                MessageView::GetChunk {
                    replica_id: self.self_id,
                    op_number: fetch.resume.checkpoint(),
                    index: fetch.index,
                },
            ),
            None => self,
        }
    }

    /// Fetches from `from` the checkpoint that `resume` names. A fetch of the
    /// same checkpoint goes on from where it is, and one of a later
    /// checkpoint goes on instead unless it has stalled.
    pub open spec fn start_fetch(self, from: ReplicaID, resume: ResumeView<SM::Input>) -> Self {
        let fresh = ReplicaModel {
            fetch: Some(FetchView { from, index: 0, idle_periods: 0, stalled: false, resume }),
            ..self
        }.send_get_chunk();
        match self.fetch {
            Some(fetch) => if fetch.from == from && fetch.resume.checkpoint() == resume.checkpoint() {
                if fetch.stalled {
                    ReplicaModel {
                        fetch: Some(FetchView { resume, stalled: false, idle_periods: 0, ..fetch }),
                        ..self
                    }.send_get_chunk()
                } else {
                    ReplicaModel { fetch: Some(FetchView { resume, ..fetch }), ..self }
                }
            } else if fetch.resume.checkpoint() > resume.checkpoint() && !fetch.stalled {
                self
            } else {
                fresh
            },
            None => fresh,
        }
    }

    /// Whether chunk `index` of the checkpoint `replica_id` keeps at
    /// `op_number` is the one the fetch under way waits for.
    pub open spec fn awaits_chunk(
        self,
        replica_id: ReplicaID,
        op_number: OpNumber,
        index: usize,
    ) -> bool {
        self.fetch matches Some(fetch) && fetch.from == replica_id && fetch.resume.checkpoint()
            == op_number && fetch.index == index
    }

    /// The state with an awaited chunk staged.
    pub open spec fn staged(
        self,
        replica_id: ReplicaID,
        op_number: OpNumber,
        index: usize,
        chunk: SM::Chunk,
        last: bool,
    ) -> Self {
        ReplicaModel {
            fetch: Some(
                FetchView {
                    idle_periods: 0,
                    stalled: false,
                    index: if last {
                        index
                    } else {
                        (index + 1) as usize
                    },
                    ..self.fetch->0
                },
            ),
            idle_periods_waiting: if self.catching_up == Some(replica_id) {
                0
            } else {
                self.idle_periods_waiting
            },
            heard_from_primary: self.heard_from_primary || self.primary_id() == replica_id,
            ..self.check(last || index < usize::MAX).call(
                StateCall::Stage { op_number, index, chunk },
            )
        }
    }

    #[verifier::opaque]
    pub open spec fn on_new_chunk(
        self,
        replica_id: ReplicaID,
        op_number: OpNumber,
        index: usize,
        chunk: SM::Chunk,
        last: bool,
    ) -> Self {
        let staged = self.staged(replica_id, op_number, index, chunk, last);
        let done = ReplicaModel { fetch: None, ..staged };
        if !self.awaits_chunk(replica_id, op_number, index) {
            self
        } else if !last {
            staged.send_get_chunk()
        } else if op_number <= self.commit_number {
            done
        } else {
            done.restore_checkpoint(op_number).resume_after(op_number, (self.fetch->0).resume)
        }
    }

    /// Whether `message` is the last chunk of a checkpoint that the replica
    /// fetches, which it restores.
    pub open spec fn restores(self, message: MessageViewFor<SM>) -> bool {
        message matches MessageView::NewChunk { replica_id, op_number, index, last, .. }
            && self.awaits_chunk(replica_id, op_number, index) && last && op_number
            > self.commit_number
    }

    /// Whether `message` is a chunk that the replica waits for.
    pub open spec fn awaits(self, message: MessageViewFor<SM>) -> bool {
        message matches MessageView::NewChunk { replica_id, op_number, index, .. }
            && self.awaits_chunk(replica_id, op_number, index)
    }

    /// The replica once it has restored the checkpoint that `message` is the
    /// last chunk of.
    pub open spec fn restored(self, message: MessageViewFor<SM>) -> Self {
        match message {
            MessageView::NewChunk { replica_id, op_number, index, chunk, last } => ReplicaModel {
                fetch: None,
                ..self.staged(replica_id, op_number, index, chunk, last)
            }.restore_checkpoint(op_number),
            _ => self,
        }
    }

    /// Goes on, with the checkpoint at `op_number` restored, with the message
    /// that named it.
    #[verifier::opaque]
    pub open spec fn resume_after(self, op_number: OpNumber, resume: ResumeView<SM::Input>) -> Self {
        match resume {
            ResumeView::NewState { view_number, segment, commit_number } => {
                if view_number == self.view_number {
                    self.merge_log(op_number, segment.entries).new_state_installed(commit_number)
                } else {
                    self
                }
            },
            ResumeView::RecoveryResponse { view_number, state } => self.recover_into(
                view_number,
                state,
            ),
        }
    }

    /// Makes the checkpoint staged at `op_number` the state, and starts the
    /// log after it.
    pub open spec fn restore_checkpoint(self, op_number: OpNumber) -> Self {
        let released = if self.serving is Some {
            ReplicaModel { serving: None, ..self.call(StateCall::Release) }
        } else {
            self
        };
        let restored = ReplicaModel {
            commit_number: op_number,
            applied: op_number,
            reply_ranges: Seq::empty(),
            log_start: op_number,
            log: Seq::empty(),
            ..released.check(op_number + 1 < usize::MAX).mark_log_changed(
                (op_number + 1) as OpNumber,
            )
        }.call(StateCall::Restore { op_number });
        restored.check(
            table_as_of(SM::table(restored.machine), op_number),
        ).load_client_table().rebuild_pending()
    }

    // View changes.
    /// Forgets the view change under way and the queries waiting on the last
    /// view.
    pub open spec fn clear_view_change_state(self) -> Self {
        ReplicaModel {
            start_view_change_from: Set::empty(),
            do_view_change_sent: false,
            do_view_change_from: Map::empty(),
            catching_up: None,
            fetch: None,
            queries: Seq::empty(),
            round: 0,
            round_confirmed: 0,
            confirmed: Seq::new(self.config.size(), |i: int| 0u64),
            round_unsent: false,
            ..self
        }
    }

    /// Moves to `view_number` and asks the other replicas to do the same.
    pub open spec fn start_view_change(self, view_number: ViewNumber) -> Self {
        let again = self.status == Status::ViewChange;
        ReplicaModel {
            view_change_attempts: if again {
                (self.view_change_attempts + 1) as u32
            } else {
                self.view_change_attempts
            },
            view_number,
            status: Status::ViewChange,
            idle_periods_waiting: 0,
            ..self.check(!again || self.view_change_attempts < u32::MAX)
        }.clear_view_change_state().send_to_others(
            MessageView::StartViewChange { view_number, replica_id: self.self_id },
        ).maybe_send_do_view_change()
    }

    /// Sends `DoViewChange` once half of the replicas, besides this one,
    /// want the same view.
    pub open spec fn maybe_send_do_view_change(self) -> Self {
        if self.status != Status::ViewChange || self.catching_up is Some || self.do_view_change_sent
            || self.start_view_change_from.len() < self.config.size() as int / 2 {
            self
        } else {
            ReplicaModel { do_view_change_sent: true, ..self }.send_do_view_change()
        }
    }

    /// What this replica reports in a view change.
    pub open spec fn report(self) -> DoViewChangeView<SM::Input> {
        DoViewChangeView {
            last_normal_view: self.last_normal_view,
            segment: self.whole_log(),
            commit_number: self.commit_number,
        }
    }

    /// Sends the state to the new view's primary, or records it directly if
    /// that is this replica.
    pub open spec fn send_do_view_change(self) -> Self {
        if self.is_primary() {
            self.record_do_view_change(self.self_id, self.report())
        } else {
            self.send(
                self.primary_id(),
                MessageView::DoViewChange {
                    view_number: self.view_number,
                    replica_id: self.self_id,
                    last_normal_view: self.last_normal_view,
                    segment: self.whole_log(),
                    commit_number: self.commit_number,
                },
            )
        }
    }

    /// Records a `DoViewChange` and, with a quorum of them, starts the view.
    pub open spec fn record_do_view_change(
        self,
        replica_id: ReplicaID,
        report: DoViewChangeView<SM::Input>,
    ) -> Self {
        let recorded = ReplicaModel {
            do_view_change_from: self.do_view_change_from.insert(replica_id, report),
            ..self
        };
        if recorded.do_view_change_from.dom().len() < self.config.quorum() {
            recorded
        } else {
            recorded.try_start_view()
        }
    }

    /// Starts the view from the log that ranks highest among the reports,
    /// or asks the replica that reported it for what it has compacted.
    pub open spec fn try_start_view(self) -> Self {
        let reports = self.do_view_change_from;
        let best_id = best(reports);
        let (next, installed) = self.check(ends_fit(reports)).install_segment_from_commit(
            reports[best_id].segment,
        );
        if installed is Log {
            let started = next.commit_up_to(highest_commit(reports), true).enter_normal();
            started.send_to_others(started.start_view_message())
        } else {
            ReplicaModel { catching_up: Some(best_id), ..next }.send_get_state_to(
                best_id,
                self.commit_number,
            )
        }
    }

    /// What the primary tells a backup as it starts a view.
    pub open spec fn start_view_message(self) -> MessageViewFor<SM> {
        MessageView::StartView {
            view_number: self.view_number,
            segment: self.whole_log(),
            commit_number: self.commit_number,
        }
    }

    pub open spec fn send_start_view(self, replica_id: ReplicaID) -> Self {
        self.send(replica_id, self.start_view_message())
    }

    /// Learns that `view_number` has started, and asks its primary for the
    /// log from the commit number on.
    pub open spec fn catch_up_with_view(self, view_number: ViewNumber) -> Self {
        let primary_id = self.config.primary_of(view_number);
        if self.view_number == view_number && self.catching_up == Some(primary_id) {
            self
        } else {
            let cleared = ReplicaModel {
                view_number,
                status: Status::ViewChange,
                idle_periods_waiting: 0,
                ..self
            }.clear_view_change_state();
            ReplicaModel { catching_up: Some(primary_id), ..cleared }.send_get_state_to(
                primary_id,
                self.commit_number,
            )
        }
    }

    /// Returns to normal status in the current view.
    pub open spec fn enter_normal(self) -> Self {
        ReplicaModel {
            status: Status::Normal,
            last_normal_view: self.view_number,
            acked: Seq::new(self.config.size(), |i: int| 0usize),
            resend_up_to: self.commit_number,
            view_start_op: self.op_number() as OpNumber,
            heard_from_primary: true,
            idle_periods_waiting: 0,
            idle_periods_stable: 0,
            ..self
        }.clear_view_change_state()
    }

    #[verifier::opaque]
    pub open spec fn on_start_view_change(
        self,
        view_number: ViewNumber,
        replica_id: ReplicaID,
    ) -> Self {
        if view_number < self.view_number {
            self
        } else if view_number == self.view_number && self.status != Status::ViewChange {
            if self.leads() {
                self.send_start_view(replica_id)
            } else {
                self
            }
        } else {
            let changing = if view_number > self.view_number {
                self.start_view_change(view_number)
            } else {
                self
            };
            ReplicaModel {
                start_view_change_from: changing.start_view_change_from.insert(replica_id),
                ..changing
            }.maybe_send_do_view_change()
        }
    }

    #[verifier::opaque]
    pub open spec fn on_do_view_change(
        self,
        view_number: ViewNumber,
        replica_id: ReplicaID,
        report: DoViewChangeView<SM::Input>,
    ) -> Self {
        if view_number < self.view_number || self.config.primary_of(view_number) != self.self_id {
            self
        } else if view_number > self.view_number {
            self.start_view_change(view_number).record_do_view_change(replica_id, report)
        } else if self.status == Status::Normal {
            self.send_start_view(replica_id)
        } else {
            self.record_do_view_change(replica_id, report)
        }
    }

    #[verifier::opaque]
    pub open spec fn on_start_view(
        self,
        view_number: ViewNumber,
        segment: SegmentView<SM::Input>,
        commit_number: CommitID,
    ) -> Self {
        if view_number < self.view_number || (view_number == self.view_number && self.status
            != Status::ViewChange) {
            self
        } else {
            let (next, installed) = self.install_segment_from_commit(segment);
            if installed is Log {
                ReplicaModel { view_number, ..next }.commit_up_to(
                    commit_number,
                    false,
                ).enter_normal().send_prepare_ok()
            } else {
                next.catch_up_with_view(view_number)
            }
        }
    }

    // Recovery.
    /// Asks the other replicas for their state: those that have not answered
    /// this recovery, or everyone again if a quorum has.
    pub open spec fn send_recovery(self) -> Self {
        let message = MessageView::Recovery {
            replica_id: self.self_id,
            nonce: self.recovery_nonce,
            view_number: self.view_number,
        };
        let answered = self.recovery_responses.dom();
        if answered.len() >= self.config.quorum() {
            self.send_each_late(all_but(self.self_id, message))
        } else {
            self.send_each_late(to_unanswered(self.self_id, answered, message))
        }
    }

    #[verifier::opaque]
    pub open spec fn on_recovery(
        self,
        replica_id: ReplicaID,
        nonce: u64,
        view_number: ViewNumber,
    ) -> Self {
        if view_number > self.view_number && self.status != Status::Recovering {
            self.start_view_change(view_number)
        } else if self.status != Status::Normal {
            self
        } else {
            let (next, segment) = if self.is_primary() {
                self.segment_from(0)
            } else {
                (self, self.whole_log())
            };
            next.send(
                replica_id,
                MessageView::RecoveryResponse {
                    view_number: self.view_number,
                    nonce,
                    replica_id: self.self_id,
                    state: if self.is_primary() {
                        Some(RecoveryView { segment, commit_number: self.commit_number })
                    } else {
                        None
                    },
                },
            )
        }
    }

    #[verifier::opaque]
    pub open spec fn on_recovery_response(
        self,
        view_number: ViewNumber,
        nonce: u64,
        replica_id: ReplicaID,
        state: Option<RecoveryView<SM::Input>>,
    ) -> Self {
        if self.status != Status::Recovering || nonce != self.recovery_nonce {
            self
        } else {
            let responses = self.recovery_responses.insert(
                replica_id,
                ResponseView { view_number, state },
            );
            let counted = ReplicaModel { recovery_responses: responses, ..self };
            let latest = latest_view(responses);
            let primary_id = self.config.primary_of(latest);
            if responses.dom().len() < self.config.quorum() || latest < self.view_number
                || !responses.contains_key(primary_id) || responses[primary_id].state is None
                || responses[primary_id].view_number != latest {
                counted
            } else {
                ReplicaModel { recovery_responses: Map::empty(), ..counted }.recover_into(
                    latest,
                    responses[primary_id].state->0,
                )
            }
        }
    }

    /// Takes the state the primary of `view_number` sent, fetching the
    /// checkpoint it names first if that is beyond the commit number, and is
    /// back in that view.
    pub open spec fn recover_into(
        self,
        view_number: ViewNumber,
        state: RecoveryView<SM::Input>,
    ) -> Self {
        let (next, installed) = self.install_segment_from_commit(state.segment);
        match installed {
            InstalledView::Log => ReplicaModel { view_number, fetch: None, ..next }.commit_up_to(
                state.commit_number,
                false,
            ).enter_normal(),
            InstalledView::Checkpoint => next.start_fetch(
                self.config.primary_of(view_number),
                ResumeView::RecoveryResponse { view_number, state },
            ),
            InstalledView::Nothing => next.promise(false),
        }
    }

    // Messages.
    /// The state after `message`, which asks for no chunk.
    #[verifier::opaque]
    pub open spec fn handle(self, message: MessageViewFor<SM>) -> Self {
        match message {
            MessageView::Register { client_id } => self.on_register(client_id),
            MessageView::Request { client_id, session, request_number, answered, op } =>
                self.on_request(client_id, session, request_number, answered, op),
            MessageView::Query { client_id, query_number, query } => self.on_query(
                client_id,
                query_number,
                query,
            ),
            MessageView::ConfirmView { view_number, round } => self.on_confirm_view(
                view_number,
                round,
            ),
            MessageView::ConfirmViewOk { view_number, round, replica_id } =>
                self.on_confirm_view_ok(view_number, round, replica_id),
            MessageView::Prepare { view_number, op_number, entry, commit_number } =>
                self.on_prepare(view_number, op_number, entry, commit_number),
            MessageView::PrepareOk { view_number, op_number, replica_id } =>
                self.on_prepare_ok(view_number, op_number, replica_id),
            MessageView::Commit { view_number, commit_number } => self.on_commit(
                view_number,
                commit_number,
            ),
            MessageView::GetState { replica_id, view_number, op_number } =>
                self.on_get_state(replica_id, view_number, op_number),
            MessageView::NewState { replica_id, view_number, segment, commit_number } =>
                self.on_new_state(replica_id, view_number, segment, commit_number),
            MessageView::GetChunk { .. } => self,
            MessageView::NewChunk { replica_id, op_number, index, chunk, last } =>
                self.on_new_chunk(replica_id, op_number, index, chunk, last),
            MessageView::StartViewChange { view_number, replica_id } =>
                self.on_start_view_change(view_number, replica_id),
            MessageView::DoViewChange {
                view_number,
                replica_id,
                last_normal_view,
                segment,
                commit_number,
            } => self.on_do_view_change(
                view_number,
                replica_id,
                DoViewChangeView { last_normal_view, segment, commit_number },
            ),
            MessageView::StartView { view_number, segment, commit_number } =>
                self.on_start_view(view_number, segment, commit_number),
            MessageView::Recovery { replica_id, nonce, view_number } => self.on_recovery(
                replica_id,
                nonce,
                view_number,
            ),
            MessageView::RecoveryResponse { view_number, nonce, replica_id, state } =>
                self.on_recovery_response(view_number, nonce, replica_id, state),
        }
    }

    /// Whether the replica ignores `message`: a recovering one knows nothing
    /// it could act on.
    pub open spec fn ignores(self, message: MessageViewFor<SM>) -> bool {
        self.status == Status::Recovering && !(message is RecoveryResponse) && !(
        message is NewChunk)
    }

    /// The state after `message`. A request for a chunk is answered with
    /// `chunk`.
    pub open spec fn on_message(
        self,
        message: MessageViewFor<SM>,
        chunk: (SM::Chunk, bool),
    ) -> Self {
        if self.ignores(message) {
            self
        } else {
            match message {
                MessageView::GetChunk { replica_id, op_number, index } => self.on_get_chunk(
                    replica_id,
                    op_number,
                    index,
                    chunk.0,
                    chunk.1,
                ),
                _ => self.handle(message),
            }
        }
    }

    // Idle periods.
    /// Counts an idle period of the checkpoint kept, and drops it after
    /// twice the primary timeout without a replica asking for it.
    pub open spec fn serve_on_idle(self) -> Self {
        match self.serving {
            None => self,
            Some((op_number, idle_periods)) => {
                let limit = 2 * self.config.primary_timeout;
                let checked = self.check(idle_periods < usize::MAX && limit <= usize::MAX);
                if idle_periods + 1 >= limit {
                    ReplicaModel { serving: None, ..checked.call(StateCall::Release) }
                } else {
                    ReplicaModel {
                        serving: Some((op_number, (idle_periods + 1) as usize)),
                        ..checked
                    }
                }
            },
        }
    }

    /// Counts an idle period of the fetch under way, and says whether one
    /// is.
    pub open spec fn fetch_on_idle(self) -> (Self, bool) {
        match self.fetch {
            None => (self, false),
            Some(fetch) => if fetch.stalled {
                (self, false)
            } else {
                let limit = 2 * self.config.primary_timeout;
                let waited = (fetch.idle_periods + 1) as usize;
                let checked = self.check(fetch.idle_periods < usize::MAX && limit <= usize::MAX);
                let counted = ReplicaModel {
                    fetch: Some(
                        FetchView { idle_periods: waited, stalled: waited >= limit, ..fetch },
                    ),
                    ..checked
                };
                if waited >= limit {
                    (counted, false)
                } else if waited > 1 {
                    (counted.send_get_chunk(), true)
                } else {
                    (counted, true)
                }
            },
        }
    }

    /// Counts an idle period of stable normal operation.
    pub open spec fn note_stable(self) -> Self {
        let stable = (self.idle_periods_stable + 1) as usize;
        ReplicaModel {
            idle_periods_stable: stable,
            view_change_attempts: if stable >= self.config.primary_timeout {
                0
            } else {
                self.view_change_attempts
            },
            ..self.check(self.idle_periods_stable < usize::MAX)
        }
    }

    /// How long to wait for the primary, or for a view change: doubled for
    /// every view change entered without a stable stretch in between.
    pub open spec fn patience(self) -> nat {
        self.config.primary_timeout as nat * pow2(self.view_change_attempts as nat)
    }

    /// Counts an idle period spent waiting, and says whether the wait has
    /// gone on too long.
    pub open spec fn wait_timed_out(self) -> (Self, bool) {
        let waited = (self.idle_periods_waiting + 1) as usize;
        (
            ReplicaModel {
                idle_periods_waiting: waited,
                ..self.check(self.idle_periods_waiting < usize::MAX)
            },
            waited >= self.patience(),
        )
    }

    /// Starts a view change to the next view.
    pub open spec fn start_next_view(self) -> Self {
        self.check(self.view_number < usize::MAX).start_view_change(
            (self.view_number + 1) as ViewNumber,
        )
    }

    /// An idle period of the primary: it tells the backups how far it has
    /// committed, and sends again what they have not acknowledged or
    /// confirmed.
    pub open spec fn primary_on_idle(self) -> Self {
        let view_number = self.view_number;
        let commit_number = self.commit_number;
        let told = self.note_stable().send_to_others(
            MessageView::Commit { view_number, commit_number },
        );
        let due = min(self.resend_up_to as int, self.op_number());
        let kept = ReplicaModel { resend_up_to: self.op_number() as OpNumber, ..told };
        let resent = if due > commit_number {
            let message = MessageView::Prepare {
                view_number,
                op_number: due as OpNumber,
                entry: self.entry(due),
                commit_number,
            };
            kept.send_each_early(
                to_unacked(self.self_id, self.acked, due as OpNumber, message),
            )
        } else {
            kept
        };
        if self.round > self.round_confirmed {
            let message = MessageView::ConfirmView { view_number, round: self.round };
            resent.send_each_early(to_unconfirmed(self.confirmed, self.round, message))
        } else {
            resent
        }
    }

    /// An idle period of a replica that follows a primary.
    pub open spec fn backup_on_idle(self) -> Self {
        let asked = if self.status == Status::StateTransfer {
            let (next, under_way) = self.fetch_on_idle();
            if under_way {
                next
            } else {
                next.state_transfer()
            }
        } else {
            self
        };
        let next = ReplicaModel { heard_from_primary: false, ..asked };
        if asked.heard_from_primary {
            ReplicaModel { idle_periods_waiting: 0, ..next }.note_stable()
        } else {
            let (waited, timed_out) = ReplicaModel {
                idle_periods_stable: 0,
                ..next
            }.wait_timed_out();
            if timed_out {
                waited.start_next_view()
            } else {
                waited
            }
        }
    }

    /// An idle period of a replica that changes views.
    pub open spec fn view_change_on_idle(self) -> Self {
        let (waited, timed_out) = self.wait_timed_out();
        if timed_out {
            waited.start_next_view()
        } else {
            let asked = if waited.catching_up is Some {
                let (next, under_way) = waited.fetch_on_idle();
                if under_way {
                    next
                } else {
                    next.send_get_state_to(waited.catching_up->0, self.commit_number)
                }
            } else {
                waited
            };
            let told = if asked.catching_up is None || asked.do_view_change_sent {
                asked.send_to_others(
                    MessageView::StartViewChange {
                        view_number: self.view_number,
                        replica_id: self.self_id,
                    },
                )
            } else {
                asked
            };
            if told.do_view_change_sent && told.catching_up is None {
                told.send_do_view_change()
            } else {
                told
            }
        }
    }

    /// The state after an idle period.
    #[verifier::opaque]
    pub open spec fn on_idle(self) -> Self {
        let served = self.serve_on_idle();
        match self.status {
            Status::Normal => if self.is_primary() {
                served.primary_on_idle()
            } else {
                served.backup_on_idle()
            },
            Status::StateTransfer => served.backup_on_idle(),
            Status::Recovering => {
                let (next, under_way) = served.fetch_on_idle();
                if under_way {
                    next
                } else {
                    next.send_recovery()
                }
            },
            Status::ViewChange => served.view_change_on_idle(),
        }
    }

    // Persistence.
    /// What a write records besides the log, as of now.
    pub open spec fn recorded(self) -> Written {
        Written {
            view_number: self.view_number,
            last_normal_view: self.last_normal_view,
            recovering: self.status == Status::Recovering,
            log_start: self.log_start,
        }
    }

    /// What the steps since the last write changed. It needs a sync unless
    /// nothing but the commit number did.
    pub open spec fn write(self) -> WriteView<SM::Input> {
        let entries_from = match self.log_changed_from {
            Some(from) => max(from as int, self.log_start + 1),
            None => self.op_number() + 1,
        };
        WriteView {
            view_number: self.view_number,
            last_normal_view: self.last_normal_view,
            recovering: self.status == Status::Recovering,
            commit_number: self.commit_number,
            log_start: self.log_start,
            entries_from: entries_from as OpNumber,
            entries: self.log_from(entries_from),
            sync: self.log_changed_from is Some || self.written != Some(self.recorded()),
            op_number: self.op_number() as OpNumber,
            sequence: (self.writes + 1) as u64,
        }
    }

    /// The state once its write is taken.
    pub open spec fn take_write(self) -> Self {
        let sequence = (self.writes + 1) as u64;
        ReplicaModel {
            durable: self.durable_op() as OpNumber,
            log_changed_from: None,
            written: Some(self.recorded()),
            writes: sequence,
            outstanding: Some(
                Outstanding {
                    sequence,
                    op_number: self.op_number() as OpNumber,
                    last_normal_view: self.last_normal_view,
                },
            ),
            outbox: self.outbox_waiting,
            outbox_waiting: self.outbox,
            ..self.check(self.writes < u64::MAX)
        }
    }

    /// The state once the write that is out is handed back.
    #[verifier::opaque]
    pub open spec fn persisted(self) -> Self {
        let outstanding = self.outstanding->0;
        let held = ReplicaModel { outstanding: None, durable: outstanding.op_number, ..self };
        let durable = held.durable_op();
        let acked = if self.leads() && outstanding.last_normal_view == self.view_number {
            held.register_ack(self.self_id, durable as OpNumber)
        } else {
            held
        };
        let applied = acked.apply_committed(durable);
        ReplicaModel {
            outbox_ready: applied.outbox_ready + applied.outbox_waiting,
            outbox_waiting: Seq::empty(),
            ..applied
        }
    }

    /// The state without the log entries up to `op_number`, as far as they
    /// are applied and not after the checkpoint kept.
    pub open spec fn compact(self, op_number: OpNumber) -> Self {
        let applied = min(op_number as int, self.applied as int);
        let target = match self.serving {
            Some((kept, _)) => min(applied, kept as int),
            None => applied,
        };
        if target <= self.log_start {
            self
        } else {
            ReplicaModel {
                log: self.log.skip(target - self.log_start),
                log_start: target as OpNumber,
                ..self
            }
        }
    }

    // Starts.
    /// A replica that has done nothing yet.
    pub open spec fn init(
        self_id: ReplicaID,
        config: ConfigView,
        machine: SM::State,
    ) -> Self {
        ReplicaModel {
            ok: true,
            fits: true,
            room: true,
            config,
            self_id,
            machine,
            status: Status::Normal,
            view_number: 0,
            last_normal_view: 0,
            commit_number: 0,
            applied: 0,
            reply_ranges: Seq::empty(),
            log_start: 0,
            log: Seq::empty(),
            log_changed_from: None,
            written: None,
            writes: 0,
            outstanding: None,
            durable: 0,
            acked: Seq::new(config.size(), |i: int| 0usize),
            resend_up_to: 0,
            view_start_op: 0,
            queries: Seq::empty(),
            round: 0,
            round_confirmed: 0,
            confirmed: Seq::new(config.size(), |i: int| 0u64),
            round_unsent: false,
            records: Map::empty(),
            pending: Map::empty(),
            heard_from_primary: true,
            idle_periods_waiting: 0,
            view_change_attempts: 0,
            idle_periods_stable: 0,
            start_view_change_from: Set::empty(),
            do_view_change_sent: false,
            do_view_change_from: Map::empty(),
            catching_up: None,
            serving: None,
            fetch: None,
            recovery_nonce: 0,
            recovery_responses: Map::empty(),
            outbox_early: Seq::empty(),
            outbox: Seq::empty(),
            outbox_waiting: Seq::empty(),
            outbox_ready: Seq::empty(),
            replies: Seq::empty(),
        }
    }

    /// A replica back from a crash with no memory but its view.
    pub open spec fn recover(
        self_id: ReplicaID,
        config: ConfigView,
        machine: SM::State,
        view_number: ViewNumber,
        nonce: u64,
    ) -> Self {
        ReplicaModel {
            status: Status::Recovering,
            view_number,
            recovery_nonce: nonce,
            ..Self::init(self_id, config, machine)
        }.send_recovery()
    }

    /// The log, commit number and status a replica comes back with.
    pub open spec fn come_back(
        self_id: ReplicaID,
        config: ConfigView,
        machine: SM::State,
        applied: OpNumber,
        state: PersistentView<SM::Input>,
        nonce: u64,
    ) -> Self {
        if state.recovering {
            ReplicaModel {
                log_start: applied,
                commit_number: applied,
                ..Self::recover(self_id, config, machine, state.view_number, nonce)
            }
        } else {
            let fresh = ReplicaModel {
                view_number: state.view_number,
                last_normal_view: state.last_normal_view,
                ..Self::init(self_id, config, machine)
            };
            if applied > state.commit_number {
                ReplicaModel {
                    log_start: applied,
                    commit_number: applied,
                    log: state.compacted(applied).log,
                    ..fresh
                }
            } else {
                ReplicaModel {
                    log_start: state.log_start,
                    commit_number: state.commit_number,
                    log: state.log,
                    ..fresh
                }
            }
        }
    }

    /// A replica back from a crash with what its owner persisted, and a
    /// state machine that has applied the first `applied` operations.
    #[verifier::opaque]
    pub open spec fn restart(
        self_id: ReplicaID,
        config: ConfigView,
        machine: SM::State,
        applied: OpNumber,
        state: PersistentView<SM::Input>,
        nonce: u64,
    ) -> Self {
        let back = Self::come_back(self_id, config, machine, applied, state, nonce);
        let loaded = ReplicaModel {
            applied,
            written: Some(
                Written {
                    view_number: state.view_number,
                    last_normal_view: state.last_normal_view,
                    recovering: state.recovering,
                    log_start: state.log_start,
                },
            ),
            ..back
        }.load_client_table();
        let caught_up = ReplicaModel {
            durable: loaded.op_number() as OpNumber,
            ..loaded
        }.apply_committed(loaded.op_number()).rebuild_pending();
        if state.recovering {
            caught_up
        } else if state.last_normal_view < state.view_number {
            caught_up.start_view_change(state.view_number)
        } else if caught_up.is_primary() {
            caught_up.start_next_view()
        } else {
            caught_up
        }
    }
}

} // verus!
