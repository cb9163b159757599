use std::collections::{BTreeMap, BTreeSet, VecDeque};
use foldhash::HashSet;
use vstd::prelude::*;
use crate::client_table::ClientTable;
use crate::config::Config;
use crate::ids::{ClientID, CommitID, OpNumber, QueryNumber, ReplicaID, ViewNumber};
use crate::log::LogEntry;
use crate::message::{Message, MessageFor, MessageView, Reply};
use crate::state_machine::{exact_clones, StateMachine};
use self::model::{waiting_keys, ReplicaModel};
use self::parts::{
    fetch_view, DoViewChange, DoViewChangeView, Fetch, Outstanding, RecoveryResponse, ResponseView,
    ResumeView, Status, WaitingQuery, Written,
};

pub mod model;
pub mod parts;
pub(crate) mod execute;
pub mod answer_laws;
pub mod checkpoint_laws;
pub mod execution_laws;
pub mod frames;
mod idle;
pub mod keeps;
mod lifecycle;
mod log_ops;
pub mod outboxes;
pub mod outcomes;
pub mod runs;
pub mod majority_laws;
pub mod marks;
mod normal;
pub mod ok;
mod persist;
pub mod life;
pub mod mail_laws;
pub mod persistence_laws;
pub mod session_laws;
pub mod sessions;
mod queries;
mod recovery;
pub mod recovery_laws;
pub mod room;
mod send;
pub mod steps;
pub mod view_change_laws;
pub mod timeout_laws;
mod transfer;
mod view_change;

verus! {

/// Replica.
///
/// The owner feeds it messages with [`Replica::on_message`], calls
/// [`Replica::on_idle`] at a regular interval, and after each of those
/// persists what [`Replica::take_write`] returns, hands it back with
/// [`Replica::persisted`], and delivers what [`Replica::drain_messages`]
/// and [`Replica::drain_replies`] yield. See the crate documentation.
#[derive(Debug)]
pub struct Replica<SM: StateMachine> {
    pub(crate) config: Config,
    pub(crate) self_id: ReplicaID,
    pub(crate) state_machine: SM,
    pub(crate) status: Status,
    pub(crate) view_number: ViewNumber,
    /// The latest view in which this replica's status was normal.
    pub(crate) last_normal_view: ViewNumber,
    pub(crate) commit_number: CommitID,
    /// The number of ops the state machine has executed, at most the
    /// commit number. Committed ops execute once a handed-back write holds
    /// them, see `durable`.
    pub(crate) applied: OpNumber,
    /// The committed ops still to be replied to, as inclusive ranges of op
    /// numbers: those this replica committed as the primary.
    pub(crate) reply_ranges: Vec<(OpNumber, OpNumber)>,
    /// The op number of the last entry compacted away. `log` holds the
    /// entries after it, so entry `i` of `log` is op `log_start + i + 1`.
    pub(crate) log_start: OpNumber,
    pub(crate) log: Vec<LogEntry<SM::Input>>,
    /// The lowest op number whose entry changed since the last write was
    /// taken.
    pub(crate) log_changed_from: Option<OpNumber>,
    /// What the last write recorded besides the log, or `None` before the
    /// first write of a replica that is new or recovering.
    pub(crate) written: Option<Written>,
    /// The number of writes taken, and the one out, if any.
    pub(crate) writes: u64,
    pub(crate) outstanding: Option<Outstanding>,
    /// The op number up to which the handed-back writes hold the log as
    /// it was when the last one was taken. Committed ops up to it, less
    /// any entry changed since, execute as soon as they commit.
    pub(crate) durable: OpNumber,
    /// The highest op number each replica has acknowledged in the current
    /// view, by replica id, this one included once its write is persisted.
    /// The primary commits up to the highest op number a quorum has
    /// acknowledged.
    pub(crate) acked: Vec<OpNumber>,
    /// The primary's op number as of its last idle period, or its commit
    /// number as the view started. The ops up to it have had a whole idle
    /// period to be acknowledged, and the next idle period re-sends to a
    /// backup that has not acknowledged them all.
    pub(crate) resend_up_to: OpNumber,
    /// The op number when the replica last entered normal status. As the
    /// primary, its log holds every op committed in an earlier view up to
    /// it, and it commits every later op itself.
    pub(crate) view_start_op: OpNumber,
    /// The queries waiting to execute on the primary, in the order they
    /// arrived, see `on_query`, and each by client and query number, so
    /// that a re-sent one waits once.
    pub(crate) queries: VecDeque<WaitingQuery<SM::Query>>,
    pub(crate) waiting: HashSet<(ClientID, QueryNumber)>,
    /// The last round of view confirmations the primary started in its
    /// view, the last a quorum has confirmed, and the last each replica
    /// confirmed, by replica id, this one's the last it started.
    pub(crate) round: u64,
    pub(crate) round_confirmed: u64,
    pub(crate) confirmed: Vec<u64>,
    /// Whether the last round's `ConfirmView` waits in the outbox: a query
    /// that arrives before it leaves joins that round.
    pub(crate) round_unsent: bool,
    /// What the replica knows of each client.
    pub(crate) clients: ClientTable<SM::Output>,
    /// Whether the primary has been heard from since the last idle period.
    pub(crate) heard_from_primary: bool,
    /// Consecutive idle periods spent without hearing from the primary, or
    /// waiting for a view change to complete.
    pub(crate) idle_periods_waiting: usize,
    /// View changes entered without a stable stretch of normal status in
    /// between. Each one doubles the wait before the next, so that
    /// replicas whose timers fire faster than a view change can complete
    /// stop cutting each other off. Completing a view does not reset it:
    /// the replica that just did is the one whose timer would otherwise
    /// fire first in the next view change, and start yet another. It
    /// resets once the replica has been normal, hearing from the primary,
    /// for `Config::primary_timeout` idle periods.
    pub(crate) view_change_attempts: u32,
    /// Consecutive idle periods in normal status with the primary heard
    /// from, or as the primary.
    pub(crate) idle_periods_stable: usize,
    /// Replicas that sent `StartViewChange` for the current view.
    pub(crate) start_view_change_from: BTreeSet<ReplicaID>,
    /// Whether this replica has sent `DoViewChange` for the current view.
    pub(crate) do_view_change_sent: bool,
    /// Replicas that sent `DoViewChange` for the current view, with what they
    /// reported, if this replica is to be its primary.
    pub(crate) do_view_change_from: BTreeMap<ReplicaID, DoViewChange<SM::Input>>,
    /// The replica this one has asked for the log from its commit number
    /// on, and is waiting for: the primary of a view that started without
    /// this replica, or, for the primary of a view being started, the
    /// replica whose log it chose but which has compacted part of it.
    pub(crate) catching_up: Option<ReplicaID>,
    /// The checkpoint this replica keeps for replicas that fell behind, by
    /// op number, and the idle periods since one last asked for a chunk of
    /// it. The log keeps the entries after it meanwhile.
    pub(crate) serving: Option<(OpNumber, usize)>,
    /// The checkpoint this replica fetches, if any.
    pub(crate) fetch: Option<Fetch<SM::Input>>,
    /// The nonce of the recovery under way, if any.
    pub(crate) recovery_nonce: u64,
    /// `RecoveryResponse`s received for it, by sender.
    pub(crate) recovery_responses: BTreeMap<ReplicaID, RecoveryResponse<SM::Input>>,
    /// Messages that may be sent before the step is persisted, see
    /// [`Replica::drain_messages_before_persist`].
    pub(crate) outbox_early: Vec<(ReplicaID, MessageFor<SM>)>,
    /// Messages that must wait for the next write to be persisted.
    pub(crate) outbox: Vec<(ReplicaID, MessageFor<SM>)>,
    /// Messages that wait for the write that is out.
    pub(crate) outbox_waiting: Vec<(ReplicaID, MessageFor<SM>)>,
    /// Messages whose write is persisted.
    pub(crate) outbox_ready: Vec<(ReplicaID, MessageFor<SM>)>,
    pub(crate) replies: Vec<Reply<SM::Output>>,
}

/// What messages to replicas say.
pub open spec fn mail_view<Op, Query, Chunk>(
    mail: Seq<(ReplicaID, Message<Op, Query, Chunk>)>,
) -> Seq<(ReplicaID, MessageView<Op, Query, Chunk>)> {
    Seq::new(mail.len(), |i: int| (mail[i].0, mail[i].1@))
}

/// What the replicas reported.
pub open spec fn reports_view<Op>(reports: Map<ReplicaID, DoViewChange<Op>>) -> Map<
    ReplicaID,
    DoViewChangeView<Op>,
> {
    reports.map_values(|report: DoViewChange<Op>| report@)
}

/// What the replicas responded.
pub open spec fn responses_view<Op>(responses: Map<ReplicaID, RecoveryResponse<Op>>) -> Map<
    ReplicaID,
    ResponseView<Op>,
> {
    responses.map_values(|response: RecoveryResponse<Op>| response@)
}

impl<SM: StateMachine> View for Replica<SM> {
    type V = ReplicaModel<SM>;

    open(crate) spec fn view(&self) -> ReplicaModel<SM> {
        ReplicaModel {
            ok: true,
            fits: true,
            room: true,
            config: self.config@,
            self_id: self.self_id,
            machine: self.state_machine.state(),
            status: self.status,
            view_number: self.view_number,
            last_normal_view: self.last_normal_view,
            commit_number: self.commit_number,
            applied: self.applied,
            reply_ranges: self.reply_ranges@,
            log_start: self.log_start,
            log: self.log@,
            log_changed_from: self.log_changed_from,
            written: self.written,
            writes: self.writes,
            outstanding: self.outstanding,
            durable: self.durable,
            acked: self.acked@,
            resend_up_to: self.resend_up_to,
            view_start_op: self.view_start_op,
            queries: self.queries@,
            round: self.round,
            round_confirmed: self.round_confirmed,
            confirmed: self.confirmed@,
            round_unsent: self.round_unsent,
            records: self.clients.records(),
            pending: self.clients.pending(),
            heard_from_primary: self.heard_from_primary,
            idle_periods_waiting: self.idle_periods_waiting,
            view_change_attempts: self.view_change_attempts,
            idle_periods_stable: self.idle_periods_stable,
            start_view_change_from: self.start_view_change_from@,
            do_view_change_sent: self.do_view_change_sent,
            do_view_change_from: reports_view(self.do_view_change_from@),
            catching_up: self.catching_up,
            serving: self.serving,
            fetch: fetch_view(self.fetch),
            recovery_nonce: self.recovery_nonce,
            recovery_responses: responses_view(self.recovery_responses@),
            outbox_early: mail_view(self.outbox_early@),
            outbox: mail_view(self.outbox@),
            outbox_waiting: mail_view(self.outbox_waiting@),
            outbox_ready: mail_view(self.outbox_ready@),
            replies: self.replies@,
        }
    }
}

impl<SM: StateMachine> ReplicaModel<SM> {
    /// What every step keeps.
    pub open spec fn inv(self) -> bool {
        self.inv_but_fetch() && self.fetch_fits()
    }

    /// Whether a checkpoint is fetched only while the replica lacks entries.
    pub open spec fn fetch_fits(self) -> bool {
        self.fetch matches Some(fetch) ==> match fetch.resume {
            ResumeView::NewState { .. } => self.status == Status::StateTransfer || self.status
                == Status::ViewChange,
            ResumeView::RecoveryResponse { view_number, .. } => self.status == Status::Recovering
                && view_number >= self.view_number,
        }
    }

    /// What every step keeps, but for the checkpoint fetched.
    pub open spec fn inv_but_fetch(self) -> bool {
        &&& self.config.is_cluster()
        &&& self.acked.len() == self.config.size()
        &&& self.confirmed.len() == self.config.size()
        // The state machine has executed no more than what is committed and
        // held, and nothing that has not executed is compacted.
        &&& self.log_start <= self.applied <= self.commit_number
        &&& self.applied <= self.op_number() < usize::MAX
        // What the writes hold beyond the log has changed since.
        &&& self.log_changed_from matches Some(from) ==> 1 <= from <= self.op_number() + 1
        &&& self.log_changed_from is None ==> self.durable <= self.op_number()
        &&& self.log_changed_from is None ==> (self.outstanding matches Some(outstanding)
            ==> outstanding.op_number <= self.op_number())
        // No round is confirmed before it starts.
        &&& self.round_confirmed <= self.round
        &&& forall|i: int| 0 <= i < self.confirmed.len() ==> #[trigger] self.confirmed[i]
            <= self.round
        // Only committed ops are replied to.
        &&& forall|i: int|
            0 <= i < self.reply_ranges.len() ==> (#[trigger] self.reply_ranges[i]).1
                <= self.commit_number
        // The log holds the entries after the checkpoint kept.
        &&& self.serving matches Some(serving) ==> self.log_start <= serving.0 <= self.applied
        // A query waits once.
        &&& forall|i: int, j: int|
            0 <= i < j < self.queries.len() ==> (#[trigger] self.queries[i]).client_id != (
            #[trigger] self.queries[j]).client_id || self.queries[i].query_number
                != self.queries[j].query_number
        &&& self.start_view_change_from.finite()
        &&& self.do_view_change_from.dom().finite()
        &&& self.recovery_responses.dom().finite()
    }
}

impl<SM: StateMachine> Replica<SM> {
    /// What every step keeps, but for the client table.
    pub open(crate) spec fn wf_but_table(&self) -> bool {
        &&& exact_clones::<SM>()
        &&& self.state_machine.inv()
        &&& self@.inv()
        &&& self.waiting@ == waiting_keys(self.queries@)
    }

    /// What every step keeps, but for the checkpoint fetched.
    pub open(crate) spec fn wf_but_fetch(&self) -> bool {
        &&& exact_clones::<SM>()
        &&& self.state_machine.inv()
        &&& self@.inv_but_fetch()
        &&& self.waiting@ == waiting_keys(self.queries@)
        &&& self.clients.wf(self.applied as int)
    }

    /// What every step keeps.
    pub open(crate) spec fn wf(&self) -> bool {
        &&& self.wf_but_table()
        &&& self.clients.wf(self.applied as int)
    }
}

} // verus!
