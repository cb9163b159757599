use vstd::prelude::*;
use super::sum::Sum;
use crate::config::{Config, ConfigView};
use crate::ids::{OpNumber, ReplicaID};
use crate::message::{Message, MessageFor, MessageViewFor, Reply};
use crate::replica::model::{max, ReplicaModel};
use crate::replica::{mail_view, Replica};
use crate::state_machine::StateMachine;

verus! {

/// Replicas in the cluster measured.
pub const REPLICAS: usize = 3;

/// Rounds between two idle periods, when idle periods are on. An op takes
/// two rounds from request to acknowledgement, so the number is odd, for
/// idle periods to fall in both.
pub const IDLE_ROUNDS: usize = 51;

/// Idle periods every run with them goes through at least, which sets how
/// many ops it takes at depth.
pub const IDLE_PERIODS: usize = 5;

/// Entries a replica keeps behind what it has applied.
pub const LOG_RETENTION: usize = 1_000;

/// The cluster measured: three replicas.
pub fn config() -> (config: Config)
    ensures
        config@.wf(),
        config@ == (ConfigView {
            replicas: seq![0usize, 1usize, 2usize],
            primary_timeout: 3,
            clients_max: 4096,
            in_flight_max: 16,
        }),
{
    let mut config = Config::new();
    let _ = config.add_replica();
    let _ = config.add_replica();
    let _ = config.add_replica();
    assert(config@.replicas =~= seq![0usize, 1usize, 2usize]);
    config
}

/// How many ops a run takes: `ops`, or as many as take it through the idle
/// periods. An op takes two rounds, so half the ops in flight complete in
/// each.
pub open spec fn in_rounds(ops: usize, in_flight: usize) -> int {
    max(ops as int, in_flight * IDLE_ROUNDS * IDLE_PERIODS / 2)
}

/// How many ops a run with `in_flight` clients takes, at least `ops`.
pub fn run_length(ops: usize, in_flight: usize) -> (total: usize)
    requires
        in_flight * IDLE_ROUNDS * IDLE_PERIODS <= usize::MAX,
    ensures
        total == in_rounds(ops, in_flight),
{
    let rounds: usize = in_flight * IDLE_ROUNDS;
    let through: usize = rounds * IDLE_PERIODS / 2;
    if ops < through {
        through
    } else {
        ops
    }
}

/// Whether the replicas are idle in `round`.
pub fn is_idle_round(idle: bool, round: usize) -> (is_idle: bool)
    ensures
        is_idle == (idle && round % IDLE_ROUNDS == 0),
{
    idle && round % IDLE_ROUNDS == 0
}

/// A replica's state at the end of its step, and what left it.
#[verifier::ext_equal]
pub struct Finished<SM: StateMachine> {
    pub replica: ReplicaModel<SM>,
    pub sent: Seq<(ReplicaID, MessageViewFor<SM>)>,
    pub replies: Seq<Reply<SM::Output>>,
}

impl<SM: StateMachine> ReplicaModel<SM> {
    /// The replica with its early messages sent.
    pub open spec fn sent_early(self) -> Self {
        ReplicaModel { round_unsent: false, outbox_early: Seq::empty(), ..self }
    }

    /// The replica with its log cut to what it retains, once it holds twice
    /// as much.
    pub open spec fn retain_log(self) -> Self {
        if self.applied > self.log_start + 2 * LOG_RETENTION {
            self.compact((self.applied - LOG_RETENTION) as OpNumber)
        } else {
            self
        }
    }

    /// The end of the replica's step in a round, in which it has taken its
    /// messages: the idle period, if there is one, the write, which goes
    /// straight back, and what they release.
    pub open spec fn finish_step(self, idle: bool) -> Finished<SM> {
        let idled = if idle {
            self.on_idle()
        } else {
            self
        };
        let kept = idled.sent_early().take_write().persisted().retain_log();
        Finished {
            replica: ReplicaModel {
                round_unsent: false,
                outbox_early: Seq::empty(),
                outbox_ready: Seq::empty(),
                replies: Seq::empty(),
                ..kept
            },
            sent: idled.outbox_early + (kept.outbox_early + kept.outbox_ready),
            replies: kept.replies,
        }
    }

    /// Whether nothing stops the replica in the end of its step.
    pub open spec fn can_finish_step(self, idle: bool) -> bool {
        let idled = if idle {
            self.on_idle()
        } else {
            self
        };
        &&& idled.ok
        &&& idled.outstanding is None
        &&& idled.sent_early().take_write().ok
        &&& idled.sent_early().take_write().persisted().ok
    }
}

/// Ends a replica's step in a round: runs the idle period, if there is one,
/// hands the write straight back, since there is nothing to make durable,
/// keeps the log short, and returns what leaves the replica.
#[verifier::rlimit(60)]
pub fn finish_step(replica: &mut Replica<Sum>, idle: bool) -> (released: (
    Vec<(ReplicaID, MessageFor<Sum>)>,
    Vec<Reply<u64>>,
))
    requires
        old(replica).wf(),
        old(replica)@.can_finish_step(idle),
    ensures
        final(replica).wf(),
        ({
            let finished = old(replica)@.finish_step(idle);
            &&& final(replica)@ == finished.replica
            &&& mail_view(released.0@) == finished.sent
            &&& released.1@ == finished.replies
        }),
{
    if idle {
        replica.on_idle();
    }
    let ghost idled = replica@;
    let mut sent = replica.drain_messages_before_persist();
    let write = replica.take_write();
    replica.persisted(write);
    let applied = replica.applied();
    if applied - replica.log_start() > 2 * LOG_RETENTION {
        replica.compact(applied - LOG_RETENTION);
    }
    let ghost before = sent@;
    let mut released = replica.drain_messages();
    let ghost after = released@;
    sent.append(&mut released);
    assert(mail_view(sent@) =~= mail_view(before) + mail_view(after));
    let replies = replica.drain_replies();
    (sent, replies)
}

/// The messages between replicas, and the `Prepare`s sent to a backup
/// again.
#[derive(Debug)]
pub struct Tally {
    pub messages: usize,
    pub resends: usize,
    /// The highest op number whose `Prepare` each replica was sent.
    pub(crate) prepared: Vec<OpNumber>,
}

/// What a tally has counted.
#[verifier::ext_equal]
pub struct TallyView {
    pub messages: usize,
    pub resends: usize,
    pub prepared: Seq<OpNumber>,
}

impl View for Tally {
    type V = TallyView;

    open(crate) spec fn view(&self) -> TallyView {
        TallyView {
            messages: self.messages,
            resends: self.resends,
            prepared: self.prepared@,
        }
    }
}

impl TallyView {
    /// The tally once `message` is sent to replica `to`.
    pub open spec fn count(self, to: ReplicaID, message: MessageViewFor<Sum>) -> Self {
        let messages = (self.messages + 1) as usize;
        if message is Prepare {
            let op_number = message->Prepare_op_number;
            let before = self.prepared[to as int];
            TallyView {
                messages,
                resends: if op_number <= before {
                    (self.resends + 1) as usize
                } else {
                    self.resends
                },
                prepared: self.prepared.update(
                    to as int,
                    max(before as int, op_number as int) as OpNumber,
                ),
            }
        } else {
            TallyView { messages, ..self }
        }
    }
}

impl Tally {
    /// A tally of no messages.
    pub fn new() -> (tally: Tally)
        ensures
            tally@ == (TallyView {
                messages: 0,
                resends: 0,
                prepared: Seq::new(REPLICAS as nat, |i: int| 0usize),
            }),
    {
        let tally = Tally { messages: 0, resends: 0, prepared: vec![0, 0, 0] };
        assert(tally@.prepared =~= Seq::new(REPLICAS as nat, |i: int| 0usize));
        tally
    }

    /// Counts a message sent to replica `to`.
    pub fn count(&mut self, to: ReplicaID, message: &MessageFor<Sum>)
        requires
            to < old(self)@.prepared.len(),
            old(self)@.messages < usize::MAX,
            old(self)@.resends < usize::MAX,
        ensures
            final(self)@ == old(self)@.count(to, message@),
    {
        self.messages += 1;
        if let Message::Prepare { op_number, .. } = message {
            if *op_number <= self.prepared[to] {
                self.resends += 1;
            } else {
                self.prepared[to] = *op_number;
            }
        }
        assert(self@ =~= old(self)@.count(to, message@));
    }
}

} // verus!
