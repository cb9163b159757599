//! What a replica goes through, from one crash to the next.

use vstd::prelude::*;
use super::frames::frame_apply_committed;
use super::keeps::{
    advances, goes_forward, goes_on, goes_on_advances, goes_on_refl, keep_apply_committed,
    keep_start_next_view, keep_start_view_change,
};
use super::model::ReplicaModel;
use super::ok::group_ok;
use super::parts::Written;
use super::runs::{executes, executes_trans, group_executes, run_of, works};
use super::steps::{
    compact_advances, idle_advances, message_advances, persisted_advances, take_write_advances,
};
use crate::config::ConfigView;
use crate::ids::{OpNumber, ReplicaID, ViewNumber};
use crate::log::PersistentView;
use crate::message::MessageViewFor;
use crate::state_machine::StateMachine;

verus! {

/// How a replica starts.
pub enum Start<SM: StateMachine> {
    /// It is new.
    New { machine: SM::State },
    /// It has lost its disk.
    Recover { machine: SM::State, view_number: ViewNumber, nonce: u64 },
    /// It is back from a crash.
    Restart {
        machine: SM::State,
        applied: OpNumber,
        state: PersistentView<SM::Input>,
        nonce: u64,
    },
}

impl<SM: StateMachine> Start<SM> {
    /// Whether a replica can start so. A replica that was recovering has
    /// written no log but for what its state machine holds.
    pub open spec fn can(self, id: ReplicaID, config: ConfigView) -> bool {
        &&& config.is_cluster()
        &&& self matches Start::Restart { machine, applied, state, .. } ==> {
            &&& ReplicaModel::<SM>::can_restart(machine, applied, state)
            &&& state.recovering ==> state.log.len() == 0 && state.log_start <= applied
            &&& self.replica(id, config).fits
        }
    }

    /// The replica.
    pub open spec fn replica(self, id: ReplicaID, config: ConfigView) -> ReplicaModel<SM> {
        match self {
            Start::New { machine } => ReplicaModel::init(id, config, machine),
            Start::Recover { machine, view_number, nonce } => ReplicaModel::recover(
                id,
                config,
                machine,
                view_number,
                nonce,
            ),
            Start::Restart { machine, applied, state, nonce } => ReplicaModel::restart(
                id,
                config,
                machine,
                applied,
                state,
                nonce,
            ),
        }
    }

    /// What its disk holds.
    pub open spec fn disk(self) -> PersistentView<SM::Input> {
        match self {
            Start::Restart { state, .. } => state,
            _ => PersistentView::empty(),
        }
    }
}

/// A step of a replica.
pub enum Step<SM: StateMachine> {
    /// It handles a message. A request for a chunk is answered with `chunk`.
    Message { message: MessageViewFor<SM>, chunk: (SM::Chunk, bool) },
    /// An idle period passes.
    Idle,
    /// It compacts its log.
    Compact { op_number: OpNumber },
    /// Its owner takes its write.
    TakeWrite,
    /// Its owner hands the write back.
    Persisted,
    /// Its owner drains what need not wait for a write.
    DrainEarly,
    /// Its owner drains what waits for no write any more.
    Drain,
    /// Its owner drains its replies.
    DrainReplies,
}

impl<SM: StateMachine> ReplicaModel<SM> {
    /// Whether the replica can take `step`.
    #[verifier::opaque]
    pub open spec fn can_step(self, step: Step<SM>) -> bool {
        match step {
            Step::Message { message, chunk } => self.on_message(message, chunk).fits,
            Step::Idle => self.on_idle().fits,
            Step::TakeWrite => self.outstanding is None && self.take_write().fits,
            Step::Persisted => self.outstanding is Some && self.persisted().fits,
            _ => true,
        }
    }

    /// The replica after `step`.
    #[verifier::opaque]
    pub open spec fn stepped(self, step: Step<SM>) -> Self {
        match step {
            Step::Message { message, chunk } => self.on_message(message, chunk),
            Step::Idle => self.on_idle(),
            Step::Compact { op_number } => self.compact(op_number),
            Step::TakeWrite => self.take_write(),
            Step::Persisted => self.persisted(),
            Step::DrainEarly => ReplicaModel {
                round_unsent: false,
                outbox_early: Seq::empty(),
                ..self
            },
            Step::Drain => ReplicaModel {
                round_unsent: false,
                outbox_early: Seq::empty(),
                outbox_ready: Seq::empty(),
                ..self
            },
            Step::DrainReplies => ReplicaModel { replies: Seq::empty(), ..self },
        }
    }
}

/// Whether a replica that starts with `start` is `life[k]` after the first
/// `k` of `steps`.
pub open spec fn is_life<SM: StateMachine>(
    id: ReplicaID,
    config: ConfigView,
    start: Start<SM>,
    life: Seq<ReplicaModel<SM>>,
    steps: Seq<Step<SM>>,
) -> bool {
    &&& start.can(id, config)
    &&& life.len() == steps.len() + 1
    &&& life[0] == start.replica(id, config)
    &&& forall|k: int|
        0 <= k < steps.len() ==> life[k].can_step(#[trigger] steps[k]) && life[k + 1]
            == life[k].stepped(steps[k])
}

/// What a replica has on disk once every write that it has taken in its
/// first `k` steps is applied.
pub open spec fn replayed<SM: StateMachine>(
    start: Start<SM>,
    life: Seq<ReplicaModel<SM>>,
    steps: Seq<Step<SM>>,
    k: nat,
) -> PersistentView<SM::Input>
    decreases k,
{
    if k == 0 {
        start.disk()
    } else {
        let before = replayed(start, life, steps, (k - 1) as nat);
        if steps[k - 1] is TakeWrite {
            before.apply(life[k - 1].write())
        } else {
            before
        }
    }
}

/// A replica that is back from a crash, before it goes on in its view.
pub open spec fn come_back_executed<SM: StateMachine>(
    id: ReplicaID,
    config: ConfigView,
    machine: SM::State,
    applied: OpNumber,
    state: PersistentView<SM::Input>,
    nonce: u64,
) -> ReplicaModel<SM> {
    let loaded = loaded::<SM>(id, config, machine, applied, state, nonce);
    loaded.apply_committed(loaded.op_number()).rebuild_pending()
}

/// A replica that is back from a crash, before it executes what it finds
/// committed.
pub open spec fn loaded<SM: StateMachine>(
    id: ReplicaID,
    config: ConfigView,
    machine: SM::State,
    applied: OpNumber,
    state: PersistentView<SM::Input>,
    nonce: u64,
) -> ReplicaModel<SM> {
    let back = ReplicaModel::<SM>::come_back(id, config, machine, applied, state, nonce);
    let loaded = ReplicaModel {
        applied,
        written: Some(
            Written {
                view_number: state.view_number,
                last_normal_view: state.last_normal_view,
                recovering: state.recovering,
                log_start: state.log_start,
            },
        ),
        ..back
    }.load_client_table();
    ReplicaModel { durable: loaded.op_number() as OpNumber, ..loaded }
}

/// A replica that is back from a crash is one that steps keep.
pub proof fn restart_keeps<SM: StateMachine>(
    id: ReplicaID,
    config: ConfigView,
    machine: SM::State,
    applied: OpNumber,
    state: PersistentView<SM::Input>,
    nonce: u64,
)
    requires
        config.is_cluster(),
        ReplicaModel::<SM>::can_restart(machine, applied, state),
        ReplicaModel::<SM>::restart(id, config, machine, applied, state, nonce).fits,
    ensures
        ReplicaModel::<SM>::restart(id, config, machine, applied, state, nonce).inv(),
        come_back_executed::<SM>(id, config, machine, applied, state, nonce).inv(),
        goes_on(
            come_back_executed::<SM>(id, config, machine, applied, state, nonce),
            ReplicaModel::<SM>::restart(id, config, machine, applied, state, nonce),
        ),
        advances(
            come_back_executed::<SM>(id, config, machine, applied, state, nonce),
            ReplicaModel::<SM>::restart(id, config, machine, applied, state, nonce),
        ),
        loaded::<SM>(id, config, machine, applied, state, nonce).inv(),
        executes(
            loaded::<SM>(id, config, machine, applied, state, nonce),
            come_back_executed::<SM>(id, config, machine, applied, state, nonce),
        ),
        come_back_executed::<SM>(id, config, machine, applied, state, nonce).log_start
            == loaded::<SM>(id, config, machine, applied, state, nonce).log_start,
{
    broadcast use {group_ok, goes_on_advances, frame_apply_committed};

    reveal(ReplicaModel::restart);
    let ready = loaded::<SM>(id, config, machine, applied, state, nonce);
    assert(ready.inv());
    keep_apply_committed(ready, ready.op_number());
    let back = come_back_executed::<SM>(id, config, machine, applied, state, nonce);
    assert(back.inv());
    let caught_up = ready.apply_committed(ready.op_number());
    reveal(goes_on);
    assert(executes(caught_up, back)) by {
        reveal(executes);
        if caught_up.can_run() && back.log_start <= caught_up.applied {
            assert(run_of(caught_up, back) =~= Seq::empty());
        }
    }
    executes_trans(ready, caught_up, back);
    goes_on_refl(back);
    if !state.recovering {
        if state.last_normal_view < state.view_number {
            keep_start_view_change(back, state.view_number);
        } else if back.is_primary() {
            keep_start_next_view(back);
        }
    }
}

#[verifier::rlimit(40)]
pub proof fn message_step<SM: StateMachine>(
    s: ReplicaModel<SM>,
    message: MessageViewFor<SM>,
    chunk: (SM::Chunk, bool),
)
    requires
        s.inv(),
        s.can_step(Step::Message { message, chunk }),
    ensures
        s.stepped(Step::Message { message, chunk }).inv(),
        advances(s, s.stepped(Step::Message { message, chunk })),
        !(message is GetChunk) && !s.awaits(message) ==> goes_on(
            s,
            s.stepped(Step::Message { message, chunk }),
        ),
        !(message is GetChunk) && !s.restores(message) ==> (s.serving is Some ==> s.stepped(
            Step::Message { message, chunk },
        ).serving == s.serving),
        !s.restores(message) ==> s.stepped(Step::Message { message, chunk }).log_start
            == s.log_start,
        s.restores(message) ==> s.restored(message).inv() && goes_on(
            s.restored(message),
            s.stepped(Step::Message { message, chunk }),
        ),
{
    reveal(ReplicaModel::can_step);
    reveal(ReplicaModel::stepped);
    message_advances(s, message, chunk);
}

#[verifier::rlimit(40)]
pub proof fn idle_step<SM: StateMachine>(s: ReplicaModel<SM>)
    requires
        s.inv(),
        s.can_step(Step::Idle),
    ensures
        s.stepped(Step::Idle).inv(),
        advances(s, s.stepped(Step::Idle)),
        goes_on(s.serve_on_idle(), s.stepped(Step::Idle)),
{
    reveal(ReplicaModel::can_step);
    reveal(ReplicaModel::stepped);
    idle_advances(s);
}

pub proof fn owner_step<SM: StateMachine>(s: ReplicaModel<SM>, step: Step<SM>)
    requires
        s.inv(),
        s.can_step(step),
        !(step is Message),
        !(step is Idle),
    ensures
        s.stepped(step).inv(),
        goes_forward(s, s.stepped(step)),
        step is Compact ==> advances(s, s.stepped(step)),
        executes(s, s.stepped(step)),
        works(s, s.stepped(step)),
        s.stepped(step).log_start <= s.applied,
        s.serving is Some ==> s.stepped(step).serving == s.serving,
{
    broadcast use group_executes;

    match step {
        Step::Compact { op_number } => {
            compacts(s, op_number);
            compact_advances(s, op_number);
            reveal(advances);
        },
        Step::TakeWrite => {
            owner_steps(s, step);
            take_write_advances(s);
        },
        Step::Persisted => {
            owner_steps(s, step);
            persisted_advances(s);
        },
        _ => {
            owner_steps(s, step);
        },
    }
}

proof fn compacts<SM: StateMachine>(s: ReplicaModel<SM>, op_number: OpNumber)
    ensures
        s.stepped(Step::Compact { op_number }) == s.compact(op_number),
{
    reveal(ReplicaModel::stepped);
}

/// A step keeps what every step keeps.
pub proof fn step_keeps<SM: StateMachine>(s: ReplicaModel<SM>, step: Step<SM>)
    requires
        s.inv(),
        s.can_step(step),
    ensures
        s.stepped(step).inv(),
        goes_forward(s, s.stepped(step)),
        step is Message || step is Idle || step is Compact ==> advances(s, s.stepped(step)),
{
    match step {
        Step::Message { message, chunk } => {
            message_step(s, message, chunk);
            reveal(advances);
        },
        Step::Idle => {
            idle_step(s);
            reveal(advances);
        },
        _ => owner_step(s, step),
    }
}

/// What the steps that an owner takes make of a replica.
pub proof fn owner_steps<SM: StateMachine>(s: ReplicaModel<SM>, step: Step<SM>)
    requires
        s.can_step(step),
        !(step is Message),
        !(step is Idle),
        !(step is Compact),
    ensures
        step is TakeWrite ==> s.outstanding is None && s.stepped(step) == s.take_write(),
        step is Persisted ==> s.outstanding is Some && s.stepped(step) == s.persisted(),
        step is DrainEarly || step is Drain || step is DrainReplies ==> s.stepped(step) == (
        ReplicaModel {
            round_unsent: s.stepped(step).round_unsent,
            outbox_early: s.stepped(step).outbox_early,
            outbox_ready: s.stepped(step).outbox_ready,
            replies: s.stepped(step).replies,
            ..s
        }),
        step is DrainEarly || step is Drain ==> s.stepped(step).outbox_early == Seq::<
            (ReplicaID, MessageViewFor<SM>),
        >::empty(),
        step is DrainEarly || step is DrainReplies ==> s.stepped(step).outbox_ready
            == s.outbox_ready,
        step is Drain ==> s.stepped(step).outbox_ready == Seq::<
            (ReplicaID, MessageViewFor<SM>),
        >::empty(),
        step is DrainReplies ==> s.stepped(step).outbox_early == s.outbox_early,
{
    reveal(ReplicaModel::can_step);
    reveal(ReplicaModel::stepped);
}

/// What every step keeps holds all through a life.
pub proof fn life_keeps<SM: StateMachine>(
    id: ReplicaID,
    config: ConfigView,
    start: Start<SM>,
    life: Seq<ReplicaModel<SM>>,
    steps: Seq<Step<SM>>,
    k: int,
)
    requires
        is_life(id, config, start, life, steps),
        0 <= k < life.len(),
    ensures
        life[k].inv(),
    decreases k,
{
    if k == 0 {
        match start {
            Start::Restart { machine, applied, state, nonce } => {
                restart_keeps::<SM>(id, config, machine, applied, state, nonce);
            },
            _ => {},
        }
    } else {
        life_keeps(id, config, start, life, steps, k - 1);
        assert(life[k - 1].can_step(steps[k - 1]));
        step_keeps(life[k - 1], steps[k - 1]);
    }
}

/// Nothing goes back in the life of a replica: its view, the last view it
/// was normal in, its commit number, what it has executed and where its log
/// starts never decrease, and a committed entry that its log holds never
/// changes, unless it is compacted.
pub proof fn a_replica_only_goes_forward<SM: StateMachine>(
    id: ReplicaID,
    config: ConfigView,
    start: Start<SM>,
    life: Seq<ReplicaModel<SM>>,
    steps: Seq<Step<SM>>,
    a: int,
    b: int,
)
    requires
        is_life(id, config, start, life, steps),
        0 <= a <= b < life.len(),
    ensures
        goes_forward(life[a], life[b]),
    decreases b - a,
{
    if a < b {
        a_replica_only_goes_forward(id, config, start, life, steps, a, b - 1);
        life_keeps(id, config, start, life, steps, b - 1);
        assert(life[b - 1].can_step(steps[b - 1]));
        step_keeps(life[b - 1], steps[b - 1]);
        goes_forward_trans(life[a], life[b - 1], life[b]);
    }
}

pub proof fn goes_forward_trans<SM: StateMachine>(
    s: ReplicaModel<SM>,
    t: ReplicaModel<SM>,
    u: ReplicaModel<SM>,
)
    requires
        goes_forward(s, t),
        goes_forward(t, u),
    ensures
        goes_forward(s, u),
{
    assert forall|op_number: int|
        u.log_start < op_number && op_number <= s.commit_number && op_number
            <= s.op_number() implies op_number <= u.op_number() && #[trigger] u.entry(op_number)
        == s.entry(op_number) by {
        assert(t.entry(op_number) == s.entry(op_number));
    }
}

} // verus!
