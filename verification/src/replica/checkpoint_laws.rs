use vstd::prelude::*;
use super::keeps::goes_on;
use super::life::{
    a_replica_only_goes_forward, idle_step, is_life, life_keeps, message_step, owner_step,
    Start, Step,
};
use super::model::ReplicaModel;
use super::parts::{FetchView, ResumeView};
use crate::config::ConfigView;
use crate::ids::{OpNumber, ReplicaID};
use crate::message::{MessageView, MessageViewFor};
use crate::state_machine::{StateCall, StateMachine};

verus! {

/// How many idle periods pass from step `a` to step `b`.
pub open spec fn idle_periods<SM: StateMachine>(steps: Seq<Step<SM>>, a: int, b: int) -> nat
    decreases b - a,
{
    if b <= a {
        0
    } else if steps[b - 1] is Idle {
        idle_periods(steps, a, b - 1) + 1
    } else {
        idle_periods(steps, a, b - 1)
    }
}

/// Whether `step` of replica `s` concerns the checkpoint that it keeps: it
/// answers a request for a chunk of it, or restores another.
pub open spec fn concerns_checkpoint<SM: StateMachine>(
    s: ReplicaModel<SM>,
    step: Step<SM>,
) -> bool {
    step matches Step::Message { message, .. } && (s.chunk_asked(message) is Some || s.restores(
        message,
    ))
}

/// A request for a chunk that is not answered changes nothing.
proof fn other_chunks_change_nothing<SM: StateMachine>(
    s: ReplicaModel<SM>,
    message: MessageViewFor<SM>,
    chunk: (SM::Chunk, bool),
)
    requires
        message is GetChunk,
        s.chunk_asked(message) is None,
    ensures
        s.stepped(Step::Message { message, chunk }) == s,
{
    reveal(ReplicaModel::stepped);
}

/// Asking for a chunk of the checkpoint kept counts its idle periods anew.
pub proof fn asking_for_a_chunk_keeps_the_checkpoint<SM: StateMachine>(
    s: ReplicaModel<SM>,
    message: MessageViewFor<SM>,
    chunk: (SM::Chunk, bool),
)
    requires
        s.chunk_asked(message) is Some,
    ensures
        s.serving is Some,
        s.stepped(Step::Message { message, chunk }).serving == Some(((s.serving->0).0, 0usize)),
        s.stepped(Step::Message { message, chunk }).machine == s.machine,
{
    reveal(ReplicaModel::stepped);
}

/// A step that does not concern the checkpoint kept leaves it, unless an
/// idle period passes.
proof fn checkpoint_stays<SM: StateMachine>(s: ReplicaModel<SM>, step: Step<SM>)
    requires
        s.inv(),
        s.can_step(step),
        s.serving is Some,
        !(step is Idle),
        !concerns_checkpoint(s, step),
    ensures
        s.stepped(step).serving == s.serving,
{
    match step {
        Step::Message { message, chunk } => {
            if message is GetChunk {
                other_chunks_change_nothing(s, message, chunk);
            } else {
                message_step(s, message, chunk);
            }
        },
        _ => owner_step(s, step),
    }
}

/// A checkpoint is kept for twice the primary timeout after it was taken, or
/// after a chunk of it was last asked for, and until then no entry after it
/// is compacted. Requests for the log do not extend that.
pub proof fn a_checkpoint_is_kept_for_twice_the_timeout<SM: StateMachine>(
    id: ReplicaID,
    config: ConfigView,
    start: Start<SM>,
    life: Seq<ReplicaModel<SM>>,
    steps: Seq<Step<SM>>,
    a: int,
    b: int,
    op_number: OpNumber,
)
    requires
        is_life(id, config, start, life, steps),
        0 <= a <= b < life.len(),
        life[a].serving == Some((op_number, 0usize)),
        forall|k: int| a <= k < b ==> !concerns_checkpoint(life[k], #[trigger] steps[k]),
        idle_periods(steps, a, b) < 2 * life[a].config.primary_timeout,
    ensures
        life[b].serving == Some((op_number, idle_periods(steps, a, b) as usize)),
        idle_periods(steps, a, b) <= usize::MAX,
        life[b].log_start <= op_number,
    decreases b - a,
{
    life_keeps(id, config, start, life, steps, b);
    if a < b {
        let k = b - 1;
        let s = life[k];
        let step = steps[k];
        a_checkpoint_is_kept_for_twice_the_timeout(
            id,
            config,
            start,
            life,
            steps,
            a,
            k,
            op_number,
        );
        a_replica_only_goes_forward(id, config, start, life, steps, a, k);
        life_keeps(id, config, start, life, steps, k);
        assert(s.can_step(step));
        assert(!concerns_checkpoint(s, step));
        if step is Idle {
            idle_step(s);
            serves_on(s);
            reveal(goes_on);
        } else {
            checkpoint_stays(s, step);
        }
    }
}

/// An idle period is one that the replica can count.
proof fn serves_on<SM: StateMachine>(s: ReplicaModel<SM>)
    requires
        s.can_step(Step::Idle),
    ensures
        s.serve_on_idle().fits,
{
    broadcast use super::ok::group_ok;

    reveal(ReplicaModel::can_step);
    reveal(ReplicaModel::on_idle);
    crate::replica::idle::ok_on_idle_parts(s.serve_on_idle());
}

/// The idle period that makes it twice the primary timeout since a
/// checkpoint was taken, or a chunk of it was last asked for, releases it,
/// and no idle period before does.
pub proof fn a_checkpoint_is_released_after_twice_the_timeout<SM: StateMachine>(
    id: ReplicaID,
    config: ConfigView,
    start: Start<SM>,
    life: Seq<ReplicaModel<SM>>,
    steps: Seq<Step<SM>>,
    a: int,
    b: int,
    op_number: OpNumber,
)
    requires
        is_life(id, config, start, life, steps),
        0 <= a <= b < steps.len(),
        life[a].serving == Some((op_number, 0usize)),
        forall|k: int| a <= k < b ==> !concerns_checkpoint(life[k], #[trigger] steps[k]),
        idle_periods(steps, a, b) < 2 * life[a].config.primary_timeout,
        steps[b] is Idle,
    ensures
        ({
            let s = life[b];
            let served = s.serve_on_idle();
            &&& goes_on(served, life[b + 1])
            &&& if idle_periods(steps, a, b) + 1 == 2 * life[a].config.primary_timeout {
                served.serving is None && served.machine == SM::step(s.machine, StateCall::Release)
            } else {
                served.serving is Some && served.machine == s.machine
            }
        }),
{
    a_checkpoint_is_kept_for_twice_the_timeout(id, config, start, life, steps, a, b, op_number);
    a_replica_only_goes_forward(id, config, start, life, steps, a, b);
    life_keeps(id, config, start, life, steps, b);
    assert(life[b].can_step(steps[b]));
    idle_step(life[b]);
    serves_on(life[b]);
}

/// A replica after its fetch has gone `periods` idle periods without a chunk.
pub open spec fn fetch_idled<SM: StateMachine>(s: ReplicaModel<SM>, periods: nat) -> ReplicaModel<
    SM,
>
    decreases periods,
{
    if periods == 0 {
        s
    } else {
        fetch_idled(s, (periods - 1) as nat).fetch_on_idle().0
    }
}

/// A fetch that gets no chunk for twice the primary timeout stalls, and not
/// before, and keeps its place.
pub proof fn a_fetch_stalls_after_twice_the_timeout<SM: StateMachine>(
    s: ReplicaModel<SM>,
    periods: nat,
)
    requires
        s.fetch is Some,
        (s.fetch->0).idle_periods == 0,
        !(s.fetch->0).stalled,
        0 < s.config.primary_timeout,
        periods <= 2 * s.config.primary_timeout <= usize::MAX,
    ensures
        fetch_idled(s, periods).config == s.config,
        fetch_idled(s, periods).fetch == Some(
            FetchView {
                idle_periods: periods as usize,
                stalled: periods == 2 * s.config.primary_timeout,
                ..s.fetch->0
            },
        ),
    decreases periods,
{
    if periods > 0 {
        a_fetch_stalls_after_twice_the_timeout(s, (periods - 1) as nat);
    }
}

/// A fetch that has stalled goes on from where it stopped if the same
/// replica names the same checkpoint again: it asks for the chunk it waits
/// for.
pub proof fn a_stalled_fetch_goes_on_from_where_it_stopped<SM: StateMachine>(
    s: ReplicaModel<SM>,
    from: ReplicaID,
    resume: ResumeView<SM::Input>,
)
    requires
        s.fetch is Some,
        (s.fetch->0).stalled,
        (s.fetch->0).from == from,
        (s.fetch->0).resume.checkpoint() == resume.checkpoint(),
    ensures
        ({
            let fetch = s.fetch->0;
            let t = s.start_fetch(from, resume);
            &&& t.fetch == Some(FetchView { resume, stalled: false, idle_periods: 0, ..fetch })
            &&& t.outbox_early == s.outbox_early.push(
                (
                    from,
                    MessageView::GetChunk {
                        replica_id: s.self_id,
                        op_number: resume.checkpoint(),
                        index: fetch.index,
                    },
                ),
            )
        }),
{
}

} // verus!
