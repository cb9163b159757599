//! What a recovery comes to: a majority that answers it ends it.

use vstd::prelude::*;
use super::frames::{frame_apply_committed, frame_commit_up_to};
use super::life::{a_replica_only_goes_forward, is_life, life_keeps, owner_steps, Start, Step};
use super::model::{is_latest_view, latest_view, ReplicaModel};
use super::ok::group_ok;
use super::parts::{ResponseView, Status};
use crate::config::ConfigView;
use crate::ids::{ReplicaID, ViewNumber};
use crate::message::{MessageView, MessageViewFor, RecoveryView};
use crate::state_machine::StateMachine;

verus! {

/// The answers to the recovery with `nonce` in the steps from `a` to `b`: the
/// latest of each replica.
pub open spec fn answers<SM: StateMachine>(steps: Seq<Step<SM>>, nonce: u64, a: int, b: int) -> Map<
    ReplicaID,
    ResponseView<SM::Input>,
>
    decreases b - a,
{
    if b <= a {
        Map::empty()
    } else {
        let before = answers(steps, nonce, a, b - 1);
        match steps[b - 1] {
            Step::Message {
                message: MessageView::RecoveryResponse {
                    view_number,
                    nonce: answered,
                    replica_id,
                    state,
                },
                ..
            } => if answered == nonce {
                before.insert(replica_id, ResponseView { view_number, state })
            } else {
                before
            },
            _ => before,
        }
    }
}

/// Whether `responses` are enough to recover into view `view_number`: they are
/// those of a majority, none is of a later view, and the primary of the view
/// is among them with its state.
pub open spec fn suffices<Op>(
    config: ConfigView,
    responses: Map<ReplicaID, ResponseView<Op>>,
    view_number: ViewNumber,
) -> bool {
    let primary_id = config.primary_of(view_number);
    &&& 2 * responses.dom().len() > config.size()
    &&& forall|q: ReplicaID| #[trigger]
        responses.contains_key(q) ==> responses[q].view_number <= view_number
    &&& responses.contains_key(primary_id)
    &&& responses[primary_id].view_number == view_number
    &&& responses[primary_id].state is Some
}

/// Whether a replica recovers, and fetches no checkpoint to recover from.
pub open spec fn waits_for_answers<SM: StateMachine>(s: ReplicaModel<SM>) -> bool {
    s.status == Status::Recovering && s.fetch is None
}

/// Whether a replica waits for answers that it does not have.
spec fn lacks_answers<SM: StateMachine>(s: ReplicaModel<SM>) -> bool {
    forall|v: ViewNumber|
        v >= s.view_number ==> !#[trigger] suffices(s.config, s.recovery_responses, v)
}

/// Whether a step from `s` to `t` only waits on.
spec fn waits_on<SM: StateMachine>(s: ReplicaModel<SM>, t: ReplicaModel<SM>) -> bool {
    &&& t.config == s.config
    &&& t.recovery_nonce == s.recovery_nonce
    &&& t.view_number == s.view_number
    &&& t.recovery_responses == s.recovery_responses
}

/// The view that answers suffice for is the latest of theirs.
pub proof fn latest_is<Op>(
    config: ConfigView,
    responses: Map<ReplicaID, ResponseView<Op>>,
    view_number: ViewNumber,
)
    requires
        suffices(config, responses, view_number),
    ensures
        latest_view(responses) == view_number,
{
    assert(is_latest_view(responses, view_number));
    let latest = latest_view(responses);
    assert(is_latest_view(responses, latest));
    let q = choose|q: ReplicaID| #[trigger]
        responses.contains_key(q) && responses[q].view_number == latest;
    assert(responses[q].view_number <= view_number);
    assert(responses.contains_key(config.primary_of(view_number)));
}

/// What a response to the recovery makes of a replica that still waits.
proof fn response_counts<SM: StateMachine>(
    s: ReplicaModel<SM>,
    view_number: ViewNumber,
    nonce: u64,
    replica_id: ReplicaID,
    state: Option<RecoveryView<SM::Input>>,
)
    requires
        waits_for_answers(s),
        nonce == s.recovery_nonce,
        s.on_recovery_response(view_number, nonce, replica_id, state).fits,
        waits_for_answers(s.on_recovery_response(view_number, nonce, replica_id, state)),
    ensures
        ({
            let t = s.on_recovery_response(view_number, nonce, replica_id, state);
            &&& t.config == s.config
            &&& t.recovery_nonce == s.recovery_nonce
            &&& t.view_number == s.view_number
            &&& t.recovery_responses == s.recovery_responses.insert(
                replica_id,
                ResponseView { view_number, state },
            )
            &&& lacks_answers(t)
        }),
{
    broadcast use frame_commit_up_to;

    reveal(ReplicaModel::on_recovery_response);
    let t = s.on_recovery_response(view_number, nonce, replica_id, state);
    let responses = s.recovery_responses.insert(replica_id, ResponseView { view_number, state });
    assert forall|v: ViewNumber| v >= s.view_number implies !#[trigger] suffices(
        s.config,
        responses,
        v,
    ) by {
        if suffices(s.config, responses, v) {
            latest_is(s.config, responses, v);
        }
    }
}

/// What a step makes of a replica that still waits.
proof fn step_counts<SM: StateMachine>(s: ReplicaModel<SM>, step: Step<SM>)
    requires
        s.inv(),
        s.can_step(step),
        waits_for_answers(s),
        waits_for_answers(s.stepped(step)),
        lacks_answers(s),
    ensures
        ({
            let t = s.stepped(step);
            &&& t.config == s.config
            &&& t.recovery_nonce == s.recovery_nonce
            &&& t.view_number == s.view_number
            &&& lacks_answers(t)
            &&& t.recovery_responses == match step {
                Step::Message {
                    message: MessageView::RecoveryResponse {
                        view_number,
                        nonce,
                        replica_id,
                        state,
                    },
                    ..
                } => if nonce == s.recovery_nonce {
                    s.recovery_responses.insert(replica_id, ResponseView { view_number, state })
                } else {
                    s.recovery_responses
                },
                _ => s.recovery_responses,
            }
        }),
{
    match step {
        Step::Message { message, chunk } => {
            assert(s.stepped(step) == s.on_message(message, chunk) && s.on_message(
                message,
                chunk,
            ).fits) by {
                reveal(ReplicaModel::can_step);
                reveal(ReplicaModel::stepped);
            }
            message_counts(s, message, chunk);
        },
        Step::Idle => {
            assert(s.stepped(step) == s.on_idle()) by {
                reveal(ReplicaModel::stepped);
            }
            assert(waits_on(s, s.on_idle())) by {
                reveal(ReplicaModel::on_idle);
            }
        },
        Step::Compact { op_number } => {
            assert(s.stepped(step) == s.compact(op_number)) by {
                reveal(ReplicaModel::stepped);
            }
        },
        Step::Persisted => {
            owner_steps(s, step);
            persisting_counts(s);
        },
        _ => owner_steps(s, step),
    }
}

proof fn persisting_counts<SM: StateMachine>(s: ReplicaModel<SM>)
    ensures
        waits_on(s, s.persisted()),
{
    broadcast use {frame_apply_committed, frame_commit_up_to};

    reveal(ReplicaModel::persisted);
}

proof fn message_counts<SM: StateMachine>(
    s: ReplicaModel<SM>,
    message: MessageViewFor<SM>,
    chunk: (SM::Chunk, bool),
)
    requires
        waits_for_answers(s),
        s.on_message(message, chunk).fits,
        waits_for_answers(s.on_message(message, chunk)),
        lacks_answers(s),
    ensures
        ({
            let t = s.on_message(message, chunk);
            &&& t.config == s.config
            &&& t.recovery_nonce == s.recovery_nonce
            &&& t.view_number == s.view_number
            &&& lacks_answers(t)
            &&& t.recovery_responses == match message {
                MessageView::RecoveryResponse { view_number, nonce, replica_id, state } => {
                    if nonce == s.recovery_nonce {
                        s.recovery_responses.insert(
                            replica_id,
                            ResponseView { view_number, state },
                        )
                    } else {
                        s.recovery_responses
                    }
                },
                _ => s.recovery_responses,
            }
        }),
{
    if !s.ignores(message) {
        reveal(ReplicaModel::handle);
        match message {
            MessageView::RecoveryResponse { view_number, nonce, replica_id, state } => {
                if nonce == s.recovery_nonce {
                    response_counts(s, view_number, nonce, replica_id, state);
                } else {
                    reveal(ReplicaModel::on_recovery_response);
                }
            },
            MessageView::NewChunk { .. } => {
                reveal(ReplicaModel::on_new_chunk);
            },
            _ => {},
        }
    }
}

/// What a replica that has only waited has counted.
proof fn waiting_counts<SM: StateMachine>(
    id: ReplicaID,
    config: ConfigView,
    start: Start<SM>,
    life: Seq<ReplicaModel<SM>>,
    steps: Seq<Step<SM>>,
    a: int,
    k: int,
)
    requires
        is_life(id, config, start, life, steps),
        0 <= a <= k < life.len(),
        forall|j: int| a <= j <= k ==> waits_for_answers(#[trigger] life[j]),
        life[a].recovery_responses == Map::<ReplicaID, ResponseView<SM::Input>>::empty(),
    ensures
        life[k].config == life[a].config,
        life[k].recovery_nonce == life[a].recovery_nonce,
        life[k].view_number == life[a].view_number,
        life[k].recovery_responses == answers(steps, life[a].recovery_nonce, a, k),
        lacks_answers(life[k]),
    decreases k - a,
{
    if a == k {
        life_keeps(id, config, start, life, steps, a);
    } else {
        waiting_counts(id, config, start, life, steps, a, k - 1);
        life_keeps(id, config, start, life, steps, k - 1);
        assert(life[k - 1].can_step(steps[k - 1]));
        assert(waits_for_answers(life[k - 1]) && waits_for_answers(life[k - 1 + 1]));
        step_counts(life[k - 1], steps[k - 1]);
    }
}

/// A replica that starts has heard no answer.
pub proof fn a_recovery_starts_without_answers<SM: StateMachine>(
    id: ReplicaID,
    config: ConfigView,
    start: Start<SM>,
)
    requires
        start.can(id, config),
        start.replica(id, config).status == Status::Recovering,
    ensures
        waits_for_answers(start.replica(id, config)),
        start.replica(id, config).recovery_responses == Map::<
            ReplicaID,
            ResponseView<SM::Input>,
        >::empty(),
{
    broadcast use frame_apply_committed;

    reveal(ReplicaModel::restart);
}

/// A recovery ends once a majority has answered it, the primary of the latest
/// view among them with its state, and that view is no earlier than the one
/// that the replica knows: the replica takes part again, or fetches the
/// checkpoint that the primary named. It waits for nobody else.
pub proof fn a_recovery_that_a_majority_answers_ends<SM: StateMachine>(
    id: ReplicaID,
    config: ConfigView,
    start: Start<SM>,
    life: Seq<ReplicaModel<SM>>,
    steps: Seq<Step<SM>>,
    a: int,
    k: int,
    view_number: ViewNumber,
)
    requires
        is_life(id, config, start, life, steps),
        0 <= a <= k < life.len(),
        a == 0 || life[a].recovery_responses == Map::<
            ReplicaID,
            ResponseView<SM::Input>,
        >::empty(),
        waits_for_answers(life[a]),
        view_number >= life[a].view_number,
        suffices(config, answers(steps, life[a].recovery_nonce, a, k), view_number),
    ensures
        exists|j: int|
            a <= j <= k && ((#[trigger] life[j]).status != Status::Recovering || life[j].fetch
                is Some),
{
    if forall|j: int| a <= j <= k ==> waits_for_answers(#[trigger] life[j]) {
        if a == 0 {
            a_recovery_starts_without_answers(id, config, start);
        }
        waiting_counts(id, config, start, life, steps, a, k);
        a_replica_only_goes_forward(id, config, start, life, steps, 0, k);
        assert(life[k].config == config) by {
            starts_configured(id, config, start);
        }
        assert(!suffices(life[k].config, life[k].recovery_responses, view_number));
    } else {
        let j = choose|j: int| a <= j <= k && !waits_for_answers(#[trigger] life[j]);
        assert(life[j].status != Status::Recovering || life[j].fetch is Some);
    }
}

/// A replica starts with its configuration.
pub proof fn starts_configured<SM: StateMachine>(id: ReplicaID, config: ConfigView, start: Start<SM>)
    requires
        start.can(id, config),
    ensures
        start.replica(id, config).config == config,
{
    broadcast use {group_ok, frame_apply_committed, frame_commit_up_to};

    reveal(ReplicaModel::restart);
}

} // verus!
