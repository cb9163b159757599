use vstd::prelude::*;
use super::frames::frame_apply_committed;
use super::keeps::{advances, keeps_mail};
use super::life::{
    come_back_executed, is_life, life_keeps, owner_steps, restart_keeps, step_keeps, Start, Step,
};
use super::model::ReplicaModel;
use super::outboxes::{
    all_early, all_late, group_posts, posts_early, posts_early_behind, posts_early_trans,
    posts_late, posts_late_behind, posts_late_trans,
};
use super::steps::persisted_advances;
use crate::config::ConfigView;
use crate::ids::ReplicaID;
use crate::message::MessageViewFor;
use crate::state_machine::StateMachine;

verus! {

broadcast use group_posts;

/// What was queued to wait for a write, each time a write was taken in the
/// first `k` steps.
pub open spec fn held_back<SM: StateMachine>(
    life: Seq<ReplicaModel<SM>>,
    steps: Seq<Step<SM>>,
    k: nat,
) -> Seq<(ReplicaID, MessageViewFor<SM>)>
    decreases k,
{
    if k == 0 {
        Seq::empty()
    } else {
        let before = held_back(life, steps, (k - 1) as nat);
        if steps[k - 1] is TakeWrite {
            before + life[k - 1].outbox
        } else {
            before
        }
    }
}

/// What of that waited for writes that were handed back in the first `k`
/// steps.
pub open spec fn backed<SM: StateMachine>(
    life: Seq<ReplicaModel<SM>>,
    steps: Seq<Step<SM>>,
    k: nat,
) -> Seq<(ReplicaID, MessageViewFor<SM>)>
    decreases k,
{
    if k == 0 {
        Seq::empty()
    } else if steps[k - 1] is Persisted {
        held_back(life, steps, (k - 1) as nat)
    } else {
        backed(life, steps, (k - 1) as nat)
    }
}

/// What the owner has drained in the first `k` steps that waited for a
/// write.
pub open spec fn yielded_late<SM: StateMachine>(
    life: Seq<ReplicaModel<SM>>,
    steps: Seq<Step<SM>>,
    k: nat,
) -> Seq<(ReplicaID, MessageViewFor<SM>)>
    decreases k,
{
    if k == 0 {
        Seq::empty()
    } else {
        let before = yielded_late(life, steps, (k - 1) as nat);
        if steps[k - 1] is Drain {
            before + life[k - 1].outbox_ready
        } else {
            before
        }
    }
}

/// What the owner has drained in the first `k` steps that waited for none.
pub open spec fn yielded_early<SM: StateMachine>(
    life: Seq<ReplicaModel<SM>>,
    steps: Seq<Step<SM>>,
    k: nat,
) -> Seq<(ReplicaID, MessageViewFor<SM>)>
    decreases k,
{
    if k == 0 {
        Seq::empty()
    } else {
        let before = yielded_early(life, steps, (k - 1) as nat);
        if steps[k - 1] is Drain || steps[k - 1] is DrainEarly {
            before + life[k - 1].outbox_early
        } else {
            before
        }
    }
}

/// Everything queued to wait for a write by the `k`th step.
pub open spec fn sent_late<SM: StateMachine>(
    life: Seq<ReplicaModel<SM>>,
    steps: Seq<Step<SM>>,
    k: nat,
) -> Seq<(ReplicaID, MessageViewFor<SM>)> {
    held_back(life, steps, k) + life[k as int].outbox
}

/// Everything queued that need not wait, by the `k`th step.
pub open spec fn sent_early<SM: StateMachine>(
    life: Seq<ReplicaModel<SM>>,
    steps: Seq<Step<SM>>,
    k: nat,
) -> Seq<(ReplicaID, MessageViewFor<SM>)> {
    yielded_early(life, steps, k) + life[k as int].outbox_early
}

/// What a replica starts with in its queues.
proof fn starts_with<SM: StateMachine>(id: ReplicaID, config: ConfigView, start: Start<SM>)
    requires
        start.can(id, config),
    ensures
        ({
            let s = start.replica(id, config);
            &&& s.outstanding is None
            &&& s.outbox_waiting == Seq::<(ReplicaID, MessageViewFor<SM>)>::empty()
            &&& s.outbox_ready == Seq::<(ReplicaID, MessageViewFor<SM>)>::empty()
            &&& all_early(s.outbox_early)
            &&& all_late(s.outbox)
        }),
{
    broadcast use frame_apply_committed;

    reveal(posts_late);
    reveal(posts_early);
    let none = Seq::<(ReplicaID, MessageViewFor<SM>)>::empty();
    match start {
        Start::New { .. } => {},
        Start::Recover { .. } => {
            assert(posts_late(none, start.replica(id, config).outbox));
        },
        Start::Restart { machine, applied, state, nonce } => {
            restart_keeps::<SM>(id, config, machine, applied, state, nonce);
            reveal(advances);
            let back = come_back_executed::<SM>(id, config, machine, applied, state, nonce);
            assert(posts_late(none, back.outbox));
        },
    }
}

/// Every message that waits for a write leaves once that write is handed
/// back, once and in order: what the owner has drained, and what is ready to
/// be drained, is what was queued as of the writes that were handed back, and
/// what waits is what was queued as of the write that is out.
pub proof fn promises_leave_when_their_write_is_back<SM: StateMachine>(
    id: ReplicaID,
    config: ConfigView,
    start: Start<SM>,
    life: Seq<ReplicaModel<SM>>,
    steps: Seq<Step<SM>>,
    k: nat,
)
    requires
        is_life(id, config, start, life, steps),
        k < life.len(),
    ensures
        yielded_late(life, steps, k) + life[k as int].outbox_ready == backed(life, steps, k),
        backed(life, steps, k) + life[k as int].outbox_waiting == held_back(life, steps, k),
        life[k as int].outstanding is None ==> backed(life, steps, k) == held_back(life, steps, k),
    decreases k,
{
    if k == 0 {
        starts_with(id, config, start);
    } else {
        let j = (k - 1) as nat;
        let s = life[j as int];
        let step = steps[j as int];
        promises_leave_when_their_write_is_back(id, config, start, life, steps, j);
        life_keeps(id, config, start, life, steps, j as int);
        assert(s.can_step(step));
        let t = s.stepped(step);
        let before = backed(life, steps, j);
        if step is Message || step is Idle || step is Compact {
            step_keeps(s, step);
            reveal(advances);
        } else {
            owner_steps(s, step);
            if step is Persisted {
                persisted_advances(s);
                assert(yielded_late(life, steps, j) + (s.outbox_ready + s.outbox_waiting)
                    =~= before + s.outbox_waiting);
                assert(before + s.outbox_waiting + t.outbox_waiting =~= before + s.outbox_waiting);
            } else if step is Drain {
                assert(yielded_late(life, steps, j) + s.outbox_ready + t.outbox_ready
                    =~= yielded_late(life, steps, j) + s.outbox_ready);
            }
        }
    }
}

/// No message is lost, and none is sent out of turn: all that a replica has
/// queued by one step it has queued, in the same order, by a later one, but
/// for acknowledgements that a later one to the same replica in the same view
/// stands for. Only messages that promise nothing leave before a write.
pub proof fn no_message_is_lost<SM: StateMachine>(
    id: ReplicaID,
    config: ConfigView,
    start: Start<SM>,
    life: Seq<ReplicaModel<SM>>,
    steps: Seq<Step<SM>>,
    j: nat,
    k: nat,
)
    requires
        is_life(id, config, start, life, steps),
        j <= k < life.len(),
    ensures
        posts_late(sent_late(life, steps, j), sent_late(life, steps, k)),
        posts_early(sent_early(life, steps, j), sent_early(life, steps, k)),
        all_late(sent_late(life, steps, k)),
        all_early(sent_early(life, steps, k)),
    decreases k,
{
    if k == 0 {
        starts_with(id, config, start);
        let s = life[0];
        assert(sent_late(life, steps, 0) =~= s.outbox);
        assert(sent_early(life, steps, 0) =~= s.outbox_early);
    } else {
        let i = (k - 1) as nat;
        no_message_is_lost(id, config, start, life, steps, if j <= i { j } else { i }, i);
        queues_grow(id, config, start, life, steps, i);
        let (a, b) = (sent_late(life, steps, i), sent_late(life, steps, k));
        let (x, y) = (sent_early(life, steps, i), sent_early(life, steps, k));
        assert(all_late(b) && all_early(y)) by {
            reveal(posts_late);
            reveal(posts_early);
        }
        if j <= i {
            posts_late_trans(sent_late(life, steps, j), a, b);
            posts_early_trans(sent_early(life, steps, j), x, y);
        }
    }
}

/// What one step makes of all that is queued.
proof fn queues_grow<SM: StateMachine>(
    id: ReplicaID,
    config: ConfigView,
    start: Start<SM>,
    life: Seq<ReplicaModel<SM>>,
    steps: Seq<Step<SM>>,
    i: nat,
)
    requires
        is_life(id, config, start, life, steps),
        i < steps.len(),
    ensures
        posts_late(sent_late(life, steps, i), sent_late(life, steps, i + 1)),
        posts_early(sent_early(life, steps, i), sent_early(life, steps, i + 1)),
{
    let s = life[i as int];
    let step = steps[i as int];
    let t = life[i as int + 1];
    life_keeps(id, config, start, life, steps, i as int);
    promises_leave_when_their_write_is_back(id, config, start, life, steps, i);
    assert(s.can_step(step));
    let held = held_back(life, steps, i);
    let yielded = yielded_early(life, steps, i);
    if step is Message || step is Idle || step is Compact {
        step_keeps(s, step);
        assert(keeps_mail(s, t)) by {
            reveal(advances);
        }
        posts_late_behind(held, s.outbox, t.outbox);
        posts_early_behind(yielded, s.outbox_early, t.outbox_early);
    } else {
        owner_steps(s, step);
        if step is Persisted {
            persisted_advances(s);
        } else if step is TakeWrite {
            let backed = backed(life, steps, i);
            assert(s.outbox_waiting.len() == 0) by {
                assert((backed + s.outbox_waiting).len() == backed.len());
            }
            assert(held + s.outbox + t.outbox =~= held + s.outbox);
        } else if step is DrainEarly || step is Drain {
            assert(yielded + s.outbox_early + t.outbox_early =~= yielded + s.outbox_early);
        }
    }
}

} // verus!
