//! How long a replica waits: for its primary, and for a view change.

use vstd::arithmetic::power2::{lemma_pow2_pos, pow2};
use vstd::prelude::*;
use super::frames::frame_commit_up_to;
use super::life::{a_replica_only_goes_forward, is_life, life_keeps, Start, Step};
use super::model::{all_but, mail, ReplicaModel};
use super::ok::{
    ok_fetch_on_idle, ok_note_stable, ok_send_do_view_change, ok_start_next_view,
    ok_start_view_change, ok_wait_timed_out,
};
use super::parts::Status;
use super::recovery_laws::starts_configured;
use crate::config::ConfigView;
use crate::ids::{ReplicaID, ViewNumber};
use crate::message::MessageView;
use crate::state_machine::StateMachine;

verus! {

/// Whether a replica follows a primary.
pub open spec fn follows<SM: StateMachine>(s: ReplicaModel<SM>) -> bool {
    &&& s.status == Status::Normal || s.status == Status::StateTransfer
    &&& !s.is_primary()
}

/// How many idle periods a replica that entered `attempts` view changes
/// without a stable stretch in between waits: twice as many for each.
pub open spec fn wait(config: ConfigView, attempts: u32) -> int {
    config.primary_timeout * pow2(attempts as nat)
}

proof fn wait_is_longer(config: ConfigView, attempts: u32)
    ensures
        wait(config, attempts) >= config.primary_timeout,
        wait(config, 0) == config.primary_timeout,
{
    lemma_pow2_pos(attempts as nat);
    vstd::arithmetic::power2::lemma2_to64();
    let factor = pow2(attempts as nat) as int;
    assert(config.primary_timeout * factor >= config.primary_timeout) by (nonlinear_arith)
        requires
            factor >= 1,
            config.primary_timeout >= 0,
    ;
}

/// A letter to each of the replicas that it is for is in the mail.
pub proof fn mail_holds<M>(
    size: nat,
    letter: spec_fn(ReplicaID) -> Option<M>,
    q: ReplicaID,
) -> (n: int)
    requires
        q < size <= usize::MAX,
        letter(q) is Some,
    ensures
        0 <= n < mail(size, letter).len(),
        mail(size, letter)[n] == (q, letter(q)->0),
    decreases size,
{
    let last = (size - 1) as ReplicaID;
    if q == last {
        mail(size, letter).len() - 1
    } else {
        mail_holds((size - 1) as nat, letter, q)
    }
}

/// What starting a view change says, and to whom.
pub proof fn asks_everybody<SM: StateMachine>(s: ReplicaModel<SM>, view_number: ViewNumber, q: ReplicaID)
    requires
        s.config.is_cluster(),
        q < s.config.size(),
        q != s.self_id,
    ensures
        s.start_view_change(view_number).view_number == view_number,
        s.start_view_change(view_number).status == Status::ViewChange,
        s.start_view_change(view_number).outbox.contains(
            (
                q,
                MessageView::<SM::Input, SM::Query, SM::Chunk>::StartViewChange {
                    view_number,
                    replica_id: s.self_id,
                },
            ),
        ),
{
    let message = MessageView::<SM::Input, SM::Query, SM::Chunk>::StartViewChange {
        view_number,
        replica_id: s.self_id,
    };
    let letter = all_but(s.self_id, message);
    let n = mail_holds(s.config.size(), letter, q);
    let t = s.start_view_change(view_number);
    assert(t.outbox == s.outbox + mail(s.config.size(), letter));
    assert(t.outbox[s.outbox.len() + n] == (q, message));
}

/// Whether a step from `s` to `t` leaves for the next view, and says so to
/// every other replica.
pub open spec fn leaves_view<SM: StateMachine>(s: ReplicaModel<SM>, t: ReplicaModel<SM>) -> bool {
    &&& t.view_number == s.view_number + 1
    &&& t.status == Status::ViewChange
    &&& forall|q: ReplicaID|
        q < s.config.size() && q != s.self_id ==> #[trigger] t.outbox.contains(
            (
                q,
                MessageView::<SM::Input, SM::Query, SM::Chunk>::StartViewChange {
                    view_number: t.view_number,
                    replica_id: s.self_id,
                },
            ),
        )
}

proof fn next_view_leaves<SM: StateMachine>(s: ReplicaModel<SM>)
    requires
        s.config.is_cluster(),
        s.start_next_view().fits,
    ensures
        leaves_view(s, s.start_next_view()),
{
    broadcast use ok_start_view_change;

    let checked = s.check(s.view_number < usize::MAX);
    let t = s.start_next_view();
    let v = (s.view_number + 1) as ViewNumber;
    assert(t == checked.start_view_change(v));
    assert(s.view_number < usize::MAX);
    assert(t.view_number == s.view_number + 1 && t.status == Status::ViewChange) by {
        let q: ReplicaID = if s.self_id == 0 {
            1
        } else {
            0
        };
        asks_everybody(checked, v, q);
    }
    assert forall|q: ReplicaID| q < s.config.size() && q != s.self_id implies #[trigger] t.outbox.contains(
        (
            q,
            MessageView::<SM::Input, SM::Query, SM::Chunk>::StartViewChange {
                view_number: t.view_number,
                replica_id: s.self_id,
            },
        ),
    ) by {
        asks_everybody(checked, v, q);
    }
}

/// What an idle period makes of a replica that follows a primary: it hears
/// whether the primary is there, or waits on, or leaves the view.
pub proof fn an_idle_period_of_a_backup<SM: StateMachine>(s: ReplicaModel<SM>)
    requires
        s.config.is_cluster(),
        follows(s),
        s.on_idle().fits,
    ensures
        ({
            let t = s.on_idle();
            let waited = s.idle_periods_waiting + 1;
            let over = !s.heard_from_primary && waited >= wait(s.config, s.view_change_attempts);
            &&& over ==> leaves_view(s, t)
            &&& !over ==> {
                &&& follows(t)
                &&& t.view_number == s.view_number
                &&& !t.heard_from_primary
                &&& t.idle_periods_waiting == if s.heard_from_primary {
                    0
                } else {
                    waited
                }
                &&& t.view_change_attempts == s.view_change_attempts || t.view_change_attempts == 0
            }
            &&& t.config == s.config
            &&& t.self_id == s.self_id
        }),
{
    broadcast use {ok_fetch_on_idle, ok_note_stable, ok_wait_timed_out, ok_start_next_view};

    reveal(ReplicaModel::on_idle);
    let served = s.serve_on_idle();
    let asked = if s.status == Status::StateTransfer {
        let (next, under_way) = served.fetch_on_idle();
        if under_way {
            next
        } else {
            next.state_transfer()
        }
    } else {
        served
    };
    let next = ReplicaModel { heard_from_primary: false, ..asked };
    let (waited, timed_out) = ReplicaModel { idle_periods_stable: 0, ..next }.wait_timed_out();
    if !s.heard_from_primary && timed_out {
        next_view_leaves(waited);
    }
}

/// What an idle period makes of a replica that changes views: it waits on, or
/// goes on to the next view.
pub proof fn an_idle_period_of_a_view_change<SM: StateMachine>(s: ReplicaModel<SM>)
    requires
        s.config.is_cluster(),
        s.status == Status::ViewChange,
        s.on_idle().fits,
    ensures
        ({
            let t = s.on_idle();
            let waited = s.idle_periods_waiting + 1;
            let over = waited >= wait(s.config, s.view_change_attempts);
            &&& over ==> leaves_view(s, t)
            &&& !over ==> t.view_number == s.view_number && (t.status != Status::ViewChange
                || t.idle_periods_waiting == waited && t.view_change_attempts
                == s.view_change_attempts)
            &&& t.config == s.config
            &&& t.self_id == s.self_id
        }),
{
    broadcast use {
        ok_fetch_on_idle,
        ok_wait_timed_out,
        ok_start_next_view,
        ok_send_do_view_change,
        frame_commit_up_to,
    };

    reveal(ReplicaModel::on_idle);
    let served = s.serve_on_idle();
    let (waited, timed_out) = served.wait_timed_out();
    if timed_out {
        next_view_leaves(waited);
    }
}

/// Whether the steps from `a` to `b` are idle periods, and nothing else.
pub open spec fn idles<SM: StateMachine>(steps: Seq<Step<SM>>, a: int, b: int) -> bool {
    forall|j: int| a <= j < b ==> #[trigger] steps[j] is Idle
}

/// What an idle period makes of a replica.
proof fn idle_step_is<SM: StateMachine>(s: ReplicaModel<SM>)
    requires
        s.can_step(Step::Idle),
    ensures
        s.on_idle().fits,
        s.stepped(Step::Idle) == s.on_idle(),
{
    reveal(ReplicaModel::can_step);
    reveal(ReplicaModel::stepped);
}

proof fn idle_in_life<SM: StateMachine>(
    id: ReplicaID,
    config: ConfigView,
    start: Start<SM>,
    life: Seq<ReplicaModel<SM>>,
    steps: Seq<Step<SM>>,
    k: int,
)
    requires
        is_life(id, config, start, life, steps),
        0 <= k < steps.len(),
        steps[k] is Idle,
    ensures
        life[k].config.is_cluster(),
        life[k].on_idle().fits,
        life[k + 1] == life[k].on_idle(),
{
    life_keeps(id, config, start, life, steps, k);
    assert(life[k].can_step(steps[k]));
    idle_step_is(life[k]);
}

/// What a backup that stays in its view has waited.
proof fn backup_waits<SM: StateMachine>(
    id: ReplicaID,
    config: ConfigView,
    start: Start<SM>,
    life: Seq<ReplicaModel<SM>>,
    steps: Seq<Step<SM>>,
    a: int,
    b: int,
)
    requires
        is_life(id, config, start, life, steps),
        0 <= a <= b < life.len(),
        follows(life[a]),
        idles(steps, a, b),
    ensures
        life[b].config == life[a].config,
        life[b].view_number > life[a].view_number || {
            &&& follows(life[b])
            &&& life[b].view_number == life[a].view_number
            &&& b > a ==> !life[b].heard_from_primary && life[b].idle_periods_waiting >= b - a - 1
            &&& life[b].view_change_attempts == life[a].view_change_attempts
                || life[b].view_change_attempts == 0
            &&& b > a + 1 ==> life[b].idle_periods_waiting < wait(
                life[a].config,
                life[a].view_change_attempts,
            )
        },
    decreases b - a,
{
    if a < b {
        backup_waits(id, config, start, life, steps, a, b - 1);
        assert(steps[b - 1] is Idle);
        idle_in_life(id, config, start, life, steps, b - 1);
        let (s, t) = (life[b - 1], life[b]);
        if s.view_number > life[a].view_number {
            a_replica_only_goes_forward(
                id,
                config,
                start,
                life,
                steps,
                b - 1,
                b,
            );
            a_replica_only_goes_forward(id, config, start, life, steps, a, b);
        } else {
            an_idle_period_of_a_backup(s);
            wait_is_longer(s.config, life[a].view_change_attempts);
        }
    }
}

/// A primary that is not heard of is given up: a backup that goes through more
/// idle periods than it waits for, one of which may still tell that the
/// primary was heard before, has left the view, and asked the others to.
pub proof fn a_silent_primary_is_given_up<SM: StateMachine>(
    id: ReplicaID,
    config: ConfigView,
    start: Start<SM>,
    life: Seq<ReplicaModel<SM>>,
    steps: Seq<Step<SM>>,
    a: int,
    b: int,
)
    requires
        is_life(id, config, start, life, steps),
        0 <= a <= b < life.len(),
        follows(life[a]),
        idles(steps, a, b),
        b - a > wait(config, life[a].view_change_attempts),
    ensures
        exists|j: int|
            a <= j < b && life[j].view_number == life[a].view_number && leaves_view(
                #[trigger] life[j],
                life[j + 1],
            ),
{
    life_is_configured(id, config, start, life, steps, a);
    wait_is_longer(config, life[a].view_change_attempts);
    backup_waits(id, config, start, life, steps, a, b);
    let k = leaves_at(id, config, start, life, steps, a, b);
    assert(leaves_view(life[k], life[k + 1]));
}

/// Where a backup that has left its view did.
proof fn leaves_at<SM: StateMachine>(
    id: ReplicaID,
    config: ConfigView,
    start: Start<SM>,
    life: Seq<ReplicaModel<SM>>,
    steps: Seq<Step<SM>>,
    a: int,
    b: int,
) -> (at: int)
    requires
        is_life(id, config, start, life, steps),
        0 <= a < b < life.len(),
        follows(life[a]),
        idles(steps, a, b),
        life[b].view_number > life[a].view_number,
    ensures
        a <= at < b,
        life[at].view_number == life[a].view_number,
        leaves_view(life[at], life[at + 1]),
    decreases b - a,
{
    backup_waits(id, config, start, life, steps, a, b - 1);
    if life[b - 1].view_number > life[a].view_number {
        leaves_at(id, config, start, life, steps, a, b - 1)
    } else {
        assert(steps[b - 1] is Idle);
        idle_in_life(id, config, start, life, steps, b - 1);
        an_idle_period_of_a_backup(life[b - 1]);
        b - 1
    }
}

proof fn life_is_configured<SM: StateMachine>(
    id: ReplicaID,
    config: ConfigView,
    start: Start<SM>,
    life: Seq<ReplicaModel<SM>>,
    steps: Seq<Step<SM>>,
    k: int,
)
    requires
        is_life(id, config, start, life, steps),
        0 <= k < life.len(),
    ensures
        life[k].config == config,
{
    a_replica_only_goes_forward(id, config, start, life, steps, 0, k);
    starts_configured(id, config, start);
}

/// A primary that is heard of is kept: a backup that has heard of it since the
/// last idle period stays in the view for as many idle periods as the
/// timeout, however many view changes there were before.
pub proof fn a_primary_that_is_heard_of_is_kept<SM: StateMachine>(
    id: ReplicaID,
    config: ConfigView,
    start: Start<SM>,
    life: Seq<ReplicaModel<SM>>,
    steps: Seq<Step<SM>>,
    a: int,
    b: int,
)
    requires
        is_life(id, config, start, life, steps),
        0 <= a <= b < life.len(),
        follows(life[a]),
        life[a].heard_from_primary,
        idles(steps, a, b),
        b - a <= config.primary_timeout,
    ensures
        life[b].view_number == life[a].view_number,
        follows(life[b]),
        b > a ==> life[b].idle_periods_waiting == b - a - 1,
        b > a ==> !life[b].heard_from_primary,
    decreases b - a,
{
    if a < b {
        a_primary_that_is_heard_of_is_kept(id, config, start, life, steps, a, b - 1);
        assert(steps[b - 1] is Idle);
        idle_in_life(id, config, start, life, steps, b - 1);
        life_is_configured(id, config, start, life, steps, b - 1);
        wait_is_longer(config, life[b - 1].view_change_attempts);
        an_idle_period_of_a_backup(life[b - 1]);
    }
}

/// What a replica that stays in a view change has waited.
proof fn change_waits<SM: StateMachine>(
    id: ReplicaID,
    config: ConfigView,
    start: Start<SM>,
    life: Seq<ReplicaModel<SM>>,
    steps: Seq<Step<SM>>,
    a: int,
    b: int,
)
    requires
        is_life(id, config, start, life, steps),
        0 <= a <= b < life.len(),
        idles(steps, a, b),
        forall|j: int|
            a <= j <= b ==> (#[trigger] life[j]).status == Status::ViewChange
                && life[j].view_number == life[a].view_number,
    ensures
        life[b].idle_periods_waiting >= b - a,
        life[b].view_change_attempts == life[a].view_change_attempts,
        b > a ==> life[b].idle_periods_waiting < wait(config, life[a].view_change_attempts),
    decreases b - a,
{
    if a < b {
        change_waits(id, config, start, life, steps, a, b - 1);
        assert(steps[b - 1] is Idle);
        idle_in_life(id, config, start, life, steps, b - 1);
        life_is_configured(id, config, start, life, steps, b - 1);
        assert(life[b - 1].status == Status::ViewChange);
        assert(life[b].status == Status::ViewChange);
        an_idle_period_of_a_view_change(life[b - 1]);
    }
}

/// A view change that gets nowhere is given up: a replica that goes through as
/// many idle periods as it waits for has left it behind, for the next view or
/// because the view has started.
pub proof fn a_view_change_that_gets_nowhere_is_given_up<SM: StateMachine>(
    id: ReplicaID,
    config: ConfigView,
    start: Start<SM>,
    life: Seq<ReplicaModel<SM>>,
    steps: Seq<Step<SM>>,
    a: int,
    b: int,
)
    requires
        is_life(id, config, start, life, steps),
        0 <= a <= b < life.len(),
        life[a].status == Status::ViewChange,
        idles(steps, a, b),
        b - a >= wait(config, life[a].view_change_attempts),
    ensures
        exists|j: int|
            a <= j <= b && ((#[trigger] life[j]).status != Status::ViewChange
                || life[j].view_number != life[a].view_number),
{
    life_keeps(id, config, start, life, steps, a);
    life_is_configured(id, config, start, life, steps, a);
    wait_is_longer(config, life[a].view_change_attempts);
    if forall|j: int|
        a <= j <= b ==> (#[trigger] life[j]).status == Status::ViewChange && life[j].view_number
            == life[a].view_number {
        change_waits(id, config, start, life, steps, a, b);
    }
}

} // verus!
